//! A lazy projection of a remote product-management hierarchy
//! (products, releases, features, epics) onto a read-only POSIX-like
//! namespace.
//!
//! The engine synthesizes stable numeric identifiers for remote objects,
//! caches attributes and leaf content at discovery time, and tracks a
//! per-directory load state so that each directory is fetched from the
//! backend at most once per successful load.  Remote fetches themselves
//! are performed by the embedding program: the driver hands out a
//! [`loader::FetchRequest`] and is later given the fetched children (or
//! told that the fetch failed).

pub mod attrs;
pub mod driver;
pub mod errors;
pub mod inode;
pub mod loader;
pub mod path_uri;
pub mod remote;
