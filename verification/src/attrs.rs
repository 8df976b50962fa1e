//! Derivation of the POSIX-style attribute records the engine caches
//! per identifier: kind, size, fixed permission bits and fixed
//! timestamps, all set at discovery time and not refreshed between
//! loads.

use crate::remote::{kind_is_directory, RemoteObject, ResourceKind};
use vstd::prelude::*;

verus! {

/// How an entry presents to the kernel: directory or regular file.
#[derive(Clone, Copy, Debug, PartialEq, Eq, Structural)]
pub enum NodeKind {
    Directory,
    RegularFile,
}

/// Fixed timestamp, in seconds, stamped on every discovered entry.
pub const DEFAULT_TIME_SEC: i64 = 1426147200;

/// Nanosecond part of the fixed timestamp.
pub const DEFAULT_TIME_NSEC: i32 = 0;

/// Permission bits of the namespace root.
pub const ROOT_DIR_PERM: u16 = 0o755;

/// Permission bits of a discovered directory.
pub const DIR_PERM: u16 = 0o750;

/// Permission bits of a leaf file.
pub const FILE_PERM: u16 = 0o640;

/// POSIX-style attributes cached for one identifier.
#[derive(Clone, Copy, Debug, PartialEq, Eq, Structural)]
pub struct AttributeRecord {
    pub kind: NodeKind,
    /// Byte size: 0 for directories, the description body's byte
    /// length for leaf files.
    pub size: u64,
    pub perm: u16,
    pub atime: i64,
    pub mtime: i64,
    pub ctime: i64,
    pub crtime: i64,
}

/// The attribute record of the namespace root, constant for the
/// process lifetime.
pub open spec fn root_attr_spec() -> AttributeRecord {
    AttributeRecord {
        kind: NodeKind::Directory,
        size: 0,
        perm: ROOT_DIR_PERM,
        atime: DEFAULT_TIME_SEC,
        mtime: DEFAULT_TIME_SEC,
        ctime: DEFAULT_TIME_SEC,
        crtime: DEFAULT_TIME_SEC,
    }
}

/// The attribute record derived for a discovered object: directories
/// get size 0 and directory permissions, leaves get the body's byte
/// length and file permissions.
pub open spec fn derived_attr_spec(kind: ResourceKind, body_len: nat) -> AttributeRecord {
    if kind_is_directory(kind) {
        AttributeRecord {
            kind: NodeKind::Directory,
            size: 0,
            perm: DIR_PERM,
            atime: DEFAULT_TIME_SEC,
            mtime: DEFAULT_TIME_SEC,
            ctime: DEFAULT_TIME_SEC,
            crtime: DEFAULT_TIME_SEC,
        }
    } else {
        AttributeRecord {
            kind: NodeKind::RegularFile,
            size: body_len as u64,
            perm: FILE_PERM,
            atime: DEFAULT_TIME_SEC,
            mtime: DEFAULT_TIME_SEC,
            ctime: DEFAULT_TIME_SEC,
            crtime: DEFAULT_TIME_SEC,
        }
    }
}

/// Executable form of [`root_attr_spec`].
pub fn root_attributes() -> (r: AttributeRecord)
    ensures
        r == root_attr_spec(),
{
    AttributeRecord {
        kind: NodeKind::Directory,
        size: 0,
        perm: ROOT_DIR_PERM,
        atime: DEFAULT_TIME_SEC,
        mtime: DEFAULT_TIME_SEC,
        ctime: DEFAULT_TIME_SEC,
        crtime: DEFAULT_TIME_SEC,
    }
}

/// Derives the cached attributes of a validated remote object, as
/// [`derived_attr_spec`] states them.
pub fn derive_attributes(obj: &RemoteObject) -> (r: AttributeRecord)
    ensures
        r == derived_attr_spec(obj.kind, obj.body@.len()),
{
    if obj.kind.is_directory() {
        AttributeRecord {
            kind: NodeKind::Directory,
            size: 0,
            perm: DIR_PERM,
            atime: DEFAULT_TIME_SEC,
            mtime: DEFAULT_TIME_SEC,
            ctime: DEFAULT_TIME_SEC,
            crtime: DEFAULT_TIME_SEC,
        }
    } else {
        AttributeRecord {
            kind: NodeKind::RegularFile,
            size: obj.body.len() as u64,
            perm: FILE_PERM,
            atime: DEFAULT_TIME_SEC,
            mtime: DEFAULT_TIME_SEC,
            ctime: DEFAULT_TIME_SEC,
            crtime: DEFAULT_TIME_SEC,
        }
    }
}

} // verus!
