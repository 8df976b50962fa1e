//! The filesystem driver: answers lookup, getattr, readdir and read
//! callbacks from cached state, and drives the tree loader when a
//! directory is touched for the first time.
//!
//! Remote fetches are performed outside the engine.  A callback that
//! needs an unloaded directory returns [`Step::Fetch`] with the
//! request to perform; the embedding program fetches and then calls
//! [`FilesystemDriver::complete_load`] or
//! [`FilesystemDriver::fail_load`] before retrying the callback.  A
//! callback that finds the directory already being loaded returns
//! [`Step::Pending`] and joins that fetch instead of starting its own.

use crate::attrs::{
    derive_attributes, derived_attr_spec, root_attr_spec, root_attributes, AttributeRecord,
    NodeKind,
};
use crate::errors::FsError;
use crate::inode::{entry_wf, InodeEntry, InodeTable, FIRST_ALLOCATED_ID, ROOT_ID};
use crate::loader::{begin_transition, FetchRequest, LoadState, TreeLoader};
use crate::remote::{
    kind_is_directory, raw_object_valid, validate_object, validated_body, DirClass, RawObject,
    RemoteObject, ResourceKind,
};
use vstd::prelude::*;

verus! {

/// One row of a directory listing: identifier, kind, name and the
/// stable listing offset assigned within this directory.
#[derive(Debug)]
pub struct DirListingEntry {
    pub id: u64,
    pub kind: NodeKind,
    pub name: String,
    /// Position in the listing: 0 and 1 for `.` and `..`, then the
    /// children in registration order.  Stable across repeated calls
    /// because registration is append-only.
    pub offset: u64,
}

/// The outcome of one callback step.
#[derive(Debug)]
pub enum Step<T> {
    /// The reply is ready.
    Done(T),
    /// The reply is this failure.
    Fail(FsError),
    /// The caller must perform this fetch, hand the outcome to
    /// `complete_load` or `fail_load`, and retry.
    Fetch(FetchRequest),
    /// Another caller's fetch of the same directory is in flight;
    /// retry once it completes.
    Pending,
}

/// The children of `dir` among `entries`, in registration order.
pub open spec fn children_in(entries: Seq<InodeEntry>, dir: u64) -> Seq<InodeEntry>
    decreases entries.len(),
{
    if entries.len() == 0 {
        Seq::<InodeEntry>::empty()
    } else {
        children_in(entries.drop_last(), dir) + (if entries.last().parent == dir {
            seq![entries.last()]
        } else {
            Seq::<InodeEntry>::empty()
        })
    }
}

/// A sequence without children of `dir` contributes no children.
pub proof fn lemma_children_in_empty(entries: Seq<InodeEntry>, dir: u64)
    requires
        forall|i: int| 0 <= i < entries.len() ==> (#[trigger] entries[i]).parent != dir,
    ensures
        children_in(entries, dir) == Seq::<InodeEntry>::empty(),
    decreases entries.len(),
{
    if entries.len() > 0 {
        lemma_children_in_empty(entries.drop_last(), dir);
        assert(children_in(entries, dir) =~= Seq::<InodeEntry>::empty());
    }
}

/// The filesystem driver's whole shared state: the identifier table
/// with its attribute and content cache, and the per-directory load
/// states.
pub struct FilesystemDriver {
    pub table: InodeTable,
    pub loader: TreeLoader,
}

impl FilesystemDriver {
    /// `id` names a directory the driver knows: the root, or a
    /// registered entry of a directory kind.
    pub open spec fn known_dir(self, id: u64) -> bool {
        id == ROOT_ID || (self.table.has_id(id) && kind_is_directory(self.table.entry_of(id).kind))
    }

    /// Which class of directory `id` is; governs the endpoint its
    /// children are fetched from and the kinds they may have.
    pub open spec fn dir_class_of(self, id: u64) -> DirClass {
        if id == ROOT_ID {
            DirClass::Root
        } else if self.table.entry_of(id).kind == ResourceKind::Product {
            DirClass::Product
        } else {
            DirClass::Release
        }
    }

    /// The load state of a directory identifier.
    pub open spec fn state_of_spec(self, id: u64) -> LoadState {
        self.loader.state_spec(id)
    }

    /// The children of `dir`, in listing order.
    pub open spec fn children_of(self, dir: u64) -> Seq<InodeEntry> {
        children_in(self.table.entries@, dir)
    }

    /// Driver invariant: both components are well formed, load states
    /// are tracked only for known directories, and — all-or-nothing —
    /// every registered entry sits under a `Loaded` parent, so a
    /// failed or unfinished load leaves no partial children behind.
    pub open spec fn wf(self) -> bool {
        &&& self.table.wf()
        &&& self.loader.wf()
        &&& (forall|i: int|
            0 <= i < self.loader.states@.len() ==> self.known_dir(
                (#[trigger] self.loader.states@[i]).0,
            ))
        &&& (forall|i: int|
            0 <= i < self.table.entries@.len() ==> self.loader.state_spec(
                (#[trigger] self.table.entries@[i]).parent,
            ) == LoadState::Loaded)
    }

    /// A fresh driver: only the root exists and nothing is loaded.
    pub fn new() -> (d: Self)
        ensures
            d.wf(),
            d.table.entries@.len() == 0,
            d.table.next_id == FIRST_ALLOCATED_ID,
            forall|id: u64| d.state_of_spec(id) == LoadState::Unloaded,
    {
        FilesystemDriver { table: InodeTable::new(), loader: TreeLoader::new() }
    }

    /// Stable root: the root identifier always resolves to the root
    /// directory's attributes, whatever the load state.
    pub proof fn lemma_stable_root(self)
        requires
            self.wf(),
        ensures
            self.known_dir(ROOT_ID),
            root_attr_spec().kind == NodeKind::Directory,
    {
    }

    /// All-or-nothing loading: a directory that is not `Loaded` has no
    /// registered children, so a failed fetch leaves an empty listing
    /// behind and a later access starts over.
    pub proof fn lemma_not_loaded_has_no_children(self, dir: u64)
        requires
            self.wf(),
            self.state_of_spec(dir) != LoadState::Loaded,
        ensures
            self.children_of(dir) == Seq::<InodeEntry>::empty(),
    {
        assert forall|i: int| 0 <= i < self.table.entries@.len() implies (
        #[trigger] self.table.entries@[i]).parent != dir by {
            assert(self.loader.state_spec(self.table.entries@[i].parent) == LoadState::Loaded);
        }
        lemma_children_in_empty(self.table.entries@, dir);
    }

    /// The cached attribute record of an identifier: the fixed root
    /// attributes for the root, the discovery-time record for a known
    /// entry, and `NotFound` otherwise.
    pub fn getattr(&self, id: u64) -> (r: Result<AttributeRecord, FsError>)
        requires
            self.wf(),
        ensures
            id == ROOT_ID ==> r == Ok::<AttributeRecord, FsError>(root_attr_spec()),
            id != ROOT_ID && self.table.has_id(id) ==> r == Ok::<AttributeRecord, FsError>(
                self.table.entry_of(id).attr,
            ),
            id != ROOT_ID && !self.table.has_id(id) ==> r == Err::<AttributeRecord, FsError>(
                FsError::NotFound,
            ),
    {
        if id == ROOT_ID {
            Ok(root_attributes())
        } else {
            match self.table.lookup_by_identifier(id) {
                Some(attr) => Ok(attr),
                None => Err(FsError::NotFound),
            }
        }
    }

    /// The byte range `[offset, offset + size)` of `content`, clipped
    /// to the content's length; empty when `offset` is at or past the
    /// end.
    pub open spec fn read_slice(content: Seq<u8>, offset: u64, size: u64) -> Seq<u8> {
        let len = content.len() as int;
        let start = if offset as int <= len {
            offset as int
        } else {
            len
        };
        let end = if offset as int + size as int <= len {
            offset as int + size as int
        } else {
            len
        };
        if start <= end {
            content.subrange(start, end)
        } else {
            Seq::<u8>::empty()
        }
    }

    /// Reads cached leaf content.  Valid only for leaf identifiers:
    /// directories (the root included) refuse with
    /// `UnsupportedOperation`, unknown identifiers with `NotFound`.
    /// The result is the cached content sliced to `[offset, offset +
    /// size)` and clipped to its length; a read entirely past the end
    /// returns an empty result, not a failure.
    pub fn read(&self, id: u64, offset: u64, size: u64) -> (r: Result<Vec<u8>, FsError>)
        requires
            self.wf(),
        ensures
            id == ROOT_ID ==> r == Err::<Vec<u8>, FsError>(FsError::UnsupportedOperation),
            id != ROOT_ID && !self.table.has_id(id) ==> r == Err::<Vec<u8>, FsError>(
                FsError::NotFound,
            ),
            id != ROOT_ID && self.table.has_id(id) && kind_is_directory(
                self.table.entry_of(id).kind,
            ) ==> r == Err::<Vec<u8>, FsError>(FsError::UnsupportedOperation),
            id != ROOT_ID && self.table.has_id(id) && !kind_is_directory(
                self.table.entry_of(id).kind,
            ) ==> (r matches Ok(data) && data@ == Self::read_slice(
                self.table.entry_of(id).content->0@,
                offset,
                size,
            )),
    {
        if id == ROOT_ID {
            return Err(FsError::UnsupportedOperation);
        }
        let entry = match self.table.entry_by_id(id) {
            Some(e) => e,
            None => {
                return Err(FsError::NotFound);
            },
        };
        if entry.kind.is_directory() {
            return Err(FsError::UnsupportedOperation);
        }
        proof {
            assert(entry_wf(self.table.entry_of(id)));
        }
        match &entry.content {
            Some(content) => {
                let len = content.len();
                let start: usize = if offset <= len as u64 {
                    offset as usize
                } else {
                    len
                };
                let remaining = len - start;
                let take: usize = if size <= remaining as u64 {
                    size as usize
                } else {
                    remaining
                };
                let end = start + take;
                let mut data: Vec<u8> = Vec::new();
                let mut i = start;
                while i < end
                    invariant
                        start <= i <= end,
                        end <= content@.len(),
                        data@ == content@.subrange(start as int, i as int),
                    decreases end - i,
                {
                    data.push(content[i]);
                    proof {
                        assert(data@ =~= content@.subrange(start as int, i + 1));
                    }
                    i = i + 1;
                }
                proof {
                    assert(data@ =~= Self::read_slice(content@, offset, size));
                }
                Ok(data)
            },
            None => {
                // Unreachable under the driver invariant: leaves cache
                // their content at registration.
                Err(FsError::BackendFailure)
            },
        }
    }

    /// The identifier `..` resolves to: the parent directory, or the
    /// root for the root itself.
    pub open spec fn parent_of(self, dir: u64) -> u64 {
        if dir == ROOT_ID {
            ROOT_ID
        } else {
            self.table.entry_of(dir).parent
        }
    }

    /// `req` is the fetch that loads `dir`: the top-level listing for
    /// the root, and the children of the directory's own remote object
    /// otherwise.
    pub open spec fn fetch_matches(self, dir: u64, req: FetchRequest) -> bool {
        if dir == ROOT_ID {
            req == FetchRequest::TopLevel
        } else {
            req matches FetchRequest::ChildrenOf { parent_remote_id, parent_kind }
                && parent_remote_id@ == self.table.entry_of(dir).remote_id@ && parent_kind
                == self.table.entry_of(dir).kind
        }
    }

    /// Resolves which remote listing loads `dir`, from the directory's
    /// position in the hierarchy.
    fn fetch_request_for(&self, dir: u64) -> (req: FetchRequest)
        requires
            self.wf(),
            self.known_dir(dir),
        ensures
            self.fetch_matches(dir, req),
    {
        if dir == ROOT_ID {
            FetchRequest::TopLevel
        } else {
            match self.table.entry_by_id(dir) {
                Some(e) => FetchRequest::ChildrenOf {
                    parent_remote_id: e.remote_id.clone(),
                    parent_kind: e.kind,
                },
                None => {
                    proof {
                        assert(false);
                    }
                    FetchRequest::TopLevel
                },
            }
        }
    }

    /// `listing` is the complete listing of `dir`: `.` and `..` first,
    /// then every registered child in registration order, each row at
    /// its stable offset.
    pub open spec fn listing_matches(self, dir: u64, listing: Seq<DirListingEntry>) -> bool {
        let kids = self.children_of(dir);
        &&& listing.len() == kids.len() + 2
        &&& listing[0].id == dir
        &&& listing[0].kind == NodeKind::Directory
        &&& listing[0].name@ == "."@
        &&& listing[0].offset == 0
        &&& listing[1].id == self.parent_of(dir)
        &&& listing[1].kind == NodeKind::Directory
        &&& listing[1].name@ == ".."@
        &&& listing[1].offset == 1
        &&& (forall|k: int|
            0 <= k < kids.len() ==> (#[trigger] listing[k + 2]).id == kids[k].id && listing[k
                + 2].kind == kids[k].attr.kind && listing[k + 2].name@ == kids[k].name@ && listing[
                k + 2
            ].offset == k + 2)
    }

    /// Builds the listing of a `Loaded` directory from the table.
    fn listing_for(&self, dir: u64) -> (r: Vec<DirListingEntry>)
        requires
            self.wf(),
            self.known_dir(dir),
        ensures
            self.listing_matches(dir, r@),
    {
        let parent = if dir == ROOT_ID {
            ROOT_ID
        } else {
            match self.table.entry_by_id(dir) {
                Some(e) => e.parent,
                None => {
                    proof {
                        assert(false);
                    }
                    ROOT_ID
                },
            }
        };
        let mut out: Vec<DirListingEntry> = Vec::new();
        out.push(
            DirListingEntry {
                id: dir,
                kind: NodeKind::Directory,
                name: String::from_str("."),
                offset: 0,
            },
        );
        out.push(
            DirListingEntry {
                id: parent,
                kind: NodeKind::Directory,
                name: String::from_str(".."),
                offset: 1,
            },
        );
        let n = self.table.entries.len();
        let mut i: usize = 0;
        while i < n
            invariant
                self.wf(),
                n == self.table.entries@.len(),
                i <= n,
                out@.len() == children_in(self.table.entries@.take(i as int), dir).len() + 2,
                out@.len() <= i + 2,
                out@[0].id == dir && out@[0].kind == NodeKind::Directory && out@[0].name@ == "."@
                    && out@[0].offset == 0,
                out@[1].id == parent && out@[1].kind == NodeKind::Directory && out@[1].name@
                    == ".."@ && out@[1].offset == 1,
                forall|k: int|
                    0 <= k < out@.len() - 2 ==> ({
                        let kids = children_in(self.table.entries@.take(i as int), dir);
                        (#[trigger] out@[k + 2]).id == kids[k].id && out@[k + 2].kind
                            == kids[k].attr.kind && out@[k + 2].name@ == kids[k].name@ && out@[k
                            + 2].offset == k + 2
                    }),
            decreases n - i,
        {
            proof {
                lemma_children_in_step(self.table.entries@, dir, i as int);
            }
            let ghost prev = children_in(self.table.entries@.take(i as int), dir);
            let e = &self.table.entries[i];
            if e.parent == dir {
                let off = out.len() as u64;
                out.push(
                    DirListingEntry { id: e.id, kind: e.attr.kind, name: e.name.clone(), offset: off },
                );
                proof {
                    let kids = children_in(self.table.entries@.take(i as int + 1), dir);
                    assert(kids =~= prev + seq![self.table.entries@[i as int]]);
                    assert(kids.len() == prev.len() + 1);
                    assert(kids[prev.len() as int] == self.table.entries@[i as int]);
                    assert(forall|k: int| 0 <= k < prev.len() ==> kids[k] == prev[k]);
                }
            } else {
                proof {
                    assert(children_in(self.table.entries@.take(i as int + 1), dir) =~= prev);
                }
            }
            i = i + 1;
        }
        proof {
            assert(self.table.entries@.take(n as int) =~= self.table.entries@);
        }
        out
    }

    /// Lists a directory: `.` and `..` plus every registered child at
    /// its stable offset.  A leaf refuses with `UnsupportedOperation`
    /// and an unknown identifier with `NotFound`; a directory not yet
    /// `Loaded` transitions as [`begin_transition`] says, so exactly
    /// the first caller to touch an `Unloaded` directory is handed the
    /// fetch and everyone arriving during the load joins it.
    pub fn readdir(&mut self, dir: u64) -> (r: Step<Vec<DirListingEntry>>)
        requires
            old(self).wf(),
        ensures
            final(self).wf(),
            final(self).table == old(self).table,
            dir != ROOT_ID && !old(self).table.has_id(dir) ==> *final(self) == *old(self) && (
            r matches Step::Fail(e) && e == FsError::NotFound),
            dir != ROOT_ID && old(self).table.has_id(dir) && !kind_is_directory(
                old(self).table.entry_of(dir).kind,
            ) ==> *final(self) == *old(self) && (r matches Step::Fail(e) && e
                == FsError::UnsupportedOperation),
            old(self).known_dir(dir) ==> ({
                let s0 = old(self).state_of_spec(dir);
                &&& final(self).state_of_spec(dir) == begin_transition(s0).0
                &&& (forall|x: u64|
                    x != dir ==> final(self).state_of_spec(x) == old(self).state_of_spec(x))
                &&& (r is Fetch <==> begin_transition(s0).1)
                &&& (r matches Step::Fetch(req) ==> old(self).fetch_matches(dir, req))
                &&& (s0 == LoadState::Loading ==> r is Pending)
                &&& (s0 == LoadState::Loaded ==> (r matches Step::Done(listing)
                    && old(self).listing_matches(dir, listing@)))
            }),
    {
        if dir != ROOT_ID {
            match self.table.entry_by_id(dir) {
                None => {
                    return Step::Fail(FsError::NotFound);
                },
                Some(e) => {
                    if !e.kind.is_directory() {
                        return Step::Fail(FsError::UnsupportedOperation);
                    }
                },
            }
        }
        let st = self.loader.state_of(dir);
        match st {
            LoadState::Loaded => {
                let listing = self.listing_for(dir);
                Step::Done(listing)
            },
            LoadState::Loading => Step::Pending,
            LoadState::Unloaded => {
                let req = self.fetch_request_for(dir);
                self.loader.set_state(dir, LoadState::Loading);
                proof {
                    self.lemma_wf_after_state_change(*old(self), dir, LoadState::Loading);
                }
                Step::Fetch(req)
            },
        }
    }

    /// Re-establishes the driver invariant after the load state of a
    /// known directory without registered children was changed, the
    /// table untouched.
    proof fn lemma_wf_after_state_change(self, pre: Self, dir: u64, s: LoadState)
        requires
            pre.wf(),
            self.table == pre.table,
            self.loader.wf(),
            pre.known_dir(dir),
            pre.state_of_spec(dir) != LoadState::Loaded,
            self.state_of_spec(dir) == s,
            forall|x: u64| x != dir ==> self.state_of_spec(x) == pre.state_of_spec(x),
            forall|i: int|
                0 <= i < self.loader.states@.len() ==> (#[trigger] self.loader.states@[i]).0 == dir
                    || (exists|j: int|
                    0 <= j < pre.loader.states@.len()
                        && pre.loader.states@[j] == self.loader.states@[i]),
        ensures
            self.wf(),
    {
        assert forall|i: int| 0 <= i < self.loader.states@.len() implies self.known_dir(
            (#[trigger] self.loader.states@[i]).0,
        ) by {
            if self.loader.states@[i].0 != dir {
                let j = choose|j: int|
                    0 <= j < pre.loader.states@.len() && pre.loader.states@[j]
                        == self.loader.states@[i];
                assert(pre.known_dir(pre.loader.states@[j].0));
            }
        }
        assert forall|i: int| 0 <= i < self.table.entries@.len() implies self.loader.state_spec(
            (#[trigger] self.table.entries@[i]).parent,
        ) == LoadState::Loaded by {
            let p = self.table.entries@[i].parent;
            assert(pre.loader.state_spec(p) == LoadState::Loaded);
            if p == dir {
                assert(false);
            } else {
                assert(self.state_of_spec(p) == pre.state_of_spec(p));
            }
        }
    }

    /// Looks a name up under a parent directory.  A hit answers from
    /// the table whatever the load state; a miss under a directory
    /// that is not yet `Loaded` transitions as [`begin_transition`]
    /// says, and a miss anywhere else is `NotFound`.
    pub fn lookup(&mut self, parent: u64, name: &str) -> (r: Step<(u64, AttributeRecord)>)
        requires
            old(self).wf(),
        ensures
            final(self).wf(),
            final(self).table == old(self).table,
            old(self).table.has_name(parent, name@) ==> *final(self) == *old(self) && (
            r matches Step::Done(hit) && hit.0 == old(self).table.name_id(parent, name@) && hit.1
                == old(self).table.entry_of(old(self).table.name_id(parent, name@)).attr),
            !old(self).table.has_name(parent, name@) && !old(self).known_dir(parent)
                ==> *final(self) == *old(self) && (r matches Step::Fail(e) && e
                == FsError::NotFound),
            !old(self).table.has_name(parent, name@) && old(self).known_dir(parent) ==> ({
                let s0 = old(self).state_of_spec(parent);
                &&& final(self).state_of_spec(parent) == begin_transition(s0).0
                &&& (forall|x: u64|
                    x != parent ==> final(self).state_of_spec(x) == old(self).state_of_spec(x))
                &&& (r is Fetch <==> begin_transition(s0).1)
                &&& (r matches Step::Fetch(req) ==> old(self).fetch_matches(parent, req))
                &&& (s0 == LoadState::Loading ==> r is Pending)
                &&& (s0 == LoadState::Loaded ==> (r matches Step::Fail(e) && e
                    == FsError::NotFound))
            }),
    {
        match self.table.lookup_by_name(parent, name) {
            Some(id) => {
                match self.table.entry_by_id(id) {
                    Some(e) => Step::Done((id, e.attr)),
                    None => {
                        proof {
                            assert(false);
                        }
                        Step::Fail(FsError::NotFound)
                    },
                }
            },
            None => {
                if parent != ROOT_ID {
                    match self.table.entry_by_id(parent) {
                        None => {
                            return Step::Fail(FsError::NotFound);
                        },
                        Some(e) => {
                            if !e.kind.is_directory() {
                                return Step::Fail(FsError::NotFound);
                            }
                        },
                    }
                }
                let st = self.loader.state_of(parent);
                match st {
                    LoadState::Loaded => Step::Fail(FsError::NotFound),
                    LoadState::Loading => Step::Pending,
                    LoadState::Unloaded => {
                        let req = self.fetch_request_for(parent);
                        self.loader.set_state(parent, LoadState::Loading);
                        proof {
                            self.lemma_wf_after_state_change(*old(self), parent, LoadState::Loading);
                        }
                        Step::Fetch(req)
                    },
                }
            },
        }
    }
}

/// The validated object `obj` is what the raw child `raw` turned
/// into: same id, name and kind, and the validated body.
pub open spec fn obj_corresponds(obj: RemoteObject, raw: RawObject) -> bool {
    &&& obj.id@ == raw.id->0@
    &&& obj.name@ == raw.name->0@
    &&& obj.kind == raw.kind->0
    &&& obj.body@ == validated_body(raw)
}

/// The entry a load registered for the raw child `raw` under `dir`
/// with identifier `id`.
pub open spec fn loaded_entry_matches(e: InodeEntry, dir: u64, id: u64, raw: RawObject) -> bool {
    &&& e.parent == dir
    &&& e.id == id
    &&& e.kind == raw.kind->0
    &&& e.remote_id@ == raw.id->0@
    &&& e.name@ == raw.name->0@
    &&& e.attr == derived_attr_spec(raw.kind->0, validated_body(raw).len())
    &&& (kind_is_directory(raw.kind->0) ==> e.content is None)
    &&& (!kind_is_directory(raw.kind->0) ==> (e.content matches Some(c) && c@ == validated_body(
        raw,
    )))
}

/// A verified byte-for-byte copy.
fn clone_bytes(v: &Vec<u8>) -> (r: Vec<u8>)
    ensures
        r@ == v@,
{
    let n = v.len();
    let mut out: Vec<u8> = Vec::new();
    let mut i: usize = 0;
    while i < n
        invariant
            n == v@.len(),
            i <= n,
            out@ == v@.take(i as int),
        decreases n - i,
    {
        out.push(v[i]);
        proof {
            assert(out@ =~= v@.take(i + 1));
        }
        i = i + 1;
    }
    proof {
        assert(v@.take(n as int) =~= v@);
    }
    out
}

impl FilesystemDriver {
    /// A fetched batch is well formed for a `class` directory over
    /// `table`: every child carries its required fields and an
    /// admissible kind, names are unique within the listing, no two
    /// children share a registration key, every key is new to the
    /// table, and the identifier space can seat the batch.  Anything
    /// less is malformed backend data.
    pub open spec fn batch_valid(table: InodeTable, class: DirClass, raws: Seq<RawObject>) -> bool {
        &&& Self::batch_fields_valid(table, class, raws)
        &&& table.next_id + raws.len() <= u64::MAX
    }

    /// [`Self::batch_valid`] without the identifier-space bound.
    pub open spec fn batch_fields_valid(
        table: InodeTable,
        class: DirClass,
        raws: Seq<RawObject>,
    ) -> bool {
        &&& (forall|k: int| 0 <= k < raws.len() ==> raw_object_valid(class, #[trigger] raws[k]))
        &&& (forall|k: int, l: int|
            #![trigger raws[k], raws[l]]
            0 <= k < l < raws.len() ==> raws[k].name->0@ != raws[l].name->0@)
        &&& (forall|k: int, l: int|
            #![trigger raws[k], raws[l]]
            0 <= k < l < raws.len() ==> !(raws[k].kind->0 == raws[l].kind->0 && raws[k].id->0@
                == raws[l].id->0@))
        &&& (forall|k: int|
            0 <= k < raws.len() ==> !table.has_key((#[trigger] raws[k]).kind->0, raws[k].id->0@))
    }

    /// Validates a fetched batch: required fields, admissible kinds,
    /// unique names, unique and fresh registration keys.  Returns the
    /// validated objects exactly when all of that holds.
    fn validate_batch(table: &InodeTable, class: DirClass, children: &Vec<RawObject>) -> (r: Option<
        Vec<RemoteObject>,
    >)
        requires
            table.wf(),
        ensures
            r is Some <==> Self::batch_fields_valid(*table, class, children@),
            r matches Some(objs) ==> objs@.len() == children@.len() && (forall|m: int|
                0 <= m < children@.len() ==> obj_corresponds(#[trigger] objs@[m], children@[m])),
    {
        let n = children.len();
        let mut objs: Vec<RemoteObject> = Vec::new();
        let mut k: usize = 0;
        while k < n
            invariant
                table.wf(),
                n == children@.len(),
                k <= n,
                objs@.len() == k,
                forall|m: int| 0 <= m < k ==> raw_object_valid(class, #[trigger] children@[m]),
                forall|m: int| 0 <= m < k ==> obj_corresponds(#[trigger] objs@[m], children@[m]),
            decreases n - k,
        {
            match validate_object(class, &children[k]) {
                Ok(o) => {
                    objs.push(o);
                },
                Err(_) => {
                    return None;
                },
            }
            k = k + 1;
        }
        let mut i: usize = 0;
        while i < n
            invariant
                n == children@.len(),
                n == objs@.len(),
                i <= n,
                forall|m: int| 0 <= m < n ==> obj_corresponds(#[trigger] objs@[m], children@[m]),
                forall|a: int, b: int|
                    #![trigger children@[a], children@[b]]
                    0 <= a < b < n && a < i ==> children@[a].name->0@ != children@[b].name->0@ && !(
                    children@[a].kind->0 == children@[b].kind->0 && children@[a].id->0@
                        == children@[b].id->0@),
            decreases n - i,
        {
            let mut j: usize = i + 1;
            while j < n
                invariant
                    n == children@.len(),
                    n == objs@.len(),
                    i < j <= n,
                    i < n,
                    forall|m: int|
                        0 <= m < n ==> obj_corresponds(#[trigger] objs@[m], children@[m]),
                    forall|b: int|
                        #![trigger children@[b]]
                        i < b < j ==> children@[i as int].name->0@ != children@[b].name->0@ && !(
                        children@[i as int].kind->0 == children@[b].kind->0 && children@[
                            i as int
                        ].id->0@ == children@[b].id->0@),
                decreases n - j,
            {
                let oi = &objs[i];
                let oj = &objs[j];
                if oi.name == oj.name {
                    return None;
                }
                if oi.kind == oj.kind && oi.id == oj.id {
                    return None;
                }
                j = j + 1;
            }
            i = i + 1;
        }
        let mut k2: usize = 0;
        while k2 < n
            invariant
                table.wf(),
                n == children@.len(),
                n == objs@.len(),
                k2 <= n,
                forall|m: int| 0 <= m < n ==> obj_corresponds(#[trigger] objs@[m], children@[m]),
                forall|m: int|
                    0 <= m < k2 ==> !table.has_key((#[trigger] children@[m]).kind->0, children@[m].id->0@),
            decreases n - k2,
        {
            let o = &objs[k2];
            if table.contains_key(o.kind, o.id.as_str()) {
                return None;
            }
            k2 = k2 + 1;
        }
        Some(objs)
    }

    /// What a successful load leaves behind: the table grown by
    /// exactly one entry per fetched child, in batch order, each under
    /// `dir` with consecutive fresh identifiers, everything older
    /// untouched.
    pub open spec fn load_applied(pre: Self, post: Self, dir: u64, raws: Seq<RawObject>) -> bool {
        &&& post.table.next_id == pre.table.next_id + raws.len()
        &&& post.table.entries@.len() == pre.table.entries@.len() + raws.len()
        &&& post.table.entries@.take(pre.table.entries@.len() as int) == pre.table.entries@
        &&& (forall|m: int|
            0 <= m < raws.len() ==> loaded_entry_matches(
                #[trigger] post.table.entries@[pre.table.entries@.len() + m],
                dir,
                (pre.table.next_id + m) as u64,
                raws[m],
            ))
    }

    /// Registers one validated batch under `dir`, in order, with
    /// consecutive fresh identifiers; the load states are not touched.
    #[verifier::rlimit(60)]
    fn register_batch(
        &mut self,
        dir: u64,
        class: DirClass,
        objs: &Vec<RemoteObject>,
        children: &Vec<RawObject>,
    )
        requires
            old(self).wf(),
            old(self).state_of_spec(dir) == LoadState::Loading,
            old(self).known_dir(dir),
            Self::batch_fields_valid(old(self).table, class, children@),
            old(self).table.next_id + children@.len() <= u64::MAX,
            objs@.len() == children@.len(),
            forall|m: int| 0 <= m < children@.len() ==> obj_corresponds(#[trigger] objs@[m], children@[m]),
        ensures
            final(self).loader == old(self).loader,
            final(self).table.wf(),
            Self::load_applied(*old(self), *final(self), dir, children@),
    {
        let ghost old_len = self.table.entries@.len() as int;
        let ghost old_next = self.table.next_id;
        let n = objs.len();
        let mut k: usize = 0;
        while k < n
            invariant
                old(self).wf(),
                old(self).state_of_spec(dir) == LoadState::Loading,
                old(self).known_dir(dir),
                old_len == old(self).table.entries@.len() as int,
                old_next == old(self).table.next_id,
                self.loader == old(self).loader,
                self.table.wf(),
                n == objs@.len(),
                n == children@.len(),
                k <= n,
                Self::batch_fields_valid(old(self).table, class, children@),
                old(self).table.next_id + n <= u64::MAX,
                forall|m: int| 0 <= m < n ==> obj_corresponds(#[trigger] objs@[m], children@[m]),
                self.table.next_id == old_next + k,
                self.table.entries@.len() == old_len + k,
                self.table.entries@.take(old_len) == old(self).table.entries@,
                forall|m: int|
                    0 <= m < k ==> loaded_entry_matches(
                        #[trigger] self.table.entries@[old_len + m],
                        dir,
                        (old_next + m) as u64,
                        children@[m],
                    ),
            decreases n - k,
        {
            let ghost prev = *self;
            let obj = &objs[k];
            let attr = derive_attributes(obj);
            let content: Option<Vec<u8>> = if obj.kind.is_directory() {
                None
            } else {
                Some(clone_bytes(&obj.body))
            };
            proof {
                assert(obj_corresponds(objs@[k as int], children@[k as int]));
                assert(raw_object_valid(class, children@[k as int]));
                if self.table.has_key(obj.kind, obj.id@) {
                    let idx = self.table.key_index(obj.kind, obj.id@);
                    assert(InodeTable::entry_has_key(self.table.entries@[idx], obj.kind, obj.id@));
                    if idx < old_len {
                        assert(self.table.entries@.take(old_len)[idx] == self.table.entries@[idx]);
                        assert(InodeTable::entry_has_key(
                            old(self).table.entries@[idx],
                            children@[k as int].kind->0,
                            children@[k as int].id->0@,
                        ));
                        assert(old(self).table.has_key(
                            children@[k as int].kind->0,
                            children@[k as int].id->0@,
                        ));
                        assert(false);
                    } else {
                        let m2 = idx - old_len;
                        assert(loaded_entry_matches(
                            self.table.entries@[old_len + m2],
                            dir,
                            (old_next + m2) as u64,
                            children@[m2],
                        ));
                        assert(children@[m2].kind->0 == children@[k as int].kind->0
                            && children@[m2].id->0@ == children@[k as int].id->0@);
                        assert(false);
                    }
                }
                if self.table.has_name(dir, obj.name@) {
                    let idx = self.table.name_index(dir, obj.name@);
                    assert(self.table.entries@[idx].parent == dir && self.table.entries@[idx].name@
                        == obj.name@);
                    if idx < old_len {
                        assert(self.table.entries@.take(old_len)[idx] == self.table.entries@[idx]);
                        assert(old(self).table.entries@[idx].parent == dir);
                        assert(old(self).loader.state_spec(dir) == LoadState::Loaded);
                        assert(false);
                    } else {
                        let m2 = idx - old_len;
                        assert(loaded_entry_matches(
                            self.table.entries@[old_len + m2],
                            dir,
                            (old_next + m2) as u64,
                            children@[m2],
                        ));
                        assert(children@[m2].name->0@ == children@[k as int].name->0@);
                        assert(false);
                    }
                }
            }
            let id = self.table.allocate_or_get(
                dir,
                obj.name.as_str(),
                obj.id.as_str(),
                obj.kind,
                attr,
                content,
            );
            proof {
                assert(self.table.entries@.len() == old_len + k + 1);
                assert(self.table.entries@.take(old_len + k) == prev.table.entries@);
                assert(self.table.entries@.take(old_len) =~= prev.table.entries@.take(old_len));
                assert forall|m: int| 0 <= m < k + 1 implies loaded_entry_matches(
                    #[trigger] self.table.entries@[old_len + m],
                    dir,
                    (old_next + m) as u64,
                    children@[m],
                ) by {
                    if m < k {
                        assert(self.table.entries@.take(old_len + k)[old_len + m]
                            == self.table.entries@[old_len + m]);
                        assert(self.table.entries@[old_len + m] == prev.table.entries@[old_len
                            + m]);
                    } else {
                        assert(self.table.entries@[old_len + k] == self.table.entries@.last());
                    }
                }
            }
            k = k + 1;
        }
    }

    /// Completes the load of a `Loading` directory with the fetched
    /// children.  The load is all-or-nothing: a well-formed batch is
    /// registered whole and the directory becomes `Loaded`; a
    /// malformed one registers nothing, reverts the directory to
    /// `Unloaded` so a later access retries, and reports
    /// `BackendFailure`.  Handing in a batch for a directory that is
    /// not `Loading` changes nothing and fails the same way.
    pub fn complete_load(&mut self, dir: u64, children: &Vec<RawObject>) -> (r: Result<
        (),
        FsError,
    >)
        requires
            old(self).wf(),
        ensures
            final(self).wf(),
            old(self).state_of_spec(dir) != LoadState::Loading ==> *final(self) == *old(self) && r
                == Err::<(), FsError>(FsError::BackendFailure),
            old(self).state_of_spec(dir) == LoadState::Loading ==> ({
                let valid = Self::batch_valid(
                    old(self).table,
                    old(self).dir_class_of(dir),
                    children@,
                );
                &&& (forall|x: u64|
                    x != dir ==> final(self).state_of_spec(x) == old(self).state_of_spec(x))
                &&& (!valid ==> ({
                    &&& r == Err::<(), FsError>(FsError::BackendFailure)
                    &&& final(self).table == old(self).table
                    &&& final(self).state_of_spec(dir) == LoadState::Unloaded
                }))
                &&& (valid ==> ({
                    &&& r == Ok::<(), FsError>(())
                    &&& final(self).state_of_spec(dir) == LoadState::Loaded
                    &&& Self::load_applied(*old(self), *final(self), dir, children@)
                }))
            }),
    {
        let st = self.loader.state_of(dir);
        match st {
            LoadState::Loading => {},
            _ => {
                return Err(FsError::BackendFailure);
            },
        }
        proof {
            assert(self.loader.has_state(dir));
            let idx = self.loader.state_index(dir);
            assert(self.loader.states@[idx].0 == dir);
            assert(self.known_dir(dir));
        }
        let class = if dir == ROOT_ID {
            DirClass::Root
        } else {
            match self.table.entry_by_id(dir) {
                Some(e) => match e.kind.dir_class() {
                    Some(c) => c,
                    None => {
                        proof {
                            assert(false);
                        }
                        DirClass::Root
                    },
                },
                None => {
                    proof {
                        assert(false);
                    }
                    DirClass::Root
                },
            }
        };
        proof {
            assert(class == self.dir_class_of(dir));
        }
        let objs = match Self::validate_batch(&self.table, class, children) {
            Some(o) => o,
            None => {
                self.loader.set_state(dir, LoadState::Unloaded);
                proof {
                    self.lemma_wf_after_state_change(*old(self), dir, LoadState::Unloaded);
                }
                return Err(FsError::BackendFailure);
            },
        };
        let count = objs.len();
        if count as u64 > u64::MAX - self.table.next_id {
            self.loader.set_state(dir, LoadState::Unloaded);
            proof {
                self.lemma_wf_after_state_change(*old(self), dir, LoadState::Unloaded);
            }
            return Err(FsError::BackendFailure);
        }
        let ghost old_len = self.table.entries@.len() as int;
        let ghost old_next = self.table.next_id;
        self.register_batch(dir, class, &objs, children);
        self.loader.set_state(dir, LoadState::Loaded);
        proof {
            self.lemma_wf_after_complete(*old(self), dir, children@);
        }
        Ok(())
    }

    /// Re-establishes the driver invariant once a load has been
    /// applied and the directory marked `Loaded`.
    #[verifier::rlimit(100)]
    proof fn lemma_wf_after_complete(self, pre: Self, dir: u64, raws: Seq<RawObject>)
        requires
            pre.wf(),
            pre.state_of_spec(dir) == LoadState::Loading,
            pre.known_dir(dir),
            self.table.wf(),
            self.loader.wf(),
            Self::load_applied(pre, self, dir, raws),
            self.state_of_spec(dir) == LoadState::Loaded,
            forall|x: u64| x != dir ==> self.state_of_spec(x) == pre.state_of_spec(x),
            forall|i: int|
                0 <= i < self.loader.states@.len() ==> (#[trigger] self.loader.states@[i]).0 == dir
                    || (exists|j: int|
                    0 <= j < pre.loader.states@.len()
                        && pre.loader.states@[j] == self.loader.states@[i]),
        ensures
            self.wf(),
    {
        let old_len = pre.table.entries@.len() as int;
        let old_next = pre.table.next_id;
        InodeTable::lemma_extension_preserves(pre.table, self.table);
        assert forall|i: int| 0 <= i < self.loader.states@.len() implies self.known_dir(
            (#[trigger] self.loader.states@[i]).0,
        ) by {
            if self.loader.states@[i].0 != dir {
                let j = choose|j: int|
                    0 <= j < pre.loader.states@.len() && pre.loader.states@[j]
                        == self.loader.states@[i];
                assert(pre.known_dir(pre.loader.states@[j].0));
            }
        }
        assert forall|i: int| 0 <= i < self.table.entries@.len() implies self.loader.state_spec(
            (#[trigger] self.table.entries@[i]).parent,
        ) == LoadState::Loaded by {
            let p = self.table.entries@[i].parent;
            if i < old_len {
                assert(self.table.entries@.take(old_len)[i] == self.table.entries@[i]);
                assert(pre.table.entries@[i] == self.table.entries@[i]);
                assert(pre.loader.state_spec(p) == LoadState::Loaded);
                if p == dir {
                    assert(false);
                } else {
                    assert(self.state_of_spec(p) == pre.state_of_spec(p));
                }
            } else {
                let m2 = i - old_len;
                assert(loaded_entry_matches(
                    self.table.entries@[old_len + m2],
                    dir,
                    (old_next + m2) as u64,
                    raws[m2],
                ));
                assert(p == dir);
            }
        }
    }

    /// Records that the in-flight fetch of a `Loading` directory
    /// failed: the directory reverts to `Unloaded` — with, by
    /// [`Self::lemma_not_loaded_has_no_children`], no partial children
    /// behind it — so the next access retries.  Any other state is
    /// left alone.
    pub fn fail_load(&mut self, dir: u64)
        requires
            old(self).wf(),
        ensures
            final(self).wf(),
            final(self).table == old(self).table,
            forall|x: u64| x != dir ==> final(self).state_of_spec(x) == old(self).state_of_spec(x),
            old(self).state_of_spec(dir) == LoadState::Loading ==> final(self).state_of_spec(dir)
                == LoadState::Unloaded,
            old(self).state_of_spec(dir) != LoadState::Loading ==> *final(self) == *old(self),
    {
        let st = self.loader.state_of(dir);
        match st {
            LoadState::Loading => {
                self.loader.set_state(dir, LoadState::Unloaded);
                proof {
                    self.lemma_wf_after_state_change(*old(self), dir, LoadState::Unloaded);
                }
            },
            _ => {},
        }
    }
}

/// Listing one more entry appends exactly that entry's contribution to
/// the children of `dir`.
pub proof fn lemma_children_in_step(entries: Seq<InodeEntry>, dir: u64, i: int)
    requires
        0 <= i < entries.len(),
    ensures
        children_in(entries.take(i + 1), dir) == children_in(entries.take(i), dir) + (if entries[i].parent
            == dir {
            seq![entries[i]]
        } else {
            Seq::<InodeEntry>::empty()
        }),
{
    assert(entries.take(i + 1).drop_last() =~= entries.take(i));
    assert(entries.take(i + 1).last() == entries[i]);
    assert(entries.take(i + 1).len() == i + 1);
    if entries[i].parent == dir {
        assert(children_in(entries.take(i + 1), dir) =~= children_in(entries.take(i), dir) + seq![
            entries[i],
        ]);
    } else {
        assert(children_in(entries.take(i + 1), dir) =~= children_in(entries.take(i), dir)
            + Seq::<InodeEntry>::empty());
    }
}

} // verus!

