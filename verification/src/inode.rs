//! Allocation and lookup of stable numeric identifiers for discovered
//! remote objects, together with the per-identifier attribute and
//! content cache.
//!
//! Registration is keyed by `(kind, remote id)`: remote ids are unique
//! within one kind only, so an identifier is never derived from the
//! remote id alone.  Once assigned, an identifier is stable for the
//! process lifetime.

use crate::attrs::{derived_attr_spec, AttributeRecord};
use crate::remote::{kind_is_directory, ResourceKind};
use vstd::prelude::*;

verus! {

/// The identifier reserved for the namespace root.
pub const ROOT_ID: u64 = 1;

/// The first identifier handed to a discovered object; everything
/// below it is reserved.
pub const FIRST_ALLOCATED_ID: u64 = 2;

/// One discovered namespace entry with its cached attribute record
/// and, for leaves, its cached content.
#[derive(Debug)]
pub struct InodeEntry {
    /// Engine-internal identifier, stable for the process lifetime.
    pub id: u64,
    /// Identifier of the directory this object was listed in.
    pub parent: u64,
    /// Entry name within the parent's listing.
    pub name: String,
    pub kind: ResourceKind,
    /// Remote-assigned id, unique within `kind` only.
    pub remote_id: String,
    /// Attributes derived at discovery and never refreshed.
    pub attr: AttributeRecord,
    /// Cached leaf content; directories cache none.
    pub content: Option<Vec<u8>>,
}

/// A well-formed entry: the attribute record is derived from the kind
/// and the cached content, and content is cached exactly for leaves.
pub open spec fn entry_wf(e: InodeEntry) -> bool {
    if kind_is_directory(e.kind) {
        e.content is None && e.attr == derived_attr_spec(e.kind, 0)
    } else {
        e.content matches Some(c) && e.attr == derived_attr_spec(e.kind, c@.len())
    }
}

/// The identifier table: key map, name index and attribute cache in
/// one append-only entry vector.
pub struct InodeTable {
    pub entries: Vec<InodeEntry>,
    /// The next identifier to hand out.
    pub next_id: u64,
}

impl InodeTable {
    /// `e` is registered under the key `(kind, rid)`.
    pub open spec fn entry_has_key(e: InodeEntry, kind: ResourceKind, rid: Seq<char>) -> bool {
        e.kind == kind && e.remote_id@ == rid
    }

    /// Some entry is registered under `(kind, rid)`.
    pub open spec fn has_key(self, kind: ResourceKind, rid: Seq<char>) -> bool {
        exists|i: int|
            0 <= i < self.entries@.len() && Self::entry_has_key(
                #[trigger] self.entries@[i],
                kind,
                rid,
            )
    }

    /// Index of the entry registered under `(kind, rid)`.
    pub open spec fn key_index(self, kind: ResourceKind, rid: Seq<char>) -> int {
        choose|i: int|
            0 <= i < self.entries@.len() && Self::entry_has_key(
                #[trigger] self.entries@[i],
                kind,
                rid,
            )
    }

    /// The identifier previously assigned to `(kind, rid)`.
    pub open spec fn key_id(self, kind: ResourceKind, rid: Seq<char>) -> u64 {
        self.entries@[self.key_index(kind, rid)].id
    }

    /// Some entry carries the identifier `id`.
    pub open spec fn has_id(self, id: u64) -> bool {
        exists|i: int| 0 <= i < self.entries@.len() && (#[trigger] self.entries@[i]).id == id
    }

    /// Index of the entry carrying `id`.
    pub open spec fn id_index(self, id: u64) -> int {
        choose|i: int| 0 <= i < self.entries@.len() && (#[trigger] self.entries@[i]).id == id
    }

    /// The entry carrying `id`.
    pub open spec fn entry_of(self, id: u64) -> InodeEntry {
        self.entries@[self.id_index(id)]
    }

    /// Some entry is listed under `parent` with this name.
    pub open spec fn has_name(self, parent: u64, name: Seq<char>) -> bool {
        exists|i: int|
            0 <= i < self.entries@.len() && (#[trigger] self.entries@[i]).parent == parent
                && self.entries@[i].name@ == name
    }

    /// Index of the entry listed under `parent` with this name.
    pub open spec fn name_index(self, parent: u64, name: Seq<char>) -> int {
        choose|i: int|
            0 <= i < self.entries@.len() && (#[trigger] self.entries@[i]).parent == parent
                && self.entries@[i].name@ == name
    }

    /// The identifier of the entry listed under `parent` with this
    /// name.
    pub open spec fn name_id(self, parent: u64, name: Seq<char>) -> u64 {
        self.entries@[self.name_index(parent, name)].id
    }

    /// Table invariant: identifiers lie in `[FIRST_ALLOCATED_ID,
    /// next_id)` and are pairwise distinct, registration keys are
    /// pairwise distinct, names are unique within one parent, and
    /// every entry is well formed.
    pub open spec fn wf(self) -> bool {
        &&& FIRST_ALLOCATED_ID <= self.next_id
        &&& (forall|i: int|
            0 <= i < self.entries@.len() ==> FIRST_ALLOCATED_ID <= (
            #[trigger] self.entries@[i]).id < self.next_id)
        &&& (forall|i: int| 0 <= i < self.entries@.len() ==> entry_wf(#[trigger] self.entries@[i]))
        &&& (forall|i: int, j: int|
            #![trigger self.entries@[i], self.entries@[j]]
            0 <= i < j < self.entries@.len() ==> self.entries@[i].id != self.entries@[j].id)
        &&& (forall|i: int, j: int|
            #![trigger self.entries@[i], self.entries@[j]]
            0 <= i < j < self.entries@.len() ==> !(self.entries@[i].kind == self.entries@[j].kind
                && self.entries@[i].remote_id@ == self.entries@[j].remote_id@))
        &&& (forall|i: int, j: int|
            #![trigger self.entries@[i], self.entries@[j]]
            0 <= i < j < self.entries@.len() ==> !(self.entries@[i].parent
                == self.entries@[j].parent && self.entries@[i].name@ == self.entries@[j].name@))
    }

    /// Two indexes holding the same identifier are the same index.
    pub proof fn lemma_id_index_unique(self, i: int, j: int)
        requires
            self.wf(),
            0 <= i < self.entries@.len(),
            0 <= j < self.entries@.len(),
            self.entries@[i].id == self.entries@[j].id,
        ensures
            i == j,
    {
    }

    /// Appending entries preserves every identifier the table already
    /// knew, and the entry it maps to.
    pub proof fn lemma_extension_preserves(pre: InodeTable, post: InodeTable)
        requires
            pre.wf(),
            post.wf(),
            pre.entries@.len() <= post.entries@.len(),
            post.entries@.take(pre.entries@.len() as int) == pre.entries@,
        ensures
            forall|id: u64|
                pre.has_id(id) ==> post.has_id(id) && post.entry_of(id) == pre.entry_of(id),
    {
        assert forall|id: u64| pre.has_id(id) implies post.has_id(id) && post.entry_of(id)
            == pre.entry_of(id) by {
            let i = pre.id_index(id);
            assert(pre.entries@[i].id == id);
            assert(post.entries@.take(pre.entries@.len() as int)[i] == post.entries@[i]);
            assert(post.entries@[i].id == id);
            assert(post.has_id(id));
            let j = post.id_index(id);
            assert(post.entries@[j].id == id);
            post.lemma_id_index_unique(j, i);
        }
    }

    /// Whether `(kind, remote_id)` was registered before.
    pub fn contains_key(&self, kind: ResourceKind, remote_id: &str) -> (r: bool)
        requires
            self.wf(),
        ensures
            r == self.has_key(kind, remote_id@),
    {
        let key = String::from_str(remote_id);
        let n = self.entries.len();
        let mut i: usize = 0;
        while i < n
            invariant
                self.wf(),
                n == self.entries@.len(),
                i <= n,
                key@ == remote_id@,
                forall|j: int|
                    0 <= j < i ==> !Self::entry_has_key(
                        #[trigger] self.entries@[j],
                        kind,
                        remote_id@,
                    ),
            decreases n - i,
        {
            let e = &self.entries[i];
            if e.kind == kind && e.remote_id == key {
                proof {
                    assert(Self::entry_has_key(self.entries@[i as int], kind, remote_id@));
                }
                return true;
            }
            i = i + 1;
        }
        false
    }

    /// An empty table, about to hand out the first identifier.
    pub fn new() -> (t: Self)
        ensures
            t.wf(),
            t.entries@.len() == 0,
            t.next_id == FIRST_ALLOCATED_ID,
    {
        InodeTable { entries: Vec::new(), next_id: FIRST_ALLOCATED_ID }
    }

    /// Looks a child up by name within one parent's listing.
    pub fn lookup_by_name(&self, parent: u64, name: &str) -> (r: Option<u64>)
        requires
            self.wf(),
        ensures
            r is Some <==> self.has_name(parent, name@),
            r matches Some(id) ==> id == self.name_id(parent, name@) && self.has_id(id)
                && self.entry_of(id).parent == parent && self.entry_of(id).name@ == name@,
    {
        let key = String::from_str(name);
        let n = self.entries.len();
        let mut i: usize = 0;
        while i < n
            invariant
                self.wf(),
                n == self.entries@.len(),
                i <= n,
                key@ == name@,
                forall|j: int|
                    0 <= j < i ==> !((#[trigger] self.entries@[j]).parent == parent
                        && self.entries@[j].name@ == name@),
            decreases n - i,
        {
            let e = &self.entries[i];
            if e.parent == parent && e.name == key {
                let id = e.id;
                proof {
                    assert(self.has_name(parent, name@));
                    let k = self.name_index(parent, name@);
                    assert(self.entries@[k].parent == parent && self.entries@[k].name@ == name@);
                    assert(k == i as int);
                    assert(self.has_id(id));
                    let m = self.id_index(id);
                    self.lemma_id_index_unique(m, i as int);
                }
                return Some(id);
            }
            i = i + 1;
        }
        None
    }

    /// The entry carrying an identifier, if any does.
    pub fn entry_by_id(&self, id: u64) -> (r: Option<&InodeEntry>)
        requires
            self.wf(),
        ensures
            r is Some <==> self.has_id(id),
            r matches Some(e) ==> *e == self.entry_of(id),
    {
        let n = self.entries.len();
        let mut i: usize = 0;
        while i < n
            invariant
                self.wf(),
                n == self.entries@.len(),
                i <= n,
                forall|j: int| 0 <= j < i ==> (#[trigger] self.entries@[j]).id != id,
            decreases n - i,
        {
            let e = &self.entries[i];
            if e.id == id {
                proof {
                    assert(self.has_id(id));
                    let m = self.id_index(id);
                    self.lemma_id_index_unique(m, i as int);
                }
                return Some(e);
            }
            i = i + 1;
        }
        None
    }

    /// The cached attribute record of an identifier, if it is known.
    pub fn lookup_by_identifier(&self, id: u64) -> (r: Option<AttributeRecord>)
        requires
            self.wf(),
        ensures
            r is Some <==> self.has_id(id),
            r matches Some(a) ==> a == self.entry_of(id).attr,
    {
        match self.entry_by_id(id) {
            Some(e) => Some(e.attr),
            None => None,
        }
    }

    /// Registers a discovered object, idempotently.  If `(kind,
    /// remote_id)` was seen before, the previously assigned identifier
    /// is returned and nothing changes; otherwise the next identifier
    /// is assigned and the entry recorded under `parent`.
    pub fn allocate_or_get(
        &mut self,
        parent: u64,
        name: &str,
        remote_id: &str,
        kind: ResourceKind,
        attr: AttributeRecord,
        content: Option<Vec<u8>>,
    ) -> (id: u64)
        requires
            old(self).wf(),
            old(self).next_id < u64::MAX,
            !old(self).has_key(kind, remote_id@) ==> !old(self).has_name(parent, name@),
            !old(self).has_key(kind, remote_id@) ==> (if kind_is_directory(kind) {
                content is None && attr == derived_attr_spec(kind, 0)
            } else {
                content matches Some(c) && attr == derived_attr_spec(kind, c@.len())
            }),
        ensures
            final(self).wf(),
            final(self).has_key(kind, remote_id@),
            id == final(self).key_id(kind, remote_id@),
            final(self).has_id(id),
            final(self).entry_of(id).kind == kind,
            final(self).entry_of(id).remote_id@ == remote_id@,
            old(self).has_key(kind, remote_id@) ==> id == old(self).key_id(kind, remote_id@)
                && *final(self) == *old(self),
            !old(self).has_key(kind, remote_id@) ==> ({
                &&& id == old(self).next_id
                &&& final(self).next_id == old(self).next_id + 1
                &&& final(self).entries@.len() == old(self).entries@.len() + 1
                &&& final(self).entries@.take(old(self).entries@.len() as int) == old(
                    self,
                ).entries@
                &&& final(self).entries@.last().id == id
                &&& final(self).entries@.last().parent == parent
                &&& final(self).entries@.last().name@ == name@
                &&& final(self).entries@.last().kind == kind
                &&& final(self).entries@.last().remote_id@ == remote_id@
                &&& final(self).entries@.last().attr == attr
                &&& final(self).entries@.last().content == content
            }),
    {
        let key = String::from_str(remote_id);
        let n = self.entries.len();
        let mut i: usize = 0;
        while i < n
            invariant
                self.wf(),
                *self == *old(self),
                n == self.entries@.len(),
                i <= n,
                key@ == remote_id@,
                forall|j: int|
                    0 <= j < i ==> !Self::entry_has_key(
                        #[trigger] self.entries@[j],
                        kind,
                        remote_id@,
                    ),
            decreases n - i,
        {
            let e = &self.entries[i];
            if e.kind == kind && e.remote_id == key {
                let id = e.id;
                proof {
                    assert(Self::entry_has_key(self.entries@[i as int], kind, remote_id@));
                    assert(self.has_key(kind, remote_id@));
                    let k = self.key_index(kind, remote_id@);
                    assert(Self::entry_has_key(self.entries@[k], kind, remote_id@));
                    assert(k == i as int);
                    assert(self.has_id(id));
                    let m = self.id_index(id);
                    self.lemma_id_index_unique(m, i as int);
                }
                return id;
            }
            i = i + 1;
        }
        let id = self.next_id;
        let entry = InodeEntry {
            id,
            parent,
            name: String::from_str(name),
            kind,
            remote_id: key,
            attr,
            content,
        };
        self.entries.push(entry);
        self.next_id = self.next_id + 1;
        proof {
            let ghost new_len = self.entries@.len() as int;
            let ghost old_len = old(self).entries@.len() as int;
            assert(self.entries@.take(old_len) =~= old(self).entries@);
            assert(Self::entry_has_key(self.entries@[new_len - 1], kind, remote_id@));
            assert(self.has_key(kind, remote_id@));
            let k = self.key_index(kind, remote_id@);
            assert(Self::entry_has_key(self.entries@[k], kind, remote_id@));
            assert(k == new_len - 1);
            assert(self.has_id(id));
            let m = self.id_index(id);
            assert(self.entries@[m].id == id);
            assert(m == new_len - 1);
        }
        id
    }
}

} // verus!
