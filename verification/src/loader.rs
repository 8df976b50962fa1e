//! Per-directory load state: `Unloaded -> Loading -> Loaded`, with
//! `Loading -> Unloaded` on failure.
//!
//! A directory is fetched at most once per successful load: only the
//! `Unloaded -> Loading` transition starts a fetch, and callers that
//! find a directory already `Loading` join the in-flight fetch instead
//! of starting a second one.

use crate::remote::ResourceKind;
use vstd::prelude::*;

verus! {

/// Load state of one directory identifier.
#[derive(Clone, Copy, Debug, PartialEq, Eq, Structural)]
pub enum LoadState {
    Unloaded,
    Loading,
    Loaded,
}

/// The remote listing the embedding program is asked to fetch on
/// behalf of a `Loading` directory.
#[derive(Debug)]
pub enum FetchRequest {
    /// The top-level products.
    TopLevel,
    /// The children of the remote object with this id: the releases of
    /// a product, or the features and epics of a release.
    ChildrenOf { parent_remote_id: String, parent_kind: ResourceKind },
}

/// What one callback does to a directory's load state when it needs
/// the directory loaded, and whether it starts a fetch: `Unloaded`
/// turns `Loading` and starts one; `Loading` and `Loaded` stay as they
/// are and start none.
pub open spec fn begin_transition(s: LoadState) -> (LoadState, bool) {
    match s {
        LoadState::Unloaded => (LoadState::Loading, true),
        LoadState::Loading => (LoadState::Loading, false),
        LoadState::Loaded => (LoadState::Loaded, false),
    }
}

/// At most one fetch per load: once a transition has started a fetch,
/// every further transition before completion or failure starts no
/// second fetch and leaves the state as it is.  However many
/// concurrent callers touch the same `Unloaded` directory, the first
/// transition serialized against the shared state fetches and all
/// later ones join it.
pub proof fn lemma_at_most_one_fetch(s: LoadState)
    requires
        begin_transition(s).1,
    ensures
        !begin_transition(begin_transition(s).0).1,
        begin_transition(begin_transition(s).0).0 == begin_transition(s).0,
{
}

/// The load state of every directory identifier; one never touched is
/// `Unloaded`.
pub struct TreeLoader {
    pub states: Vec<(u64, LoadState)>,
}

impl TreeLoader {
    /// Some state is recorded for `id`.
    pub open spec fn has_state(self, id: u64) -> bool {
        exists|i: int| 0 <= i < self.states@.len() && (#[trigger] self.states@[i]).0 == id
    }

    /// Index of the state recorded for `id`.
    pub open spec fn state_index(self, id: u64) -> int {
        choose|i: int| 0 <= i < self.states@.len() && (#[trigger] self.states@[i]).0 == id
    }

    /// The load state of `id`: the recorded one, or `Unloaded`.
    pub open spec fn state_spec(self, id: u64) -> LoadState {
        if self.has_state(id) {
            self.states@[self.state_index(id)].1
        } else {
            LoadState::Unloaded
        }
    }

    /// At most one state is recorded per identifier.
    pub open spec fn wf(self) -> bool {
        forall|i: int, j: int|
            #![trigger self.states@[i], self.states@[j]]
            0 <= i < j < self.states@.len() ==> self.states@[i].0 != self.states@[j].0
    }

    /// A loader with every directory `Unloaded`.
    pub fn new() -> (t: Self)
        ensures
            t.wf(),
            t.states@.len() == 0,
            forall|id: u64| t.state_spec(id) == LoadState::Unloaded,
    {
        TreeLoader { states: Vec::new() }
    }

    /// The current load state of a directory identifier.
    pub fn state_of(&self, id: u64) -> (s: LoadState)
        requires
            self.wf(),
        ensures
            s == self.state_spec(id),
    {
        let n = self.states.len();
        let mut i: usize = 0;
        while i < n
            invariant
                self.wf(),
                n == self.states@.len(),
                i <= n,
                forall|j: int| 0 <= j < i ==> (#[trigger] self.states@[j]).0 != id,
            decreases n - i,
        {
            let (sid, s) = self.states[i];
            if sid == id {
                proof {
                    assert(self.has_state(id));
                    let k = self.state_index(id);
                    assert(self.states@[k].0 == id);
                    assert(k == i as int);
                }
                return s;
            }
            i = i + 1;
        }
        LoadState::Unloaded
    }

    /// Records the load state of `id`, leaving every other directory's
    /// state as it was.
    pub fn set_state(&mut self, id: u64, s: LoadState)
        requires
            old(self).wf(),
        ensures
            final(self).wf(),
            final(self).state_spec(id) == s,
            forall|x: u64| x != id ==> final(self).state_spec(x) == old(self).state_spec(x),
            forall|i: int|
                0 <= i < final(self).states@.len() ==> (#[trigger] final(self).states@[i]).0 == id
                    || (exists|j: int|
                    0 <= j < old(self).states@.len()
                        && old(self).states@[j] == final(self).states@[i]),
    {
        let n = self.states.len();
        let mut i: usize = 0;
        while i < n
            invariant
                self.wf(),
                *self == *old(self),
                n == self.states@.len(),
                i <= n,
                forall|j: int| 0 <= j < i ==> (#[trigger] self.states@[j]).0 != id,
            decreases n - i,
        {
            if self.states[i].0 == id {
                self.states[i] = (id, s);
                proof {
                    let post = *self;
                    let pre = *old(self);
                    assert(post.states@ == pre.states@.update(i as int, (id, s)));
                    assert(forall|j: int|
                        0 <= j < post.states@.len() && j != i ==> post.states@[j] == pre.states@[j]);
                    assert(post.states@[i as int].0 == id);
                    assert(post.has_state(id));
                    let k = post.state_index(id);
                    assert(post.states@[k].0 == id);
                    assert(k == i as int);
                    lemma_other_states_unchanged(pre, post, i as int, id);
                }
                return ;
            }
            i = i + 1;
        }
        self.states.push((id, s));
        proof {
            let post = *self;
            let pre = *old(self);
            let m = pre.states@.len() as int;
            assert(post.states@[m].0 == id);
            assert(post.has_state(id));
            let k = post.state_index(id);
            assert(post.states@[k].0 == id);
            assert(k == m);
            lemma_other_states_unchanged(pre, post, m, id);
        }
    }
}

/// Helper for `set_state`: when only position `i`, which now carries
/// `id`, differs between the two state vectors, every other
/// identifier's state is unchanged.
proof fn lemma_other_states_unchanged(pre: TreeLoader, post: TreeLoader, i: int, id: u64)
    requires
        pre.wf(),
        post.wf(),
        0 <= i < post.states@.len(),
        pre.states@.len() <= post.states@.len(),
        post.states@[i].0 == id,
        post.states@.len() == pre.states@.len() || (post.states@.len() == pre.states@.len() + 1
            && i == pre.states@.len()),
        forall|j: int|
            0 <= j < post.states@.len() && j != i ==> (#[trigger] post.states@[j])
                == pre.states@[j],
        i < pre.states@.len() ==> pre.states@[i].0 == id,
    ensures
        forall|x: u64| x != id ==> post.state_spec(x) == pre.state_spec(x),
{
    assert forall|x: u64| x != id implies post.state_spec(x) == pre.state_spec(x) by {
        if post.has_state(x) {
            let k = post.state_index(x);
            assert(post.states@[k].0 == x);
            assert(k != i);
            assert(pre.states@[k].0 == x);
            assert(pre.has_state(x));
            let k2 = pre.state_index(x);
            assert(pre.states@[k2].0 == x);
            if k2 != i && k2 != k {
                assert(post.states@[k2].0 == x);
                assert(false);
            }
            assert(k2 == k);
        } else {
            if pre.has_state(x) {
                let k2 = pre.state_index(x);
                assert(pre.states@[k2].0 == x);
                assert(k2 != i || pre.states@[i].0 == id);
                assert(k2 != i);
                assert(post.states@[k2].0 == x);
                assert(false);
            }
        }
    }
}

} // verus!
