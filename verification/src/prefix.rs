//! Batch prefix resolution: the shortest unique display prefix of each
//! identifier, computed against every identifier in the store.
use crate::id::is_distinguishing;
use crate::id::TaskId;
use crate::store::Store;
use crate::store::StoreError;
use vstd::prelude::*;

verus! {

/// The shortest-unique-prefix resolver over one store's identifiers.
pub struct PrefixResolver {
    ids: Vec<TaskId>,
}

impl View for PrefixResolver {
    type V = Seq<Seq<char>>;

    closed spec fn view(&self) -> Seq<Seq<char>> {
        self.ids.deep_view()
    }
}

impl PrefixResolver {
    /// A resolver over the identifiers of every task the store holds.
    pub fn new(store: &Store) -> (r: Result<PrefixResolver, StoreError>)
        ensures
            match r {
                Ok(res) => res@ == crate::store::sp_all_ids(store@.files),
                Err(_) => false,
            },
    {
        Ok(PrefixResolver { ids: store.all_task_ids() })
    }

    /// The shortest leading substring of `id`, of length at least one, that
    /// no other identifier in the corpus matches case-insensitively;
    /// identifiers equal to `id` itself are excepted, and the whole
    /// identifier comes back when no prefix tells it apart.
    pub fn shortest_prefix(&self, id: &TaskId) -> (r: String)
        ensures
            r@.len() <= id@.len(),
            r@ == id@.subrange(0, r@.len() as int),
            id@.len() == 0 ==> r@.len() == 0,
            id@.len() > 0 ==> 1 <= r@.len(),
            is_distinguishing(id@, self@, r@.len() as int) || r@.len() == id@.len(),
            forall|m: int| 1 <= m < r@.len() ==> !is_distinguishing(id@, self@, m),
    {
        let n = self.ids.len();
        let mut refs: Vec<&TaskId> = Vec::new();
        let mut i: usize = 0;
        while i < n
            invariant
                n == self.ids@.len(),
                i <= n,
                refs@.len() == i,
                forall|k: int| 0 <= k < i ==> (#[trigger] refs@[k])@ == self.ids@[k]@,
            decreases n - i,
        {
            refs.push(&self.ids[i]);
            i = i + 1;
        }
        proof {
            assert forall|k: int| 0 <= k < n implies refs.deep_view()[k] == self@[k] by {
                assert(refs@[k]@ == self.ids@[k]@);
            }
            assert(refs.deep_view() =~= self@);
        }
        let p = id.shortest_unique_prefix(refs.as_slice());
        String::from_str(p)
    }
}

} // verus!
