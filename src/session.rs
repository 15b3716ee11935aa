use vstd::prelude::*;
use crate::model::{Block, BlockView, StoreError, copy_text};
use crate::store::{views, ids_increasing, index_map, lemma_entry, lemma_update, lemma_insert, lemma_remove};

verus! {

/// The blocks of `s` whose type tag is `tag`, in order.
pub open spec fn of_type(s: Seq<BlockView>, tag: Seq<char>) -> Seq<BlockView>
    decreases s.len(),
{
    if s.len() == 0 {
        Seq::empty()
    } else if s.last().block_type == tag {
        of_type(s.drop_last(), tag).push(s.last())
    } else {
        of_type(s.drop_last(), tag)
    }
}

/// The workspace session: at most one open workspace, the cache of its blocks
/// ordered by identifier, and the identifier allocator.
pub struct AppState {
    workspace_dir: Option<String>,
    data_dir: Option<String>,
    blocks: Vec<Block>,
    last_id: u64,
}

impl AppState {
    /// The cached blocks in increasing identifier order.
    pub closed spec fn entries(&self) -> Seq<BlockView> {
        views(self.blocks@)
    }

    /// The cache: identifier to block.
    pub open spec fn cache(&self) -> Map<u64, BlockView> {
        index_map(self.entries())
    }

    /// The greatest identifier issued or observed so far; the next one is above it.
    pub closed spec fn last_id(&self) -> u64 {
        self.last_id
    }

    pub closed spec fn workspace_spec(&self) -> Option<Seq<char>> {
        match self.workspace_dir {
            Some(w) => Some(w@),
            None => None,
        }
    }

    pub closed spec fn data_dir_spec(&self) -> Option<Seq<char>> {
        match self.data_dir {
            Some(d) => Some(d@),
            None => None,
        }
    }

    pub open spec fn is_open(&self) -> bool {
        self.data_dir_spec() is Some
    }

    /// Identifiers are unique and none exceeds the allocator's last identifier.
    pub closed spec fn wf(&self) -> bool {
        &&& ids_increasing(self.entries())
        &&& forall|i: int| 0 <= i < self.entries().len() ==> self.entries()[i].id <= self.last_id
        &&& (self.workspace_dir is Some <==> self.data_dir is Some)
    }

    pub proof fn lemma_cache_bounded(&self, id: u64)
        requires
            self.wf(),
            self.cache().contains_key(id),
        ensures
            id <= self.last_id(),
            self.cache()[id].id == id,
    {
        let i = choose|i: int| 0 <= i < self.entries().len() && self.entries()[i].id == id;
        lemma_entry(self.entries(), i);
    }

    /// A closed session with an empty cache.
    pub fn new() -> (r: AppState)
        ensures
            r.wf(),
            !r.is_open(),
            r.workspace_spec() is None,
            r.cache() == Map::<u64, BlockView>::empty(),
            r.last_id() == 0,
    {
        let r = AppState { workspace_dir: None, data_dir: None, blocks: Vec::new(), last_id: 0 };
        assert(r.cache() =~= Map::<u64, BlockView>::empty());
        r
    }

    /// The cached blocks in increasing identifier order.
    pub fn snapshot(&self) -> (r: Vec<Block>)
        requires
            self.wf(),
        ensures
            views(r@) == self.entries(),
            ids_increasing(self.entries()),
    {
        let mut r: Vec<Block> = Vec::new();
        let mut i: usize = 0;
        while i < self.blocks.len()
            invariant
                0 <= i <= self.blocks@.len(),
                r@.len() == i,
                views(r@) == views(self.blocks@).subrange(0, i as int),
            decreases self.blocks@.len() - i,
        {
            let b = self.blocks[i].duplicate();
            let ghost before = r@;
            r.push(b);
            assert(r@ == before.push(b));
            assert(views(r@)[i as int] == views(self.blocks@)[i as int]);
            assert(views(r@) =~= views(self.blocks@).subrange(0, i + 1));
            i = i + 1;
        }
        assert(views(r@) =~= views(self.blocks@));
        r
    }

    /// Position in the cache of the block with identifier `id`.
    fn position_of(&self, id: u64) -> (r: Option<usize>)
        requires
            self.wf(),
        ensures
            r matches Some(i) ==> i < self.blocks@.len() && self.blocks@[i as int].id == id,
            r is Some <==> self.cache().contains_key(id),
    {
        let mut i: usize = 0;
        while i < self.blocks.len()
            invariant
                0 <= i <= self.blocks@.len(),
                self.wf(),
                forall|j: int| 0 <= j < i ==> self.blocks@[j].id != id,
            decreases self.blocks@.len() - i,
        {
            if self.blocks[i].id == id {
                proof {
                    lemma_entry(self.entries(), i as int);
                }
                return Some(i);
            }
            i = i + 1;
        }
        assert(!self.cache().contains_key(id)) by {
            if self.cache().contains_key(id) {
                let k = choose|k: int| 0 <= k < self.entries().len() && self.entries()[k].id == id;
                assert(self.blocks@[k].id == id);
            }
        }
        None
    }

    /// The cached block with identifier `id`, if any.
    pub fn lookup(&self, id: u64) -> (r: Option<Block>)
        requires
            self.wf(),
        ensures
            r is Some <==> self.cache().contains_key(id),
            r matches Some(b) ==> b@ == self.cache()[id],
    {
        match self.position_of(id) {
            Some(i) => {
                proof {
                    lemma_entry(self.entries(), i as int);
                }
                Some(self.blocks[i].duplicate())
            },
            None => None,
        }
    }

    /// Puts `b` in the cache, replacing any block with its identifier; the
    /// allocator moves past `b.id` if needed.
    pub fn cache_block(&mut self, b: Block)
        requires
            old(self).wf(),
        ensures
            final(self).wf(),
            final(self).cache() == old(self).cache().insert(b.id, b@),
            final(self).last_id() == (if b.id > old(self).last_id() { b.id } else { old(self).last_id() }),
            final(self).workspace_spec() == old(self).workspace_spec(),
            final(self).data_dir_spec() == old(self).data_dir_spec(),
    {
        let ghost s = self.entries();
        let mut k: usize = 0;
        while k < self.blocks.len() && self.blocks[k].id < b.id
            invariant
                0 <= k <= self.blocks@.len(),
                s == views(self.blocks@),
                forall|j: int| 0 <= j < k ==> s[j].id < b.id,
            decreases self.blocks@.len() - k,
        {
            k = k + 1;
        }
        if b.id > self.last_id {
            self.last_id = b.id;
        }
        if k < self.blocks.len() && self.blocks[k].id == b.id {
            proof {
                lemma_update(s, k as int, b@);
            }
            self.blocks.set(k, b);
            assert(self.entries() =~= s.update(k as int, b@));
        } else {
            proof {
                assert forall|j: int| k <= j < s.len() implies b.id < s[j].id by {
                    if j > k {
                        assert(s[k as int].id < s[j].id);
                    }
                }
                lemma_insert(s, k as int, b@);
            }
            self.blocks.insert(k, b);
            assert(self.entries() =~= s.insert(k as int, b@));
        }
    }

    /// Removes the block with identifier `id` from the cache, if present.
    pub fn remove_block(&mut self, id: u64)
        requires
            old(self).wf(),
        ensures
            final(self).wf(),
            final(self).cache() == old(self).cache().remove(id),
            final(self).last_id() == old(self).last_id(),
            final(self).workspace_spec() == old(self).workspace_spec(),
            final(self).data_dir_spec() == old(self).data_dir_spec(),
    {
        let ghost s = self.entries();
        match self.position_of(id) {
            Some(i) => {
                proof {
                    lemma_remove(s, i as int);
                }
                self.blocks.remove(i);
                assert(self.entries() =~= s.remove(i as int));
            },
            None => {
                assert(self.cache() =~= self.cache().remove(id));
            },
        }
    }

    /// The blocks of type `tag`, in increasing identifier order.
    pub fn blocks_of_type(&self, tag: &str) -> (r: Vec<Block>)
        requires
            self.wf(),
        ensures
            views(r@) == of_type(self.entries(), tag@),
    {
        let mut r: Vec<Block> = Vec::new();
        let mut i: usize = 0;
        while i < self.blocks.len()
            invariant
                0 <= i <= self.blocks@.len(),
                views(r@) == of_type(views(self.blocks@).subrange(0, i as int), tag@),
            decreases self.blocks@.len() - i,
        {
            let ghost s = views(self.blocks@);
            assert(s.subrange(0, i + 1).drop_last() =~= s.subrange(0, i as int));
            if self.blocks[i].has_type(tag) {
                let b = self.blocks[i].duplicate();
                let ghost before = r@;
                r.push(b);
                assert(r@ == before.push(b));
                assert(views(r@) =~= of_type(s.subrange(0, i as int), tag@).push(s[i as int]));
            }
            i = i + 1;
        }
        assert(views(self.blocks@).subrange(0, i as int) =~= views(self.blocks@));
        r
    }

    /// Binds the session to a workspace, discarding the previous cache; the
    /// allocator restarts from `highest_id`.
    pub fn open_workspace(&mut self, workspace_dir: String, data_dir: String, highest_id: u64)
        ensures
            final(self).wf(),
            final(self).is_open(),
            final(self).workspace_spec() == Some(workspace_dir@),
            final(self).data_dir_spec() == Some(data_dir@),
            final(self).cache() == Map::<u64, BlockView>::empty(),
            final(self).last_id() == highest_id,
    {
        self.workspace_dir = Some(workspace_dir);
        self.data_dir = Some(data_dir);
        self.blocks = Vec::new();
        self.last_id = highest_id;
        assert(self.cache() =~= Map::<u64, BlockView>::empty());
    }

    /// Issues the next identifier, one above every identifier issued or seen.
    pub fn allocate_id(&mut self) -> (r: Result<u64, StoreError>)
        requires
            old(self).wf(),
        ensures
            final(self).wf(),
            final(self).cache() == old(self).cache(),
            final(self).workspace_spec() == old(self).workspace_spec(),
            final(self).data_dir_spec() == old(self).data_dir_spec(),
            old(self).last_id() == u64::MAX ==> r == Err::<u64, StoreError>(StoreError::IdsExhausted)
                && final(self).last_id() == old(self).last_id(),
            old(self).last_id() < u64::MAX ==> r == Ok::<u64, StoreError>((old(self).last_id() + 1) as u64)
                && final(self).last_id() == old(self).last_id() + 1,
    {
        if self.last_id == u64::MAX {
            Err(StoreError::IdsExhausted)
        } else {
            self.last_id = self.last_id + 1;
            Ok(self.last_id)
        }
    }

    /// The workspace root, when one is open.
    pub fn workspace_dir(&self) -> (r: Option<String>)
        ensures
            r is Some ==> self.workspace_spec() == Some(r->Some_0@),
            r is None ==> self.workspace_spec() is None,
    {
        copy_text(&self.workspace_dir)
    }

    /// The workspace's data directory, when one is open.
    pub fn data_dir(&self) -> (r: Option<String>)
        ensures
            r is Some ==> self.data_dir_spec() == Some(r->Some_0@),
            r is None ==> !self.is_open(),
    {
        copy_text(&self.data_dir)
    }
}

} // verus!
