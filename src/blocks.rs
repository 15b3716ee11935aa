use vstd::prelude::*;
use crate::model::{Block, BlockView, Content, ChannelContent, StoreError, Timestamp, copy_ids};
use crate::store::views;
use crate::session::{AppState, of_type};
use crate::clock::current_time;

verus! {

/// `s` with every occurrence of `t` taken out, the rest in order.
pub open spec fn without(s: Seq<u64>, t: u64) -> Seq<u64>
    decreases s.len(),
{
    if s.len() == 0 {
        Seq::empty()
    } else if s.last() == t {
        without(s.drop_last(), t)
    } else {
        without(s.drop_last(), t).push(s.last())
    }
}

/// A new block: both timestamps `now`, no connections.
pub open spec fn fresh_block(id: u64, tag: Seq<char>, content: Content, now: Timestamp) -> BlockView {
    BlockView {
        id,
        created_at: now,
        updated_at: now,
        block_type: tag,
        content,
        connections: Seq::empty(),
    }
}

/// `v` with `t` appended to its connections, touched at `now`.
pub open spec fn connected_to(v: BlockView, t: u64, now: Timestamp) -> BlockView {
    BlockView { connections: v.connections.push(t), updated_at: now, ..v }
}

/// `v` with `t` removed from its connections, touched at `now`.
pub open spec fn disconnected_from(v: BlockView, t: u64, now: Timestamp) -> BlockView {
    BlockView { connections: without(v.connections, t), updated_at: now, ..v }
}

/// `v` with its content replaced, touched at `now`.
pub open spec fn with_content(v: BlockView, c: Content, now: Timestamp) -> BlockView {
    BlockView { content: c, updated_at: now, ..v }
}

/// The blocks of `m` named by `ids`, in that order, skipping absent ones.
pub open spec fn resolve(m: Map<u64, BlockView>, ids: Seq<u64>) -> Seq<BlockView>
    decreases ids.len(),
{
    if ids.len() == 0 {
        Seq::empty()
    } else if m.contains_key(ids.last()) {
        resolve(m, ids.drop_last()).push(m[ids.last()])
    } else {
        resolve(m, ids.drop_last())
    }
}

/// The blocks of `s` other than `id` whose connections hold `id`, in order.
pub open spec fn linking(s: Seq<BlockView>, id: u64) -> Seq<BlockView>
    decreases s.len(),
{
    if s.len() == 0 {
        Seq::empty()
    } else if s.last().id != id && s.last().connections.contains(id) {
        linking(s.drop_last(), id).push(s.last())
    } else {
        linking(s.drop_last(), id)
    }
}

/// `true` when `t` occurs in `v`.
pub fn contains_id(v: &Vec<u64>, t: u64) -> (r: bool)
    ensures
        r == v@.contains(t),
{
    let mut i: usize = 0;
    while i < v.len()
        invariant
            0 <= i <= v@.len(),
            forall|j: int| 0 <= j < i ==> v@[j] != t,
        decreases v@.len() - i,
    {
        if v[i] == t {
            assert(v@[i as int] == t);
            return true;
        }
        i = i + 1;
    }
    false
}

/// `v` without any occurrence of `t`.
pub fn remove_id(v: &Vec<u64>, t: u64) -> (r: Vec<u64>)
    ensures
        r@ == without(v@, t),
{
    let mut r: Vec<u64> = Vec::new();
    let mut i: usize = 0;
    while i < v.len()
        invariant
            0 <= i <= v@.len(),
            r@ == without(v@.subrange(0, i as int), t),
        decreases v@.len() - i,
    {
        assert(v@.subrange(0, i + 1).drop_last() == v@.subrange(0, i as int));
        if v[i] != t {
            r.push(v[i]);
        }
        i = i + 1;
    }
    assert(v@.subrange(0, v@.len() as int) == v@);
    r
}

/// A new block with identifier `id`, stamped `now`.
pub fn new_block(id: u64, tag: &str, content: Content, now: Timestamp) -> (r: Block)
    ensures
        r@ == fresh_block(id, tag@, content, now),
{
    let r = Block {
        id,
        created_at: now,
        updated_at: now,
        block_type: tag.to_string(),
        content,
        connections: Vec::new(),
    };
    assert(r@.connections =~= Seq::<u64>::empty());
    r
}

/// `b` with `t` appended to its connections, touched at `now`.
pub fn with_connection(b: &Block, t: u64, now: Timestamp) -> (r: Block)
    ensures
        r@ == connected_to(b@, t, now),
{
    let mut r = b.duplicate();
    r.connections.push(t);
    r.updated_at = now;
    r
}

/// `b` with `t` removed from its connections, touched at `now`.
pub fn without_connection(b: &Block, t: u64, now: Timestamp) -> (r: Block)
    ensures
        r@ == disconnected_from(b@, t, now),
{
    let mut r = b.duplicate();
    r.connections = remove_id(&b.connections, t);
    r.updated_at = now;
    r
}

/// `b` with its content replaced by `content`, touched at `now`.
pub fn with_new_content(b: &Block, content: Content, now: Timestamp) -> (r: Block)
    ensures
        r@ == with_content(b@, content, now),
{
    Block {
        id: b.id,
        created_at: b.created_at,
        updated_at: now,
        block_type: b.block_type.clone(),
        content,
        connections: copy_ids(&b.connections),
    }
}

/// Whether a workspace is open.
pub fn get_workspace_status(state: &AppState) -> (r: bool)
    ensures
        r == state.is_open(),
{
    state.data_dir().is_some()
}

/// Allocates an identifier and builds a new block stamped `now`. The block is
/// not cached: the caller writes it, then caches it.
pub fn create_block_at(state: &mut AppState, tag: &str, content: Content, now: Timestamp) -> (r: Result<Block, StoreError>)
    requires
        old(state).wf(),
    ensures
        final(state).wf(),
        final(state).cache() == old(state).cache(),
        final(state).workspace_spec() == old(state).workspace_spec(),
        final(state).data_dir_spec() == old(state).data_dir_spec(),
        !old(state).is_open() ==> r == Err::<Block, StoreError>(StoreError::NoWorkspace)
            && final(state).last_id() == old(state).last_id(),
        old(state).is_open() && old(state).last_id() == u64::MAX ==> r == Err::<Block, StoreError>(
            StoreError::IdsExhausted,
        ) && final(state).last_id() == old(state).last_id(),
        old(state).is_open() && old(state).last_id() < u64::MAX ==> r is Ok
            && final(state).last_id() == old(state).last_id() + 1,
        r matches Ok(b) ==> b@ == fresh_block(final(state).last_id(), tag@, content, now),
{
    if state.data_dir().is_none() {
        return Err(StoreError::NoWorkspace);
    }
    match state.allocate_id() {
        Ok(id) => Ok(new_block(id, tag, content, now)),
        Err(e) => Err(e),
    }
}

/// Allocates an identifier and builds a new block stamped with the current
/// time. The block is not cached: the caller writes it, then caches it.
pub fn create_block(state: &mut AppState, tag: &str, content: Content) -> (r: Result<Block, StoreError>)
    requires
        old(state).wf(),
    ensures
        final(state).wf(),
        final(state).cache() == old(state).cache(),
        final(state).workspace_spec() == old(state).workspace_spec(),
        final(state).data_dir_spec() == old(state).data_dir_spec(),
        !old(state).is_open() ==> r == Err::<Block, StoreError>(StoreError::NoWorkspace)
            && final(state).last_id() == old(state).last_id(),
        old(state).is_open() && old(state).last_id() == u64::MAX ==> r == Err::<Block, StoreError>(
            StoreError::IdsExhausted,
        ) && final(state).last_id() == old(state).last_id(),
        old(state).is_open() && old(state).last_id() < u64::MAX ==> r is Ok
            && final(state).last_id() == old(state).last_id() + 1,
        r matches Ok(b) ==> b@ == fresh_block(final(state).last_id(), tag@, content, b.created_at),
{
    let now = current_time();
    create_block_at(state, tag, content, now)
}

/// A new channel block titled `title`.
pub fn create_channel(state: &mut AppState, title: String, description: String) -> (r: Result<Block, StoreError>)
    requires
        old(state).wf(),
    ensures
        final(state).wf(),
        final(state).cache() == old(state).cache(),
        final(state).workspace_spec() == old(state).workspace_spec(),
        final(state).data_dir_spec() == old(state).data_dir_spec(),
        !old(state).is_open() ==> r == Err::<Block, StoreError>(StoreError::NoWorkspace)
            && final(state).last_id() == old(state).last_id(),
        old(state).is_open() && old(state).last_id() < u64::MAX ==> r is Ok
            && final(state).last_id() == old(state).last_id() + 1,
        old(state).is_open() && old(state).last_id() == u64::MAX ==> r == Err::<Block, StoreError>(
            StoreError::IdsExhausted,
        ) && final(state).last_id() == old(state).last_id(),
        r matches Ok(b) ==> b@ == fresh_block(
            final(state).last_id(),
            "channel"@,
            Content::Channel(ChannelContent { title, description }),
            b.created_at,
        ),
{
    create_block(state, "channel", Content::Channel(ChannelContent { title, description }))
}

/// The cached block `id`.
pub fn get_block(state: &AppState, id: u64) -> (r: Result<Block, StoreError>)
    requires
        state.wf(),
    ensures
        !state.is_open() ==> r == Err::<Block, StoreError>(StoreError::NoWorkspace),
        state.is_open() && !state.cache().contains_key(id) ==> r == Err::<Block, StoreError>(
            StoreError::NotFound(id),
        ),
        state.is_open() && state.cache().contains_key(id) ==> r is Ok,
        r matches Ok(b) ==> b@ == state.cache()[id],
{
    if state.data_dir().is_none() {
        return Err(StoreError::NoWorkspace);
    }
    match state.lookup(id) {
        Some(b) => Ok(b),
        None => Err(StoreError::NotFound(id)),
    }
}

/// Every cached block, in increasing identifier order.
pub fn get_all_blocks(state: &AppState) -> (r: Result<Vec<Block>, StoreError>)
    requires
        state.wf(),
    ensures
        !state.is_open() ==> r is Err && r->Err_0 == StoreError::NoWorkspace,
        state.is_open() ==> r is Ok && views(r->Ok_0@) == state.entries(),
{
    if state.data_dir().is_none() {
        return Err(StoreError::NoWorkspace);
    }
    Ok(state.snapshot())
}

/// The blocks of type `tag`, in increasing identifier order.
pub fn list_by_type(state: &AppState, tag: &str) -> (r: Result<Vec<Block>, StoreError>)
    requires
        state.wf(),
    ensures
        !state.is_open() ==> r is Err && r->Err_0 == StoreError::NoWorkspace,
        state.is_open() ==> r is Ok && views(r->Ok_0@) == of_type(state.entries(), tag@),
{
    if state.data_dir().is_none() {
        return Err(StoreError::NoWorkspace);
    }
    Ok(state.blocks_of_type(tag))
}

/// The file blocks.
pub fn get_all_files(state: &AppState) -> (r: Result<Vec<Block>, StoreError>)
    requires
        state.wf(),
    ensures
        !state.is_open() ==> r is Err && r->Err_0 == StoreError::NoWorkspace,
        state.is_open() ==> r is Ok && views(r->Ok_0@) == of_type(state.entries(), "file"@),
{
    list_by_type(state, "file")
}

/// The channel blocks.
pub fn get_all_channels(state: &AppState) -> (r: Result<Vec<Block>, StoreError>)
    requires
        state.wf(),
    ensures
        !state.is_open() ==> r is Err && r->Err_0 == StoreError::NoWorkspace,
        state.is_open() ==> r is Ok && views(r->Ok_0@) == of_type(state.entries(), "channel"@),
{
    list_by_type(state, "channel")
}

/// The live blocks that the channel `id` connects to, in connection order;
/// identifiers no longer cached are skipped.
pub fn get_blocks_in_channel(state: &AppState, id: u64) -> (r: Result<Vec<Block>, StoreError>)
    requires
        state.wf(),
    ensures
        !state.is_open() ==> r is Err && r->Err_0 == StoreError::NoWorkspace,
        state.is_open() && !state.cache().contains_key(id) ==> r is Err && r->Err_0
            == StoreError::NotFound(id),
        state.is_open() && state.cache().contains_key(id) && state.cache()[id].block_type
            != "channel"@ ==> r is Err && r->Err_0 == StoreError::InvalidTarget(id),
        state.is_open() && state.cache().contains_key(id) && state.cache()[id].block_type
            == "channel"@ ==> r is Ok && views(r->Ok_0@) == resolve(
            state.cache(),
            state.cache()[id].connections,
        ),
{
    if state.data_dir().is_none() {
        return Err(StoreError::NoWorkspace);
    }
    let channel = match state.lookup(id) {
        Some(b) => b,
        None => {
            return Err(StoreError::NotFound(id));
        },
    };
    if !channel.has_type("channel") {
        return Err(StoreError::InvalidTarget(id));
    }
    let ids = &channel.connections;
    let mut r: Vec<Block> = Vec::new();
    let mut i: usize = 0;
    while i < ids.len()
        invariant
            state.wf(),
            0 <= i <= ids@.len(),
            views(r@) == resolve(state.cache(), ids@.subrange(0, i as int)),
        decreases ids@.len() - i,
    {
        assert(ids@.subrange(0, i + 1).drop_last() == ids@.subrange(0, i as int));
        match state.lookup(ids[i]) {
            Some(b) => {
                let ghost before = r@;
                r.push(b);
                assert(r@ == before.push(b));
                assert(views(r@) =~= views(before).push(b@));
            },
            None => {},
        }
        i = i + 1;
    }
    assert(ids@.subrange(0, ids@.len() as int) == ids@);
    Ok(r)
}

/// Adds `target` to the connections of `source`. Returns the changed block,
/// which the caller writes and then caches, or `None` when `target` was
/// already there.
pub fn connect_blocks(state: &AppState, source: u64, target: u64) -> (r: Result<Option<Block>, StoreError>)
    requires
        state.wf(),
    ensures
        !state.is_open() ==> r is Err && r->Err_0 == StoreError::NoWorkspace,
        state.is_open() && !state.cache().contains_key(source) ==> r is Err && r->Err_0
            == StoreError::NotFound(source),
        state.is_open() && state.cache().contains_key(source) && !state.cache().contains_key(target)
            ==> r is Err && r->Err_0 == StoreError::NotFound(target),
        state.is_open() && state.cache().contains_key(source) && state.cache().contains_key(target)
            ==> r is Ok,
        r matches Ok(w) ==> (w is None <==> state.cache()[source].connections.contains(target)),
        r matches Ok(Some(b)) ==> b@ == connected_to(state.cache()[source], target, b.updated_at),
{
    if state.data_dir().is_none() {
        return Err(StoreError::NoWorkspace);
    }
    let src = match state.lookup(source) {
        Some(b) => b,
        None => {
            return Err(StoreError::NotFound(source));
        },
    };
    if state.lookup(target).is_none() {
        return Err(StoreError::NotFound(target));
    }
    if contains_id(&src.connections, target) {
        return Ok(None);
    }
    let now = current_time();
    Ok(Some(with_connection(&src, target, now)))
}

/// Removes `target` from the connections of `source`. Returns the changed
/// block, which the caller writes and then caches, or `None` when `target`
/// was not there.
pub fn disconnect_blocks(state: &AppState, source: u64, target: u64) -> (r: Result<Option<Block>, StoreError>)
    requires
        state.wf(),
    ensures
        !state.is_open() ==> r is Err && r->Err_0 == StoreError::NoWorkspace,
        state.is_open() && !state.cache().contains_key(source) ==> r is Err && r->Err_0
            == StoreError::NotFound(source),
        state.is_open() && state.cache().contains_key(source) ==> r is Ok,
        r matches Ok(w) ==> (w is None <==> !state.cache()[source].connections.contains(target)),
        r matches Ok(Some(b)) ==> b@ == disconnected_from(state.cache()[source], target, b.updated_at),
{
    if state.data_dir().is_none() {
        return Err(StoreError::NoWorkspace);
    }
    let src = match state.lookup(source) {
        Some(b) => b,
        None => {
            return Err(StoreError::NotFound(source));
        },
    };
    if !contains_id(&src.connections, target) {
        return Ok(None);
    }
    let now = current_time();
    Ok(Some(without_connection(&src, target, now)))
}

/// Replaces the content of block `id`. Returns the changed block, which the
/// caller writes and then caches.
pub fn update_block_content(state: &AppState, id: u64, content: Content) -> (r: Result<Block, StoreError>)
    requires
        state.wf(),
    ensures
        !state.is_open() ==> r == Err::<Block, StoreError>(StoreError::NoWorkspace),
        state.is_open() && !state.cache().contains_key(id) ==> r == Err::<Block, StoreError>(
            StoreError::NotFound(id),
        ),
        state.is_open() && state.cache().contains_key(id) ==> r is Ok,
        r matches Ok(b) ==> b@ == with_content(state.cache()[id], content, b.updated_at),
{
    if state.data_dir().is_none() {
        return Err(StoreError::NoWorkspace);
    }
    match state.lookup(id) {
        Some(b) => {
            let now = current_time();
            Ok(with_new_content(&b, content, now))
        },
        None => Err(StoreError::NotFound(id)),
    }
}

/// Deleting block `id`: returns, in identifier order, every other block that
/// connects to it with that connection removed. The caller writes and caches
/// each, then deletes the record of `id` and removes it from the cache.
pub fn delete_block(state: &AppState, id: u64) -> (r: Result<Vec<Block>, StoreError>)
    requires
        state.wf(),
    ensures
        !state.is_open() ==> r is Err && r->Err_0 == StoreError::NoWorkspace,
        state.is_open() && !state.cache().contains_key(id) ==> r is Err && r->Err_0
            == StoreError::NotFound(id),
        state.is_open() && state.cache().contains_key(id) ==> r is Ok,
        r matches Ok(w) ==> w@.len() == linking(state.entries(), id).len() && forall|k: int|
            0 <= k < w@.len() ==> #[trigger] w@[k]@ == disconnected_from(
                linking(state.entries(), id)[k],
                id,
                w@[k].updated_at,
            ),
{
    if state.data_dir().is_none() {
        return Err(StoreError::NoWorkspace);
    }
    if state.lookup(id).is_none() {
        return Err(StoreError::NotFound(id));
    }
    let all = state.snapshot();
    let ghost s = state.entries();
    let mut r: Vec<Block> = Vec::new();
    let mut i: usize = 0;
    while i < all.len()
        invariant
            views(all@) == s,
            0 <= i <= all@.len(),
            r@.len() == linking(s.subrange(0, i as int), id).len(),
            forall|k: int|
                0 <= k < r@.len() ==> #[trigger] r@[k]@ == disconnected_from(
                    linking(s.subrange(0, i as int), id)[k],
                    id,
                    r@[k].updated_at,
                ),
        decreases all@.len() - i,
    {
        assert(s.subrange(0, i + 1).drop_last() == s.subrange(0, i as int));
        assert(s[i as int] == all@[i as int]@);
        let b = &all[i];
        if b.id != id && contains_id(&b.connections, id) {
            let now = current_time();
            let c = without_connection(b, id, now);
            r.push(c);
        }
        i = i + 1;
    }
    assert(s.subrange(0, all@.len() as int) == s);
    Ok(r)
}

} // verus!
