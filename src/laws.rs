use vstd::prelude::*;
use crate::model::{Block, BlockView, Timestamp};
use crate::store::{ids_increasing, index_map, lemma_entry, lemma_insert, views};
use crate::session::AppState;
use crate::storage::{highest_record_id, loaded, record_id, top_id};
use crate::blocks::{without, connected_to, disconnected_from, linking};

verus! {

/// How many times `t` occurs in `s`.
pub open spec fn occurrences(s: Seq<u64>, t: u64) -> nat
    decreases s.len(),
{
    if s.len() == 0 {
        0
    } else {
        occurrences(s.drop_last(), t) + if s.last() == t {
            1nat
        } else {
            0nat
        }
    }
}

proof fn lemma_occurrences_contains(s: Seq<u64>, t: u64)
    ensures
        s.contains(t) <==> occurrences(s, t) > 0,
    decreases s.len(),
{
    if s.len() > 0 {
        lemma_occurrences_contains(s.drop_last(), t);
        if s.drop_last().contains(t) {
            let i = choose|i: int| 0 <= i < s.drop_last().len() && s.drop_last()[i] == t;
            assert(s[i] == t);
        }
        if s.contains(t) && s.last() != t {
            let i = choose|i: int| 0 <= i < s.len() && s[i] == t;
            assert(s.drop_last()[i] == t);
        }
    }
}

proof fn lemma_without_absent(s: Seq<u64>, t: u64)
    ensures
        !without(s, t).contains(t),
    decreases s.len(),
{
    if s.len() > 0 {
        lemma_without_absent(s.drop_last(), t);
        let w = without(s.drop_last(), t);
        if s.last() != t {
            assert forall|i: int| 0 <= i < w.push(s.last()).len() implies w.push(s.last())[i] != t by {
                if i < w.len() {
                    assert(w.push(s.last())[i] == w[i]);
                }
            }
        }
    }
}

proof fn lemma_linking_holds(s: Seq<BlockView>, id: u64, i: int)
    requires
        0 <= i < s.len(),
        s[i].id != id,
        s[i].connections.contains(id),
    ensures
        linking(s, id).contains(s[i]),
    decreases s.len(),
{
    if i == s.len() - 1 {
        assert(linking(s, id).last() == s[i]);
    } else {
        assert(s.drop_last()[i] == s[i]);
        lemma_linking_holds(s.drop_last(), id, i);
        let l = linking(s.drop_last(), id);
        let k = choose|k: int| 0 <= k < l.len() && l[k] == s[i];
        if s.last().id != id && s.last().connections.contains(id) {
            assert(l.push(s.last())[k] == s[i]);
        }
    }
}

proof fn lemma_linking_excludes(s: Seq<BlockView>, id: u64)
    ensures
        forall|k: int| 0 <= k < linking(s, id).len() ==> #[trigger] linking(s, id)[k].id != id,
    decreases s.len(),
{
    if s.len() > 0 {
        lemma_linking_excludes(s.drop_last(), id);
    }
}

/// Every identifier in a well-formed session's cache is at most the
/// allocator's last identifier, so the identifier that the next creation
/// issues (one above it) names no cached block.
pub proof fn law_issued_id_is_fresh(state: &AppState, id: u64)
    requires
        state.wf(),
        state.cache().contains_key(id),
    ensures
        id < state.last_id() + 1,
{
    state.lemma_cache_bounded(id);
}

/// After a workspace is opened, the allocator's last identifier is at least
/// the identifier of every record name and of every record that parsed, so
/// new identifiers lie strictly above every identifier found on disk.
pub proof fn law_reopen_resumes_above_disk(names: Seq<Seq<char>>, records: Seq<Option<Block>>)
    ensures
        forall|i: int|
            0 <= i < names.len() && (#[trigger] record_id(names[i])) is Some ==> record_id(
                names[i],
            )->Some_0 <= top_id(highest_record_id(names), records),
        forall|i: int|
            0 <= i < records.len() && (#[trigger] records[i]) is Some ==> records[i]->Some_0.id
                <= top_id(highest_record_id(names), records),
{
    lemma_highest_bounds(names);
    lemma_top_bounds(highest_record_id(names), records);
}

proof fn lemma_highest_bounds(names: Seq<Seq<char>>)
    ensures
        forall|i: int|
            0 <= i < names.len() && (#[trigger] record_id(names[i])) is Some ==> record_id(
                names[i],
            )->Some_0 <= highest_record_id(names),
    decreases names.len(),
{
    if names.len() > 0 {
        lemma_highest_bounds(names.drop_last());
        assert forall|i: int|
            0 <= i < names.len() && (#[trigger] record_id(names[i])) is Some implies record_id(
                names[i],
            )->Some_0 <= highest_record_id(names) by {
            if i < names.len() - 1 {
                assert(names.drop_last()[i] == names[i]);
            }
        }
    }
}

proof fn lemma_top_bounds(base: u64, records: Seq<Option<Block>>)
    ensures
        base <= top_id(base, records),
        forall|i: int|
            0 <= i < records.len() && (#[trigger] records[i]) is Some ==> records[i]->Some_0.id
                <= top_id(base, records),
    decreases records.len(),
{
    if records.len() > 0 {
        lemma_top_bounds(base, records.drop_last());
        assert forall|i: int|
            0 <= i < records.len() && (#[trigger] records[i]) is Some implies records[i]->Some_0.id
                <= top_id(base, records) by {
            if i < records.len() - 1 {
                assert(records.drop_last()[i] == records[i]);
            }
        }
    }
}

proof fn lemma_top_is_base(base: u64, records: Seq<Option<Block>>)
    requires
        forall|i: int|
            0 <= i < records.len() && (#[trigger] records[i]) is Some ==> records[i]->Some_0.id
                <= base,
    ensures
        top_id(base, records) == base,
    decreases records.len(),
{
    if records.len() > 0 {
        assert forall|i: int|
            0 <= i < records.drop_last().len() && (#[trigger] records.drop_last()[i]) is Some implies records.drop_last()[i]->Some_0.id
                <= base by {
            assert(records.drop_last()[i] == records[i]);
        }
        lemma_top_is_base(base, records.drop_last());
        assert(records.last() == records[records.len() - 1]);
    }
}

/// When every record that parsed carries an identifier no greater than the
/// greatest record name's, opening the workspace leaves the allocator's last
/// identifier at exactly that greatest name identifier (0 when none), so the
/// next identifier issued is one above it.
pub proof fn law_reopen_seeds_from_names(names: Seq<Seq<char>>, records: Seq<Option<Block>>)
    requires
        forall|i: int|
            0 <= i < records.len() && (#[trigger] records[i]) is Some ==> records[i]->Some_0.id
                <= highest_record_id(names),
    ensures
        top_id(highest_record_id(names), records) == highest_record_id(names),
{
    lemma_top_is_base(highest_record_id(names), records);
}

/// Connecting `t` to a block that holds it at most once, then connecting it
/// again, leaves `t` in its connections exactly once: the first connection
/// appends it only when absent, and the second finds it present and changes
/// nothing.
pub proof fn law_connect_idempotent(v: BlockView, t: u64, now: Timestamp)
    requires
        occurrences(v.connections, t) <= 1,
    ensures
        ({
            let once = if v.connections.contains(t) {
                v
            } else {
                connected_to(v, t, now)
            };
            &&& once.connections.contains(t)
            &&& occurrences(once.connections, t) == 1
        }),
{
    lemma_occurrences_contains(v.connections, t);
    if !v.connections.contains(t) {
        let c = v.connections.push(t);
        assert(c.drop_last() == v.connections);
        lemma_occurrences_contains(c, t);
    }
}

/// With blocks `a` and `b` connected both ways, deleting `b` rewrites `a`
/// (it is among the blocks that the deletion returns), and once those are
/// cached and `b` is removed, `b` is gone and `a` keeps its identifier, type,
/// creation time and content, with `b` no longer among its connections.
pub proof fn law_referential_cleanup(s: Seq<BlockView>, a: u64, b: u64, now: Timestamp)
    requires
        ids_increasing(s),
        a != b,
        index_map(s).contains_key(a),
        index_map(s).contains_key(b),
        index_map(s)[a].connections.contains(b),
        index_map(s)[b].connections.contains(a),
    ensures
        linking(s, b).contains(index_map(s)[a]),
        !linking(s, b).contains(index_map(s)[b]),
        ({
            let va = index_map(s)[a];
            let m2 = index_map(s).insert(a, disconnected_from(va, b, now)).remove(b);
            &&& !m2.contains_key(b)
            &&& m2.contains_key(a)
            &&& !m2[a].connections.contains(b)
            &&& m2[a].id == va.id
            &&& m2[a].created_at == va.created_at
            &&& m2[a].block_type == va.block_type
            &&& m2[a].content == va.content
        }),
{
    let i = choose|i: int| 0 <= i < s.len() && s[i].id == a;
    lemma_entry(s, i);
    let j = choose|j: int| 0 <= j < s.len() && s[j].id == b;
    lemma_entry(s, j);
    lemma_linking_holds(s, b, i);
    lemma_linking_excludes(s, b);
    lemma_without_absent(index_map(s)[a].connections, b);
    if linking(s, b).contains(index_map(s)[b]) {
        let k = choose|k: int| 0 <= k < linking(s, b).len() && linking(s, b)[k] == index_map(s)[b];
        assert(linking(s, b)[k].id != b);
    }
}

/// The records of every cached block, each holding the block as written
/// through, reload (in identifier order) into exactly the cache they came
/// from.
pub proof fn law_reload_reproduces_cache(blocks: Seq<Block>)
    requires
        ids_increasing(views(blocks)),
    ensures
        loaded(Map::empty(), blocks.map_values(|b: Block| Some(b))) == index_map(views(blocks)),
    decreases blocks.len(),
{
    if blocks.len() == 0 {
        assert(index_map(views(blocks)) =~= Map::<u64, BlockView>::empty());
    } else {
        let p = blocks.drop_last();
        let last = blocks.last();
        assert(views(p) =~= views(blocks).drop_last());
        law_reload_reproduces_cache(p);
        assert(blocks.map_values(|b: Block| Some(b)).drop_last() =~= p.map_values(
            |b: Block| Some(b),
        ));
        assert forall|j: int| 0 <= j < p.len() implies views(p)[j].id < last@.id by {
            assert(views(blocks)[j].id < views(blocks)[blocks.len() - 1].id);
        }
        lemma_insert(views(p), p.len() as int, last@);
        assert(views(p).insert(p.len() as int, last@) =~= views(blocks));
    }
}

} // verus!
