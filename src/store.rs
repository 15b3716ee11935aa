use vstd::prelude::*;
use crate::model::{Block, BlockView};

verus! {

/// The values of a sequence of blocks.
pub open spec fn views(s: Seq<Block>) -> Seq<BlockView> {
    s.map_values(|b: Block| b@)
}

/// Block identifiers strictly increase along the sequence (so none repeats).
pub open spec fn ids_increasing(s: Seq<BlockView>) -> bool {
    forall|i: int, j: int| 0 <= i < j < s.len() ==> s[i].id < s[j].id
}

pub open spec fn holds_id(s: Seq<BlockView>, id: u64) -> bool {
    exists|i: int| 0 <= i < s.len() && s[i].id == id
}

/// The mapping from identifier to block that a sequence of blocks describes.
pub open spec fn index_map(s: Seq<BlockView>) -> Map<u64, BlockView> {
    Map::new(
        |id: u64| holds_id(s, id),
        |id: u64| s[choose|i: int| 0 <= i < s.len() && s[i].id == id],
    )
}

pub proof fn lemma_entry(s: Seq<BlockView>, i: int)
    requires
        ids_increasing(s),
        0 <= i < s.len(),
    ensures
        index_map(s).contains_key(s[i].id),
        index_map(s)[s[i].id] == s[i],
{
    let id = s[i].id;
    assert(holds_id(s, id));
    let j = choose|j: int| 0 <= j < s.len() && s[j].id == id;
    if j < i {
        assert(s[j].id < s[i].id);
    } else if j > i {
        assert(s[i].id < s[j].id);
    }
}

pub proof fn lemma_update(s: Seq<BlockView>, i: int, b: BlockView)
    requires
        ids_increasing(s),
        0 <= i < s.len(),
        s[i].id == b.id,
    ensures
        ids_increasing(s.update(i, b)),
        index_map(s.update(i, b)) == index_map(s).insert(b.id, b),
{
    let t = s.update(i, b);
    assert(ids_increasing(t)) by {
        assert forall|p: int, q: int| 0 <= p < q < t.len() implies t[p].id < t[q].id by {
            assert(s[p].id < s[q].id);
        }
    }
    assert forall|id: u64| holds_id(t, id) == holds_id(s, id) by {
        if holds_id(t, id) {
            let k = choose|k: int| 0 <= k < t.len() && t[k].id == id;
            assert(s[k].id == id);
        }
        if holds_id(s, id) {
            let k = choose|k: int| 0 <= k < s.len() && s[k].id == id;
            assert(t[k].id == id);
        }
    }
    assert forall|id: u64| #[trigger] holds_id(t, id) implies index_map(t)[id] == index_map(
        s,
    ).insert(b.id, b)[id] by {
        let k = choose|k: int| 0 <= k < t.len() && t[k].id == id;
        lemma_entry(t, k);
        if k != i {
            lemma_entry(s, k);
        }
    }
    assert(index_map(t) =~= index_map(s).insert(b.id, b));
}

pub proof fn lemma_insert(s: Seq<BlockView>, k: int, b: BlockView)
    requires
        ids_increasing(s),
        0 <= k <= s.len(),
        forall|j: int| 0 <= j < k ==> s[j].id < b.id,
        forall|j: int| k <= j < s.len() ==> b.id < s[j].id,
    ensures
        ids_increasing(s.insert(k, b)),
        index_map(s.insert(k, b)) == index_map(s).insert(b.id, b),
{
    let t = s.insert(k, b);
    assert(ids_increasing(t)) by {
        assert forall|p: int, q: int| 0 <= p < q < t.len() implies t[p].id < t[q].id by {
            if q < k {
                assert(s[p].id < s[q].id);
            } else if q == k {
            } else if p < k {
                assert(s[p].id < b.id && b.id < s[q - 1].id);
            } else if p == k {
                assert(b.id < s[q - 1].id);
            } else {
                assert(s[p - 1].id < s[q - 1].id);
            }
        }
    }
    assert forall|id: u64| holds_id(t, id) == (holds_id(s, id) || id == b.id) by {
        if holds_id(t, id) {
            let p = choose|p: int| 0 <= p < t.len() && t[p].id == id;
            if p < k {
                assert(s[p].id == id);
            } else if p > k {
                assert(s[p - 1].id == id);
            }
        }
        if holds_id(s, id) {
            let p = choose|p: int| 0 <= p < s.len() && s[p].id == id;
            if p < k {
                assert(t[p].id == id);
            } else {
                assert(t[p + 1].id == id);
            }
        }
        if id == b.id {
            assert(t[k].id == id);
        }
    }
    assert forall|id: u64| #[trigger] holds_id(t, id) implies index_map(t)[id] == index_map(
        s,
    ).insert(b.id, b)[id] by {
        let p = choose|p: int| 0 <= p < t.len() && t[p].id == id;
        lemma_entry(t, p);
        if p < k {
            lemma_entry(s, p);
        } else if p > k {
            lemma_entry(s, p - 1);
        }
    }
    assert(index_map(t) =~= index_map(s).insert(b.id, b));
}

pub proof fn lemma_remove(s: Seq<BlockView>, i: int)
    requires
        ids_increasing(s),
        0 <= i < s.len(),
    ensures
        ids_increasing(s.remove(i)),
        index_map(s.remove(i)) == index_map(s).remove(s[i].id),
{
    let t = s.remove(i);
    let id0 = s[i].id;
    assert(ids_increasing(t)) by {
        assert forall|p: int, q: int| 0 <= p < q < t.len() implies t[p].id < t[q].id by {
            if q < i {
                assert(s[p].id < s[q].id);
            } else if p < i {
                assert(s[p].id < s[q + 1].id);
            } else {
                assert(s[p + 1].id < s[q + 1].id);
            }
        }
    }
    assert forall|id: u64| holds_id(t, id) == (holds_id(s, id) && id != id0) by {
        if holds_id(t, id) {
            let p = choose|p: int| 0 <= p < t.len() && t[p].id == id;
            if p < i {
                assert(s[p].id == id && s[p].id < s[i].id);
            } else {
                assert(s[p + 1].id == id && s[i].id < s[p + 1].id);
            }
        }
        if holds_id(s, id) && id != id0 {
            let p = choose|p: int| 0 <= p < s.len() && s[p].id == id;
            if p < i {
                assert(t[p].id == id);
            } else {
                assert(p != i);
                assert(t[p - 1].id == id);
            }
        }
    }
    assert forall|id: u64| #[trigger] holds_id(t, id) implies index_map(t)[id] == index_map(
        s,
    ).remove(id0)[id] by {
        let p = choose|p: int| 0 <= p < t.len() && t[p].id == id;
        lemma_entry(t, p);
        if p < i {
            lemma_entry(s, p);
        } else {
            lemma_entry(s, p + 1);
        }
    }
    assert(index_map(t) =~= index_map(s).remove(id0));
}

} // verus!
