//! Transitions as a mathematical map, and what it means to list them.
//!
//! A transition is told from others by its source state and its range;
//! the destination is what the map holds for that pair. The order of
//! transitions is by source state, then by range.

use crate::range::CharRange;
use vstd::prelude::*;

verus! {

/// What tells one transition from another: its source state and its range.
pub type EdgeKey = (usize, CharRange);

/// The transitions of an automaton, as a mathematical map from the source
/// state and the range to the destination state.
pub type EdgeMap = Map<EdgeKey, usize>;

/// The order of edges: by source, then by range.
pub open spec fn edge_lt(a: EdgeKey, b: EdgeKey) -> bool {
    a.0 < b.0 || (a.0 == b.0 && a.1.lt(b.1))
}

/// `keys` is in strictly ascending order of edges.
pub open spec fn ascending(keys: Seq<EdgeKey>) -> bool {
    forall|i: int, j: int| 0 <= i < j < keys.len() ==> edge_lt(keys[i], keys[j])
}

/// `out` lists the transitions that leave `state`: each of them once, with
/// its destination, in ascending order of ranges.
pub open spec fn lists_from(edges: EdgeMap, state: usize, out: Seq<(CharRange, usize)>) -> bool {
    &&& forall|i: int|
        0 <= i < out.len() ==> edges.contains_pair((state, (#[trigger] out[i]).0), out[i].1)
    &&& forall|r: CharRange| #[trigger]
        edges.contains_key((state, r)) ==> exists|i: int|
            0 <= i < out.len() && (#[trigger] out[i]).0 == r
    &&& forall|i: int, j: int|
        0 <= i < j < out.len() ==> (#[trigger] out[i]).0.lt((#[trigger] out[j]).0)
}

/// `out` lists all transitions: each of them once, with its destination,
/// in ascending order of edges.
pub open spec fn lists_all(edges: EdgeMap, out: Seq<(EdgeKey, usize)>) -> bool {
    &&& forall|i: int| 0 <= i < out.len() ==> edges.contains_pair((#[trigger] out[i]).0, out[i].1)
    &&& forall|e: EdgeKey| #[trigger]
        edges.contains_key(e) ==> exists|i: int| 0 <= i < out.len() && (#[trigger] out[i]).0 == e
    &&& forall|i: int, j: int|
        0 <= i < j < out.len() ==> edge_lt((#[trigger] out[i]).0, (#[trigger] out[j]).0)
}

/// Of two ascending lists with the same items, the second holds at each
/// place of the first what the first holds there.
proof fn lemma_ascending_agree(a: Seq<EdgeKey>, b: Seq<EdgeKey>, i: int)
    requires
        ascending(a),
        ascending(b),
        forall|k: int| 0 <= k < a.len() ==> b.contains(#[trigger] a[k]),
        forall|k: int| 0 <= k < b.len() ==> a.contains(#[trigger] b[k]),
        0 <= i < a.len(),
    ensures
        i < b.len(),
        a[i] == b[i],
    decreases i,
{
    assert forall|j: int| 0 <= j < i implies j < b.len() && a[j] == b[j] by {
        lemma_ascending_agree(a, b, j);
    }
    assert(b.contains(a[i]));
    let k = choose|k: int| 0 <= k < b.len() && b[k] == a[i];
    if k < i {
        assert(edge_lt(a[k], a[i]));
    } else if k > i {
        assert(edge_lt(b[i], b[k]));
        assert(a.contains(b[i]));
        let m = choose|m: int| 0 <= m < a.len() && a[m] == b[i];
        if m < i {
            assert(edge_lt(b[m], b[i]));
        } else if m > i {
            assert(edge_lt(a[i], a[m]));
        }
    }
}

/// Two ascending lists with the same items are one list.
pub proof fn lemma_ascending_unique(a: Seq<EdgeKey>, b: Seq<EdgeKey>)
    requires
        ascending(a),
        ascending(b),
        forall|k: int| 0 <= k < a.len() ==> b.contains(#[trigger] a[k]),
        forall|k: int| 0 <= k < b.len() ==> a.contains(#[trigger] b[k]),
    ensures
        a == b,
{
    assert forall|i: int| 0 <= i < a.len() implies i < b.len() && a[i] == b[i] by {
        lemma_ascending_agree(a, b, i);
    }
    if a.len() > 0 {
        lemma_ascending_agree(a, b, a.len() - 1);
    }
    if b.len() > 0 {
        lemma_ascending_agree(b, a, b.len() - 1);
    }
    assert(a =~= b);
}

/// The transitions have one list: what [`lists_all`] says of a list, it
/// says of no other.
pub proof fn lemma_lists_all_unique(
    edges: EdgeMap,
    a: Seq<(EdgeKey, usize)>,
    b: Seq<(EdgeKey, usize)>,
)
    requires
        lists_all(edges, a),
        lists_all(edges, b),
    ensures
        a == b,
{
    let a_keys = Seq::new(a.len(), |i: int| a[i].0);
    let b_keys = Seq::new(b.len(), |i: int| b[i].0);
    assert forall|k: int| 0 <= k < a.len() implies b_keys.contains(#[trigger] a_keys[k]) by {
        assert(edges.contains_key(a[k].0));
        let i = choose|i: int| 0 <= i < b.len() && (#[trigger] b[i]).0 == a[k].0;
        assert(b_keys[i] == a_keys[k]);
    }
    assert forall|k: int| 0 <= k < b.len() implies a_keys.contains(#[trigger] b_keys[k]) by {
        assert(edges.contains_key(b[k].0));
        let i = choose|i: int| 0 <= i < a.len() && (#[trigger] a[i]).0 == b[k].0;
        assert(a_keys[i] == b_keys[k]);
    }
    assert forall|i: int, j: int| 0 <= i < j < a_keys.len() implies edge_lt(
        a_keys[i],
        a_keys[j],
    ) by {
        assert(edge_lt(a[i].0, a[j].0));
    }
    assert forall|i: int, j: int| 0 <= i < j < b_keys.len() implies edge_lt(
        b_keys[i],
        b_keys[j],
    ) by {
        assert(edge_lt(b[i].0, b[j].0));
    }
    lemma_ascending_unique(a_keys, b_keys);
    assert(a.len() == a_keys.len() && b.len() == b_keys.len());
    assert forall|i: int| 0 <= i < a.len() implies a[i] == b[i] by {
        assert(a_keys[i] == b_keys[i]);
        assert(edges.contains_pair(a[i].0, a[i].1));
        assert(edges.contains_pair(b[i].0, b[i].1));
    }
    assert(a =~= b);
}

/// The transitions that leave `state`, as a map of their own.
pub open spec fn edges_of(edges: EdgeMap, state: usize) -> EdgeMap {
    edges.restrict(Set::new(|e: EdgeKey| e.0 == state))
}

/// A list of the transitions that leave `state`, each with its source put
/// before its range.
pub open spec fn with_source(state: usize, out: Seq<(CharRange, usize)>) -> Seq<(EdgeKey, usize)> {
    Seq::new(out.len(), |i: int| ((state, out[i].0), out[i].1))
}

/// To list the transitions that leave a state is to list all transitions
/// of the map that holds only those.
pub proof fn lemma_lists_from_lists_all(edges: EdgeMap, state: usize, out: Seq<(CharRange, usize)>)
    requires
        lists_from(edges, state, out),
    ensures
        lists_all(edges_of(edges, state), with_source(state, out)),
{
    let of_state = edges_of(edges, state);
    let all = with_source(state, out);
    assert forall|i: int| 0 <= i < all.len() implies of_state.contains_pair(
        (#[trigger] all[i]).0,
        all[i].1,
    ) by {
        assert(edges.contains_pair((state, out[i].0), out[i].1));
    }
    assert forall|e: EdgeKey| #[trigger] of_state.contains_key(e) implies exists|i: int|
        0 <= i < all.len() && (#[trigger] all[i]).0 == e by {
        assert(edges.contains_key((state, e.1)));
        let i = choose|i: int| 0 <= i < out.len() && (#[trigger] out[i]).0 == e.1;
        assert(all[i].0 == e);
    }
    assert forall|i: int, j: int| 0 <= i < j < all.len() implies edge_lt(
        (#[trigger] all[i]).0,
        (#[trigger] all[j]).0,
    ) by {
        assert(out[i].0.lt(out[j].0));
    }
}

/// A state's transitions have one list: what [`lists_from`] says of a
/// list, it says of no other.
pub proof fn lemma_lists_from_unique(
    edges: EdgeMap,
    state: usize,
    a: Seq<(CharRange, usize)>,
    b: Seq<(CharRange, usize)>,
)
    requires
        lists_from(edges, state, a),
        lists_from(edges, state, b),
    ensures
        a == b,
{
    lemma_lists_from_lists_all(edges, state, a);
    lemma_lists_from_lists_all(edges, state, b);
    lemma_lists_all_unique(edges_of(edges, state), with_source(state, a), with_source(state, b));
    assert(a.len() == with_source(state, a).len() && b.len() == with_source(state, b).len());
    assert forall|i: int| 0 <= i < a.len() implies a[i] == b[i] by {
        assert(with_source(state, a)[i] == with_source(state, b)[i]);
    }
    assert(a =~= b);
}

} // verus!
