//! The ordered index of transitions.
//!
//! Transitions are kept in a [`BTreeMap`] keyed by the source state and the
//! code points of the range's two ends, so that the map's order is the
//! order of edges: by source, then by range. [`EdgeIndex`] hides that
//! encoding: its view is the map from the source state and the range to
//! the destination state.

use crate::edges::{edge_lt, lists_all, lists_from, EdgeKey, EdgeMap};
use crate::range::CharRange;
use std::collections::BTreeMap;
use vstd::prelude::*;
use vstd::std_specs::iter::IteratorSpec;

verus! {

/// A key as the map stores it: the source state, then the code points of
/// the range's start and end.
type RawKey = (usize, u32, u32);

/// Whether `c` is the code point of a character.
pub open spec fn is_scalar(c: u32) -> bool {
    c <= 0xD7FF || (0xE000 <= c && c <= 0x10FFFF)
}

/// The stored key of an edge.
spec fn key_of(e: EdgeKey) -> RawKey {
    (e.0, e.1.start as u32, e.1.end as u32)
}

/// The order of stored keys: that of tuples, component by component.
spec fn key_lt(a: RawKey, b: RawKey) -> bool {
    a.0 < b.0 || (a.0 == b.0 && (a.1 < b.1 || (a.1 == b.1 && a.2 < b.2)))
}

/// `a` is `b` or comes before it.
spec fn key_le(a: RawKey, b: RawKey) -> bool {
    a == b || key_lt(a, b)
}

/// What [`char::from_u32`] returns: the character whose code point is `i`,
/// and `None` where `i` is a surrogate or lies above the last character.
pub assume_specification[ char::from_u32 ](i: u32) -> (c: Option<char>)
    ensures
        c == (if is_scalar(i) {
            Some(i as char)
        } else {
            None
        }),
;

/// The entries of `map` whose keys lie between `lo` and `hi`, both
/// included, as [`BTreeMap::range`] yields them. Trusted: the items are
/// the map's entries within the bounds, all of them, in ascending order of
/// keys. The map panics on bounds in the wrong order, which `requires`
/// rules out.
#[verifier::external_body]
fn scan(map: &BTreeMap<RawKey, usize>, lo: RawKey, hi: RawKey) -> (out: Vec<(RawKey, usize)>)
    requires
        key_le(lo, hi),
    ensures
        forall|i: int|
            0 <= i < out@.len() ==> {
                let k = (#[trigger] out@[i]).0;
                &&& key_le(lo, k)
                &&& key_le(k, hi)
                &&& map@.contains_pair(k, out@[i].1)
            },
        forall|k: RawKey|
            #[trigger] map@.contains_key(k) && key_le(lo, k) && key_le(k, hi) ==> exists|i: int|
                0 <= i < out@.len() && (#[trigger] out@[i]).0 == k,
        forall|i: int, j: int|
            0 <= i < j < out@.len() ==> key_lt((#[trigger] out@[i]).0, (#[trigger] out@[j]).0),
{
    map.range(lo..=hi).map(|(k, v)| (*k, *v)).collect()
}

/// Stored keys are compared component by component, which is what vstd
/// asks of the keys of a map before it says anything of the map.
proof fn lemma_keys_comparable()
    ensures
        vstd::laws_cmp::obeys_cmp::<RawKey>(),
        vstd::std_specs::btree::key_obeys_cmp_spec::<RawKey>(),
{
    broadcast use vstd::laws_cmp::group_laws_cmp;
    broadcast use vstd::std_specs::btree::group_btree_axioms;

}

/// A sequence of stored keys that vstd calls increasing is in ascending
/// order of keys.
proof fn lemma_increasing_keys(keys: Seq<RawKey>)
    requires
        vstd::std_specs::btree::increasing_seq(keys),
    ensures
        forall|i: int, j: int| 0 <= i < j < keys.len() ==> key_lt(keys[i], keys[j]),
{
    broadcast use vstd::laws_cmp::group_laws_cmp;
    broadcast use vstd::std_specs::btree::group_btree_axioms;

    assert forall|i: int, j: int| 0 <= i < j < keys.len() implies key_lt(keys[i], keys[j]) by {
        assert(vstd::std_specs::cmp::OrdSpec::cmp_spec(&keys[i], &keys[j]) is Less);
    }
}

/// The stored key of the edge from `from` on `range`.
fn key(from: usize, range: CharRange) -> (k: RawKey)
    ensures
        k == key_of((from, range)),
        is_scalar(k.1),
        is_scalar(k.2),
{
    (from, range.start as u32, range.end as u32)
}

/// The range that a stored key stands for.
fn range_of(k: RawKey) -> (range: CharRange)
    requires
        is_scalar(k.1),
        is_scalar(k.2),
    ensures
        key_of((k.0, range)) == k,
{
    let start = char::from_u32(k.1).unwrap();
    let end = char::from_u32(k.2).unwrap();
    CharRange { start, end }
}

/// The least and the greatest key that a transition from `state` can have:
/// those of its lowest and of its highest single-character range.
fn state_range(state: usize) -> (bounds: (RawKey, RawKey))
    ensures
        bounds.0 == key_of((state, CharRange::lowest())),
        bounds.1 == key_of((state, CharRange::highest())),
{
    (key(state, CharRange::lowest()), key(state, CharRange::highest()))
}

/// An ordered index of transitions: at most one destination for each pair
/// of a source state and a range.
#[derive(Debug)]
pub struct EdgeIndex {
    map: BTreeMap<RawKey, usize>,
}

impl View for EdgeIndex {
    type V = EdgeMap;

    closed spec fn view(&self) -> EdgeMap {
        Map::new(
            |e: EdgeKey| self.map@.contains_key(key_of(e)),
            |e: EdgeKey| self.map@[key_of(e)],
        )
    }
}

impl Clone for EdgeIndex {
    fn clone(&self) -> (copy: EdgeIndex)
        ensures
            copy@ == self@,
    {
        proof {
            use_type_invariant(self);
        }
        EdgeIndex { map: self.map.clone() }
    }
}

impl EdgeIndex {
    /// Every stored key holds the code points of two characters.
    #[verifier::type_invariant]
    spec fn inv(&self) -> bool {
        forall|k: RawKey| #[trigger] self.map@.contains_key(k) ==> is_scalar(k.1) && is_scalar(k.2)
    }

    /// An index holds finitely many transitions.
    pub proof fn lemma_finite(&self)
        ensures
            self@.dom().finite(),
    {
        broadcast use vstd::std_specs::btree::group_btree_axioms;

        let keys = self.map@.dom();
        let edge_of = |k: RawKey| (k.0, CharRange { start: k.1 as char, end: k.2 as char });
        keys.lemma_map_finite(edge_of);
        assert forall|e: EdgeKey| self@.dom().contains(e) implies keys.map(edge_of).contains(
            e,
        ) by {
            assert(keys.contains(key_of(e)));
            assert(edge_of(key_of(e)) == e);
        }
        vstd::set_lib::lemma_set_subset_finite(keys.map(edge_of), self@.dom());
    }

    /// An index without transitions.
    pub fn new() -> (index: EdgeIndex)
        ensures
            index@ == EdgeMap::empty(),
    {
        let index = EdgeIndex { map: BTreeMap::new() };
        assert(index@ =~= EdgeMap::empty());
        index
    }

    /// Sets the destination of the transition from `from` on `range` to
    /// `to`, whether or not that transition had one before.
    pub fn insert(&mut self, from: usize, range: CharRange, to: usize)
        ensures
            final(self)@ == old(self)@.insert((from, range), to),
    {
        proof {
            use_type_invariant(&*self);
            lemma_keys_comparable();
        }
        let k = key(from, range);
        // The map leaves the index while it changes, so that the index is
        // whole at every step.
        let mut map = BTreeMap::new();
        core::mem::swap(&mut self.map, &mut map);
        map.insert(k, to);
        self.map = map;
        assert(self@ =~= old(self)@.insert((from, range), to));
    }

    /// The transitions that leave `state`, in ascending order of ranges,
    /// found by one scan of the keys between the state's two sentinels.
    pub fn outgoing(&self, state: usize) -> (out: Vec<(CharRange, usize)>)
        ensures
            lists_from(self@, state, out@),
    {
        proof {
            use_type_invariant(self);
        }
        let (lo, hi) = state_range(state);
        let found = scan(&self.map, lo, hi);
        let mut out: Vec<(CharRange, usize)> = Vec::new();
        let mut i: usize = 0;
        while i < found.len()
            invariant
                i <= found.len(),
                out.len() == i,
                forall|j: int|
                    0 <= j < found.len() ==> is_scalar((#[trigger] found[j]).0.1) && is_scalar(
                        found[j].0.2,
                    ),
                forall|j: int|
                    0 <= j < i ==> key_of((found[j].0.0, (#[trigger] out[j]).0)) == found[j].0
                        && out[j].1 == found[j].1,
            decreases found.len() - i,
        {
            let (k, to) = found[i];
            out.push((range_of(k), to));
            i += 1;
        }
        proof {
            assert forall|r: CharRange| #[trigger] self@.contains_key((state, r)) implies exists|
                i: int,
            | 0 <= i < out.len() && (#[trigger] out[i]).0 == r by {
                let k = key_of((state, r));
                assert(self.map@.contains_key(k));
                let i = choose|i: int| 0 <= i < found.len() && (#[trigger] found[i]).0 == k;
                assert(out[i].0 == r);
            }
        }
        out
    }

    /// All transitions, in ascending order of edges.
    pub fn entries(&self) -> (out: Vec<(EdgeKey, usize)>)
        ensures
            lists_all(self@, out@),
    {
        proof {
            use_type_invariant(self);
            lemma_keys_comparable();
        }
        broadcast use vstd::std_specs::btree::group_btree_axioms;

        let mut out: Vec<(EdgeKey, usize)> = Vec::new();
        for kv in it: self.map.iter()
            invariant
                it.seq() == self.map.iter().remaining(),
                out.len() == it.index(),
                forall|k: RawKey| #[trigger]
                    self.map@.contains_key(k) ==> is_scalar(k.1) && is_scalar(k.2),
                forall|j: int|
                    0 <= j < it.index() ==> key_of((#[trigger] out[j]).0) == *it.seq()[j].0
                        && out[j].1 == *it.seq()[j].1,
        {
            let (k, to) = kv;
            assert(kv == it.seq()[it.index()]);
            assert(self.map@.contains_key(*k));
            out.push(((k.0, range_of(*k)), *to));
        }
        proof {
            let items = self.map.iter().remaining();
            let keys = items.map_values(|kv: (&RawKey, &usize)| *kv.0);
            lemma_increasing_keys(keys);
            assert forall|i: int, j: int| 0 <= i < j < out.len() implies edge_lt(
                (#[trigger] out[i]).0,
                (#[trigger] out[j]).0,
            ) by {
                assert(key_lt(keys[i], keys[j]));
            }
            assert forall|e: EdgeKey| #[trigger] self@.contains_key(e) implies exists|i: int|
                0 <= i < out.len() && (#[trigger] out[i]).0 == e by {
                let k = key_of(e);
                assert(self.map@.contains_key(k));
                assert(items.contains((&k, &self.map@[k])));
                let i = choose|i: int| 0 <= i < items.len() && items[i] == (&k, &self.map@[k]);
                assert(out[i].0 == e);
            }
        }
        out
    }
}

} // verus!
