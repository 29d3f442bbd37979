//! The classification of states by their place in the graph.

use crate::automata::{Automata, Graph};
use crate::edges::{lists_all, lists_from, EdgeKey};
use vstd::prelude::*;

verus! {

/// Kinds of automata nodes
///
/// - The terminal node is the one that the transition on the range of all
///   characters leads to
/// - A sink node is a node with more than one transition into it from
///   other nodes
/// - A fork node is a non-sink node with more than one transition from it
///   besides those to the terminal node
/// - A link node is a non-sink node with only one transition from it
///   besides those to the terminal node
/// - A leaf node is a non-sink node whose transitions all lead to the
///   terminal node
#[derive(Debug, Clone, Copy, PartialEq)]
pub enum NodeKind {
    Fork,
    Link,
    Leaf,
    Sink,
    Terminal,
}

impl<T> Graph<T> {
    /// The far edges of `state`: its transitions to states other than
    /// `terminal`.
    pub open spec fn far_edges(self, state: usize, terminal: usize) -> Set<EdgeKey> {
        self.edges.dom().filter(|e: EdgeKey| e.0 == state && self.edges[e] != terminal)
    }

    /// The far coedges of `state`: the transitions into it from other
    /// states.
    pub open spec fn far_coedges(self, state: usize) -> Set<EdgeKey> {
        self.edges.dom().filter(|e: EdgeKey| self.edges[e] == state && e.0 != state)
    }

    /// The kind of `state` where `terminal` is the terminal node. Being
    /// the terminal node comes first, then being a sink; only then the
    /// number of far edges counts.
    pub open spec fn kind_of(self, state: usize, terminal: usize) -> NodeKind {
        if state == terminal {
            NodeKind::Terminal
        } else if self.far_coedges(state).len() > 1 {
            NodeKind::Sink
        } else if self.far_edges(state, terminal).len() == 0 {
            NodeKind::Leaf
        } else if self.far_edges(state, terminal).len() == 1 {
            NodeKind::Link
        } else {
            NodeKind::Fork
        }
    }

    /// The kinds of the states, in the order of the states, where
    /// `terminal` is the terminal node.
    pub open spec fn kinds(self, terminal: usize) -> Seq<NodeKind> {
        Seq::new(self.states.len(), |i: int| self.kind_of(i as usize, terminal))
    }

    /// The list of kinds has one entry for each state, and `Terminal`
    /// stands at the terminal node and nowhere else.
    pub proof fn lemma_kinds_one_terminal(self, terminal: usize)
        requires
            terminal < self.states.len() <= usize::MAX,
        ensures
            self.kinds(terminal).len() == self.states.len(),
            forall|i: int|
                0 <= i < self.states.len() ==> (#[trigger] self.kinds(terminal)[i]
                    == NodeKind::Terminal <==> i == terminal),
    {
    }
}

impl<T> Automata<T> {
    /// The number of transitions from `state` to states other than
    /// `terminal`.
    fn count_far_edges(&self, state: usize, terminal: usize) -> (count: usize)
        ensures
            count == self@.far_edges(state, terminal).len(),
    {
        let outgoing = self.transitions_from(state);
        let mut count: usize = 0;
        let ghost mut seen: Set<EdgeKey> = Set::empty();
        let mut i: usize = 0;
        while i < outgoing.len()
            invariant
                i <= outgoing.len(),
                lists_from(self@.edges, state, outgoing@),
                count <= i,
                seen.finite(),
                seen.len() == count,
                forall|e: EdgeKey|
                    seen.contains(e) <==> exists|j: int|
                        0 <= j < i && e == (state, (#[trigger] outgoing[j]).0) && outgoing[j].1
                            != terminal,
            decreases outgoing.len() - i,
        {
            let (range, end) = outgoing[i];
            if end != terminal {
                proof {
                    assert(!seen.contains((state, range)));
                    seen = seen.insert((state, range));
                }
                count += 1;
            }
            i += 1;
        }
        proof {
            assert forall|e: EdgeKey|
                self@.far_edges(state, terminal).contains(e) implies seen.contains(e) by {
                assert(self@.edges.contains_key((state, e.1)));
            }
            assert(seen =~= self@.far_edges(state, terminal));
        }
        count
    }

    /// The number of transitions into `state` from other states, counted
    /// in `all`, the list of all transitions.
    fn count_far_coedges(&self, all: &Vec<(EdgeKey, usize)>, state: usize) -> (count:
        usize)
        requires
            lists_all(self@.edges, all@),
        ensures
            count == self@.far_coedges(state).len(),
    {
        let mut count: usize = 0;
        let ghost mut seen: Set<EdgeKey> = Set::empty();
        let mut i: usize = 0;
        while i < all.len()
            invariant
                i <= all.len(),
                lists_all(self@.edges, all@),
                count <= i,
                seen.finite(),
                seen.len() == count,
                forall|e: EdgeKey|
                    seen.contains(e) <==> exists|j: int|
                        0 <= j < i && e == (#[trigger] all[j]).0 && all[j].1 == state && e.0
                            != state,
            decreases all.len() - i,
        {
            let (edge, end) = all[i];
            if end == state && edge.0 != state {
                proof {
                    assert(!seen.contains(edge));
                    seen = seen.insert(edge);
                }
                count += 1;
            }
            i += 1;
        }
        proof {
            assert(seen =~= self@.far_coedges(state));
        }
        count
    }

    /// Return a list of node kinds of the automata states
    ///
    /// The indices of kinds in the list match the indices of
    /// corresponding states in the automata
    pub fn node_kinds(&self) -> (kinds: Vec<NodeKind>)
        requires
            self@.terminal() is Some,
        ensures
            kinds@ == self@.kinds(self@.terminal().unwrap()),
            kinds.len() == self.states.len(),
    {
        let terminal = self.find_terminal_node();
        let coedges = self.edges.entries();
        let mut kinds: Vec<NodeKind> = Vec::new();
        let mut i: usize = 0;
        while i < self.states.len()
            invariant
                i <= self.states.len(),
                lists_all(self@.edges, coedges@),
                kinds.len() == i,
                forall|j: int| 0 <= j < i ==> kinds[j] == self@.kind_of(j as usize, terminal),
            decreases self.states.len() - i,
        {
            let kind = if i == terminal {
                NodeKind::Terminal
            } else if self.count_far_coedges(&coedges, i) > 1 {
                NodeKind::Sink
            } else {
                match self.count_far_edges(i, terminal) {
                    0 => NodeKind::Leaf,
                    1 => NodeKind::Link,
                    _ => NodeKind::Fork,
                }
            };
            kinds.push(kind);
            i += 1;
        }
        assert(kinds@ =~= self@.kinds(terminal));
        kinds
    }
}

} // verus!
