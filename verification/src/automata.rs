//! Finite state automata: states, transitions, stepping and the terminal
//! state.

pub use crate::classify::NodeKind;
use crate::edges::{lists_from, EdgeMap};
use crate::index::EdgeIndex;
pub use crate::range::CharRange;
use crate::range::{FIRST_CHAR, LAST_CHAR};
use vstd::prelude::*;

verus! {

/// A state of an automaton: a pass-through state, or one that completes a
/// token and carries its action.
#[derive(Debug, Clone, Copy, PartialEq)]
pub enum State<T> {
    Normal,
    Action(T),
}

/// An automaton as a mathematical object: the sequence of its states, and
/// the map from a source state and a range to the destination state.
pub ghost struct Graph<T> {
    pub states: Seq<State<T>>,
    pub edges: EdgeMap,
}

impl<T> Graph<T> {
    /// `state` has a transition on `range`, and `range` contains `ch`.
    pub open spec fn covers(self, state: usize, range: CharRange, ch: char) -> bool {
        self.edges.contains_key((state, range)) && range.contains(ch)
    }

    /// Among the ranges on which `state` has a transition and which contain
    /// `ch`, `range` is the first in the order of ranges.
    pub open spec fn first_cover(self, state: usize, range: CharRange, ch: char) -> bool {
        &&& self.covers(state, range, ch)
        &&& forall|other: CharRange| #[trigger]
            self.covers(state, other, ch) ==> range.le(other)
    }

    /// Where the automaton goes from `state` on `ch`: to the destination of
    /// the first range, in the order of ranges, that leaves `state` and
    /// contains `ch`; nowhere if no range does.
    pub open spec fn step(self, state: usize, ch: char) -> Option<usize> {
        if exists|range: CharRange| self.covers(state, range, ch) {
            let first = choose|range: CharRange| self.first_cover(state, range, ch);
            Some(self.edges[(state, first)])
        } else {
            None
        }
    }

    /// `state` has a transition on the range of all characters, the mark
    /// of the terminal state. As a state has at most one transition on any
    /// one range, it then has exactly one such transition.
    pub open spec fn marks_terminal(self, state: usize) -> bool {
        self.edges.contains_key((state, CharRange::full()))
    }

    /// `state` is the first state that marks the terminal state.
    pub open spec fn first_marker(self, state: usize) -> bool {
        &&& state < self.states.len()
        &&& self.marks_terminal(state)
        &&& forall|earlier: usize| earlier < state ==> !self.marks_terminal(earlier)
    }

    /// The terminal state: the destination of the transition on the range
    /// of all characters that leaves the first state with such a
    /// transition. `None` if no state has one.
    pub open spec fn terminal(self) -> Option<usize> {
        if exists|state: usize| state < self.states.len() && self.marks_terminal(state) {
            let first = choose|state: usize| self.first_marker(state);
            Some(self.edges[(first, CharRange::full())])
        } else {
            None
        }
    }

    /// Stepping leads to the destination of the first range that covers
    /// the character.
    pub proof fn lemma_step_first_cover(self, state: usize, ch: char, range: CharRange)
        requires
            self.first_cover(state, range, ch),
        ensures
            self.step(state, ch) == Some(self.edges[(state, range)]),
    {
        let first = choose|range: CharRange| self.first_cover(state, range, ch);
        assert(self.covers(state, first, ch));
        assert(range.le(first) && first.le(range));
    }

    /// Stepping follows the list of the state's transitions: it leads to
    /// the destination of the first listed range that covers the character.
    pub proof fn lemma_step_first_listed(
        self,
        state: usize,
        ch: char,
        out: Seq<(CharRange, usize)>,
        i: int,
    )
        requires
            lists_from(self.edges, state, out),
            0 <= i < out.len(),
            out[i].0.contains(ch),
            forall|j: int| 0 <= j < i ==> !(#[trigger] out[j]).0.contains(ch),
        ensures
            self.step(state, ch) == Some(out[i].1),
    {
        let range = out[i].0;
        assert(self.edges.contains_pair((state, range), out[i].1));
        assert forall|other: CharRange| #[trigger] self.covers(state, other, ch) implies range.le(
            other,
        ) by {
            let j = choose|j: int| 0 <= j < out.len() && (#[trigger] out[j]).0 == other;
            if i < j {
                assert(out[i].0.lt(out[j].0));
            }
        }
        self.lemma_step_first_cover(state, ch, range);
    }

    /// Stepping leads nowhere where no listed range covers the character.
    pub proof fn lemma_step_none_listed(self, state: usize, ch: char, out: Seq<(CharRange, usize)>)
        requires
            lists_from(self.edges, state, out),
            forall|j: int| 0 <= j < out.len() ==> !(#[trigger] out[j]).0.contains(ch),
        ensures
            self.step(state, ch) is None,
    {
        assert forall|range: CharRange| !self.covers(state, range, ch) by {
            if self.edges.contains_key((state, range)) {
                let j = choose|j: int| 0 <= j < out.len() && (#[trigger] out[j]).0 == range;
                assert(!out[j].0.contains(ch));
            }
        }
    }

    /// Stepping leads to the destination of the range that covers the
    /// character, where exactly one range that leaves the state does.
    pub proof fn lemma_step_only_cover(self, state: usize, ch: char, range: CharRange)
        requires
            self.covers(state, range, ch),
            forall|other: CharRange| #[trigger] self.covers(state, other, ch) ==> other == range,
        ensures
            self.step(state, ch) == Some(self.edges[(state, range)]),
    {
        self.lemma_step_first_cover(state, ch, range);
    }

    /// Stepping leads nowhere on a character that no range leaving the
    /// state covers.
    pub proof fn lemma_step_uncovered(self, state: usize, ch: char)
        requires
            forall|range: CharRange| !self.covers(state, range, ch),
        ensures
            self.step(state, ch) is None,
    {
    }

    /// The terminal state is the one that the first marking state points
    /// to.
    pub proof fn lemma_terminal_first_marker(self, state: usize)
        requires
            self.first_marker(state),
        ensures
            self.terminal() == Some(self.edges[(state, CharRange::full())]),
    {
        let first = choose|state: usize| self.first_marker(state);
        assert(first == state);
    }

    /// Where some state marks the terminal state, one of them is the
    /// first to do so.
    pub proof fn lemma_first_marker_exists(self, state: usize) -> (first: usize)
        requires
            state < self.states.len(),
            self.marks_terminal(state),
        ensures
            first <= state,
            self.first_marker(first),
        decreases state,
    {
        if exists|earlier: usize| earlier < state && self.marks_terminal(earlier) {
            let earlier = choose|earlier: usize| earlier < state && self.marks_terminal(earlier);
            self.lemma_first_marker_exists(earlier)
        } else {
            state
        }
    }
}

/// Finite state automata.
///
/// States are addressed by their position in `states`, which only grows.
/// `edges` maps a source state and a range to the destination state.
/// Nothing here keeps the ranges that leave one state apart from each
/// other, nor the ends of a transition within `states`: both are up to
/// whoever builds the automaton.
#[derive(Debug)]
pub struct Automata<T> {
    pub states: Vec<State<T>>,
    pub edges: EdgeIndex,
}

impl<T> View for Automata<T> {
    type V = Graph<T>;

    open spec fn view(&self) -> Graph<T> {
        Graph { states: self.states@, edges: self.edges@ }
    }
}

impl<T: Clone> Clone for Automata<T> {
    fn clone(&self) -> (copy: Automata<T>)
        ensures
            copy@.states.len() == self@.states.len(),
            forall|i: int|
                0 <= i < self@.states.len() ==> cloned(self@.states[i], #[trigger] copy@.states[i]),
            copy@.edges == self@.edges,
    {
        Automata { states: self.states.clone(), edges: self.edges.clone() }
    }
}

impl<T> Automata<T> {
    /// Create an automata with the given initial state and no transition.
    pub fn new(initial: State<T>) -> (automata: Automata<T>)
        ensures
            automata@.states == seq![initial],
            automata@.edges == EdgeMap::empty(),
    {
        let mut states = Vec::new();
        states.push(initial);
        let automata = Automata { states, edges: EdgeIndex::new() };
        assert(automata.states@ =~= seq![initial]);
        automata
    }

    /// Get a state by index; `None` if the automata has no such state.
    pub fn get(&self, ix: usize) -> (state: Option<&State<T>>)
        ensures
            state == (if ix < self@.states.len() {
                Some(&self@.states[ix as int])
            } else {
                None
            }),
    {
        if ix < self.states.len() {
            Some(&self.states[ix])
        } else {
            None
        }
    }

    /// Insert a state into the automata, behind the states it has.
    pub fn insert_state(&mut self, state: State<T>)
        ensures
            final(self)@.states == old(self)@.states.push(state),
            final(self)@.edges == old(self)@.edges,
    {
        self.states.push(state)
    }

    /// Insert a transition from the state with index `from` to the state
    /// with index `to` on the character range `range`. A transition from
    /// `from` on the very same range gets the new destination; all other
    /// transitions stay as they are.
    pub fn insert_edge(&mut self, from: usize, to: usize, range: CharRange)
        ensures
            final(self)@.edges == old(self)@.edges.insert((from, range), to),
            final(self)@.states == old(self)@.states,
    {
        self.edges.insert(from, range, to);
    }

    /// All transitions from the given state, in ascending order of ranges.
    pub fn transitions_from(&self, state: usize) -> (out: Vec<(CharRange, usize)>)
        ensures
            lists_from(self@.edges, state, out@),
    {
        self.edges.outgoing(state)
    }

    /// Follow the transition from the given state by the given char.
    pub fn transite(&self, state: usize, ch: char) -> (next: Option<usize>)
        ensures
            next == self@.step(state, ch),
    {
        let outgoing = self.transitions_from(state);
        let mut i: usize = 0;
        while i < outgoing.len()
            invariant
                i <= outgoing.len(),
                lists_from(self@.edges, state, outgoing@),
                forall|j: int| 0 <= j < i ==> !(#[trigger] outgoing[j]).0.contains(ch),
            decreases outgoing.len() - i,
        {
            let (range, to) = outgoing[i];
            if range.contains(ch) {
                proof {
                    self@.lemma_step_first_listed(state, ch, outgoing@, i as int);
                }
                return Some(to);
            }
            i += 1;
        }
        proof {
            self@.lemma_step_none_listed(state, ch, outgoing@);
        }
        None
    }

    /// The terminal node of the automata, if it has one.
    ///
    /// States are tried in ascending order. Of each, the transitions on the
    /// range of all characters are gathered; the first state that has
    /// exactly one decides, and the destination of that transition is the
    /// terminal node.
    pub fn terminal_node(&self) -> (found: Option<usize>)
        ensures
            found == self@.terminal(),
    {
        let mut i: usize = 0;
        while i < self.states.len()
            invariant
                i <= self.states.len(),
                forall|earlier: usize| earlier < i ==> !self@.marks_terminal(earlier),
            decreases self.states.len() - i,
        {
            let outgoing = self.transitions_from(i);
            let mut ends: Vec<usize> = Vec::new();
            let mut k: usize = 0;
            while k < outgoing.len()
                invariant
                    k <= outgoing.len(),
                    lists_from(self@.edges, i, outgoing@),
                    ends.len() <= 1,
                    ends.len() == 0 ==> forall|j: int|
                        0 <= j < k ==> (#[trigger] outgoing[j]).0 != CharRange::full(),
                    ends.len() == 1 ==> exists|j: int|
                        0 <= j < k && (#[trigger] outgoing[j]).0 == CharRange::full()
                            && outgoing[j].1 == ends[0],
                decreases outgoing.len() - k,
            {
                let (range, end) = outgoing[k];
                if range.start == FIRST_CHAR && range.end == LAST_CHAR {
                    ends.push(end);
                }
                k += 1;
            }
            if ends.len() == 1 {
                proof {
                    self@.lemma_terminal_first_marker(i);
                }
                return Some(ends[0]);
            }
            i += 1;
        }
        None
    }

    /// Find the terminal node of the automata.
    ///
    /// An automata without a terminal state is malformed, and there is
    /// nothing to return for it: the caller sees to it that some state has
    /// a transition on the range of all characters.
    pub fn find_terminal_node(&self) -> (terminal: usize)
        requires
            self@.terminal() is Some,
        ensures
            self@.terminal() == Some(terminal),
    {
        match self.terminal_node() {
            Some(terminal) => terminal,
            None => vstd::pervasive::unreached(),
        }
    }
}

} // verus!
