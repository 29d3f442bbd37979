use sana_core::automata::{Automata, State};
use sana_core::classify::NodeKind;
use sana_core::range::CharRange;

fn digits() -> CharRange {
    CharRange::new('0', '9')
}

fn number_automata() -> Automata<&'static str> {
    let mut automata = Automata::new(State::Normal);
    automata.insert_state(State::Action("NUM"));
    automata.insert_edge(0, 1, digits());
    automata.insert_edge(1, 1, CharRange::full());
    automata
}

#[test]
fn new_has_one_state_and_no_edge() {
    let automata: Automata<u8> = Automata::new(State::Action(7));
    assert_eq!(automata.states.len(), 1);
    assert_eq!(automata.get(0), Some(&State::Action(7)));
    assert!(automata.edges.entries().is_empty());
    assert!(automata.transitions_from(0).is_empty());
}

#[test]
fn get_is_none_out_of_bounds() {
    let automata: Automata<u8> = Automata::new(State::Normal);
    assert_eq!(automata.get(0), Some(&State::Normal));
    assert_eq!(automata.get(1), None);
    assert_eq!(automata.get(usize::MAX), None);
}

#[test]
fn insert_state_appends() {
    let mut automata = Automata::new(State::Normal);
    automata.insert_state(State::Action("A"));
    automata.insert_state(State::Action("B"));
    assert_eq!(automata.states.len(), 3);
    assert_eq!(automata.get(0), Some(&State::Normal));
    assert_eq!(automata.get(1), Some(&State::Action("A")));
    assert_eq!(automata.get(2), Some(&State::Action("B")));
    assert_eq!(automata.get(3), None);
}

#[test]
fn insert_edge_overwrites_the_same_key() {
    let mut automata: Automata<u8> = Automata::new(State::Normal);
    automata.insert_state(State::Normal);
    automata.insert_state(State::Normal);
    automata.insert_edge(0, 1, digits());
    automata.insert_edge(0, 2, digits());
    assert_eq!(automata.transitions_from(0), vec![(digits(), 2)]);
    assert_eq!(automata.transite(0, '4'), Some(2));
}

#[test]
fn insert_edge_keeps_overlapping_ranges_apart() {
    let mut automata: Automata<u8> = Automata::new(State::Normal);
    automata.insert_edge(0, 1, CharRange::new('a', 'm'));
    automata.insert_edge(0, 2, CharRange::new('h', 'z'));
    assert_eq!(
        automata.transitions_from(0),
        vec![
            (CharRange::new('a', 'm'), 1),
            (CharRange::new('h', 'z'), 2)
        ]
    );
}

#[test]
fn transitions_from_is_in_ascending_range_order() {
    let mut automata: Automata<u8> = Automata::new(State::Normal);
    automata.insert_edge(0, 5, CharRange::new('x', 'z'));
    automata.insert_edge(0, 4, CharRange::new('a', 'c'));
    automata.insert_edge(0, 3, CharRange::new('a', 'b'));
    automata.insert_edge(0, 2, CharRange::new('\u{E000}', '\u{10FFFF}'));
    automata.insert_edge(0, 1, CharRange::new('\0', '\0'));
    let out = automata.transitions_from(0);
    assert_eq!(
        out,
        vec![
            (CharRange::new('\0', '\0'), 1),
            (CharRange::new('a', 'b'), 3),
            (CharRange::new('a', 'c'), 4),
            (CharRange::new('x', 'z'), 5),
            (CharRange::new('\u{E000}', '\u{10FFFF}'), 2),
        ]
    );
    for pair in out.windows(2) {
        assert!(pair[0].0 < pair[1].0);
    }
}

#[test]
fn transitions_from_leaves_other_states_out() {
    let mut automata: Automata<u8> = Automata::new(State::Normal);
    automata.insert_state(State::Normal);
    automata.insert_state(State::Normal);
    automata.insert_edge(0, 1, CharRange::new('a', 'a'));
    automata.insert_edge(1, 2, CharRange::new('b', 'b'));
    automata.insert_edge(1, 0, CharRange::full());
    automata.insert_edge(2, 0, CharRange::new('c', 'c'));
    assert_eq!(
        automata.transitions_from(1),
        vec![(CharRange::full(), 0), (CharRange::new('b', 'b'), 2)]
    );
    assert_eq!(
        automata.transitions_from(2),
        vec![(CharRange::new('c', 'c'), 0)]
    );
    assert!(automata.transitions_from(3).is_empty());
    assert!(automata.transitions_from(usize::MAX).is_empty());
}

#[test]
fn transitions_from_holds_the_sentinel_ranges() {
    let mut automata: Automata<u8> = Automata::new(State::Normal);
    automata.insert_edge(0, 1, CharRange::highest());
    automata.insert_edge(0, 2, CharRange::lowest());
    automata.insert_edge(1, 3, CharRange::lowest());
    assert_eq!(
        automata.transitions_from(0),
        vec![(CharRange::lowest(), 2), (CharRange::highest(), 1)]
    );
}

#[test]
fn transite_follows_the_covering_range() {
    let mut automata: Automata<u8> = Automata::new(State::Normal);
    automata.insert_edge(0, 1, CharRange::new('a', 'f'));
    automata.insert_edge(0, 2, CharRange::new('g', 'z'));
    assert_eq!(automata.transite(0, 'a'), Some(1));
    assert_eq!(automata.transite(0, 'f'), Some(1));
    assert_eq!(automata.transite(0, 'g'), Some(2));
    assert_eq!(automata.transite(0, 'z'), Some(2));
    assert_eq!(automata.transite(0, 'A'), None);
    assert_eq!(automata.transite(0, '{'), None);
    assert_eq!(automata.transite(1, 'a'), None);
}

#[test]
fn transite_takes_the_first_of_overlapping_ranges() {
    let mut automata: Automata<u8> = Automata::new(State::Normal);
    automata.insert_edge(0, 2, CharRange::new('h', 'z'));
    automata.insert_edge(0, 1, CharRange::new('a', 'm'));
    automata.insert_edge(0, 3, CharRange::new('a', 'k'));
    assert_eq!(automata.transite(0, 'j'), Some(3));
    assert_eq!(automata.transite(0, 'l'), Some(1));
    assert_eq!(automata.transite(0, 'n'), Some(2));
}

#[test]
fn number_automata_scenario() {
    let automata = number_automata();
    assert_eq!(automata.find_terminal_node(), 1);
    assert_eq!(automata.terminal_node(), Some(1));
    assert_eq!(automata.transite(0, '5'), Some(1));
    assert_eq!(automata.transite(0, 'a'), None);
    assert_eq!(
        automata.node_kinds(),
        vec![NodeKind::Leaf, NodeKind::Terminal]
    );
}

#[test]
fn terminal_node_is_none_without_a_full_range_edge() {
    let mut automata: Automata<u8> = Automata::new(State::Normal);
    automata.insert_state(State::Normal);
    automata.insert_edge(0, 1, CharRange::new('\0', '\u{10FFFE}'));
    automata.insert_edge(1, 0, CharRange::new('\u{1}', char::MAX));
    assert_eq!(automata.terminal_node(), None);
}

#[test]
fn terminal_node_ignores_states_that_do_not_exist() {
    let mut automata: Automata<u8> = Automata::new(State::Normal);
    automata.insert_edge(1, 0, CharRange::full());
    assert_eq!(automata.terminal_node(), None);
    automata.insert_state(State::Normal);
    assert_eq!(automata.terminal_node(), Some(0));
}

#[test]
fn terminal_node_goes_by_the_first_marking_state() {
    let mut automata: Automata<u8> = Automata::new(State::Normal);
    automata.insert_state(State::Normal);
    automata.insert_state(State::Normal);
    automata.insert_edge(2, 0, CharRange::full());
    automata.insert_edge(1, 2, CharRange::full());
    assert_eq!(automata.find_terminal_node(), 2);
    automata.insert_edge(0, 1, CharRange::full());
    assert_eq!(automata.find_terminal_node(), 1);
}

#[test]
fn terminal_node_need_not_be_the_marking_state() {
    let mut automata: Automata<u8> = Automata::new(State::Normal);
    automata.insert_state(State::Normal);
    automata.insert_edge(0, 1, CharRange::full());
    assert_eq!(automata.find_terminal_node(), 1);
    assert_eq!(
        automata.node_kinds(),
        vec![NodeKind::Leaf, NodeKind::Terminal]
    );
}

#[test]
fn sink_dominates_the_edge_count() {
    // 0 and 1 both lead into 2, which has one far edge of its own, to 3;
    // 4 is the terminal node.
    let mut automata: Automata<u8> = Automata::new(State::Normal);
    for _ in 0..4 {
        automata.insert_state(State::Normal);
    }
    automata.insert_edge(0, 2, CharRange::new('a', 'a'));
    automata.insert_edge(1, 2, CharRange::new('b', 'b'));
    automata.insert_edge(2, 3, CharRange::new('c', 'c'));
    automata.insert_edge(4, 4, CharRange::full());
    let kinds = automata.node_kinds();
    assert_eq!(kinds[2], NodeKind::Sink);
    assert_eq!(
        kinds,
        vec![
            NodeKind::Link,
            NodeKind::Link,
            NodeKind::Sink,
            NodeKind::Leaf,
            NodeKind::Terminal
        ]
    );
}

#[test]
fn node_kinds_by_the_number_of_far_edges() {
    // 0 forks to 1 and 2; 1 links to 3; 2 and 3 only reach the terminal 4.
    let mut automata: Automata<u8> = Automata::new(State::Normal);
    for _ in 0..4 {
        automata.insert_state(State::Normal);
    }
    automata.insert_edge(0, 1, CharRange::new('a', 'a'));
    automata.insert_edge(0, 2, CharRange::new('b', 'b'));
    automata.insert_edge(0, 4, CharRange::new('c', 'c'));
    automata.insert_edge(1, 3, CharRange::new('a', 'z'));
    automata.insert_edge(1, 4, CharRange::new('0', '9'));
    automata.insert_edge(2, 4, CharRange::new('a', 'z'));
    automata.insert_edge(4, 4, CharRange::full());
    assert_eq!(automata.find_terminal_node(), 4);
    assert_eq!(
        automata.node_kinds(),
        vec![
            NodeKind::Fork,
            NodeKind::Link,
            NodeKind::Leaf,
            NodeKind::Leaf,
            NodeKind::Terminal
        ]
    );
}

#[test]
fn self_loops_are_far_edges_but_no_far_coedges() {
    // 0 loops on itself twice and is entered once from 1: a fork, no sink.
    let mut automata: Automata<u8> = Automata::new(State::Normal);
    automata.insert_state(State::Normal);
    automata.insert_state(State::Normal);
    automata.insert_edge(0, 0, CharRange::new('a', 'a'));
    automata.insert_edge(0, 0, CharRange::new('b', 'b'));
    automata.insert_edge(1, 0, CharRange::new('c', 'c'));
    automata.insert_edge(2, 2, CharRange::full());
    assert_eq!(
        automata.node_kinds(),
        vec![NodeKind::Fork, NodeKind::Link, NodeKind::Terminal]
    );
}

#[test]
fn two_edges_from_one_state_make_a_sink() {
    let mut automata: Automata<u8> = Automata::new(State::Normal);
    automata.insert_state(State::Normal);
    automata.insert_state(State::Normal);
    automata.insert_edge(0, 1, CharRange::new('a', 'a'));
    automata.insert_edge(0, 1, CharRange::new('b', 'b'));
    automata.insert_edge(2, 2, CharRange::full());
    assert_eq!(
        automata.node_kinds(),
        vec![NodeKind::Fork, NodeKind::Sink, NodeKind::Terminal]
    );
}

#[test]
fn edges_from_states_that_do_not_exist_count_as_coedges() {
    let mut automata: Automata<u8> = Automata::new(State::Normal);
    automata.insert_state(State::Normal);
    automata.insert_edge(7, 0, CharRange::new('a', 'a'));
    automata.insert_edge(9, 0, CharRange::new('a', 'a'));
    automata.insert_edge(1, 1, CharRange::full());
    assert_eq!(
        automata.node_kinds(),
        vec![NodeKind::Sink, NodeKind::Terminal]
    );
}

#[test]
fn terminal_edges_into_a_state_count_as_coedges() {
    // The terminal node 1 leads back into 0 twice.
    let mut automata: Automata<u8> = Automata::new(State::Normal);
    automata.insert_state(State::Normal);
    automata.insert_edge(0, 1, CharRange::full());
    automata.insert_edge(1, 0, CharRange::new('a', 'a'));
    automata.insert_edge(1, 0, CharRange::new('b', 'b'));
    assert_eq!(
        automata.node_kinds(),
        vec![NodeKind::Sink, NodeKind::Terminal]
    );
}

#[test]
fn node_kinds_has_one_terminal_at_the_terminal_node() {
    let mut automata: Automata<u8> = Automata::new(State::Normal);
    for _ in 0..5 {
        automata.insert_state(State::Normal);
    }
    automata.insert_edge(0, 1, CharRange::new('a', 'a'));
    automata.insert_edge(1, 2, CharRange::new('a', 'a'));
    automata.insert_edge(2, 3, CharRange::full());
    automata.insert_edge(4, 5, CharRange::full());
    let terminal = automata.find_terminal_node();
    let kinds = automata.node_kinds();
    assert_eq!(terminal, 3);
    assert_eq!(kinds.len(), automata.states.len());
    for (i, kind) in kinds.iter().enumerate() {
        assert_eq!(*kind == NodeKind::Terminal, i == terminal);
    }
}

#[test]
fn node_kinds_has_no_terminal_where_the_terminal_node_is_no_state() {
    let mut automata: Automata<u8> = Automata::new(State::Normal);
    automata.insert_edge(0, 5, CharRange::full());
    assert_eq!(automata.find_terminal_node(), 5);
    assert_eq!(automata.node_kinds(), vec![NodeKind::Leaf]);
}

#[test]
fn clone_is_independent() {
    let automata = number_automata();
    let mut copy = automata.clone();
    copy.insert_state(State::Normal);
    copy.insert_edge(0, 2, CharRange::new('a', 'z'));
    assert_eq!(automata.states.len(), 2);
    assert_eq!(automata.transite(0, 'a'), None);
    assert_eq!(copy.states.len(), 3);
    assert_eq!(copy.transite(0, 'a'), Some(2));
    assert_eq!(copy.transite(0, '5'), Some(1));
}
