use shipyard_relations::relation_mode::{
    Directed, DirectedExclusive, DirectedExclusiveIncoming, DirectedExclusiveOutgoing,
    Undirected, UndirectedExclusive,
};
use shipyard_relations::RelationMode;

#[test]
fn mode_table() {
    assert!(Directed::is_directed());
    assert!(!Directed::is_exclusive_incoming());
    assert!(!Directed::is_exclusive_outgoing());

    assert!(DirectedExclusive::is_directed());
    assert!(DirectedExclusive::is_exclusive_incoming());
    assert!(DirectedExclusive::is_exclusive_outgoing());

    assert!(DirectedExclusiveIncoming::is_directed());
    assert!(DirectedExclusiveIncoming::is_exclusive_incoming());
    assert!(!DirectedExclusiveIncoming::is_exclusive_outgoing());

    assert!(DirectedExclusiveOutgoing::is_directed());
    assert!(!DirectedExclusiveOutgoing::is_exclusive_incoming());
    assert!(DirectedExclusiveOutgoing::is_exclusive_outgoing());

    assert!(!Undirected::is_directed());
    assert!(!Undirected::is_exclusive_incoming());
    assert!(!Undirected::is_exclusive_outgoing());

    assert!(!UndirectedExclusive::is_directed());
    assert!(UndirectedExclusive::is_exclusive_incoming());
    assert!(UndirectedExclusive::is_exclusive_outgoing());
}
