use digraph::graph::{Directed, Edge, EdgeIndex, Graph, IndexType, IntoWeightedEdge, NodeIndex};

#[test]
fn it_works() {
    let mut graph = Graph::<(), i32, Directed, i32>::new(2);

    graph.extend_with_edges(vec![(1, 2), (2, 3)]);

    let e = graph.get_edge(EdgeIndex::new(1));
    assert_eq!(3, e.unwrap().target().index());
}

#[test]
fn round_trip_usize() {
    assert_eq!(<usize as IndexType>::new(0).index(), 0);
    assert_eq!(<usize as IndexType>::new(12345).index(), 12345);
    assert_eq!(<usize as IndexType>::new(usize::MAX).index(), usize::MAX);
}

#[test]
fn round_trip_u32() {
    assert_eq!(<u32 as IndexType>::new(0).index(), 0);
    assert_eq!(<u32 as IndexType>::new(4_000_000_000).index(), 4_000_000_000);
    assert_eq!(
        <u32 as IndexType>::new(u32::MAX as usize).index(),
        u32::MAX as usize
    );
}

#[test]
fn round_trip_i32() {
    assert_eq!(<i32 as IndexType>::new(0).index(), 0);
    assert_eq!(<i32 as IndexType>::new(7).index(), 7);
    assert_eq!(
        <i32 as IndexType>::new(i32::MAX as usize).index(),
        i32::MAX as usize
    );
}

#[test]
fn narrowing_truncates_silently() {
    // Values above the width's maximum are truncated, not reported: only
    // representable values are promised to round-trip.
    let wide = (u32::MAX as usize) + 1;
    assert_eq!(<u32 as IndexType>::new(wide).index(), 0);
}

#[test]
fn max_is_the_width_sentinel() {
    assert_eq!(<usize as IndexType>::max().index(), usize::MAX);
    assert_eq!(<u32 as IndexType>::max().index(), u32::MAX as usize);
    assert_eq!(<i32 as IndexType>::max().index(), i32::MAX as usize);
}

#[test]
fn handles_expose_their_position() {
    assert_eq!(NodeIndex::new(9u32).index(), 9);
    assert_eq!(EdgeIndex::new(4usize).index(), 4);
}

#[test]
fn new_graph_has_zero_nodes() {
    let g = Graph::<u8, u32, Directed, u32>::new(16);
    assert_eq!(g.node_count(), 0);
    let h = Graph::<u8, u32, Directed, u32>::new(0);
    assert_eq!(h.node_count(), 0);
}

#[test]
fn pair_adapter_defaults_the_weight() {
    let (s, t, w): (u32, u32, i32) = (5u32, 7u32).into_weighted_edge();
    assert_eq!(s, 5);
    assert_eq!(t, 7);
    assert_eq!(w, 0);
}

#[test]
fn bulk_insert_grows_nodes_to_cover_indices() {
    let mut g = Graph::<(), i32, Directed, u32>::new(0);
    g.extend_with_edges(vec![(1u32, 2u32), (2, 3)]);
    // The highest referenced index is 3, so nodes 0..=3 exist.
    assert_eq!(g.node_count(), 4);
    // Exactly two edges were stored.
    assert!(g.get_edge(EdgeIndex::new(0)).is_some());
    assert!(g.get_edge(EdgeIndex::new(1)).is_some());
    assert!(g.get_edge(EdgeIndex::new(2)).is_none());
}

#[test]
fn bulk_insert_records_endpoints_and_default_weight() {
    let mut g = Graph::<(), i32, Directed, u32>::new(0);
    g.extend_with_edges(vec![(1u32, 2u32), (2, 3)]);
    let e0: &Edge<i32, u32> = g.get_edge(EdgeIndex::new(0)).unwrap();
    assert_eq!(e0.source().index(), 1);
    assert_eq!(e0.target().index(), 2);
    assert_eq!(e0.weight, 0);
    let e1 = g.get_edge(EdgeIndex::new(1)).unwrap();
    assert_eq!(e1.source().index(), 2);
    assert_eq!(e1.target().index(), 3);
}

#[test]
fn lookup_beyond_edge_count_is_absent() {
    let g = Graph::<(), i32, Directed, u32>::new(4);
    assert!(g.get_edge(EdgeIndex::new(0)).is_none());
    let mut h = Graph::<(), i32, Directed, u32>::new(0);
    h.extend_with_edges(vec![(0u32, 1u32)]);
    assert!(h.get_edge(EdgeIndex::new(1)).is_none());
    assert!(h.get_edge(EdgeIndex::new(1000)).is_none());
}

#[test]
fn add_edge_returns_positional_handles() {
    let mut g = Graph::<(), i32, Directed, u32>::new(0);
    g.extend_with_edges(vec![(0u32, 1u32)]);
    let e1 = g.add_edge(NodeIndex::new(0), NodeIndex::new(1), 5);
    assert_eq!(e1.index(), 1);
    let e2 = g.add_edge(NodeIndex::new(1), NodeIndex::new(0), 6);
    assert_eq!(e2.index(), 2);
    assert_eq!(g.get_edge(e1).unwrap().weight, 5);
    assert_eq!(g.get_edge(e2).unwrap().weight, 6);
}

#[test]
fn insertion_grows_both_incidence_lists_by_one() {
    let mut g = Graph::<(), i32, Directed, u32>::new(0);
    g.extend_with_edges(vec![(0u32, 1u32)]);
    assert_eq!(g.incidence_count(NodeIndex::new(0u32)), Some(1));
    assert_eq!(g.incidence_count(NodeIndex::new(1u32)), Some(1));
    // The edge records an asymmetric source/target pair, but the
    // bookkeeping is symmetric: both endpoint lists grow by one.
    g.add_edge(NodeIndex::new(0u32), NodeIndex::new(1u32), 9);
    assert_eq!(g.incidence_count(NodeIndex::new(0u32)), Some(2));
    assert_eq!(g.incidence_count(NodeIndex::new(1u32)), Some(2));
}

#[test]
fn self_loop_grows_the_one_list_twice() {
    let mut g = Graph::<(), i32, Directed, u32>::new(0);
    g.extend_with_edges(vec![(0u32, 1u32)]);
    g.add_edge(NodeIndex::new(1u32), NodeIndex::new(1u32), 3);
    assert_eq!(g.incidence_count(NodeIndex::new(0u32)), Some(1));
    assert_eq!(g.incidence_count(NodeIndex::new(1u32)), Some(3));
}

#[test]
fn incidence_count_is_absent_beyond_node_count() {
    let g = Graph::<(), i32, Directed, u32>::new(8);
    assert_eq!(g.incidence_count(NodeIndex::new(0u32)), None);
}
