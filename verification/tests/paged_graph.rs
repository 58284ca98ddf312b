use temporal_graph::graph;
use temporal_graph::graph::PagedGraph;
use temporal_graph::ingest::{parse_record, parse_u64};
use temporal_graph::prop::{Direction, Prop};

#[test]
fn test_insert_into_paged_graph() -> Result<(), graph::GraphError> {
    let mut graph = graph::PagedGraph::with_vec_page_manager();
    graph.add_outbound_edge(1, 1, 2, 1)?;
    graph.add_outbound_edge(2, 1, 3, 1)?;
    graph.add_outbound_edge(3, 1, 4, 2)?;
    graph.add_outbound_edge(4, 2, 5, 2)?;
    graph.add_outbound_edge(5, 3, 6, 2)?;

    println!("{:?}", graph);
    Ok(())
}

#[test]
fn outbound_edges_overflow_one_page() {
    // six events from one vertex span two pages (page capacity is four)
    let mut g = PagedGraph::with_vec_page_manager();
    for k in 0..6u64 {
        g.add_outbound_edge(k as i64, 1, 100 + k, k).unwrap();
    }
    let evs = g.edges(1, Direction::OUT, i64::MIN, i64::MAX);
    assert_eq!(evs.len(), 6);
    for (k, e) in evs.iter().enumerate() {
        assert_eq!(e.0, k as i64);
        assert_eq!(e.1.other, Some(100 + k as u64));
        assert_eq!(e.1.edge_key, Some(k as u64));
    }
    assert_eq!(g.degree(1, Direction::OUT, i64::MIN, i64::MAX), 6);
}

#[test]
fn neighbours_dedup_within_scan() {
    let mut g = PagedGraph::with_vec_page_manager();
    g.add_edge(1, 2, 1).unwrap();
    g.add_edge(1, 2, 5).unwrap();
    g.add_edge(1, 3, 7).unwrap();
    // parallel edges are kept as events but deduplicated as neighbours
    assert_eq!(g.edges(1, Direction::OUT, i64::MIN, i64::MAX).len(), 3);
    assert_eq!(g.neighbours(1, Direction::OUT, i64::MIN, i64::MAX), vec![2, 3]);
    assert_eq!(g.degree(1, Direction::OUT, i64::MIN, i64::MAX), 2);
}

#[test]
fn vertex_only_records_are_not_edges() {
    let mut g = PagedGraph::with_vec_page_manager();
    g.add_vertex(9, 4).unwrap();
    assert!(g.has_vertex(9, 0, 10));
    assert!(!g.has_vertex(9, 5, 10));
    assert_eq!(g.edges(9, Direction::BOTH, i64::MIN, i64::MAX).len(), 0);
    assert_eq!(g.degree(9, Direction::BOTH, i64::MIN, i64::MAX), 0);
}

#[test]
fn parse_record_reads_three_fields() {
    assert_eq!(
        parse_record(Some(b"1"), Some(b"2"), Some(b"3")),
        Some((1, 2, 3))
    );
    assert_eq!(parse_record(None, Some(b"2"), Some(b"3")), None);
    assert_eq!(parse_record(Some(b"1"), Some(b"x"), Some(b"3")), None);
    assert_eq!(parse_record(Some(b""), Some(b"2"), Some(b"3")), None);
}

#[test]
fn parse_u64_bounds() {
    assert_eq!(parse_u64(b"0"), Some(0));
    assert_eq!(parse_u64(b"18446744073709551615"), Some(u64::MAX));
    assert_eq!(parse_u64(b"18446744073709551616"), None);
    assert_eq!(parse_u64(b"12a"), None);
    assert_eq!(parse_u64(b""), None);
    assert_eq!(parse_u64(b"+42"), Some(42));
    assert_eq!(parse_u64(b"+"), None);
    assert_eq!(parse_u64(b"++1"), None);
}

#[test]
fn prop_equality_is_structural() {
    assert_eq!(Prop::Str("a".to_string()), Prop::Str("a".to_string()));
    assert_ne!(Prop::Str("a".to_string()), Prop::Str("b".to_string()));
    assert_eq!(Prop::F64(2.5f64.to_bits()), Prop::F64(2.5f64.to_bits()));
    assert_ne!(Prop::I64(1), Prop::U64(1));
    let c = Prop::Bool(true).clone();
    assert_eq!(c, Prop::Bool(true));
}

#[test]
fn static_property_rewrite_is_refused() {
    let mut g = PagedGraph::with_vec_page_manager();
    let name = "kind".to_string();
    assert!(g
        .add_vertex_static_property(1, &name, Prop::Str("a".to_string()))
        .is_ok());
    let second = g.add_vertex_static_property(1, &name, Prop::Str("b".to_string()));
    assert!(matches!(second, Err(graph::GraphError::StaticPropertyRewrite)));
    assert_eq!(
        g.static_property(1, &name),
        Some(Prop::Str("a".to_string()))
    );
}

#[test]
fn out_of_order_ingestion_reorders_history() {
    let mut g = PagedGraph::with_vec_page_manager();
    let name = "v".to_string();
    g.add_vertex_property(1, &name, 3, Prop::I64(30)).unwrap();
    g.add_vertex_property(1, &name, 1, Prop::I64(10)).unwrap();
    g.add_vertex_property(1, &name, 3, Prop::I64(33)).unwrap();
    let h = g.property_history(1, &name, i64::MIN, i64::MAX);
    assert_eq!(h, vec![(1, Prop::I64(10)), (3, Prop::I64(33))]);
}

#[test]
fn edge_properties_are_shared_by_parallel_edges() {
    let mut g = PagedGraph::with_vec_page_manager();
    g.add_edge(1, 2, 1).unwrap();
    g.add_edge(1, 2, 7).unwrap();
    let w = "weight".to_string();
    g.add_edge_property(1, 2, &w, 2, Prop::I64(5)).unwrap();
    g.add_edge_property(1, 2, &w, 8, Prop::I64(6)).unwrap();
    let h = g.edge_property_history(1, 2, &w, i64::MIN, i64::MAX);
    assert_eq!(h, vec![(2, Prop::I64(5)), (8, Prop::I64(6))]);
    assert!(g
        .add_edge_static_property(1, 2, &"cls".to_string(), Prop::Bool(true))
        .is_ok());
    assert!(g
        .add_edge_static_property(1, 2, &"cls".to_string(), Prop::Bool(false))
        .is_err());
}
