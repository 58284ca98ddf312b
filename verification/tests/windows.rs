use temporal_graph::graph::PagedGraph;
use temporal_graph::prop::{Direction, Prop};
use temporal_graph::window::{GraphWindowSet, WindowedGraph};

fn scenario_graph() -> PagedGraph {
    let mut g = PagedGraph::with_vec_page_manager();
    g.add_edge(1, 2, 1).unwrap();
    g.add_edge(1, 3, 2).unwrap();
    g.add_edge(1, 4, 3).unwrap();
    g.add_edge(2, 5, 4).unwrap();
    g.add_edge(3, 6, 5).unwrap();
    g
}

#[test]
fn scenario_counts_unwindowed() {
    let g = scenario_graph();
    let w = WindowedGraph::new(&g, i64::MIN, i64::MAX);
    assert_eq!(w.num_vertices(), 6);
    assert_eq!(w.num_edges(), 5);
    let v1 = w.vertex(1).unwrap();
    assert_eq!(v1.out_degree(), 3);
    assert_eq!(w.earliest_time(), Some(1));
    assert_eq!(w.latest_time(), Some(5));
}

#[test]
fn scenario_window_two_to_four() {
    let g = scenario_graph();
    let w = WindowedGraph::new(&g, 2, 4);
    assert_eq!(w.num_edges(), 2);
    assert_eq!(g.neighbours(1, Direction::OUT, 2, 4), vec![3, 4]);
    assert_eq!(g.neighbours(2, Direction::OUT, 2, 4), Vec::<u64>::new());
    assert!(!w.has_edge(1, 2));
    assert!(w.has_edge(1, 3));
}

#[test]
fn edge_addition_is_visible_everywhere_the_time_is() {
    let mut g = PagedGraph::with_vec_page_manager();
    g.add_edge(10, 20, 5).unwrap();
    assert!(g.has_edge(10, 20, 5, 6));
    assert!(g.has_edge(10, 20, i64::MIN, i64::MAX));
    assert!(!g.has_edge(10, 20, 6, 10));
    assert!(g.neighbours(10, Direction::OUT, 0, 10).contains(&20));
    assert!(g.neighbours(20, Direction::IN, 0, 10).contains(&10));
    assert!(g.degree(10, Direction::OUT, 0, 10) >= 1);
    assert!(g.has_vertex(10, 5, 6));
    assert!(g.has_vertex(20, 5, 6));
}

#[test]
fn window_composition_matches_intersection() {
    let g = scenario_graph();
    let w = WindowedGraph::new(&g, 1, 5);
    let narrowed = w.window(2, 4);
    assert_eq!(narrowed.t_start, 2);
    assert_eq!(narrowed.t_end, 4);
    assert_eq!(narrowed.num_edges(), WindowedGraph::new(&g, 2, 4).num_edges());
    assert_eq!(
        g.neighbours(1, Direction::OUT, 2, 4),
        g.neighbours(1, Direction::OUT, narrowed.t_start, narrowed.t_end)
    );
}

#[test]
fn empty_window_yields_nothing_but_statics_keep_vertices() {
    let mut g = scenario_graph();
    let w = WindowedGraph::new(&g, 2, 2);
    assert_eq!(w.num_edges(), 0);
    assert_eq!(g.neighbours(1, Direction::BOTH, 2, 2), Vec::<u64>::new());
    assert!(!w.has_vertex(1));
    g.add_vertex_static_property(1, &"tag".to_string(), Prop::Bool(true))
        .unwrap();
    assert!(g.has_vertex(1, 2, 2));
    assert!(!g.has_vertex(2, 2, 2));
}

#[test]
fn sentinel_window_equals_unwindowed_view() {
    let g = scenario_graph();
    let all = g.edges(1, Direction::BOTH, i64::MIN, i64::MAX);
    assert_eq!(all.len(), 3);
    assert_eq!(g.num_edges(i64::MIN, i64::MAX), 5);
    assert_eq!(g.num_vertices(i64::MIN, i64::MAX), 6);
}

#[test]
fn only_in_edges_reports_out_degree_zero() {
    let g = scenario_graph();
    // vertex 5 has one in-edge and no out-edges
    assert_eq!(g.degree(5, Direction::OUT, i64::MIN, i64::MAX), 0);
    assert_eq!(g.edges(5, Direction::OUT, i64::MIN, i64::MAX).len(), 0);
    let in_edges = g.edges(5, Direction::IN, i64::MIN, i64::MAX);
    assert_eq!(in_edges.len(), 1);
    assert_eq!(in_edges[0].1.other, Some(2));
    assert_eq!(
        g.edges(5, Direction::BOTH, i64::MIN, i64::MAX),
        g.edges(5, Direction::IN, i64::MIN, i64::MAX)
    );
}

#[test]
fn property_history_round_trip() {
    let mut g = PagedGraph::with_vec_page_manager();
    let tag = "tag".to_string();
    g.add_vertex_property(1, &tag, 1, Prop::Str("a".to_string()))
        .unwrap();
    g.add_vertex_property(1, &tag, 3, Prop::Str("b".to_string()))
        .unwrap();
    let h = g.property_history(1, &tag, 1, 10);
    assert_eq!(
        h,
        vec![
            (1, Prop::Str("a".to_string())),
            (3, Prop::Str("b".to_string()))
        ]
    );
    assert_eq!(g.property_history(1, &tag, 2, 3), vec![]);
    assert_eq!(
        g.property(1, &tag, true),
        Some(Prop::Str("b".to_string()))
    );
    assert!(g.has_property(1, &tag, false));
}

#[test]
fn rolling_windows_emit_three_graphs() {
    let g = scenario_graph();
    let mut set = GraphWindowSet::new(&g, 0, 6, 2, 2);
    let w1 = set.next_window().unwrap();
    assert_eq!((w1.t_start, w1.t_end), (0, 2));
    assert_eq!(w1.num_edges(), 1);
    let w2 = set.next_window().unwrap();
    assert_eq!((w2.t_start, w2.t_end), (2, 4));
    assert_eq!(w2.num_edges(), 2);
    let w3 = set.next_window().unwrap();
    assert_eq!((w3.t_start, w3.t_end), (4, 6));
    assert_eq!(w3.num_edges(), 2);
    assert!(set.next_window().is_none());
}

#[test]
fn two_hop_path_from_vertex() {
    let g = scenario_graph();
    let w = WindowedGraph::new(&g, i64::MIN, i64::MAX);
    let v1 = w.vertex(1).unwrap();
    let ids = v1.out_neighbours().out_neighbours().id();
    assert_eq!(ids, vec![5, 6]);
}

#[test]
fn windowed_vertex_reads() {
    let g = scenario_graph();
    let w = WindowedGraph::new(&g, 2, 4);
    let v1 = w.vertex(1).unwrap();
    assert_eq!(v1.id(), 1);
    assert_eq!(v1.out_degree(), 2);
    assert_eq!(v1.out_neighbours_ids(), vec![3, 4]);
    assert_eq!(v1.out_degree_window(3, 10), 1);
    assert_eq!(v1.in_degree(), 0);
    assert_eq!(v1.out_edges().len(), 2);
    assert!(w.vertex(2).is_none()); // event at t=4 excluded
    let ids = w.vertex_ids();
    assert!(ids.contains(&1));
    assert!(!ids.contains(&5));
}

#[test]
fn windowed_edge_view() {
    let mut g = PagedGraph::with_vec_page_manager();
    g.add_edge(1, 2, 1).unwrap();
    let w_name = "w".to_string();
    g.add_edge_property(1, 2, &w_name, 3, Prop::U64(9)).unwrap();
    let w = WindowedGraph::new(&g, 0, 10);
    let e = w.edge(1, 2).unwrap();
    assert_eq!((e.src(), e.dst()), (1, 2));
    assert_eq!(e.time(), Some(1));
    assert!(e.id().is_some());
    assert_eq!(e.property_names(true), vec!["w".to_string()]);
    let pairs = e.properties(true);
    assert_eq!(pairs, vec![("w".to_string(), Prop::U64(9))]);
    let hists = e.property_histories();
    assert_eq!(hists.len(), 1);
    assert_eq!(hists[0].0, "w".to_string());
    assert_eq!(hists[0].1, vec![(3, Prop::U64(9))]);
    assert!(e.has_property(&"w".to_string(), false));
    assert!(!e.has_static_property(&"w".to_string()));
    assert_eq!(e.property_history(&w_name), vec![(3, Prop::U64(9))]);
    assert_eq!(e.property(&w_name, true), Some(Prop::U64(9)));
    assert!(w.edge(2, 1).is_none());
    let all = w.edges();
    assert_eq!(all.len(), 1);
    assert_eq!((all[0].src, all[0].dst, all[0].t), (1, 2, Some(1)));
}

#[test]
fn conservation_law_on_scenario() {
    let g = scenario_graph();
    for (a, b) in [(i64::MIN, i64::MAX), (2, 4), (0, 2), (4, 6)] {
        let total = g.num_edges(a, b);
        let mut sum = 0;
        for v in g.vertex_ids() {
            sum += g.degree(v, Direction::OUT, a, b);
        }
        assert_eq!(total, sum);
    }
}

#[test]
fn repeated_reads_are_identical() {
    let g = scenario_graph();
    assert_eq!(
        g.neighbours(1, Direction::BOTH, 0, 10),
        g.neighbours(1, Direction::BOTH, 0, 10)
    );
    assert_eq!(g.num_edges(0, 10), g.num_edges(0, 10));
    assert_eq!(
        g.property_history(1, &"x".to_string(), 0, 10),
        g.property_history(1, &"x".to_string(), 0, 10)
    );
}

#[test]
fn windowed_edge_variants_intersect() {
    let g = scenario_graph();
    let w = WindowedGraph::new(&g, 1, 5);
    let v1 = w.vertex(1).unwrap();
    assert_eq!(v1.out_edges().len(), 3);
    assert_eq!(v1.out_edges_window(2, 10).len(), 2);
    assert_eq!(v1.in_edges_window(i64::MIN, i64::MAX).len(), 0);
    assert_eq!(v1.edges_window(3, 4).len(), 1);
}

#[test]
fn path_from_graph_one_hop() {
    let g = scenario_graph();
    let p = temporal_graph::path::PathFromGraph::one(
        &g,
        i64::MIN,
        i64::MAX,
        temporal_graph::path::Operations::OutNeighbours,
    );
    let per_vertex = p.id();
    assert_eq!(per_vertex.len(), 6);
    assert_eq!(per_vertex[0], vec![2, 3, 4]);
    assert_eq!(per_vertex[1], vec![5]);
    assert_eq!(per_vertex[4], Vec::<u64>::new());
    let two = temporal_graph::path::PathFromGraph::one(
        &g,
        i64::MIN,
        i64::MAX,
        temporal_graph::path::Operations::OutNeighbours,
    )
    .out_neighbours()
    .id();
    assert_eq!(two[0], vec![5, 6]);
}

#[test]
fn vertex_property_name_lists() {
    let mut g = PagedGraph::with_vec_page_manager();
    g.add_vertex_property(1, &"a".to_string(), 1, Prop::I64(1))
        .unwrap();
    g.add_vertex_static_property(1, &"s".to_string(), Prop::Bool(true))
        .unwrap();
    let names = g.property_names(1, true);
    assert_eq!(names, vec!["a".to_string(), "s".to_string()]);
    assert_eq!(g.property_names(1, false), vec!["a".to_string()]);
    let props = g.properties(1, true);
    assert_eq!(props.len(), 2);
    assert!(props.contains(&("a".to_string(), Prop::I64(1))));
    assert!(props.contains(&("s".to_string(), Prop::Bool(true))));
    let hists = g.property_histories(1, i64::MIN, i64::MAX);
    assert_eq!(hists.len(), 1);
    assert_eq!(hists[0].0, "a".to_string());
    assert_eq!(hists[0].1, vec![(1, Prop::I64(1))]);
}

#[test]
fn vertex_ids_count_each_visible_vertex_once() {
    let g = scenario_graph();
    // logical ids follow first sight: insertion order of the scenario
    assert_eq!(g.vertex_ids(), vec![1, 2, 3, 4, 5, 6]);
    for (a, b) in [(i64::MIN, i64::MAX), (2, 4), (4, 6)] {
        let w = WindowedGraph::new(&g, a, b);
        let ids = w.vertex_ids();
        assert_eq!(ids.len(), w.num_vertices());
        let mut sorted = ids.clone();
        sorted.sort();
        sorted.dedup();
        assert_eq!(sorted.len(), ids.len());
    }
}

#[test]
fn repeated_view_reads_are_identical() {
    let g = scenario_graph();
    let w = WindowedGraph::new(&g, 1, 5);
    assert_eq!(w.edges(), w.edges());
    assert_eq!(w.vertex_ids(), w.vertex_ids());
    let v1a: Vec<u64> = w.vertices().iter().map(|v| v.id).collect();
    let v1b: Vec<u64> = w.vertices().iter().map(|v| v.id).collect();
    assert_eq!(v1a, v1b);
}
