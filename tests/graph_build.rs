use advent_of_tools::{GraphData, GraphError, UniGraph};

fn label_cost(_vertex: &String, edge: &String) -> u32 {
    edge.len() as u32
}

#[test]
fn builds_vertices_in_record_order() {
    let data: Vec<GraphData<'_, String, String>> = vec![
        ("a", "first".to_string(), vec![("b", "ab".to_string())]),
        ("b", "second".to_string(), vec![]),
        ("c", "third".to_string(), vec![("a", "cax".to_string()), ("b", "c".to_string())]),
    ];
    let g: UniGraph<String, String> = UniGraph::new(label_cost, &data).unwrap();
    assert_eq!(g.vertex_count(), 3);
    assert_eq!(g.vertex(0), Some(&("a".to_string(), "first".to_string())));
    assert_eq!(g.vertex(1), Some(&("b".to_string(), "second".to_string())));
    assert_eq!(g.vertex(2), Some(&("c".to_string(), "third".to_string())));
    assert_eq!(g.vertex(3), None);
    assert_eq!(g.edges_of(0), Some(&vec![(1, 2, "ab".to_string())]));
    assert_eq!(g.edges_of(1), Some(&vec![]));
    assert_eq!(
        g.edges_of(2),
        Some(&vec![(0, 3, "cax".to_string()), (1, 1, "c".to_string())])
    );
    assert_eq!(g.edges_of(3), None);
}

#[test]
fn every_vertex_has_an_adjacency_list() {
    let data: Vec<GraphData<'_, u8, u8>> = vec![
        ("x", 1, vec![]),
        ("y", 2, vec![("x", 7)]),
        ("z", 3, vec![]),
        ("w", 4, vec![("w", 1), ("y", 2)]),
    ];
    let g: UniGraph<u8, u8> = UniGraph::new(|_v: &u8, e: &u8| *e as u32, &data).unwrap();
    assert_eq!(g.edges.len(), g.vertices.len());
    for i in 0..g.vertex_count() {
        assert!(g.edges_of(i).is_some());
    }
    assert_eq!(g.edges_of(3), Some(&vec![(3, 1, 1), (1, 2, 2)]));
}

#[test]
fn cost_uses_vertex_and_edge_payloads() {
    let data: Vec<GraphData<'_, u32, u32>> = vec![
        ("p", 10, vec![("q", 1), ("q", 2)]),
        ("q", 20, vec![("p", 3)]),
    ];
    let g: UniGraph<u32, u32, u64> =
        UniGraph::new(|v: &u32, e: &u32| (*v * 100 + *e) as u64, &data).unwrap();
    assert_eq!(g.edges_of(0), Some(&vec![(1, 1001, 1), (1, 1002, 2)]));
    assert_eq!(g.edges_of(1), Some(&vec![(0, 2003, 3)]));
}

#[test]
fn unknown_destination_fails() {
    let data: Vec<GraphData<'_, (), ()>> = vec![("a", (), vec![("b", ())]), ("c", (), vec![("nowhere", ())])];
    let r: Result<UniGraph<(), ()>, GraphError> = UniGraph::new(|_v: &(), _e: &()| 1u32, &data);
    assert_eq!(r.err(), Some(GraphError::UnknownEdgeDestination));
}

#[test]
fn duplicate_name_fails() {
    let data: Vec<GraphData<'_, u8, u8>> = vec![("a", 1, vec![]), ("b", 2, vec![]), ("a", 3, vec![("b", 1)])];
    let r: Result<UniGraph<u8, u8>, GraphError> = UniGraph::new(|_v: &u8, _e: &u8| 1u32, &data);
    assert_eq!(r.err(), Some(GraphError::DuplicateVertexName));
}

#[test]
fn duplicate_name_reported_before_unknown_destination() {
    let data: Vec<GraphData<'_, u8, u8>> = vec![("a", 1, vec![("zz", 1)]), ("a", 2, vec![])];
    let r: Result<UniGraph<u8, u8>, GraphError> = UniGraph::new(|_v: &u8, _e: &u8| 1u32, &data);
    assert_eq!(r.err(), Some(GraphError::DuplicateVertexName));
}

#[test]
fn empty_description_builds_empty_graph() {
    let data: Vec<GraphData<'_, u8, u8>> = vec![];
    let g: UniGraph<u8, u8> = UniGraph::new(|_v: &u8, _e: &u8| 1u32, &data).unwrap();
    assert_eq!(g.vertex_count(), 0);
    assert_eq!(g.edges_of(0), None);
}
