use advent_of_tools::{BiGraph, GraphData, UniGraph};

/// Joins two path labels ("A-B", "B-C") through the vertex `via` into one path
/// label from the first neighbour to the second.
fn join_paths(via: &str, first: &str, second: &str) -> String {
    let mut a: Vec<&str> = first.split('-').collect();
    if a.last() != Some(&via) {
        a.reverse();
    }
    let mut b: Vec<&str> = second.split('-').collect();
    if b.first() != Some(&via) {
        b.reverse();
    }
    a.extend_from_slice(&b[1..]);
    a.join("-")
}

fn path_cost(_v: &String, e: &String) -> u32 {
    match e.as_str() {
        "A-B" => 1,
        "B-C" => 2,
        "C-D" => 3,
        "C-A" => 3,
        _ => 10,
    }
}

fn join_always(
    v1: &String,
    _v2: &String,
    _v3: &String,
    da: &String,
    ca: u32,
    db: &String,
    cb: u32,
) -> Option<(u32, String)> {
    Some((ca + cb, join_paths(v1, da, db)))
}

fn chain() -> UniGraph<String, String> {
    let data: Vec<GraphData<'_, String, String>> = vec![
        ("A", "A".to_string(), vec![("B", "A-B".to_string())]),
        ("B", "B".to_string(), vec![("C", "B-C".to_string())]),
        ("C", "C".to_string(), vec![("D", "C-D".to_string())]),
        ("D", "D".to_string(), vec![]),
    ];
    UniGraph::new(path_cost, &data).unwrap()
}

#[test]
fn chain_contraction() {
    let g = BiGraph::compress(chain(), join_always);
    assert_eq!(g.vertex_count(), 4);
    assert_eq!(g.vertex(1), Some(&("B".to_string(), "B".to_string())));
    assert_eq!(g.vertex(2), Some(&("C".to_string(), "C".to_string())));
    assert_eq!(g.edges_of(0), Some(&vec![(3, 6, "A-B-C-D".to_string())]));
    assert_eq!(g.edges_of(1), None);
    assert_eq!(g.edges_of(2), None);
    assert_eq!(g.edges_of(3), Some(&vec![(0, 6, "A-B-C-D".to_string())]));
}

#[test]
fn symmetrized_chain_has_reverse_edges() {
    let g = BiGraph::from_unigraph(chain());
    assert_eq!(g.edges_of(0), Some(&vec![(1, 1, "A-B".to_string())]));
    assert_eq!(
        g.edges_of(1),
        Some(&vec![(0, 1, "A-B".to_string()), (2, 2, "B-C".to_string())])
    );
    assert_eq!(
        g.edges_of(2),
        Some(&vec![(1, 2, "B-C".to_string()), (3, 3, "C-D".to_string())])
    );
    assert_eq!(g.edges_of(3), Some(&vec![(2, 3, "C-D".to_string())]));
}

#[test]
fn declining_rule_keeps_chain() {
    let g = BiGraph::compress(chain(), |_: &String, _: &String, _: &String, _: &String, _: u32, _: &String, _: u32| None);
    assert_eq!(g.edges_of(1), Some(&vec![(0, 1, "A-B".to_string()), (2, 2, "B-C".to_string())]));
    assert_eq!(g.edges_of(2), Some(&vec![(1, 2, "B-C".to_string()), (3, 3, "C-D".to_string())]));
}

#[test]
fn rule_is_asked_in_both_orders() {
    // Accepts only when the first neighbour's name sorts after the second's.
    let rule = |v1: &String, v2: &String, v3: &String, da: &String, ca: u32, db: &String, cb: u32| {
        if v2 > v3 {
            Some((ca * 10 + cb, join_paths(v1, da, db)))
        } else {
            None
        }
    };
    let data: Vec<GraphData<'_, String, String>> = vec![
        ("A", "A".to_string(), vec![("B", "A-B".to_string())]),
        ("B", "B".to_string(), vec![("C", "B-C".to_string())]),
        ("C", "C".to_string(), vec![]),
    ];
    let g = BiGraph::compress(UniGraph::new(path_cost, &data).unwrap(), rule);
    assert_eq!(g.edges_of(1), None);
    assert_eq!(g.edges_of(0), Some(&vec![(2, 21, "C-B-A".to_string())]));
    assert_eq!(g.edges_of(2), Some(&vec![(0, 21, "C-B-A".to_string())]));
}

#[test]
fn isolated_vertex_survives() {
    let data: Vec<GraphData<'_, String, String>> = vec![
        ("A", "A".to_string(), vec![("B", "A-B".to_string())]),
        ("E", "E".to_string(), vec![]),
        ("B", "B".to_string(), vec![("C", "B-C".to_string())]),
        ("C", "C".to_string(), vec![]),
    ];
    let g = BiGraph::compress(UniGraph::new(path_cost, &data).unwrap(), join_always);
    assert_eq!(g.edges_of(1), Some(&vec![]));
    assert_eq!(g.edges_of(2), None);
    assert_eq!(g.edges_of(0), Some(&vec![(3, 3, "A-B-C".to_string())]));
}

#[test]
fn parallel_pair_is_never_eliminated() {
    // A triangle: eliminating A leaves B and C joined by two edges.
    let data: Vec<GraphData<'_, String, String>> = vec![
        ("A", "A".to_string(), vec![("B", "A-B".to_string())]),
        ("B", "B".to_string(), vec![("C", "B-C".to_string())]),
        ("C", "C".to_string(), vec![("A", "C-A".to_string())]),
    ];
    let g = BiGraph::compress(UniGraph::new(path_cost, &data).unwrap(), join_always);
    assert_eq!(g.edges_of(0), None);
    assert_eq!(
        g.edges_of(1),
        Some(&vec![(2, 4, "B-A-C".to_string()), (2, 2, "B-C".to_string())])
    );
    assert_eq!(
        g.edges_of(2),
        Some(&vec![(1, 2, "B-C".to_string()), (1, 4, "B-A-C".to_string())])
    );
}

#[test]
fn duplicate_destination_not_added_twice() {
    let data: Vec<GraphData<'_, u8, u32>> = vec![
        ("A", 0, vec![("B", 1), ("B", 2)]),
        ("B", 0, vec![("A", 3)]),
    ];
    let u: UniGraph<u8, u32> = UniGraph::new(|_v: &u8, e: &u32| *e, &data).unwrap();
    let g = BiGraph::from_unigraph(u);
    assert_eq!(g.edges_of(0), Some(&vec![(1, 1, 1)]));
    assert_eq!(g.edges_of(1), Some(&vec![(0, 1, 1)]));
}

#[test]
fn self_loop_is_kept_once() {
    let data: Vec<GraphData<'_, u8, u32>> = vec![("A", 0, vec![("A", 5), ("B", 1)]), ("B", 0, vec![])];
    let u: UniGraph<u8, u32> = UniGraph::new(|_v: &u8, e: &u32| *e, &data).unwrap();
    let g = BiGraph::compress(u, |_: &u8, _: &u8, _: &u8, _: &u32, ca: u32, _: &u32, cb: u32| Some((ca + cb, 0)));
    assert_eq!(g.edges_of(0), Some(&vec![(0, 5, 5), (1, 1, 1)]));
    assert_eq!(g.edges_of(1), Some(&vec![(0, 1, 1)]));
}

#[test]
fn compressed_edges_are_symmetric() {
    let data: Vec<GraphData<'_, u8, u32>> = vec![
        ("A", 0, vec![("B", 1), ("C", 2)]),
        ("B", 0, vec![("C", 3), ("D", 4)]),
        ("C", 0, vec![("D", 5)]),
        ("D", 0, vec![("E", 6)]),
        ("E", 0, vec![("F", 7)]),
        ("F", 0, vec![("B", 8)]),
    ];
    let u: UniGraph<u8, u32> = UniGraph::new(|_v: &u8, e: &u32| *e, &data).unwrap();
    let g = BiGraph::compress(u, |_: &u8, _: &u8, _: &u8, da: &u32, ca: u32, db: &u32, cb: u32| {
        Some((ca + cb, da * 100 + db))
    });
    for u in 0..g.vertex_count() {
        if let Some(list) = g.edges_of(u) {
            for (v, c, d) in list {
                let back = g.edges_of(*v).expect("destination present");
                assert!(back.contains(&(u, *c, *d)));
            }
        }
    }
    assert_eq!(g.edges_of(4), None);
    assert_eq!(g.edges_of(5), None);
}

#[test]
fn cycle_compression_terminates() {
    let data: Vec<GraphData<'_, String, String>> = vec![
        ("A", "A".to_string(), vec![("B", "A-B".to_string())]),
        ("B", "B".to_string(), vec![("C", "B-C".to_string())]),
        ("C", "C".to_string(), vec![("D", "C-D".to_string())]),
        ("D", "D".to_string(), vec![("A", "D-A".to_string())]),
    ];
    let g = BiGraph::compress(UniGraph::new(path_cost, &data).unwrap(), join_always);
    let keys: Vec<usize> = (0..g.vertex_count()).filter(|i| g.edges_of(*i).is_some()).collect();
    assert_eq!(keys, vec![2, 3]);
    assert_eq!(g.edges_of(2).map(|l| l.len()), Some(2));
    assert_eq!(g.edges_of(3).map(|l| l.len()), Some(2));
}

#[test]
fn symmetrization_keeps_isolated_vertex() {
    let data: Vec<GraphData<'_, u8, u32>> = vec![("A", 0, vec![("C", 4)]), ("B", 0, vec![]), ("C", 0, vec![])];
    let u: UniGraph<u8, u32> = UniGraph::new(|_v: &u8, e: &u32| *e, &data).unwrap();
    let g = BiGraph::from_unigraph(u);
    assert_eq!(g.edges.len(), 3);
    assert_eq!(g.edges_of(0), Some(&vec![(2, 4, 4)]));
    assert_eq!(g.edges_of(1), Some(&vec![]));
    assert_eq!(g.edges_of(2), Some(&vec![(0, 4, 4)]));
    assert_eq!(g.vertex(1), Some(&("B".to_string(), 0)));
}
