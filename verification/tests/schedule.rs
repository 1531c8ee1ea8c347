use tlweave::dijkstra::dijkstra;
use tlweave::errors::TlError;
use tlweave::graph::{build_graph, key_index, DepEdge, ThreadKey, TopEdge};
use tlweave::series::{extract_series, leaves, series_keys, should_skip, thread_has_work, RemEntry};

fn key(script_id: u16, name: &str) -> ThreadKey {
    ThreadKey {
        script_id,
        name: name.to_string(),
    }
}

#[test]
fn key_index_finds_first_occurrence() {
    let vs = vec![key(1, "a"), key(1, "b"), key(2, "a")];
    assert_eq!(key_index(&vs, &key(1, "b")), Some(1));
    assert_eq!(key_index(&vs, &key(2, "a")), Some(2));
    assert_eq!(key_index(&vs, &key(3, "a")), None);
}

#[test]
fn chain_graph_schedules_one_series() {
    // Edges {(A,B,2), (B,C,1)}; A is the only top thread.
    let vs = vec![key(1, "A"), key(1, "B"), key(1, "C")];
    let deps = vec![
        DepEdge { tail: key(1, "A"), head: key(1, "B"), weight: 2 },
        DepEdge { tail: key(1, "B"), head: key(1, "C"), weight: 1 },
    ];
    let tops = vec![TopEdge { head: key(1, "A"), weight: 4 }];
    let g = build_graph(&vs, &deps, &tops).expect("graph builds");
    let pred = dijkstra(&g).expect("all reachable");
    assert_eq!(pred.len(), 4);
    assert_eq!(pred[0], 0);
    // A's predecessor is the root, B's is A, C's is B.
    assert_eq!(pred[1], 0);
    assert_eq!(pred[2], 1);
    assert_eq!(pred[3], 2);
    let ls = leaves(&pred);
    assert_eq!(ls, vec![3]);
    let path = extract_series(&pred, 3);
    assert_eq!(path, vec![1, 2, 3]);
    let ks = series_keys(&vs, &path).expect("in range");
    let names: Vec<&str> = ks.iter().map(|k| k.name.as_str()).collect();
    assert_eq!(names, vec!["A", "B", "C"]);
}

#[test]
fn tail_done_does_not_skip_series() {
    // C has no untranslated lines, A and B still do: the series is attempted.
    let series = vec![key(1, "A"), key(1, "B"), key(1, "C")];
    let rem = vec![
        RemEntry { key: key(1, "A"), remaining: 2 },
        RemEntry { key: key(1, "B"), remaining: 1 },
    ];
    assert!(!should_skip(&series, &rem));
    assert!(thread_has_work(&rem, &key(1, "A")));
    assert!(!thread_has_work(&rem, &key(1, "C")));
}

#[test]
fn fully_translated_series_is_skipped() {
    let series = vec![key(1, "A"), key(1, "B"), key(1, "C")];
    let rem: Vec<RemEntry> = Vec::new();
    assert!(should_skip(&series, &rem));
    // The runner convention: a skipped series makes zero service calls.
    let mut calls: usize = 0;
    if !should_skip(&series, &rem) {
        calls += 1;
    }
    assert_eq!(calls, 0);
}

#[test]
fn zero_count_entry_means_no_work() {
    let rem = vec![RemEntry { key: key(1, "A"), remaining: 0 }];
    let series = vec![key(1, "A")];
    assert!(should_skip(&series, &rem));
}

#[test]
fn two_independent_tops_make_two_singleton_series() {
    let vs = vec![key(1, "X"), key(2, "Y")];
    let deps: Vec<DepEdge> = Vec::new();
    let tops = vec![
        TopEdge { head: key(1, "X"), weight: 3 },
        TopEdge { head: key(2, "Y"), weight: 5 },
    ];
    let g = build_graph(&vs, &deps, &tops).expect("graph builds");
    let pred = dijkstra(&g).expect("all reachable");
    // Both threads hang directly off the virtual root.
    assert_eq!(pred, vec![0, 0, 0]);
    let ls = leaves(&pred);
    assert_eq!(ls, vec![1, 2]);
    for &leaf in &ls {
        let path = extract_series(&pred, leaf);
        assert_eq!(path, vec![leaf]);
    }
}

#[test]
fn unreachable_thread_is_rejected() {
    // B is neither a top thread nor the head of any edge: no path from root.
    let vs = vec![key(1, "A"), key(1, "B")];
    let deps: Vec<DepEdge> = Vec::new();
    let tops = vec![TopEdge { head: key(1, "A"), weight: 1 }];
    let g = build_graph(&vs, &deps, &tops).expect("graph builds");
    let r = dijkstra(&g);
    assert!(matches!(r, Err(TlError::Unreachable)));
}

#[test]
fn duplicate_edge_is_fatal() {
    let vs = vec![key(1, "A"), key(1, "B")];
    let deps = vec![
        DepEdge { tail: key(1, "A"), head: key(1, "B"), weight: 2 },
        DepEdge { tail: key(1, "A"), head: key(1, "B"), weight: 3 },
    ];
    let tops = vec![TopEdge { head: key(1, "A"), weight: 1 }];
    let r = build_graph(&vs, &deps, &tops);
    match r {
        Err(e) => {
            assert!(matches!(e, TlError::DuplicateEdge));
            assert!(e.is_fatal());
        }
        Ok(_) => panic!("duplicate edge must be refused"),
    }
}

#[test]
fn unknown_endpoint_is_fatal() {
    let vs = vec![key(1, "A")];
    let deps = vec![DepEdge { tail: key(1, "A"), head: key(9, "Z"), weight: 2 }];
    let tops = vec![TopEdge { head: key(1, "A"), weight: 1 }];
    let r = build_graph(&vs, &deps, &tops);
    assert!(matches!(r, Err(TlError::UnknownThread)));
}

#[test]
fn predecessor_walk_reaches_root_without_cycles() {
    let vs = vec![key(1, "A"), key(1, "B"), key(1, "C"), key(1, "D")];
    let deps = vec![
        DepEdge { tail: key(1, "A"), head: key(1, "B"), weight: 1 },
        DepEdge { tail: key(1, "A"), head: key(1, "C"), weight: 2 },
        DepEdge { tail: key(1, "C"), head: key(1, "D"), weight: 1 },
    ];
    let tops = vec![TopEdge { head: key(1, "A"), weight: 1 }];
    let g = build_graph(&vs, &deps, &tops).expect("graph builds");
    let pred = dijkstra(&g).expect("all reachable");
    let n = pred.len();
    for start in 0..n {
        let mut cur: usize = start;
        let mut steps: usize = 0;
        while cur != 0 {
            cur = pred[cur] as usize;
            steps += 1;
            assert!(steps <= n, "walk from {start} exceeded {n} steps");
        }
    }
}

#[test]
fn equal_distances_break_ties_by_node_id() {
    // Root reaches 1 and 2 at cost 1 each; both reach 3 at total cost 2.
    // Node 1 is processed first, so it becomes 3's predecessor.
    let vs = vec![key(1, "P"), key(1, "Q"), key(1, "R")];
    let deps = vec![
        DepEdge { tail: key(1, "P"), head: key(1, "R"), weight: 1 },
        DepEdge { tail: key(1, "Q"), head: key(1, "R"), weight: 1 },
    ];
    let tops = vec![
        TopEdge { head: key(1, "P"), weight: 1 },
        TopEdge { head: key(1, "Q"), weight: 1 },
    ];
    let g = build_graph(&vs, &deps, &tops).expect("graph builds");
    let pred = dijkstra(&g).expect("all reachable");
    assert_eq!(pred[3], 1);
}

#[test]
fn series_extraction_is_idempotent() {
    let vs = vec![key(1, "A"), key(1, "B"), key(1, "C")];
    let deps = vec![
        DepEdge { tail: key(1, "A"), head: key(1, "B"), weight: 2 },
        DepEdge { tail: key(1, "B"), head: key(1, "C"), weight: 1 },
    ];
    let tops = vec![TopEdge { head: key(1, "A"), weight: 4 }];
    let g = build_graph(&vs, &deps, &tops).expect("graph builds");
    let pred = dijkstra(&g).expect("all reachable");
    let first = extract_series(&pred, 3);
    let second = extract_series(&pred, 3);
    assert_eq!(first, second);
    let again = dijkstra(&g).expect("all reachable");
    assert_eq!(pred, again);
}

#[test]
fn series_keys_rejects_out_of_range_nodes() {
    let vs = vec![key(1, "A")];
    let r = series_keys(&vs, &vec![2]);
    assert!(matches!(r, Err(TlError::UnknownThread)));
    let r0 = series_keys(&vs, &vec![0]);
    assert!(matches!(r0, Err(TlError::UnknownThread)));
}
