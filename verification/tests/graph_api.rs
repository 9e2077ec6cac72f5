use digraph::graph::{Graph, GraphError};

fn outs(g: &Graph<u32>, k: u32) -> Vec<u32> {
    g.out_neighbours(&k).copied().collect()
}

fn ins(g: &Graph<u32>, k: u32) -> Vec<u32> {
    g.in_neighbours(&k).copied().collect()
}

#[test]
fn creating_empty_graph() {
    let g: Graph<u32> = Graph::new();
    assert_eq!(g.number_of_edges(), 0);
    assert_eq!(g.get_label(&0), None);
    assert_eq!(g.in_neighbours(&0).count(), 0);
    assert_eq!(g.out_neighbours(&0).count(), 0);
    assert_eq!(g.number_of_vertices(), 0);
}

#[test]
fn adding_vertex_to_graph() {
    let mut g: Graph<u32> = Graph::new();
    g.add_vertex(32);
    assert!(g.is_vertex_in_graph(&32));
}

#[test]
fn adding_multiple_vertices() {
    let mut g: Graph<u32> = Graph::new();
    g.add_vertex(32);
    g.add_vertex(1);
    g.add_vertex(2);
    assert!(g.is_vertex_in_graph(&32));
    assert!(g.is_vertex_in_graph(&1));
    assert!(g.is_vertex_in_graph(&2));
    assert!(!g.is_vertex_in_graph(&31));
    assert_eq!(g.number_of_vertices(), 3);
    assert_eq!(g.number_of_vertices(), 3);
}

#[test]
fn adding_edges() {
    let mut g: Graph<u32> = Graph::new();
    assert_eq!(g.number_of_edges(), 0);
    g.add_vertex(2);
    g.add_vertex(3);
    let i = 3;
    g.add_edge(2, i).unwrap();
    g.add_edge(i, i).unwrap();
    assert_eq!(g.number_of_edges(), 2);
}

#[test]
fn removing_vertices_and_simultaneously_removing_edges() {
    let mut g: Graph<u32> = Graph::new();
    assert_eq!(g.number_of_edges(), 0);
    g.add_vertex(2);
    g.add_vertex(3);
    let i = 3;
    g.add_edge(i, i).unwrap();
    g.add_edge(2, i).unwrap();
    g.remove_vertex(&i).unwrap();
    assert!(!g.is_edge_in_graph(i, i));
    assert!(!g.is_edge_in_graph(2, i));
    assert_eq!(g.number_of_edges(), 0);
}

#[test]
fn add_vertices_with_label_and_get_label() {
    let mut g: Graph<u32> = Graph::new();
    assert_eq!(g.number_of_vertices(), 0);
    g.add_vertex_with_label(1, "A");
    g.add_vertex_with_label(2, "B");
    g.add_vertex(3);
    assert_eq!(g.number_of_vertices(), 3);

    g.add_vertex_with_label(4, "");
    assert_eq!(g.get_label(&1).unwrap(), "A");

    if let Err(e) = g.remove_vertex(&2) {
        panic!("Error: {:?}", e);
    }

    assert_eq!(g.get_label(&2), Option::None);
    assert_eq!(g.get_label(&3), Option::None);
    assert_eq!(g.get_label(&4).unwrap(), "");
}

#[test]
fn neighbours_in() {
    let mut g: Graph<u32> = Graph::new();
    g.add_vertex(1);
    g.add_vertex(2);
    g.add_vertex(3);

    g.add_edge(1, 2).unwrap();

    let with_inbound = [1u32, 2, 3].iter().filter(|k| g.in_neighbours(k).count() > 0).count();
    assert_eq!(with_inbound, 1);
    g.add_edge(1, 3).unwrap();
    let v: Vec<&u32> = g.out_neighbours(&1).collect();
    assert_eq!(v.len(), 2);

    assert_eq!(v[0], &2);
}

#[test]
fn is_vertex_in_graph_given_vertex_in_graph_return_true() {
    let mut g: Graph<u32> = Graph::new();
    assert_eq!(g.number_of_vertices(), 0);
    g.add_vertex(1);
    g.add_vertex(2);
    g.add_vertex(3);
    assert_eq!(g.number_of_vertices(), 3);

    assert!(g.is_vertex_in_graph(&1));
    assert!(g.is_vertex_in_graph(&2));
    assert!(g.is_vertex_in_graph(&3));
}

#[test]
fn is_vertex_in_graph_given_vertex_not_in_graph_return_false() {
    let mut g: Graph<u32> = Graph::new();
    assert_eq!(g.number_of_vertices(), 0);
    g.add_vertex(1);
    g.add_vertex(2);
    g.add_vertex(3);
    assert_eq!(g.number_of_vertices(), 3);

    assert!(!g.is_vertex_in_graph(&4));
    assert!(!g.is_vertex_in_graph(&6));
}

#[test]
fn is_edge_in_graph_given_edge_in_graph_return_true() {
    let mut g: Graph<u32> = Graph::new();
    assert_eq!(g.number_of_vertices(), 0);
    g.add_vertex(1);
    g.add_vertex(2);
    g.add_vertex(3);
    g.add_edge(2, 3).unwrap();
    g.add_edge(2, 1).unwrap();
    g.add_edge(1, 2).unwrap();
    assert_eq!(g.number_of_vertices(), 3);

    assert!(g.is_edge_in_graph(2, 3));
    assert!(g.is_edge_in_graph(2, 1));
    assert!(g.is_edge_in_graph(1, 2));
}

#[test]
fn is_edge_in_graph_given_edge_not_in_graph_return_false() {
    let mut g: Graph<u32> = Graph::new();
    assert_eq!(g.number_of_vertices(), 0);
    g.add_vertex(1);
    g.add_vertex(2);
    g.add_vertex(3);
    g.add_edge(2, 3).unwrap();
    g.add_edge(2, 1).unwrap();
    g.add_edge(1, 2).unwrap();
    assert_eq!(g.number_of_vertices(), 3);

    assert!(!g.is_edge_in_graph(1, 3));
    assert!(!g.is_edge_in_graph(1, 1));
    assert!(!g.is_edge_in_graph(3, 1));
}

#[test]
fn set_label_given_vertex_in_graph_set_label() {
    let mut g: Graph<u32> = Graph::new();
    assert_eq!(g.number_of_vertices(), 0);
    g.add_vertex_with_label(1, "A");
    g.add_vertex_with_label(2, "B");
    g.add_vertex(3);

    g.set_label(&3, "C").unwrap();

    assert_eq!(g.get_label(&3).unwrap(), "C");
    assert_eq!(g.set_label(&4, ""), Err(GraphError::NoSuchVertex));
}

#[test]
fn add_vertex_reports_whether_the_key_was_present() {
    let mut g: Graph<u32> = Graph::new();
    assert!(!g.add_vertex(7));
    assert_eq!(g.number_of_vertices(), 1);
    assert!(g.add_vertex(7));
    assert_eq!(g.number_of_vertices(), 1);
    assert!(g.is_vertex_in_graph(&7));
    assert!(!g.add_vertex(8));
    assert_eq!(g.number_of_vertices(), 2);
}

#[test]
fn add_vertex_again_keeps_label_and_edges() {
    let mut g: Graph<u32> = Graph::new();
    g.add_vertex_with_label(1, "one");
    g.add_vertex(2);
    g.add_edge(1, 2).unwrap();
    g.add_edge(2, 1).unwrap();
    assert!(g.add_vertex(1));
    assert_eq!(g.get_label(&1).unwrap(), "one");
    assert_eq!(outs(&g, 1), vec![2]);
    assert_eq!(ins(&g, 1), vec![2]);
    assert_eq!(g.number_of_edges(), 2);
}

#[test]
fn add_vertex_with_label_overwrites_the_label() {
    let mut g: Graph<u32> = Graph::new();
    assert!(!g.add_vertex_with_label(1, "old"));
    g.add_vertex(2);
    g.add_edge(1, 2).unwrap();
    assert!(g.add_vertex_with_label(1, "new"));
    assert_eq!(g.get_label(&1).unwrap(), "new");
    assert_eq!(g.number_of_vertices(), 2);
    assert!(g.is_edge_in_graph(1, 2));
    assert!(g.add_vertex_with_label(2, "two"));
    assert_eq!(g.get_label(&2).unwrap(), "two");
}

#[test]
fn add_edge_is_seen_from_both_ends() {
    let mut g: Graph<u32> = Graph::new();
    g.add_vertex(10);
    g.add_vertex(20);
    assert_eq!(g.add_edge(10, 20), Ok(()));
    assert!(g.is_edge_in_graph(10, 20));
    assert!(!g.is_edge_in_graph(20, 10));
    assert_eq!(outs(&g, 10), vec![20]);
    assert_eq!(ins(&g, 20), vec![10]);
    assert_eq!(outs(&g, 20), Vec::<u32>::new());
    assert_eq!(ins(&g, 10), Vec::<u32>::new());
    assert_eq!(g.number_of_edges(), 1);
}

#[test]
fn add_edge_accepts_a_loop() {
    let mut g: Graph<u32> = Graph::new();
    g.add_vertex(5);
    assert_eq!(g.add_edge(5, 5), Ok(()));
    assert!(g.is_edge_in_graph(5, 5));
    assert_eq!(outs(&g, 5), vec![5]);
    assert_eq!(ins(&g, 5), vec![5]);
    assert_eq!(g.number_of_edges(), 1);
}

#[test]
fn add_edge_without_source_fails() {
    let mut g: Graph<u32> = Graph::new();
    g.add_vertex(2);
    assert_eq!(g.add_edge(1, 2), Err(GraphError::NoSuchVertex));
    assert_eq!(g.number_of_edges(), 0);
    assert!(!g.is_edge_in_graph(1, 2));
    assert!(!g.is_vertex_in_graph(&1));
    assert_eq!(ins(&g, 2), Vec::<u32>::new());
}

#[test]
fn add_edge_without_destination_fails() {
    let mut g: Graph<u32> = Graph::new();
    g.add_vertex(1);
    assert_eq!(g.add_edge(1, 2), Err(GraphError::NoSuchVertex));
    assert_eq!(g.number_of_edges(), 0);
    assert!(!g.is_vertex_in_graph(&2));
    assert_eq!(outs(&g, 1), Vec::<u32>::new());
}

#[test]
fn add_edge_without_both_ends_fails() {
    let mut g: Graph<u32> = Graph::new();
    assert_eq!(g.add_edge(1, 2), Err(GraphError::NoSuchVertex));
    assert_eq!(g.add_edge(3, 3), Err(GraphError::NoSuchVertex));
    assert_eq!(g.number_of_edges(), 0);
    assert_eq!(g.number_of_vertices(), 0);
}

#[test]
fn add_edge_twice_changes_nothing() {
    let mut g: Graph<u32> = Graph::new();
    g.add_vertex(1);
    g.add_vertex(2);
    g.add_vertex(3);
    g.add_edge(1, 2).unwrap();
    g.add_edge(1, 3).unwrap();
    assert_eq!(g.add_edge(1, 2), Ok(()));
    assert_eq!(g.number_of_edges(), 2);
    assert_eq!(outs(&g, 1), vec![2, 3]);
    assert_eq!(ins(&g, 2), vec![1]);
}

#[test]
fn neighbours_come_in_insertion_order() {
    let mut g: Graph<u32> = Graph::new();
    for k in [1, 2, 3, 4, 5] {
        g.add_vertex(k);
    }
    g.add_edge(1, 4).unwrap();
    g.add_edge(1, 2).unwrap();
    g.add_edge(1, 5).unwrap();
    g.add_edge(1, 3).unwrap();
    g.add_edge(5, 3).unwrap();
    g.add_edge(2, 3).unwrap();
    g.add_edge(4, 3).unwrap();
    assert_eq!(outs(&g, 1), vec![4, 2, 5, 3]);
    assert_eq!(ins(&g, 3), vec![1, 5, 2, 4]);
}

#[test]
fn neighbours_of_an_unknown_key_are_empty() {
    let mut g: Graph<u32> = Graph::new();
    g.add_vertex(1);
    assert_eq!(g.out_neighbours(&9).count(), 0);
    assert_eq!(g.in_neighbours(&9).count(), 0);
    assert_eq!(g.out_neighbours(&1).count(), 0);
    assert_eq!(g.in_neighbours(&1).count(), 0);
}

#[test]
fn neighbours_can_be_walked_again() {
    let mut g: Graph<u32> = Graph::new();
    g.add_vertex(1);
    g.add_vertex(2);
    g.add_vertex(3);
    g.add_edge(1, 2).unwrap();
    g.add_edge(1, 3).unwrap();
    let first: Vec<u32> = g.out_neighbours(&1).copied().collect();
    let second: Vec<u32> = g.out_neighbours(&1).copied().collect();
    assert_eq!(first, vec![2, 3]);
    assert_eq!(second, first);
}

#[test]
fn remove_edge_of_a_missing_pair_fails() {
    let mut g: Graph<u32> = Graph::new();
    g.add_vertex(1);
    g.add_vertex(2);
    g.add_edge(1, 2).unwrap();
    assert_eq!(g.remove_edge(&2, &1), Err(GraphError::NoSuchEdge));
    assert_eq!(g.remove_edge(&1, &1), Err(GraphError::NoSuchEdge));
    assert_eq!(g.remove_edge(&8, &9), Err(GraphError::NoSuchEdge));
    assert_eq!(g.number_of_edges(), 1);
    assert!(g.is_edge_in_graph(1, 2));
    assert_eq!(outs(&g, 1), vec![2]);
}

#[test]
fn remove_edge_takes_the_pair_out() {
    let mut g: Graph<u32> = Graph::new();
    g.add_vertex(1);
    g.add_vertex(2);
    g.add_edge(1, 2).unwrap();
    g.add_edge(2, 1).unwrap();
    assert_eq!(g.remove_edge(&1, &2), Ok(()));
    assert!(!g.is_edge_in_graph(1, 2));
    assert!(g.is_edge_in_graph(2, 1));
    assert_eq!(g.number_of_edges(), 1);
    assert_eq!(g.number_of_vertices(), 2);
    assert_eq!(outs(&g, 1), Vec::<u32>::new());
    assert_eq!(ins(&g, 2), Vec::<u32>::new());
    assert_eq!(outs(&g, 2), vec![1]);
    assert_eq!(ins(&g, 1), vec![2]);
    assert_eq!(g.remove_edge(&1, &2), Err(GraphError::NoSuchEdge));
}

#[test]
fn remove_edge_keeps_the_order_of_the_other_neighbours() {
    let mut g: Graph<u32> = Graph::new();
    for k in [1, 2, 3, 4] {
        g.add_vertex(k);
    }
    g.add_edge(1, 2).unwrap();
    g.add_edge(1, 3).unwrap();
    g.add_edge(1, 4).unwrap();
    g.add_edge(2, 4).unwrap();
    g.add_edge(3, 4).unwrap();
    g.remove_edge(&1, &3).unwrap();
    assert_eq!(outs(&g, 1), vec![2, 4]);
    assert_eq!(ins(&g, 3), Vec::<u32>::new());
    g.remove_edge(&2, &4).unwrap();
    assert_eq!(ins(&g, 4), vec![1, 3]);
    assert_eq!(g.number_of_edges(), 3);
}

#[test]
fn removed_edge_can_be_added_again_at_the_end() {
    let mut g: Graph<u32> = Graph::new();
    for k in [1, 2, 3] {
        g.add_vertex(k);
    }
    g.add_edge(1, 2).unwrap();
    g.add_edge(1, 3).unwrap();
    g.remove_edge(&1, &2).unwrap();
    g.add_edge(1, 2).unwrap();
    assert_eq!(outs(&g, 1), vec![3, 2]);
    assert_eq!(g.number_of_edges(), 2);
}

#[test]
fn remove_loop_edge() {
    let mut g: Graph<u32> = Graph::new();
    g.add_vertex(1);
    g.add_edge(1, 1).unwrap();
    assert_eq!(g.remove_edge(&1, &1), Ok(()));
    assert!(!g.is_edge_in_graph(1, 1));
    assert_eq!(outs(&g, 1), Vec::<u32>::new());
    assert_eq!(ins(&g, 1), Vec::<u32>::new());
    assert_eq!(g.number_of_edges(), 0);
    assert!(g.is_vertex_in_graph(&1));
}

#[test]
fn remove_vertex_of_an_unknown_key_fails() {
    let mut g: Graph<u32> = Graph::new();
    assert_eq!(g.remove_vertex(&1), Err(GraphError::NoSuchVertex));
    g.add_vertex(1);
    g.add_vertex(2);
    g.add_edge(1, 2).unwrap();
    assert_eq!(g.remove_vertex(&3), Err(GraphError::NoSuchVertex));
    assert_eq!(g.number_of_vertices(), 2);
    assert_eq!(g.number_of_edges(), 1);
}

#[test]
fn remove_vertex_takes_label_and_edges_along() {
    let mut g: Graph<u32> = Graph::new();
    g.add_vertex_with_label(1, "one");
    g.add_vertex_with_label(2, "two");
    g.add_vertex(3);
    g.add_vertex(4);
    g.add_edge(1, 2).unwrap();
    g.add_edge(2, 2).unwrap();
    g.add_edge(2, 3).unwrap();
    g.add_edge(3, 2).unwrap();
    g.add_edge(4, 2).unwrap();
    g.add_edge(3, 4).unwrap();
    g.add_edge(1, 3).unwrap();
    assert_eq!(g.number_of_edges(), 7);
    assert_eq!(g.remove_vertex(&2), Ok(()));
    assert!(!g.is_vertex_in_graph(&2));
    assert_eq!(g.get_label(&2), None);
    assert_eq!(g.number_of_vertices(), 3);
    assert_eq!(g.number_of_edges(), 2);
    for other in [1u32, 2, 3, 4] {
        assert!(!g.is_edge_in_graph(2, other));
        assert!(!g.is_edge_in_graph(other, 2));
    }
    assert!(g.is_edge_in_graph(3, 4));
    assert!(g.is_edge_in_graph(1, 3));
    assert_eq!(outs(&g, 1), vec![3]);
    assert_eq!(outs(&g, 3), vec![4]);
    assert_eq!(outs(&g, 4), Vec::<u32>::new());
    assert_eq!(ins(&g, 3), vec![1]);
    assert_eq!(outs(&g, 2), Vec::<u32>::new());
    assert_eq!(ins(&g, 2), Vec::<u32>::new());
    assert_eq!(g.get_label(&1).unwrap(), "one");
}

#[test]
fn removed_vertex_comes_back_bare() {
    let mut g: Graph<u32> = Graph::new();
    g.add_vertex_with_label(1, "one");
    g.add_vertex(2);
    g.add_edge(1, 2).unwrap();
    g.add_edge(2, 1).unwrap();
    g.remove_vertex(&1).unwrap();
    assert!(!g.add_vertex(1));
    assert_eq!(g.get_label(&1), None);
    assert_eq!(outs(&g, 1), Vec::<u32>::new());
    assert_eq!(ins(&g, 1), Vec::<u32>::new());
    assert_eq!(g.number_of_edges(), 0);
    g.add_edge(1, 2).unwrap();
    assert_eq!(ins(&g, 2), vec![1]);
}

#[test]
fn set_label_on_an_unknown_key_fails() {
    let mut g: Graph<u32> = Graph::new();
    assert_eq!(g.set_label(&1, "x"), Err(GraphError::NoSuchVertex));
    assert_eq!(g.get_label(&1), None);
    assert!(!g.is_vertex_in_graph(&1));
    assert_eq!(g.number_of_vertices(), 0);
}

#[test]
fn set_label_overwrites() {
    let mut g: Graph<u32> = Graph::new();
    g.add_vertex(1);
    assert_eq!(g.get_label(&1), None);
    assert_eq!(g.set_label(&1, "first"), Ok(()));
    assert_eq!(g.get_label(&1).unwrap(), "first");
    assert_eq!(g.set_label(&1, "second"), Ok(()));
    assert_eq!(g.get_label(&1).unwrap(), "second");
}

#[test]
fn empty_label_is_a_label() {
    let mut g: Graph<u32> = Graph::new();
    g.add_vertex(1);
    g.add_vertex(2);
    g.set_label(&1, "").unwrap();
    assert_eq!(g.get_label(&1), Some(&String::new()));
    assert_eq!(g.get_label(&2), None);
}

#[test]
fn get_label_mut_writes_the_label() {
    let mut g: Graph<u32> = Graph::new();
    g.add_vertex_with_label(1, "A");
    g.add_vertex(2);
    g.get_label_mut(&1).unwrap().push_str("BC");
    assert_eq!(g.get_label(&1).unwrap(), "ABC");
    assert!(g.get_label_mut(&2).is_none());
    assert!(g.get_label_mut(&3).is_none());
    assert_eq!(g.get_label(&2), None);
    assert!(!g.is_vertex_in_graph(&3));
    assert_eq!(g.number_of_vertices(), 2);
}

#[test]
fn scenario_edges_and_vertex_removal() {
    let mut g: Graph<u32> = Graph::new();
    g.add_vertex(1);
    g.add_vertex(2);
    g.add_vertex(3);
    assert_eq!(g.number_of_vertices(), 3);
    g.add_edge(1, 2).unwrap();
    g.add_edge(1, 3).unwrap();
    assert_eq!(outs(&g, 1), vec![2, 3]);
    assert_eq!(g.number_of_edges(), 2);
    g.remove_vertex(&1).unwrap();
    assert_eq!(g.number_of_edges(), 0);
    assert!(!g.is_vertex_in_graph(&1));
}

#[test]
fn scenario_labels() {
    let mut g: Graph<u32> = Graph::new();
    g.add_vertex_with_label(1, "A");
    g.add_vertex_with_label(2, "B");
    g.add_vertex(3);
    assert_eq!(g.get_label(&1).unwrap(), "A");
    assert_eq!(g.get_label(&3), None);
    g.remove_vertex(&2).unwrap();
    assert_eq!(g.get_label(&2), None);
}

#[test]
fn scenario_loop_and_vertex_removal() {
    let mut g: Graph<u32> = Graph::new();
    g.add_vertex(2);
    g.add_vertex(3);
    g.add_edge(3, 3).unwrap();
    g.add_edge(2, 3).unwrap();
    g.remove_vertex(&3).unwrap();
    assert!(!g.is_edge_in_graph(3, 3));
    assert!(!g.is_edge_in_graph(2, 3));
    assert_eq!(g.number_of_edges(), 0);
    assert_eq!(outs(&g, 2), Vec::<u32>::new());
}

#[test]
fn many_edges_added_and_removed() {
    let n: u32 = 12;
    let mut g: Graph<u32> = Graph::new();
    for k in 0..n {
        g.add_vertex(k);
    }
    for u in 0..n {
        for v in 0..n {
            g.add_edge(u, v).unwrap();
        }
    }
    assert_eq!(g.number_of_edges(), 144);
    for u in 0..n {
        for v in 0..n {
            if (u + v) % 3 == 0 {
                assert_eq!(g.remove_edge(&u, &v), Ok(()));
            }
        }
    }
    let mut expected = 0;
    for u in 0..n {
        let mut targets = Vec::new();
        for v in 0..n {
            let kept = (u + v) % 3 != 0;
            assert_eq!(g.is_edge_in_graph(u, v), kept);
            if kept {
                expected += 1;
                targets.push(v);
            }
        }
        assert_eq!(outs(&g, u), targets);
        let sources: Vec<u32> = (0..n).filter(|w| (w + u) % 3 != 0).collect();
        assert_eq!(ins(&g, u), sources);
    }
    assert_eq!(g.number_of_edges(), expected);
    g.remove_vertex(&1).unwrap();
    g.remove_vertex(&7).unwrap();
    let mut left = 0;
    for u in 0..n {
        for v in 0..n {
            let kept = (u + v) % 3 != 0 && u != 1 && u != 7 && v != 1 && v != 7;
            assert_eq!(g.is_edge_in_graph(u, v), kept);
            if kept {
                left += 1;
            }
        }
    }
    assert_eq!(g.number_of_edges(), left);
    assert_eq!(g.number_of_vertices(), 10);
}

#[test]
fn keys_of_another_type() {
    let mut g: Graph<(i8, char)> = Graph::new();
    g.add_vertex_with_label((0, 'a'), "start");
    g.add_vertex((1, 'b'));
    g.add_edge((0, 'a'), (1, 'b')).unwrap();
    assert!(g.is_edge_in_graph((0, 'a'), (1, 'b')));
    assert!(!g.is_edge_in_graph((1, 'b'), (0, 'a')));
    let targets: Vec<(i8, char)> = g.out_neighbours(&(0, 'a')).copied().collect();
    assert_eq!(targets, vec![(1, 'b')]);
    assert_eq!(g.get_label(&(0, 'a')).unwrap(), "start");
    g.remove_vertex(&(1, 'b')).unwrap();
    assert_eq!(g.number_of_edges(), 0);
    assert_eq!(g.out_neighbours(&(0, 'a')).count(), 0);
}

#[test]
fn error_values_compare_and_print() {
    assert_eq!(GraphError::NoSuchVertex, GraphError::NoSuchVertex);
    assert_ne!(GraphError::NoSuchVertex, GraphError::NoSuchEdge);
    assert_eq!(format!("{:?}", GraphError::NoSuchEdge), "NoSuchEdge");
    assert_eq!(format!("{:?}", GraphError::NoSuchVertex), "NoSuchVertex");
}
