use formality::judgment::Graph;

fn sorted(mut v: Vec<u32>) -> Vec<u32> {
    v.sort();
    v
}

#[test]
fn judgment() {
    let graph = Graph { edges: vec![(0, 1), (1, 2), (2, 0), (2, 3)] };
    assert_eq!(sorted(graph.reachable(0)), vec![0, 1, 2, 3]);
}

#[test]
fn successors_in_edge_order() {
    let graph = Graph { edges: vec![(0, 1), (1, 2), (0, 5), (2, 3), (0, 1)] };
    assert_eq!(graph.successors(0), vec![1, 5, 1]);
    assert_eq!(graph.successors(4), Vec::<u32>::new());
}

#[test]
fn judgment_results_are_a_set() {
    let graph = Graph { edges: vec![(0, 1), (0, 1), (1, 0), (1, 2), (2, 2)] };
    let a = graph.reachable(0);
    let b = graph.reachable(0);
    assert_eq!(sorted(a.clone()), sorted(b));
    let mut d = sorted(a.clone());
    d.dedup();
    assert_eq!(d.len(), a.len());
    assert_eq!(sorted(a), vec![0, 1, 2]);
}

#[test]
fn start_not_reachable_without_cycle() {
    let graph = Graph { edges: vec![(0, 1), (1, 2)] };
    assert_eq!(sorted(graph.reachable(0)), vec![1, 2]);
    assert_eq!(graph.reachable(2), Vec::<u32>::new());
}
