use petgraph::dot::{Config, Dot};
use petgraph::graph::DiGraph;
use regex_tree::{build_tree, count_nodes, fits_in_graph, generate_regex_tree, tree_to_graph, Node};

fn node(pattern: &str, children: Vec<Node>) -> Node {
    Node { pattern: pattern.to_string(), children }
}

fn labels(graph: &DiGraph<String, ()>) -> Vec<String> {
    graph.node_weights().cloned().collect()
}

fn edges(graph: &DiGraph<String, ()>) -> Vec<(usize, usize)> {
    graph
        .edge_indices()
        .map(|e| {
            let (a, b) = graph.edge_endpoints(e).unwrap();
            (a.index(), b.index())
        })
        .collect()
}

fn deep_tree() -> Node {
    node(
        "r",
        vec![
            node("a", vec![node("b", vec![node("c", vec![])]), node("d", vec![])]),
            node("e", vec![]),
        ],
    )
}

#[test]
fn test_tree_to_graph() {
    let inputs = vec![
        "highlighted text",
        "highlighted part",
        "highlighted section",
    ];
    let tree = generate_regex_tree(&inputs);
    let graph = tree_to_graph(&tree);
    assert_eq!(graph.node_count(), tree.children.len() + 1);
    assert_eq!(graph.edge_count(), tree.children.len());

    let dot = format!("{:?}", Dot::with_config(&graph, &[Config::EdgeNoLabel]));
    assert!(dot.starts_with("digraph"));
    assert!(dot.contains("highlighted "));
}

#[test]
fn graph_lists_nodes_parent_before_child() {
    let graph = tree_to_graph(&deep_tree());
    assert_eq!(labels(&graph), vec!["r", "a", "b", "c", "d", "e"]);
    assert_eq!(edges(&graph), vec![(0, 1), (1, 2), (2, 3), (1, 4), (0, 5)]);
}

#[test]
fn graph_of_a_single_node_has_no_edge() {
    let graph = tree_to_graph(&node("only", vec![]));
    assert_eq!(labels(&graph), vec!["only"]);
    assert!(edges(&graph).is_empty());
}

#[test]
fn graph_of_a_built_tree_repeats_nested_patterns() {
    let tree = build_tree(&["a".to_string(), "b".to_string(), "a".to_string()]);
    let graph = tree_to_graph(&tree);
    assert_eq!(labels(&graph), vec![".*", ".*a.*", ".*a.*", ".*b.*", ".*a.*"]);
    assert_eq!(edges(&graph), vec![(0, 1), (1, 2), (0, 3), (0, 4)]);
}

#[test]
fn graph_of_the_empty_root() {
    let graph = tree_to_graph(&generate_regex_tree(&[]));
    assert_eq!(labels(&graph), vec![""]);
    assert!(edges(&graph).is_empty());
}

#[test]
fn nodes_are_counted_as_far_as_the_limit() {
    let tree = deep_tree();
    assert_eq!(count_nodes(&tree, 10), Some(6));
    assert_eq!(count_nodes(&tree, 6), Some(6));
    assert_eq!(count_nodes(&tree, 5), None);
    assert_eq!(count_nodes(&tree, 1), None);
    assert_eq!(count_nodes(&tree, 0), None);
    assert_eq!(count_nodes(&node("only", vec![]), 1), Some(1));
    assert_eq!(count_nodes(&node("only", vec![]), 0), None);
    assert!(fits_in_graph(&tree));
}

#[test]
fn clone_keeps_the_whole_tree() {
    let tree = deep_tree();
    let copy = tree.clone();
    let one = tree_to_graph(&tree);
    let two = tree_to_graph(&copy);
    assert_eq!(labels(&one), labels(&two));
    assert_eq!(edges(&one), edges(&two));
}
