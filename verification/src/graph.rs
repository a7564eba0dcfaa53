//! The pattern tree as a directed graph.

use vstd::prelude::*;
use vstd::string::*;
use petgraph::graph::{DiGraph, NodeIndex};
use crate::tree::{forest, node_view, Node, Tree};

verus! {

/// `petgraph::graph::Graph`, taken as it is: what a graph holds is told by
/// `graph_labels` and `graph_edges` alone.
#[verifier::external_type_specification]
#[verifier::external_body]
#[verifier::reject_recursive_types(N)]
#[verifier::reject_recursive_types(E)]
#[verifier::reject_recursive_types(Ty)]
#[verifier::reject_recursive_types(Ix)]
pub struct ExGraph<N, E, Ty, Ix>(petgraph::graph::Graph<N, E, Ty, Ix>);

/// `petgraph::Directed`, the marker of graphs whose edges have a direction.
#[verifier::external_type_specification]
#[verifier::external_body]
pub struct ExDirected(petgraph::Directed);

/// The labels of the vertices of a graph, in the order of their indices.
pub uninterp spec fn graph_labels(graph: DiGraph<String, ()>) -> Seq<Seq<char>>;

/// The edges of a graph, each as the indices of its source and its target, in
/// the order of the edges' own indices.
pub uninterp spec fn graph_edges(graph: DiGraph<String, ()>) -> Seq<(int, int)>;

/// The most vertices, and the most edges, that a graph can hold.
pub open spec fn graph_limit() -> int {
    0xffff_ffff
}

/// Calls `DiGraph::new`, which gives a graph without vertices or edges.
#[verifier::external_body]
fn new_graph() -> (graph: DiGraph<String, ()>)
    ensures
        graph_labels(graph) == Seq::<Seq<char>>::empty(),
        graph_edges(graph) == Seq::<(int, int)>::empty(),
{
    DiGraph::new()
}

/// Calls `Graph::add_node`, which puts a vertex with the given label behind
/// the vertices that are there, leaves the edges alone and returns the new
/// vertex's index: the number of vertices before the call. It panics where
/// the graph holds as many vertices as its index type can number.
#[verifier::external_body]
fn add_node(graph: &mut DiGraph<String, ()>, label: String) -> (index: usize)
    requires
        graph_labels(*old(graph)).len() < graph_limit(),
    ensures
        graph_labels(*final(graph)) == graph_labels(*old(graph)).push(label@),
        graph_edges(*final(graph)) == graph_edges(*old(graph)),
        index == graph_labels(*old(graph)).len(),
{
    graph.add_node(label).index()
}

/// Calls `Graph::add_edge`, which puts an edge from the vertex at `from` to
/// the vertex at `to` behind the edges that are there and leaves the vertices
/// alone. It panics where one of the two vertices does not exist, or where
/// the graph holds as many edges as its index type can number.
#[verifier::external_body]
fn add_edge(graph: &mut DiGraph<String, ()>, from: usize, to: usize)
    requires
        from < graph_labels(*old(graph)).len(),
        to < graph_labels(*old(graph)).len(),
        graph_edges(*old(graph)).len() < graph_limit(),
    ensures
        graph_labels(*final(graph)) == graph_labels(*old(graph)),
        graph_edges(*final(graph)) == graph_edges(*old(graph)).push((from as int, to as int)),
{
    graph.add_edge(NodeIndex::new(from), NodeIndex::new(to), ());
}

/// The number of nodes of a tree.
pub open spec fn tree_size(tree: Tree) -> nat
    decreases tree, 1nat, 0nat,
{
    1 + forest_size(tree, tree.children.len())
}

/// The number of nodes of the first `n` subtrees of `tree`.
pub open spec fn forest_size(tree: Tree, n: nat) -> nat
    decreases tree, 0nat, n,
{
    if n == 0 || n > tree.children.len() {
        0
    } else {
        forest_size(tree, (n - 1) as nat) + tree_size(tree.children[n - 1])
    }
}

/// The patterns of a tree, parent before child, the children in order.
pub open spec fn preorder(tree: Tree) -> Seq<Seq<char>>
    decreases tree, 1nat, 0nat,
{
    seq![tree.pattern] + preorder_below(tree, tree.children.len())
}

/// The patterns of the first `n` subtrees of `tree`, one subtree after the other.
pub open spec fn preorder_below(tree: Tree, n: nat) -> Seq<Seq<char>>
    decreases tree, 0nat, n,
{
    if n == 0 || n > tree.children.len() {
        Seq::empty()
    } else {
        preorder_below(tree, (n - 1) as nat) + preorder(tree.children[n - 1])
    }
}

/// The edges that lead to the first `n` subtrees of `tree` and run inside
/// them, where the root of `tree` is the vertex `at` and the nodes of the
/// subtrees take the vertices from `base` on, in preorder: for each subtree
/// the edge from `at` to its root, then the edges inside it.
pub open spec fn edges_from(tree: Tree, at: int, base: int, n: nat) -> Seq<(int, int)>
    decreases tree, n,
{
    if n == 0 || n > tree.children.len() {
        Seq::empty()
    } else {
        let child = tree.children[n - 1];
        let child_at = base + forest_size(tree, (n - 1) as nat);
        edges_from(tree, at, base, (n - 1) as nat).push((at, child_at)) + edges_from(
            child,
            child_at,
            child_at + 1,
            child.children.len(),
        )
    }
}

/// The edges under the first `n` subtrees of `tree`, where the root of `tree`
/// is the vertex `at` and the nodes below it follow at once, in preorder.
pub open spec fn edges_below(tree: Tree, at: int, n: nat) -> Seq<(int, int)> {
    edges_from(tree, at, at + 1, n)
}

/// The first `n` subtrees of a tree hold no more nodes than the first `m`, where `n <= m`.
pub proof fn forest_size_grows(tree: Tree, n: nat, m: nat)
    requires
        n <= m <= tree.children.len(),
    ensures
        forest_size(tree, n) <= forest_size(tree, m),
    decreases m,
{
    if n < m {
        forest_size_grows(tree, n, (m - 1) as nat);
    }
}

/// The preorder of a tree names each of its nodes once.
pub proof fn preorder_counts_nodes(tree: Tree, n: nat)
    requires
        n <= tree.children.len(),
    ensures
        preorder_below(tree, n).len() == forest_size(tree, n),
        preorder(tree).len() == tree_size(tree),
{
    preorder_all(tree, n);
    preorder_all(tree, tree.children.len());
}

/// Each node of the first `n` subtrees has one edge: the one that leads to it.
pub proof fn edges_count_nodes(tree: Tree, at: int, base: int, n: nat)
    requires
        n <= tree.children.len(),
    ensures
        edges_from(tree, at, base, n).len() == forest_size(tree, n),
    decreases tree, n,
{
    if n > 0 {
        let child = tree.children[n - 1];
        let child_at = base + forest_size(tree, (n - 1) as nat);
        edges_count_nodes(tree, at, base, (n - 1) as nat);
        edges_count_nodes(child, child_at, child_at + 1, child.children.len());
        assert(tree_size(child) == 1 + forest_size(child, child.children.len()));
    }
}

/// Every edge leaves the vertex `at` or one of the new vertices, and leads to
/// a new vertex that comes later than the one it leaves: a child comes after
/// its parent, no edge leads back, and none leads to a vertex below `base`.
pub proof fn edges_run_forward(tree: Tree, at: int, base: int, n: nat, e: int)
    requires
        n <= tree.children.len(),
        at < base,
        0 <= e < edges_from(tree, at, base, n).len(),
    ensures
        edges_from(tree, at, base, n)[e].0 == at || base <= edges_from(tree, at, base, n)[e].0,
        edges_from(tree, at, base, n)[e].0 < edges_from(tree, at, base, n)[e].1,
        base <= edges_from(tree, at, base, n)[e].1 < base + forest_size(tree, n),
    decreases tree, n,
{
    let child = tree.children[n - 1];
    let child_at = base + forest_size(tree, (n - 1) as nat);
    let before = edges_from(tree, at, base, (n - 1) as nat);
    let inside = edges_from(child, child_at, child_at + 1, child.children.len());
    assert(edges_from(tree, at, base, n) == before.push((at, child_at)) + inside);
    assert(tree_size(child) == 1 + forest_size(child, child.children.len()));
    if e < before.len() {
        edges_run_forward(tree, at, base, (n - 1) as nat, e);
    } else if e > before.len() {
        edges_run_forward(child, child_at, child_at + 1, child.children.len(), e - before.len() - 1);
    }
}

/// Where the subtree at `m` stands among the first `n`: behind the nodes of
/// the subtrees before it. There the preorder holds its own preorder, and the
/// edges hold the edge from `at` to its root, at the vertex `base` plus the
/// sizes of the subtrees before it, and then the edges inside it.
pub proof fn subtree_takes_its_block(tree: Tree, at: int, base: int, n: nat, m: nat)
    requires
        m < n <= tree.children.len(),
    ensures
        forest_size(tree, m + 1) == forest_size(tree, m) + tree_size(tree.children[m as int]),
        forest_size(tree, m + 1) <= forest_size(tree, n),
        preorder_below(tree, n).len() == forest_size(tree, n),
        edges_from(tree, at, base, n).len() == forest_size(tree, n),
        preorder_below(tree, n).subrange(
            forest_size(tree, m) as int,
            forest_size(tree, m + 1) as int,
        ) == preorder(tree.children[m as int]),
        edges_from(tree, at, base, n).subrange(
            forest_size(tree, m) as int,
            forest_size(tree, m + 1) as int,
        ) == seq![(at, base + forest_size(tree, m))] + edges_from(
            tree.children[m as int],
            base + forest_size(tree, m),
            base + forest_size(tree, m) + 1,
            tree.children[m as int].children.len(),
        ),
    decreases n,
{
    let last = tree.children[n - 1];
    let last_at = base + forest_size(tree, (n - 1) as nat);
    let labels_before = preorder_below(tree, (n - 1) as nat);
    let edges_before = edges_from(tree, at, base, (n - 1) as nat);
    let inside = edges_from(last, last_at, last_at + 1, last.children.len());
    assert(preorder_below(tree, n) == labels_before + preorder(last));
    assert(edges_from(tree, at, base, n) == edges_before.push((at, last_at)) + inside);
    preorder_counts_nodes(tree, (n - 1) as nat);
    preorder_counts_nodes(tree, n);
    preorder_counts_nodes(last, last.children.len());
    edges_count_nodes(tree, at, base, (n - 1) as nat);
    edges_count_nodes(tree, at, base, n);
    edges_count_nodes(last, last_at, last_at + 1, last.children.len());
    forest_size_grows(tree, m + 1, n);
    let from = forest_size(tree, m) as int;
    let to = forest_size(tree, m + 1) as int;
    if m + 1 < n {
        subtree_takes_its_block(tree, at, base, (n - 1) as nat, m);
        forest_size_grows(tree, m + 1, (n - 1) as nat);
        assert(preorder_below(tree, n).subrange(from, to) =~= labels_before.subrange(from, to));
        assert(edges_from(tree, at, base, n).subrange(from, to) =~= edges_before.subrange(
            from,
            to,
        ));
    } else {
        assert(preorder_below(tree, n).subrange(from, to) =~= preorder(last));
        assert(edges_from(tree, at, base, n).subrange(from, to) =~= seq![(at, last_at)] + inside);
    }
}

/// The length of the preorder below a tree.
proof fn preorder_all(tree: Tree, n: nat)
    requires
        n <= tree.children.len(),
    ensures
        preorder_below(tree, n).len() == forest_size(tree, n),
    decreases tree, n,
{
    if n > 0 {
        let child = tree.children[n - 1];
        preorder_all(tree, (n - 1) as nat);
        preorder_all(child, child.children.len());
        assert(preorder(child).len() == 1 + preorder_below(child, child.children.len()).len());
        assert(tree_size(child) == 1 + forest_size(child, child.children.len()));
    }
}

/// Counts the nodes of the tree under `node`, as far as `limit`: the count is
/// given where the tree holds no more nodes than that, and only there.
pub fn count_nodes(node: &Node, limit: usize) -> (count: Option<usize>)
    ensures
        count == if tree_size(node@) <= limit {
            Some(tree_size(node@) as usize)
        } else {
            None
        },
    decreases node,
{
    if limit == 0 {
        return None;
    }
    let ghost tree = node@;
    let n: usize = node.children.len();
    proof {
        node_view(*node);
    }
    let mut count: usize = 1;
    let mut k: usize = 0;
    while k < n
        invariant
            k <= n,
            n == node.children@.len(),
            tree == node@,
            tree.children == forest(node.children@),
            count == 1 + forest_size(tree, k as nat),
            count <= limit,
        decreases n - k,
    {
        proof {
            assert(node.children@[k as int]@ == tree.children[k as int]);
            forest_size_grows(tree, (k + 1) as nat, n as nat);
        }
        match count_nodes(&node.children[k], limit - count) {
            Some(below) => {
                count = count + below;
            },
            None => {
                return None;
            },
        }
        k += 1;
    }
    Some(count)
}

/// Whether the tree under `root` holds no more nodes than a graph can number.
pub fn fits_in_graph(root: &Node) -> (fits: bool)
    ensures
        fits == (tree_size(root@) <= graph_limit()),
{
    count_nodes(root, 0xffff_ffff).is_some()
}

/// Adds the nodes below `parent` to `graph`, parent before child: for each
/// child a vertex with its pattern, an edge from the vertex at
/// `parent_index`, then what is below the child. The new vertices and edges
/// come behind those that the graph holds, which stay as they are. Where
/// `parent` has children, `parent_index` is a vertex of the graph.
fn add_children_to_graph(graph: &mut DiGraph<String, ()>, parent_index: usize, parent: &Node)
    requires
        parent@.children.len() > 0 ==> parent_index < graph_labels(*old(graph)).len(),
        graph_labels(*old(graph)).len() + forest_size(parent@, parent@.children.len())
            <= graph_limit(),
        graph_edges(*old(graph)).len() + forest_size(parent@, parent@.children.len())
            <= graph_limit(),
    ensures
        graph_labels(*final(graph)) == graph_labels(*old(graph)) + preorder_below(
            parent@,
            parent@.children.len(),
        ),
        graph_edges(*final(graph)) == graph_edges(*old(graph)) + edges_from(
            parent@,
            parent_index as int,
            graph_labels(*old(graph)).len() as int,
            parent@.children.len(),
        ),
    decreases parent,
{
    let ghost tree = parent@;
    let ghost labels = graph_labels(*graph);
    let ghost edges = graph_edges(*graph);
    let ghost base = labels.len() as int;
    let n: usize = parent.children.len();
    proof {
        node_view(*parent);
    }
    let mut k: usize = 0;
    while k < n
        invariant
            k <= n,
            n == parent.children@.len(),
            tree == parent@,
            tree.children == forest(parent.children@),
            base == labels.len(),
            n > 0 ==> parent_index < base,
            base + forest_size(tree, n as nat) <= graph_limit(),
            edges.len() + forest_size(tree, n as nat) <= graph_limit(),
            graph_labels(*graph) == labels + preorder_below(tree, k as nat),
            graph_edges(*graph) == edges + edges_from(tree, parent_index as int, base, k as nat),
        decreases n - k,
    {
        let child: &Node = &parent.children[k];
        let ghost sub = tree.children[k as int];
        proof {
            assert(child@ == sub);
            assert(tree_size(sub) == 1 + forest_size(sub, sub.children.len()));
            forest_size_grows(tree, (k + 1) as nat, n as nat);
            preorder_counts_nodes(tree, k as nat);
            edges_count_nodes(tree, parent_index as int, base, k as nat);
        }
        let child_index = add_node(graph, child.pattern.clone());
        add_edge(graph, parent_index, child_index);
        add_children_to_graph(graph, child_index, child);
        proof {
            assert(preorder(sub) == seq![sub.pattern] + preorder_below(sub, sub.children.len()));
            assert(graph_labels(*graph) =~= labels + preorder_below(tree, (k + 1) as nat));
            assert(graph_edges(*graph) =~= edges + edges_from(
                tree,
                parent_index as int,
                base,
                (k + 1) as nat,
            ));
        }
        k += 1;
    }
}

/// Converts the tree under `root` to a directed graph.
///
/// The graph has one vertex for each node, labelled with the node's pattern,
/// in preorder: the root is vertex 0, and a node's vertex comes before those
/// of its children. It has one edge from each node's vertex to the vertex of
/// each of its children, in the same order. The tree holds no more nodes than
/// a graph can number.
pub fn tree_to_graph(root: &Node) -> (graph: DiGraph<String, ()>)
    requires
        tree_size(root@) <= graph_limit(),
    ensures
        graph_labels(graph) == preorder(root@),
        graph_edges(graph) == edges_below(root@, 0, root@.children.len()),
{
    let mut graph = new_graph();
    let root_index = add_node(&mut graph, root.pattern.clone());
    add_children_to_graph(&mut graph, root_index, root);
    assert(graph_labels(graph) =~= preorder(root@));
    assert(graph_edges(graph) =~= edges_below(root@, 0, root@.children.len()));
    graph
}

} // verus!
