use bloomset::graph::{Edge, Graph, Node};

#[test]
fn test_node_new_keeps_fields() {
    let a: Node<char> = Node::new("A", 'a');
    assert_eq!(a.id, "A");
    assert_eq!(a.value, 'a');
}

#[test]
fn test_edge_new_links_nodes() {
    let a: Node<char> = Node::new("A", 'a');
    let b: Node<char> = Node::new("B", 'b');
    let e = Edge::new(&a, &b);
    assert_eq!(e.subject.id, "A");
    assert_eq!(e.object.id, "B");
}

#[test]
fn test_node_equality() {
    let a1: Node<char> = Node::new("A", 'a');
    let a2: Node<char> = Node::new("A", 'a');
    let b: Node<char> = Node::new("B", 'a');
    let c: Node<char> = Node::new("A", 'c');
    assert!(a1 == a2);
    assert!(a1 != b);
    assert!(a1 != c);
}

#[test]
fn test_graph_holds_nodes_and_edges() {
    let a: Node<char> = Node::new("A", 'a');
    let b: Node<char> = Node::new("B", 'b');
    let a_to_b = Edge::new(&a, &b);
    let g: Graph<char> = Graph { nodes: vec![&a, &b], edges: vec![&a_to_b] };
    assert_eq!(g.nodes.len(), 2);
    assert_eq!(g.edges.len(), 1);
    assert_eq!(g.edges[0].subject.id, "A");
}
