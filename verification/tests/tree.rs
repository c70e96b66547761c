use clock_solver::model::ConnectError;
use clock_solver::model::Direction;
use clock_solver::model::UnknownVertex;
use clock_solver::tree::ClockTree;
use clock_solver::types::Endpoint;
use clock_solver::types::Node;
use clock_solver::types::Value;

fn endpoint(name: &str) -> Endpoint {
    Endpoint::new(name.to_string(), Value::DontCare, false)
}

#[test]
fn new_tree_is_empty() {
    let tree = ClockTree::new();
    assert_eq!(tree.node_count(), 0);
    assert_eq!(tree.edge_count(), 0);
    assert_eq!(tree.node_indices(), Vec::<u32>::new());
    assert_eq!(tree.externals(Direction::Incoming), Vec::<u32>::new());
}

#[test]
fn add_node_gives_fresh_identities() {
    let mut tree = ClockTree::new();
    let a = tree.add_node(Node::Mux);
    let b = tree.add_node(Node::Divide(vec![2]));
    let c = tree.add_node(Node::Input(endpoint("in")));
    assert_ne!(a, b);
    assert_ne!(a, c);
    assert_ne!(b, c);
    assert_eq!(tree.node_count(), 3);
    assert_eq!(tree.node_weight(a), Some(&Node::Mux));
    assert_eq!(tree.node_weight(b), Some(&Node::Divide(vec![2])));
    assert_eq!(tree.node_weight(c), Some(&Node::Input(endpoint("in"))));
    assert_eq!(tree.node_indices(), vec![a, b, c]);
}

#[test]
fn try_add_node_adds_while_there_is_room() {
    let mut tree = ClockTree::new();
    let a = tree.try_add_node(Node::Mux).unwrap();
    assert_eq!(tree.node_weight(a), Some(&Node::Mux));
    assert_eq!(tree.node_count(), 1);
}

#[test]
fn remove_node_keeps_other_identities() {
    let mut tree = ClockTree::new();
    let a = tree.add_node(Node::Input(endpoint("a")));
    let b = tree.add_node(Node::Mux);
    let c = tree.add_node(Node::Output(endpoint("c")));
    assert_eq!(tree.connect(a, b), Ok(()));
    assert_eq!(tree.connect(b, c), Ok(()));

    assert_eq!(tree.remove_node(b), Ok(Node::Mux));

    assert_eq!(tree.node_indices(), vec![a, c]);
    assert_eq!(tree.node_weight(a), Some(&Node::Input(endpoint("a"))));
    assert_eq!(tree.node_weight(b), None);
    assert_eq!(tree.node_weight(c), Some(&Node::Output(endpoint("c"))));
    assert_eq!(tree.edge_count(), 0);
    assert_eq!(tree.out_degree(a), 0);
    assert_eq!(tree.in_degree(c), 0);
}

#[test]
fn remove_unknown_node_fails_and_changes_nothing() {
    let mut tree = ClockTree::new();
    let a = tree.add_node(Node::Mux);
    let b = tree.add_node(Node::Mux);
    assert_eq!(tree.connect(a, b), Ok(()));
    assert_eq!(tree.remove_node(b + 7), Err(UnknownVertex));
    assert_eq!(tree.node_indices(), vec![a, b]);
    assert!(tree.contains_edge(a, b));
    assert_eq!(tree.remove_node(b), Ok(Node::Mux));
    assert_eq!(tree.remove_node(b), Err(UnknownVertex));
    assert_eq!(tree.node_indices(), vec![a]);
}

#[test]
fn connect_adds_the_edge() {
    let mut tree = ClockTree::new();
    let a = tree.add_node(Node::Input(endpoint("a")));
    let b = tree.add_node(Node::Output(endpoint("b")));
    assert!(!tree.contains_edge(a, b));
    assert_eq!(tree.connect(a, b), Ok(()));
    assert!(tree.contains_edge(a, b));
    assert!(!tree.contains_edge(b, a));
    assert_eq!(tree.edge_count(), 1);
    assert_eq!(tree.out_degree(a), 1);
    assert_eq!(tree.in_degree(a), 0);
    assert_eq!(tree.in_degree(b), 1);
    assert_eq!(tree.out_degree(b), 0);
}

#[test]
fn connect_to_unknown_vertex_fails() {
    let mut tree = ClockTree::new();
    let a = tree.add_node(Node::Mux);
    assert_eq!(tree.connect(a, a + 1), Err(ConnectError::UnknownVertex));
    assert_eq!(tree.connect(a + 1, a), Err(ConnectError::UnknownVertex));
    assert_eq!(tree.connect(a + 1, a + 1), Err(ConnectError::UnknownVertex));
    assert_eq!(tree.edge_count(), 0);
}

#[test]
fn connect_to_itself_fails_with_self_loop() {
    let mut tree = ClockTree::new();
    let nodes = vec![
        Node::Mux,
        Node::Divide(vec![2]),
        Node::Multiply(vec![3]),
        Node::Input(endpoint("in")),
        Node::Output(endpoint("out")),
    ];
    for node in nodes {
        let a = tree.add_node(node);
        assert_eq!(tree.connect(a, a), Err(ConnectError::SelfLoop));
        assert_eq!(tree.in_degree(a), 0);
        assert_eq!(tree.out_degree(a), 0);
    }
    assert_eq!(tree.edge_count(), 0);
}

#[test]
fn connect_into_full_divide_fails_with_port_exhausted() {
    let mut tree = ClockTree::new();
    let input = tree.add_node(Node::Input(endpoint("in")));
    let mux = tree.add_node(Node::Mux);
    let divide = tree.add_node(Node::Divide(vec![2, 4]));
    assert_eq!(tree.connect(input, divide), Ok(()));
    assert_eq!(tree.in_degree(divide), 1);

    assert_eq!(tree.connect(mux, divide), Err(ConnectError::PortExhausted));

    assert_eq!(tree.in_degree(divide), 1);
    assert_eq!(tree.out_degree(mux), 0);
    assert_eq!(tree.edge_count(), 1);
    assert!(tree.contains_edge(input, divide));
    assert!(!tree.contains_edge(mux, divide));
    assert_eq!(tree.node_indices(), vec![input, mux, divide]);
}

#[test]
fn connect_into_input_or_out_of_output_fails() {
    let mut tree = ClockTree::new();
    let input = tree.add_node(Node::Input(endpoint("in")));
    let output = tree.add_node(Node::Output(endpoint("out")));
    let mux = tree.add_node(Node::Mux);
    assert_eq!(tree.connect(mux, input), Err(ConnectError::PortExhausted));
    assert_eq!(tree.connect(output, mux), Err(ConnectError::PortExhausted));
    assert_eq!(tree.connect(output, input), Err(ConnectError::PortExhausted));
    assert_eq!(tree.edge_count(), 0);
}

#[test]
fn connect_twice_keeps_one_edge() {
    let mut tree = ClockTree::new();
    let input = tree.add_node(Node::Input(endpoint("in")));
    let divide = tree.add_node(Node::Divide(vec![2]));
    assert_eq!(tree.connect(input, divide), Ok(()));
    assert_eq!(tree.connect(input, divide), Ok(()));
    assert_eq!(tree.edge_count(), 1);
    assert_eq!(tree.in_degree(divide), 1);
    assert_eq!(tree.out_degree(input), 1);
}

#[test]
fn try_connect_answers_as_connect_does() {
    let mut tree = ClockTree::new();
    let input = tree.add_node(Node::Input(endpoint("in")));
    let divide = tree.add_node(Node::Divide(vec![2]));
    let mux = tree.add_node(Node::Mux);
    assert_eq!(tree.try_connect(input, divide), Some(Ok(())));
    assert_eq!(tree.try_connect(mux, divide), Some(Err(ConnectError::PortExhausted)));
    assert_eq!(tree.try_connect(mux, mux), Some(Err(ConnectError::SelfLoop)));
    assert_eq!(tree.try_connect(mux, 99), Some(Err(ConnectError::UnknownVertex)));
    assert_eq!(tree.edge_count(), 1);
}

#[test]
fn ports_stay_within_limits_over_many_requests() {
    let mut tree = ClockTree::new();
    let mut ids = Vec::new();
    ids.push(tree.add_node(Node::Input(endpoint("a"))));
    ids.push(tree.add_node(Node::Input(endpoint("b"))));
    ids.push(tree.add_node(Node::Divide(vec![2])));
    ids.push(tree.add_node(Node::Multiply(vec![3])));
    ids.push(tree.add_node(Node::Mux));
    ids.push(tree.add_node(Node::Output(endpoint("o"))));
    for &from in &ids {
        for &to in &ids {
            let _ = tree.connect(from, to);
            for &v in &ids {
                let node = tree.node_weight(v).unwrap();
                assert!(tree.in_degree(v) <= node.max_inputs());
                assert!(tree.out_degree(v) <= node.max_outputs());
            }
        }
    }
    assert_eq!(tree.in_degree(ids[0]), 0);
    assert_eq!(tree.in_degree(ids[2]), 1);
    assert_eq!(tree.in_degree(ids[3]), 1);
    assert_eq!(tree.out_degree(ids[5]), 0);
}

#[test]
fn disconnect_removes_the_edge() {
    let mut tree = ClockTree::new();
    let a = tree.add_node(Node::Input(endpoint("a")));
    let b = tree.add_node(Node::Mux);
    let c = tree.add_node(Node::Output(endpoint("c")));
    assert_eq!(tree.connect(a, b), Ok(()));
    assert_eq!(tree.connect(b, c), Ok(()));
    tree.disconnect(a, b);
    assert!(!tree.contains_edge(a, b));
    assert!(tree.contains_edge(b, c));
    assert_eq!(tree.edge_count(), 1);
    assert_eq!(tree.node_indices(), vec![a, b, c]);
}

#[test]
fn disconnect_of_absent_edge_changes_nothing() {
    let mut tree = ClockTree::new();
    let a = tree.add_node(Node::Input(endpoint("a")));
    let b = tree.add_node(Node::Mux);
    assert_eq!(tree.connect(a, b), Ok(()));
    tree.disconnect(b, a);
    tree.disconnect(a, 17);
    tree.disconnect(23, 42);
    assert!(tree.contains_edge(a, b));
    assert_eq!(tree.edge_count(), 1);
    assert_eq!(tree.node_indices(), vec![a, b]);
}

#[test]
fn disconnect_frees_the_port() {
    let mut tree = ClockTree::new();
    let a = tree.add_node(Node::Mux);
    let b = tree.add_node(Node::Mux);
    let divide = tree.add_node(Node::Divide(vec![2]));
    assert_eq!(tree.connect(a, divide), Ok(()));
    assert_eq!(tree.connect(b, divide), Err(ConnectError::PortExhausted));
    tree.disconnect(a, divide);
    assert_eq!(tree.connect(b, divide), Ok(()));
    assert_eq!(tree.in_degree(divide), 1);
}

#[test]
fn externals_are_the_vertices_without_edges_on_that_side() {
    let mut tree = ClockTree::new();
    let a = tree.add_node(Node::Input(endpoint("a")));
    let b = tree.add_node(Node::Mux);
    let c = tree.add_node(Node::Output(endpoint("c")));
    let orphan = tree.add_node(Node::Mux);
    assert_eq!(tree.connect(a, b), Ok(()));
    assert_eq!(tree.connect(b, c), Ok(()));
    assert_eq!(tree.externals(Direction::Incoming), vec![a, orphan]);
    assert_eq!(tree.externals(Direction::Outgoing), vec![c, orphan]);
}

#[test]
fn degree_of_unknown_vertex_is_zero() {
    let mut tree = ClockTree::new();
    let a = tree.add_node(Node::Mux);
    assert_eq!(tree.degree(a + 5, Direction::Incoming), 0);
    assert_eq!(tree.degree(a + 5, Direction::Outgoing), 0);
}

#[test]
fn a_cycle_is_accepted() {
    let mut tree = ClockTree::new();
    let a = tree.add_node(Node::Mux);
    let b = tree.add_node(Node::Mux);
    assert_eq!(tree.connect(a, b), Ok(()));
    assert_eq!(tree.connect(b, a), Ok(()));
    assert_eq!(tree.edge_count(), 2);
    assert_eq!(tree.externals(Direction::Incoming), Vec::<u32>::new());
}

#[test]
fn identity_given_after_a_removal_is_not_in_use() {
    let mut tree = ClockTree::new();
    let a = tree.add_node(Node::Mux);
    let b = tree.add_node(Node::Mux);
    let c = tree.add_node(Node::Mux);
    assert_eq!(tree.connect(a, b), Ok(()));
    assert_eq!(tree.remove_node(b), Ok(Node::Mux));
    let d = tree.add_node(Node::Divide(vec![5]));
    assert_ne!(d, a);
    assert_ne!(d, c);
    assert_eq!(tree.node_count(), 3);
    assert_eq!(tree.node_weight(d), Some(&Node::Divide(vec![5])));
    assert_eq!(tree.node_weight(a), Some(&Node::Mux));
    assert_eq!(tree.node_weight(c), Some(&Node::Mux));
    assert_eq!(tree.in_degree(d), 0);
    assert_eq!(tree.out_degree(d), 0);
    assert_eq!(tree.edge_count(), 0);
}

#[test]
fn default_tree_is_empty() {
    let tree = ClockTree::default();
    assert_eq!(tree.node_count(), 0);
    assert_eq!(tree.edge_count(), 0);
}
