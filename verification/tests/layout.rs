use clock_solver::graphics::compute_layout;
use clock_solver::graphics::fallback_rect_of;
use clock_solver::graphics::horizontal_margin_of;
use clock_solver::graphics::slot_height_of;
use clock_solver::graphics::slot_rect_of;
use clock_solver::graphics::vertical_margin_of;
use clock_solver::graphics::Rect;
use clock_solver::tree::ClockTree;
use clock_solver::types::Endpoint;
use clock_solver::types::Node;
use clock_solver::types::Value;

fn endpoint(name: &str) -> Endpoint {
    Endpoint::new(name.to_string(), Value::DontCare, false)
}

#[test]
fn input_and_output_on_a_square_canvas() {
    let mut tree = ClockTree::new();
    let input = tree.add_node(Node::Input(endpoint("in")));
    let output = tree.add_node(Node::Output(endpoint("out")));
    assert_eq!(tree.connect(input, output), Ok(()));

    let layout = compute_layout(&tree, 400, 400);

    assert_eq!(layout.len(), 2);
    let at_input = layout[&input];
    assert_eq!(at_input.x, 10_000);
    assert_eq!(at_input.y, 20_000);
    assert_eq!(at_input.width, 60_000);
    assert!(at_input.height <= 50_000);
    assert_eq!(at_input.height, 50_000);
    assert_eq!(at_input.x as f64 / 1000.0, 0.025 * 400.0);
    assert_eq!(at_input.y as f64 / 1000.0, 0.05 * 400.0);
    assert_eq!(at_input.width as f64 / 1000.0, 0.15 * 400.0);
    assert_eq!(
        layout[&output],
        Rect { x: 200_000, y: 200_000, width: 20_000, height: 20_000 }
    );
}

#[test]
fn empty_tree_has_empty_layout() {
    let tree = ClockTree::new();
    assert!(compute_layout(&tree, 400, 400).is_empty());
    assert!(compute_layout(&tree, 0, 0).is_empty());
}

#[test]
fn every_vertex_is_placed() {
    let mut tree = ClockTree::new();
    let a = tree.add_node(Node::Input(endpoint("a")));
    let b = tree.add_node(Node::Input(endpoint("b")));
    let mux = tree.add_node(Node::Mux);
    let divide = tree.add_node(Node::Divide(vec![2]));
    let out = tree.add_node(Node::Output(endpoint("o")));
    let orphan = tree.add_node(Node::Mux);
    assert_eq!(tree.connect(a, mux), Ok(()));
    assert_eq!(tree.connect(b, mux), Ok(()));
    assert_eq!(tree.connect(mux, divide), Ok(()));
    assert_eq!(tree.connect(divide, out), Ok(()));

    let layout = compute_layout(&tree, 640, 480);

    assert_eq!(layout.len(), tree.node_count());
    for v in tree.node_indices() {
        assert!(layout.contains_key(&v));
    }
    // three vertices have no incoming edge: the two inputs and the orphan
    let slot = (480_000 - 3 * 24_000) / 3;
    assert_eq!(slot, 136_000);
    let first = Rect { x: 16_000, y: 24_000, width: 96_000, height: 50_000 };
    let second = Rect { x: 16_000, y: 24_000 + 24_000 + 50_000, width: 96_000, height: 50_000 };
    let fallback = Rect { x: 320_000, y: 240_000, width: 20_000, height: 20_000 };
    assert_eq!(layout[&a], first);
    assert_eq!(layout[&b], second);
    assert_eq!(layout[&mux], fallback);
    assert_eq!(layout[&divide], fallback);
    assert_eq!(layout[&out], fallback);
    assert_eq!(layout[&orphan], fallback);
}

#[test]
fn orphan_mux_counts_but_takes_no_slot() {
    let mut tree = ClockTree::new();
    let orphan = tree.add_node(Node::Mux);
    let input = tree.add_node(Node::Input(endpoint("in")));

    // 100 units of height, two candidates: (100 - 2 * 5) / 2 = 45 units each
    let layout = compute_layout(&tree, 200, 100);

    assert_eq!(layout[&input], Rect { x: 5_000, y: 5_000, width: 30_000, height: 45_000 });
    assert_eq!(layout[&orphan], Rect { x: 100_000, y: 50_000, width: 20_000, height: 20_000 });
}

#[test]
fn single_source_gets_the_height_less_the_margin() {
    let mut tree = ClockTree::new();
    let input = tree.add_node(Node::Input(endpoint("in")));
    // 40 units of height: (40 - 2) / 1 = 38 units, under the limit of 50
    let layout = compute_layout(&tree, 100, 40);
    assert_eq!(layout[&input], Rect { x: 2_500, y: 2_000, width: 15_000, height: 38_000 });
    // 1000 units of height: 950 units, cut down to 50
    let layout = compute_layout(&tree, 100, 1000);
    assert_eq!(layout[&input], Rect { x: 2_500, y: 50_000, width: 15_000, height: 50_000 });
}

#[test]
fn zero_sized_canvas_still_places_everything() {
    let mut tree = ClockTree::new();
    let a = tree.add_node(Node::Input(endpoint("a")));
    let b = tree.add_node(Node::Input(endpoint("b")));
    let mux = tree.add_node(Node::Mux);
    assert_eq!(tree.connect(a, mux), Ok(()));

    let layout = compute_layout(&tree, 0, 0);

    assert_eq!(layout.len(), 3);
    assert_eq!(layout[&a], Rect { x: 0, y: 0, width: 0, height: 0 });
    assert_eq!(layout[&b], Rect { x: 0, y: 0, width: 0, height: 0 });
    assert_eq!(layout[&mux], Rect { x: 0, y: 0, width: 20_000, height: 20_000 });
}

#[test]
fn layout_follows_the_tree_after_removal() {
    let mut tree = ClockTree::new();
    let a = tree.add_node(Node::Input(endpoint("a")));
    let b = tree.add_node(Node::Input(endpoint("b")));
    let c = tree.add_node(Node::Input(endpoint("c")));
    assert_eq!(tree.remove_node(b).is_ok(), true);

    let layout = compute_layout(&tree, 400, 400);

    assert_eq!(layout.len(), 2);
    assert!(!layout.contains_key(&b));
    // two candidates: (400 - 2 * 20) / 2 = 180 units, cut down to 50
    assert_eq!(layout[&a], Rect { x: 10_000, y: 20_000, width: 60_000, height: 50_000 });
    assert_eq!(layout[&c], Rect { x: 10_000, y: 90_000, width: 60_000, height: 50_000 });
}

#[test]
fn slot_height_is_rounded_down_to_a_thousandth() {
    // 10 units, 3 candidates: (10000 - 3 * 500) / 3 = 2833.33..
    assert_eq!(slot_height_of(10, 3), 2_833);
    // 1 unit, 7 candidates: (1000 - 7 * 50) / 7 = 92.85..
    assert_eq!(slot_height_of(1, 7), 92);
}

#[test]
fn slot_height_is_negative_past_twenty_candidates() {
    // 100 units, 20 candidates: the margins take all of the height
    assert_eq!(slot_height_of(100, 20), 0);
    // 100 units, 21 candidates: (100000 - 21 * 5000) / 21 = -238.09.., rounded down
    assert_eq!(slot_height_of(100, 21), -239);
    // 100 units, 40 candidates: (100000 - 40 * 5000) / 40 = -2500
    assert_eq!(slot_height_of(100, 40), -2_500);
}

#[test]
fn margins_are_fractions_of_the_canvas() {
    assert_eq!(horizontal_margin_of(400), 10_000);
    assert_eq!(vertical_margin_of(400), 20_000);
    assert_eq!(horizontal_margin_of(0), 0);
    assert_eq!(vertical_margin_of(u32::MAX), 50 * (u32::MAX as i64));
}

#[test]
fn slots_step_down_the_canvas() {
    assert_eq!(
        slot_rect_of(400, 400, 4, 0),
        Rect { x: 10_000, y: 20_000, width: 60_000, height: 50_000 }
    );
    assert_eq!(
        slot_rect_of(400, 400, 4, 3),
        Rect { x: 10_000, y: 20_000 + 3 * 70_000, width: 60_000, height: 50_000 }
    );
    // ten candidates on 400 units: (400 - 10 * 20) / 10 = 20 units each
    assert_eq!(
        slot_rect_of(400, 400, 10, 9),
        Rect { x: 10_000, y: 20_000 + 9 * 40_000, width: 60_000, height: 20_000 }
    );
}

#[test]
fn fallback_is_at_the_centre() {
    assert_eq!(
        fallback_rect_of(400, 300),
        Rect { x: 200_000, y: 150_000, width: 20_000, height: 20_000 }
    );
}
