//! Where the vertices of a clock tree stand on a canvas.
//!
//! The canvas is measured in whole units. Every length that is handed out is
//! in thousandths of a unit, so that the margins, which are fractions of the
//! canvas, are exact.

use crate::model::ascending;
use crate::model::lemma_prefix_step;
use crate::model::Direction;
use crate::model::TreeModel;
use crate::model::VertexId;
use crate::tree::ClockTree;
use std::collections::HashMap;
use vstd::arithmetic::div_mod::lemma_fundamental_div_mod;
use vstd::arithmetic::div_mod::lemma_hoist_over_denominator;
use vstd::prelude::*;

verus! {

/// Thousandths in one unit of the canvas.
pub const UNIT: i64 = 1000;

/// The margin left and right of the symbols, in thousandths of the width.
pub const HORIZONTAL_MARGIN: i64 = 25;

/// The margin above each source, in thousandths of the height.
pub const VERTICAL_MARGIN: i64 = 50;

/// The width of a source's symbol, in thousandths of the width of the canvas.
pub const SOURCE_WIDTH: i64 = 150;

/// The greatest height of a source's symbol: fifty units.
pub const MAX_SLOT_HEIGHT: i64 = 50_000;

/// Half of the canvas, in thousandths of its width or height.
pub const HALF: i64 = 500;

/// The side of the square symbol of a vertex that has no slot: twenty units.
pub const FALLBACK_SIZE: i64 = 20_000;

/// A rectangle on the canvas. All four lengths are in thousandths of a unit.
#[derive(Clone, Copy, Debug, PartialEq, Eq, Structural, Hash)]
pub struct Rect {
    pub x: i64,
    pub y: i64,
    pub width: i64,
    pub height: i64,
}

/// 0.025 of the width.
pub open spec fn horizontal_margin(width: u32) -> int {
    HORIZONTAL_MARGIN * width
}

/// 0.05 of the height.
pub open spec fn vertical_margin(height: u32) -> int {
    VERTICAL_MARGIN * height
}

/// The height of a slot where `candidates` vertices share the canvas: what is
/// left of the height after one margin for each of them, in equal parts,
/// rounded down to a thousandth and no more than fifty units. With more than
/// twenty candidates the margins alone overfill the canvas, and the height is
/// negative.
pub open spec fn slot_height(height: u32, candidates: nat) -> int
    recommends
        candidates > 0,
{
    let share = (UNIT * height - candidates * vertical_margin(height)) / (candidates as int);
    if share > MAX_SLOT_HEIGHT {
        MAX_SLOT_HEIGHT as int
    } else {
        share
    }
}

/// The distance from the top of one slot to the top of the next.
pub open spec fn slot_step(height: u32, candidates: nat) -> int {
    vertical_margin(height) + slot_height(height, candidates)
}

/// The place of the source that has `rank` sources above it.
pub open spec fn slot_rect(width: u32, height: u32, candidates: nat, rank: nat) -> Rect {
    Rect {
        x: horizontal_margin(width) as i64,
        y: (vertical_margin(height) + rank * slot_step(height, candidates)) as i64,
        width: (SOURCE_WIDTH * width) as i64,
        height: slot_height(height, candidates) as i64,
    }
}

/// The place of every vertex that has no slot: a small square whose corner is
/// the centre of the canvas.
pub open spec fn fallback_rect(width: u32, height: u32) -> Rect {
    Rect {
        x: (HALF * width) as i64,
        y: (HALF * height) as i64,
        width: FALLBACK_SIZE,
        height: FALLBACK_SIZE,
    }
}

/// The vertices that no edge arrives at. Each of them counts when the height
/// of the canvas is shared out, whether it then takes a slot or not.
pub open spec fn source_candidates(tree: TreeModel) -> Set<VertexId> {
    tree.nodes.dom().filter(|v: VertexId| tree.in_degree(v) == 0)
}

/// Whether the vertex `v` is given a slot: it is in the tree, no edge arrives
/// at it, and its block is a source.
pub open spec fn takes_slot(tree: TreeModel, v: VertexId) -> bool {
    tree.nodes.contains_key(v) && tree.in_degree(v) == 0 && tree.nodes[v].source()
}

/// How many vertices with a slot come before `v`.
pub open spec fn slot_rank(tree: TreeModel, v: VertexId) -> nat {
    tree.nodes.dom().filter(|w: VertexId| w < v && takes_slot(tree, w)).len()
}

/// The place of the vertex `v` on a canvas of the given size: its slot, if it
/// takes one, and the fallback place if not.
pub open spec fn placement(tree: TreeModel, width: u32, height: u32, v: VertexId) -> Rect {
    if takes_slot(tree, v) {
        slot_rect(width, height, source_candidates(tree).len(), slot_rank(tree, v))
    } else {
        fallback_rect(width, height)
    }
}

/// The slots never run far off the canvas: a step is never negative, and all
/// the steps together are no more than the height.
pub proof fn lemma_slot_step_bounds(height: u32, candidates: nat)
    requires
        candidates > 0,
    ensures
        slot_height(height, candidates) <= (UNIT * height) / (candidates as int) - vertical_margin(
            height,
        ),
        slot_height(height, candidates) <= MAX_SLOT_HEIGHT,
        -vertical_margin(height) <= slot_height(height, candidates),
        0 <= slot_step(height, candidates),
        candidates * slot_step(height, candidates) <= UNIT * height,
{
    let n = candidates as int;
    let total = UNIT * height;
    let margin = vertical_margin(height);
    lemma_hoist_over_denominator(total, -margin, candidates);
    assert((total + (-margin) * n) == total - candidates * margin) by (nonlinear_arith)
        requires
            n == candidates,
    ;
    lemma_fundamental_div_mod(total, n);
    let q = total / n;
    assert(0 <= q) by (nonlinear_arith)
        requires
            total == n * q + total % n,
            0 <= total % n < n,
            0 <= total,
            n > 0,
    ;
    assert(n * q <= total) by (nonlinear_arith)
        requires
            total == n * q + total % n,
            0 <= total % n,
    ;
    let step = slot_step(height, candidates);
    assert(0 <= step <= q);
    assert(n * step <= n * q) by (nonlinear_arith)
        requires
            step <= q,
            n > 0,
    ;
}

/// The lengths of a slot and of the fallback place are what their formulas
/// say: none of them is too large for the integers that hold it.
pub proof fn lemma_rects_exact(width: u32, height: u32, candidates: nat, rank: nat)
    requires
        rank < candidates,
    ensures
        slot_rect(width, height, candidates, rank).x == horizontal_margin(width),
        slot_rect(width, height, candidates, rank).y == vertical_margin(height) + rank * slot_step(
            height,
            candidates,
        ),
        slot_rect(width, height, candidates, rank).width == SOURCE_WIDTH * width,
        slot_rect(width, height, candidates, rank).height == slot_height(height, candidates),
        fallback_rect(width, height).x == HALF * width,
        fallback_rect(width, height).y == HALF * height,
{
    lemma_slot_step_bounds(height, candidates);
    let step = slot_step(height, candidates);
    assert(0 <= rank * step <= candidates * step) by (nonlinear_arith)
        requires
            rank < candidates,
            0 <= step,
    ;
}

/// The vertical margin on a canvas of the given height.
pub fn vertical_margin_of(height: u32) -> (m: i64)
    ensures
        m == vertical_margin(height),
{
    VERTICAL_MARGIN * (height as i64)
}

/// The horizontal margin on a canvas of the given width.
pub fn horizontal_margin_of(width: u32) -> (m: i64)
    ensures
        m == horizontal_margin(width),
{
    HORIZONTAL_MARGIN * (width as i64)
}

/// The height of a slot where `candidates` vertices share the canvas.
pub fn slot_height_of(height: u32, candidates: usize) -> (h: i64)
    requires
        candidates > 0,
    ensures
        h == slot_height(height, candidates as nat),
{
    let total: u64 = (UNIT as u64) * (height as u64);
    let share: i64 = (total / (candidates as u64)) as i64 - vertical_margin_of(height);
    proof {
        lemma_hoist_over_denominator(total as int, -vertical_margin(height), candidates as nat);
        assert(total + (-vertical_margin(height)) * candidates == UNIT * height - (candidates as nat)
            * vertical_margin(height)) by (nonlinear_arith)
            requires
                total == UNIT * height,
        ;
    }
    if share > MAX_SLOT_HEIGHT {
        MAX_SLOT_HEIGHT
    } else {
        share
    }
}

/// The place of the source that has `rank` sources above it, where
/// `candidates` vertices share the canvas.
pub fn slot_rect_of(width: u32, height: u32, candidates: usize, rank: usize) -> (r: Rect)
    requires
        rank < candidates,
    ensures
        r == slot_rect(width, height, candidates as nat, rank as nat),
{
    let margin = vertical_margin_of(height);
    let slot = slot_height_of(height, candidates);
    proof {
        lemma_slot_step_bounds(height, candidates as nat);
        let step = slot_step(height, candidates as nat);
        assert(rank * step <= candidates * step) by (nonlinear_arith)
            requires
                rank < candidates,
                0 <= step,
        ;
    }
    let step: u64 = (margin + slot) as u64;
    let drop: u64 = (rank as u64) * step;
    Rect {
        x: horizontal_margin_of(width),
        y: margin + drop as i64,
        width: SOURCE_WIDTH * (width as i64),
        height: slot,
    }
}

/// The place of every vertex that has no slot.
pub fn fallback_rect_of(width: u32, height: u32) -> (r: Rect)
    ensures
        r == fallback_rect(width, height),
{
    Rect {
        x: HALF * (width as i64),
        y: HALF * (height as i64),
        width: FALLBACK_SIZE,
        height: FALLBACK_SIZE,
    }
}

/// The vertices handed out in rising order, none twice, are as many as the
/// set they make up.
proof fn lemma_candidate_count(tree: TreeModel, candidates: Seq<VertexId>)
    requires
        tree.wf(),
        ascending(candidates),
        forall|v: VertexId|
            candidates.contains(v) <==> tree.nodes.contains_key(v) && tree.in_degree(v) == 0,
    ensures
        candidates.len() == source_candidates(tree).len(),
{
    assert(candidates.no_duplicates());
    candidates.unique_seq_to_set();
    assert(candidates.to_set() =~= source_candidates(tree));
}

/// The vertices with a slot among the first `i` candidates are those with a
/// slot that come before the candidate at `i`.
proof fn lemma_rank_is_count(
    tree: TreeModel,
    candidates: Seq<VertexId>,
    i: int,
    placed: Set<VertexId>,
)
    requires
        ascending(candidates),
        0 <= i < candidates.len(),
        forall|v: VertexId|
            candidates.contains(v) <==> tree.nodes.contains_key(v) && tree.in_degree(v) == 0,
        forall|v: VertexId|
            placed.contains(v) <==> candidates.take(i).contains(v) && takes_slot(tree, v),
    ensures
        slot_rank(tree, candidates[i]) == placed.len(),
{
    let v = candidates[i];
    let before = tree.nodes.dom().filter(|w: VertexId| w < v && takes_slot(tree, w));
    assert forall|w: VertexId| before.contains(w) implies placed.contains(w) by {
        assert(candidates.contains(w));
        let j = choose|j: int| 0 <= j < candidates.len() && candidates[j] == w;
        if j >= i {
            assert(candidates[i] <= candidates[j]);
        }
        assert(candidates.take(i)[j] == w);
    }
    assert forall|w: VertexId| placed.contains(w) implies before.contains(w) by {
        let j = choose|j: int| 0 <= j < candidates.take(i).len() && candidates.take(i)[j] == w;
        assert(candidates[j] < candidates[i]);
    }
    assert(before =~= placed);
}

/// Gives a slot to every vertex that takes one, and to no other.
fn place_sources(tree: &ClockTree, width: u32, height: u32) -> (layout: HashMap<VertexId, Rect>)
    requires
        tree.wf(),
    ensures
        forall|v: VertexId| layout@.contains_key(v) <==> takes_slot(tree@, v),
        forall|v: VertexId| layout@.contains_key(v) ==> layout@[v] == placement(tree@, width, height, v),
{
    let candidates = tree.externals(Direction::Incoming);
    let n = candidates.len();
    let mut layout: HashMap<VertexId, Rect> = HashMap::new();
    let mut rank: usize = 0;
    let ghost mut placed: Set<VertexId> = Set::empty();
    proof {
        lemma_candidate_count(tree@, candidates@);
    }
    let mut i: usize = 0;
    while i < n
        invariant
            tree.wf(),
            n == candidates.len(),
            n == source_candidates(tree@).len(),
            i <= n,
            ascending(candidates@),
            forall|v: VertexId|
                candidates@.contains(v) <==> tree@.nodes.contains_key(v) && tree@.in_degree(v) == 0,
            placed.finite(),
            rank == placed.len(),
            rank <= i,
            forall|v: VertexId|
                placed.contains(v) <==> candidates@.take(i as int).contains(v) && takes_slot(
                    tree@,
                    v,
                ),
            layout@.dom() == placed,
            forall|v: VertexId|
                placed.contains(v) ==> layout@[v] == placement(tree@, width, height, v),
        decreases n - i,
    {
        let v = candidates[i];
        proof {
            assert(candidates@.contains(v));
            lemma_prefix_step(candidates@, i as int);
        }
        let is_source = match tree.node_weight(v) {
            Some(node) => node.is_source(),
            None => false,
        };
        if is_source {
            proof {
                lemma_rank_is_count(tree@, candidates@, i as int, placed);
            }
            let rect = slot_rect_of(width, height, n, rank);
            layout.insert(v, rect);
            rank = rank + 1;
            proof {
                placed = placed.insert(v);
            }
        }
        i = i + 1;
    }
    proof {
        assert(candidates@.take(i as int) =~= candidates@);
    }
    layout
}

/// Places every vertex of the tree on a canvas of the given size.
///
/// The vertices that no edge arrives at share the height of the canvas. Those
/// among them whose block is a source are set down one below the other at the
/// left margin, in rising order of their identities. Every other vertex gets
/// the fallback place. The result holds one rectangle for each vertex of the
/// tree and nothing else.
pub fn compute_layout(tree: &ClockTree, width: u32, height: u32) -> (layout: HashMap<
    VertexId,
    Rect,
>)
    requires
        tree.wf(),
    ensures
        layout@.dom() == tree@.nodes.dom(),
        layout@.len() == tree@.nodes.len(),
        forall|v: VertexId|
            tree@.nodes.contains_key(v) ==> layout@[v] == placement(tree@, width, height, v),
{
    let mut layout = place_sources(tree, width, height);
    let all = tree.node_indices();
    let fallback = fallback_rect_of(width, height);
    let mut i: usize = 0;
    while i < all.len()
        invariant
            i <= all.len(),
            fallback == fallback_rect(width, height),
            forall|v: VertexId| all@.contains(v) <==> tree@.nodes.contains_key(v),
            forall|v: VertexId|
                layout@.contains_key(v) <==> takes_slot(tree@, v) || all@.take(i as int).contains(v),
            forall|v: VertexId|
                layout@.contains_key(v) ==> layout@[v] == placement(tree@, width, height, v),
        decreases all.len() - i,
    {
        let v = all[i];
        let ghost seen = all@.take(i as int);
        let ghost next = all@.take(i + 1);
        proof {
            lemma_prefix_step(all@, i as int);
        }
        let ghost before = layout@;
        if !layout.contains_key(&v) {
            layout.insert(v, fallback);
        }
        proof {
            assert forall|x: VertexId|
                layout@.contains_key(x) <==> takes_slot(tree@, x) || next.contains(x) by {
                assert(before.contains_key(x) <==> takes_slot(tree@, x) || seen.contains(x));
            }
        }
        i = i + 1;
    }
    proof {
        assert(all@.take(i as int) =~= all@);
        assert forall|x: VertexId| layout@.dom().contains(x) <==> tree@.nodes.dom().contains(
            x,
        ) by {
            assert(layout@.contains_key(x) <==> takes_slot(tree@, x) || all@.contains(x));
        }
        assert(layout@.dom() =~= tree@.nodes.dom());
    }
    layout
}

} // verus!
