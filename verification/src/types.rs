//! The blocks of a clock tree and the frequency constraints they carry.

use crate::text::push_ratio_lines;
use crate::text::ratio_lines;
use vstd::prelude::*;

verus! {

/// A frequency, held as a whole number of millihertz.
///
/// Two frequencies that round to the same millihertz are the same frequency,
/// so equality and hashing never see floating-point noise.
#[derive(Clone, Copy, Debug, PartialEq, Eq, Structural, Hash)]
pub struct Frequency {
    pub millihertz: i64,
}

impl Frequency {
    /// The frequency of the given number of millihertz.
    pub fn from_millihertz(millihertz: i64) -> (f: Frequency)
        ensures
            f.millihertz == millihertz,
    {
        Frequency { millihertz }
    }

    /// The frequency in millihertz.
    pub fn millihertz(&self) -> (m: i64)
        ensures
            m == self.millihertz,
    {
        self.millihertz
    }
}

/// The error of building a range whose lower bound lies above its upper bound.
#[derive(Clone, Copy, Debug, PartialEq, Eq, Structural, Hash)]
pub struct InvalidRange;

/// A constraint on the frequency at an endpoint: one exact value, an inclusive
/// range, or no constraint at all.
#[derive(Clone, Copy, Debug, PartialEq, Eq, Structural, Hash)]
pub enum Value {
    /// The desired frequency of the endpoint
    Constant(Frequency),
    /// An acceptable range of frequencies for the endpoint
    Range { min: Frequency, max: Frequency },
    /// A value that is unimportant to the designer
    DontCare,
}

impl Value {
    /// A range is well formed when its bounds are in order; the other variants
    /// always are.
    pub open spec fn wf(self) -> bool {
        match self {
            Value::Range { min, max } => min.millihertz <= max.millihertz,
            _ => true,
        }
    }

    /// Whether `candidate` satisfies the constraint.
    pub open spec fn admits(self, candidate: Frequency) -> bool {
        match self {
            Value::Constant(f) => candidate.millihertz == f.millihertz,
            Value::Range { min, max } => min.millihertz <= candidate.millihertz
                <= max.millihertz,
            Value::DontCare => true,
        }
    }

    /// The constraint that asks for exactly `frequency`.
    pub fn constant(frequency: Frequency) -> (v: Value)
        ensures
            v == Value::Constant(frequency),
            v.wf(),
    {
        Value::Constant(frequency)
    }

    /// Builds the inclusive range from `min` to `max`, or fails when the bounds
    /// are out of order.
    pub fn range(min: Frequency, max: Frequency) -> (r: Result<Value, InvalidRange>)
        ensures
            min.millihertz <= max.millihertz ==> r == Ok::<Value, InvalidRange>(
                Value::Range { min, max },
            ),
            min.millihertz > max.millihertz ==> r == Err::<Value, InvalidRange>(InvalidRange),
            r is Ok ==> r->Ok_0.wf(),
    {
        if min.millihertz <= max.millihertz {
            Ok(Value::Range { min, max })
        } else {
            Err(InvalidRange)
        }
    }

    /// The constraint that every frequency satisfies.
    pub fn dont_care() -> (v: Value)
        ensures
            v == Value::DontCare,
            v.wf(),
    {
        Value::DontCare
    }

    /// Whether the value is well formed.
    pub fn is_valid(&self) -> (b: bool)
        ensures
            b == self.wf(),
    {
        match self {
            Value::Range { min, max } => min.millihertz <= max.millihertz,
            _ => true,
        }
    }

    /// Whether `candidate` satisfies the constraint: equal to a constant, within
    /// the bounds of a range (both included), anything for `DontCare`.
    pub fn matches(&self, candidate: Frequency) -> (b: bool)
        ensures
            b == self.admits(candidate),
    {
        match self {
            Value::Constant(f) => candidate.millihertz == f.millihertz,
            Value::Range { min, max } => min.millihertz <= candidate.millihertz
                && candidate.millihertz <= max.millihertz,
            Value::DontCare => true,
        }
    }
}

/// A named source or sink port of a tree, with the frequency it asks for.
#[derive(Clone, Debug, PartialEq, Eq, Hash)]
pub struct Endpoint {
    /// Endpoint name
    pub name: String,
    /// Endpoint value
    pub value: Value,
    /// Whether the endpoint is internal or external
    pub is_internal: bool,
}

/// An endpoint as a mathematical value: its name as a sequence of
/// characters, beside its value and its flag.
pub struct EndpointView {
    pub name: Seq<char>,
    pub value: Value,
    pub is_internal: bool,
}

impl View for Endpoint {
    type V = EndpointView;

    open spec fn view(&self) -> EndpointView {
        EndpointView { name: self.name@, value: self.value, is_internal: self.is_internal }
    }
}

impl Endpoint {
    /// The endpoint with the given name, value and flag.
    pub fn new(name: String, value: Value, is_internal: bool) -> (e: Endpoint)
        ensures
            e.name == name,
            e.value == value,
            e.is_internal == is_internal,
    {
        Endpoint { name, value, is_internal }
    }

    /// An endpoint is well formed when it has a name and its value is well
    /// formed. A tree takes endpoints that are not; this is for those who
    /// want to check before they hand one over.
    pub open spec fn wf(&self) -> bool {
        self.name@.len() > 0 && self.value.wf()
    }

    /// Whether the endpoint is well formed.
    pub fn is_valid(&self) -> (b: bool)
        ensures
            b == self.wf(),
    {
        !self.name.as_str().is_empty() && self.value.is_valid()
    }
}

/// The outline with which a block is drawn.
#[derive(Clone, Copy, Debug, PartialEq, Eq, Structural, Hash)]
pub enum ShapeKind {
    Rectangle,
    /// Wide on the input side, narrow on the output side.
    Trapezoid,
}

/// Whether every ratio in the list is positive.
pub fn all_positive(ratios: &Vec<u64>) -> (b: bool)
    ensures
        b == forall|i: int| 0 <= i < ratios@.len() ==> ratios@[i] > 0,
{
    let mut i: usize = 0;
    while i < ratios.len()
        invariant
            i <= ratios.len(),
            forall|j: int| 0 <= j < i ==> ratios@[j] > 0,
        decreases ratios.len() - i,
    {
        if ratios[i] == 0 {
            return false;
        }
        i = i + 1;
    }
    true
}

/// A block of a clock tree.
#[derive(Clone, Debug, PartialEq, Eq, Hash)]
pub enum Node {
    /// Division block. Divide input by one of the potential values
    Divide(Vec<u64>),
    /// Multiplication block. Multiply input by one of the potential values
    Multiply(Vec<u64>),
    /// Mux block, takes a set of signals and lets one pass through
    Mux,
    /// Input frequency (internal or external)
    Input(Endpoint),
    /// Output frequency (internal or external)
    Output(Endpoint),
}

/// A block as a mathematical value: its ratios as a sequence, its endpoint
/// as an `EndpointView`. Two blocks with the same view are the same block to
/// everyone who uses them.
pub enum NodeView {
    Divide(Seq<u64>),
    Multiply(Seq<u64>),
    Mux,
    Input(EndpointView),
    Output(EndpointView),
}

impl View for Node {
    type V = NodeView;

    open spec fn view(&self) -> NodeView {
        match self {
            Node::Divide(ratios) => NodeView::Divide(ratios@),
            Node::Multiply(ratios) => NodeView::Multiply(ratios@),
            Node::Mux => NodeView::Mux,
            Node::Input(endpoint) => NodeView::Input(endpoint@),
            Node::Output(endpoint) => NodeView::Output(endpoint@),
        }
    }
}

impl Node {
    /// The most incoming edges the block accepts; `usize::MAX` stands for no
    /// limit.
    pub open spec fn input_limit(&self) -> usize {
        match self {
            Node::Divide(_) => 1,
            Node::Multiply(_) => 1,
            Node::Input(_) => 0,
            Node::Mux => usize::MAX,
            Node::Output(_) => usize::MAX,
        }
    }

    /// The most outgoing edges the block accepts; `usize::MAX` stands for no
    /// limit.
    pub open spec fn output_limit(&self) -> usize {
        match self {
            Node::Output(_) => 0,
            Node::Divide(_) => usize::MAX,
            Node::Multiply(_) => usize::MAX,
            Node::Mux => usize::MAX,
            Node::Input(_) => usize::MAX,
        }
    }

    /// A source is a block that takes no input.
    pub open spec fn source(&self) -> bool {
        self.input_limit() == 0
    }

    /// A sink is a block that gives no output.
    pub open spec fn sink(&self) -> bool {
        self.output_limit() == 0
    }

    /// Maximum amount of inputs to a block
    #[verifier::when_used_as_spec(input_limit)]
    pub fn max_inputs(&self) -> (n: usize)
        ensures
            n == self.input_limit(),
    {
        match self {
            Node::Divide(_) | Node::Multiply(_) => 1,
            Node::Input(_) => 0,
            _ => usize::MAX,
        }
    }

    /// Maximum amount of outputs to a block
    #[verifier::when_used_as_spec(output_limit)]
    pub fn max_outputs(&self) -> (n: usize)
        ensures
            n == self.output_limit(),
    {
        match self {
            Node::Output(_) => 0,
            _ => usize::MAX,
        }
    }

    /// Returns true if the block is a source, false otherwise
    #[verifier::when_used_as_spec(source)]
    pub fn is_source(&self) -> (b: bool)
        ensures
            b == self.source(),
            b <==> self is Input,
    {
        self.max_inputs() == 0
    }

    /// Returns true if the block is a sink, false otherwise
    #[verifier::when_used_as_spec(sink)]
    pub fn is_sink(&self) -> (b: bool)
        ensures
            b == self.sink(),
            b <==> self is Output,
    {
        self.max_outputs() == 0
    }

    /// The outline of the block's symbol: a trapezoid for a mux, a rectangle
    /// for every other block.
    pub open spec fn shape(&self) -> ShapeKind {
        if self is Mux {
            ShapeKind::Trapezoid
        } else {
            ShapeKind::Rectangle
        }
    }

    /// A block is well formed when its endpoint is, or when each of its ratios
    /// is positive. A mux always is.
    pub open spec fn wf(&self) -> bool {
        match self {
            Node::Divide(ratios) => forall|i: int| 0 <= i < ratios@.len() ==> ratios@[i] > 0,
            Node::Multiply(ratios) => forall|i: int| 0 <= i < ratios@.len() ==> ratios@[i] > 0,
            Node::Mux => true,
            Node::Input(endpoint) => endpoint.wf(),
            Node::Output(endpoint) => endpoint.wf(),
        }
    }

    /// Whether the block is well formed.
    pub fn is_valid(&self) -> (b: bool)
        ensures
            b == self.wf(),
    {
        match self {
            Node::Divide(ratios) => all_positive(ratios),
            Node::Multiply(ratios) => all_positive(ratios),
            Node::Mux => true,
            Node::Input(endpoint) => endpoint.is_valid(),
            Node::Output(endpoint) => endpoint.is_valid(),
        }
    }

    /// The text of the block: for a divider or a multiplier its ratios, one to
    /// a line and in the order in which they were given; for any other block
    /// nothing.
    pub open spec fn text(&self) -> Seq<char> {
        match self {
            Node::Divide(ratios) => ratio_lines(ratios@),
            Node::Multiply(ratios) => ratio_lines(ratios@),
            _ => Seq::empty(),
        }
    }

    /// The text of the block, as `text` defines it.
    pub fn to_string(&self) -> (s: String)
        ensures
            s@ == self.text(),
    {
        let mut s = String::new();
        match self {
            Node::Divide(ratios) => push_ratio_lines(&mut s, ratios),
            Node::Multiply(ratios) => push_ratio_lines(&mut s, ratios),
            _ => {},
        }
        s
    }

    /// The outline of the block's symbol.
    #[verifier::when_used_as_spec(shape)]
    pub fn shape_kind(&self) -> (k: ShapeKind)
        ensures
            k == self.shape(),
    {
        match self {
            Node::Mux => ShapeKind::Trapezoid,
            _ => ShapeKind::Rectangle,
        }
    }
}

} // verus!
