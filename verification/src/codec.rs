//! The structured form in which values, endpoints and blocks are stored: a
//! flat run of tokens, in which every variant and every field is announced by
//! its name.
//!
//! A value is written as
//! `Constant` and its millihertz; or `Range`, `Min`, millihertz, `Max`,
//! millihertz; or `DontCare`.
//! An endpoint is written as `Name`, its name, `Value`, its value,
//! `IsInternal`, its flag.
//! A block is written as `Divide` or `Multiply`, the number of its ratios and
//! the ratios; or `Mux`; or `Input` or `Output` and its endpoint.
//!
//! What is written can be read back, and reading it back gives the value that
//! was written.

use crate::types::Endpoint;
use crate::types::EndpointView;
use crate::types::Frequency;
use crate::types::Node;
use crate::types::NodeView;
use crate::types::Value;
use vstd::prelude::*;

verus! {

/// The names that the structured form uses for variants and fields.
#[derive(Clone, Copy, Debug, PartialEq, Eq, Structural, Hash)]
pub enum Label {
    Constant,
    Range,
    DontCare,
    Min,
    Max,
    Name,
    Value,
    IsInternal,
    Divide,
    Multiply,
    Mux,
    Input,
    Output,
}

/// One token of the structured form.
#[derive(Clone, Debug, PartialEq, Eq, Hash)]
pub enum Token {
    /// The name of the variant or field that follows.
    Label(Label),
    /// A frequency, in millihertz.
    Millihertz(i64),
    /// A ratio.
    Ratio(u64),
    /// The number of ratios that follow.
    Length(usize),
    Flag(bool),
    Text(String),
}

/// A token as a mathematical value.
pub enum TokenView {
    Label(Label),
    Millihertz(i64),
    Ratio(u64),
    Length(usize),
    Flag(bool),
    Text(Seq<char>),
}

impl View for Token {
    type V = TokenView;

    open spec fn view(&self) -> TokenView {
        match self {
            Token::Label(l) => TokenView::Label(*l),
            Token::Millihertz(m) => TokenView::Millihertz(*m),
            Token::Ratio(r) => TokenView::Ratio(*r),
            Token::Length(n) => TokenView::Length(*n),
            Token::Flag(b) => TokenView::Flag(*b),
            Token::Text(t) => TokenView::Text(t@),
        }
    }
}

/// The views of a run of tokens.
pub open spec fn views(tokens: Seq<Token>) -> Seq<TokenView> {
    tokens.map_values(|t: Token| t@)
}

/// The structured form of a value.
pub open spec fn value_form(v: Value) -> Seq<TokenView> {
    match v {
        Value::Constant(f) => seq![
            TokenView::Label(Label::Constant),
            TokenView::Millihertz(f.millihertz),
        ],
        Value::Range { min, max } => seq![
            TokenView::Label(Label::Range),
            TokenView::Label(Label::Min),
            TokenView::Millihertz(min.millihertz),
            TokenView::Label(Label::Max),
            TokenView::Millihertz(max.millihertz),
        ],
        Value::DontCare => seq![TokenView::Label(Label::DontCare)],
    }
}

/// The structured form of an endpoint.
pub open spec fn endpoint_form(e: EndpointView) -> Seq<TokenView> {
    seq![TokenView::Label(Label::Name), TokenView::Text(e.name), TokenView::Label(Label::Value)]
        + value_form(e.value) + seq![
        TokenView::Label(Label::IsInternal),
        TokenView::Flag(e.is_internal),
    ]
}

/// The structured form of a list of ratios: how many there are, and each of
/// them in the order of the list.
pub open spec fn ratios_form(ratios: Seq<u64>) -> Seq<TokenView> {
    seq![TokenView::Length(ratios.len() as usize)] + ratios.map_values(
        |r: u64| TokenView::Ratio(r),
    )
}

/// The structured form of a block.
pub open spec fn node_form(n: NodeView) -> Seq<TokenView> {
    match n {
        NodeView::Divide(ratios) => seq![TokenView::Label(Label::Divide)] + ratios_form(ratios),
        NodeView::Multiply(ratios) => seq![TokenView::Label(Label::Multiply)] + ratios_form(
            ratios,
        ),
        NodeView::Mux => seq![TokenView::Label(Label::Mux)],
        NodeView::Input(e) => seq![TokenView::Label(Label::Input)] + endpoint_form(e),
        NodeView::Output(e) => seq![TokenView::Label(Label::Output)] + endpoint_form(e),
    }
}

/// Whether the token at `at` is the label `label`.
pub open spec fn label_at(s: Seq<TokenView>, at: int, label: Label) -> bool {
    0 <= at < s.len() && s[at] == TokenView::Label(label)
}

/// Whether the token at `at` is a frequency.
pub open spec fn millihertz_at(s: Seq<TokenView>, at: int) -> bool {
    0 <= at < s.len() && s[at] is Millihertz
}

/// Reads a value that starts at `at`: the value and the place after it, or
/// `None` where no value is written there.
pub open spec fn read_value(s: Seq<TokenView>, at: int) -> Option<(Value, int)> {
    if label_at(s, at, Label::Constant) && millihertz_at(s, at + 1) {
        Some((Value::Constant(Frequency { millihertz: s[at + 1]->Millihertz_0 }), at + 2))
    } else if label_at(s, at, Label::Range) && label_at(s, at + 1, Label::Min) && millihertz_at(
        s,
        at + 2,
    ) && label_at(s, at + 3, Label::Max) && millihertz_at(s, at + 4) {
        Some(
            (
                Value::Range {
                    min: Frequency { millihertz: s[at + 2]->Millihertz_0 },
                    max: Frequency { millihertz: s[at + 4]->Millihertz_0 },
                },
                at + 5,
            ),
        )
    } else if label_at(s, at, Label::DontCare) {
        Some((Value::DontCare, at + 1))
    } else {
        None
    }
}

/// Reads an endpoint that starts at `at`.
pub open spec fn read_endpoint(s: Seq<TokenView>, at: int) -> Option<(EndpointView, int)> {
    if label_at(s, at, Label::Name) && at + 1 < s.len() && s[at + 1] is Text && label_at(
        s,
        at + 2,
        Label::Value,
    ) {
        match read_value(s, at + 3) {
            Some((value, after)) => {
                if label_at(s, after, Label::IsInternal) && after + 1 < s.len() && s[after
                    + 1] is Flag {
                    Some(
                        (
                            EndpointView {
                                name: s[at + 1]->Text_0,
                                value,
                                is_internal: s[after + 1]->Flag_0,
                            },
                            after + 2,
                        ),
                    )
                } else {
                    None
                }
            },
            None => None,
        }
    } else {
        None
    }
}

/// Reads a list of ratios that starts at `at`.
pub open spec fn read_ratios(s: Seq<TokenView>, at: int) -> Option<(Seq<u64>, int)> {
    if 0 <= at < s.len() && s[at] is Length && at + 1 + s[at]->Length_0 <= s.len() && (forall|
        i: int,
    |
        at < i <= at + s[at]->Length_0 ==> (#[trigger] s[i]) is Ratio) {
        Some(
            (
                Seq::new(s[at]->Length_0 as nat, |i: int| s[at + 1 + i]->Ratio_0),
                at + 1 + s[at]->Length_0,
            ),
        )
    } else {
        None
    }
}

/// Reads a block that starts at `at`.
pub open spec fn read_node(s: Seq<TokenView>, at: int) -> Option<(NodeView, int)> {
    if label_at(s, at, Label::Divide) {
        match read_ratios(s, at + 1) {
            Some((ratios, after)) => Some((NodeView::Divide(ratios), after)),
            None => None,
        }
    } else if label_at(s, at, Label::Multiply) {
        match read_ratios(s, at + 1) {
            Some((ratios, after)) => Some((NodeView::Multiply(ratios), after)),
            None => None,
        }
    } else if label_at(s, at, Label::Mux) {
        Some((NodeView::Mux, at + 1))
    } else if label_at(s, at, Label::Input) {
        match read_endpoint(s, at + 1) {
            Some((e, after)) => Some((NodeView::Input(e), after)),
            None => None,
        }
    } else if label_at(s, at, Label::Output) {
        match read_endpoint(s, at + 1) {
            Some((e, after)) => Some((NodeView::Output(e), after)),
            None => None,
        }
    } else {
        None
    }
}

/// What a whole run of tokens says when read as a value: the value, if the
/// run is the form of one and holds nothing more.
pub open spec fn value_of(s: Seq<TokenView>) -> Option<Value> {
    match read_value(s, 0) {
        Some((v, after)) => if after == s.len() {
            Some(v)
        } else {
            None
        },
        None => None,
    }
}

/// What a whole run of tokens says when read as an endpoint.
pub open spec fn endpoint_of(s: Seq<TokenView>) -> Option<EndpointView> {
    match read_endpoint(s, 0) {
        Some((e, after)) => if after == s.len() {
            Some(e)
        } else {
            None
        },
        None => None,
    }
}

/// What a whole run of tokens says when read as a block.
pub open spec fn node_of(s: Seq<TokenView>) -> Option<NodeView> {
    match read_node(s, 0) {
        Some((n, after)) => if after == s.len() {
            Some(n)
        } else {
            None
        },
        None => None,
    }
}

/// A value that is written anywhere in a run of tokens is read back from
/// there as it was written.
pub proof fn lemma_read_value(before: Seq<TokenView>, v: Value, behind: Seq<TokenView>)
    ensures
        read_value(before + value_form(v) + behind, before.len() as int) == Some(
            (v, (before.len() + value_form(v).len()) as int),
        ),
{
    let s = before + value_form(v) + behind;
    let at = before.len() as int;
    assert forall|i: int| 0 <= i < value_form(v).len() implies s[at + i] == value_form(v)[i] by {}
    match v {
        Value::Constant(f) => {
            assert(s[at] == value_form(v)[0]);
            assert(s[at + 1] == value_form(v)[1]);
        },
        Value::Range { min, max } => {
            assert(s[at] == value_form(v)[0]);
            assert(s[at + 1] == value_form(v)[1]);
            assert(s[at + 2] == value_form(v)[2]);
            assert(s[at + 3] == value_form(v)[3]);
            assert(s[at + 4] == value_form(v)[4]);
        },
        Value::DontCare => {
            assert(s[at] == value_form(v)[0]);
        },
    }
}

/// An endpoint that is written anywhere in a run of tokens is read back from
/// there as it was written.
pub proof fn lemma_read_endpoint(before: Seq<TokenView>, e: EndpointView, behind: Seq<TokenView>)
    ensures
        read_endpoint(before + endpoint_form(e) + behind, before.len() as int) == Some(
            (e, (before.len() + endpoint_form(e).len()) as int),
        ),
{
    let s = before + endpoint_form(e) + behind;
    let at = before.len() as int;
    let head = seq![
        TokenView::Label(Label::Name),
        TokenView::Text(e.name),
        TokenView::Label(Label::Value),
    ];
    let tail = seq![TokenView::Label(Label::IsInternal), TokenView::Flag(e.is_internal)];
    assert(s =~= (before + head) + value_form(e.value) + (tail + behind));
    lemma_read_value(before + head, e.value, tail + behind);
    let after = at + 3 + value_form(e.value).len();
    assert(s[at] == head[0]);
    assert(s[at + 1] == head[1]);
    assert(s[at + 2] == head[2]);
    assert(s[after] == tail[0]);
    assert(s[after + 1] == tail[1]);
    let got = read_endpoint(s, at)->Some_0.0;
    assert(got.name == e.name && got.value == e.value && got.is_internal == e.is_internal);
}

/// A list of ratios that is written anywhere in a run of tokens is read back
/// from there as it was written, as long as its length can be written at all.
pub proof fn lemma_read_ratios(before: Seq<TokenView>, ratios: Seq<u64>, behind: Seq<TokenView>)
    requires
        ratios.len() <= usize::MAX,
    ensures
        read_ratios(before + ratios_form(ratios) + behind, before.len() as int) == Some(
            (ratios, (before.len() + ratios_form(ratios).len()) as int),
        ),
{
    let s = before + ratios_form(ratios) + behind;
    let at = before.len() as int;
    assert(s[at] == ratios_form(ratios)[0]);
    assert forall|i: int| at < i <= at + ratios.len() implies (#[trigger] s[i]) is Ratio by {
        assert(s[i] == ratios_form(ratios)[i - at]);
    }
    let got = read_ratios(s, at)->Some_0.0;
    assert forall|i: int| 0 <= i < ratios.len() implies got[i] == ratios[i] by {
        assert(s[at + 1 + i] == ratios_form(ratios)[i + 1]);
    }
    assert(got =~= ratios);
}

/// A block that is written anywhere in a run of tokens is read back from
/// there as it was written.
pub proof fn lemma_read_node(before: Seq<TokenView>, n: NodeView, behind: Seq<TokenView>)
    requires
        n is Divide ==> n->Divide_0.len() <= usize::MAX,
        n is Multiply ==> n->Multiply_0.len() <= usize::MAX,
    ensures
        read_node(before + node_form(n) + behind, before.len() as int) == Some(
            (n, (before.len() + node_form(n).len()) as int),
        ),
{
    let s = before + node_form(n) + behind;
    let at = before.len() as int;
    assert(s[at] == node_form(n)[0]);
    match n {
        NodeView::Divide(ratios) => {
            let head = seq![TokenView::Label(Label::Divide)];
            assert(s =~= (before + head) + ratios_form(ratios) + behind);
            lemma_read_ratios(before + head, ratios, behind);
        },
        NodeView::Multiply(ratios) => {
            let head = seq![TokenView::Label(Label::Multiply)];
            assert(s =~= (before + head) + ratios_form(ratios) + behind);
            lemma_read_ratios(before + head, ratios, behind);
        },
        NodeView::Mux => {},
        NodeView::Input(e) => {
            let head = seq![TokenView::Label(Label::Input)];
            assert(s =~= (before + head) + endpoint_form(e) + behind);
            lemma_read_endpoint(before + head, e, behind);
        },
        NodeView::Output(e) => {
            let head = seq![TokenView::Label(Label::Output)];
            assert(s =~= (before + head) + endpoint_form(e) + behind);
            lemma_read_endpoint(before + head, e, behind);
        },
    }
}

/// Writing a value and reading it back gives the value.
pub proof fn lemma_value_round_trip(v: Value)
    ensures
        value_of(value_form(v)) == Some(v),
{
    lemma_read_value(Seq::empty(), v, Seq::empty());
    assert(Seq::<TokenView>::empty() + value_form(v) + Seq::<TokenView>::empty() =~= value_form(v));
}

/// Writing an endpoint and reading it back gives the endpoint.
pub proof fn lemma_endpoint_round_trip(e: EndpointView)
    ensures
        endpoint_of(endpoint_form(e)) == Some(e),
{
    lemma_read_endpoint(Seq::empty(), e, Seq::empty());
    assert(Seq::<TokenView>::empty() + endpoint_form(e) + Seq::<TokenView>::empty()
        =~= endpoint_form(e));
}

/// Writing a block and reading it back gives the block.
pub proof fn lemma_node_round_trip(n: Node)
    ensures
        node_of(node_form(n@)) == Some(n@),
{
    match n {
        Node::Divide(ratios) => {
            assert(ratios@.len() == ratios.len());
        },
        Node::Multiply(ratios) => {
            assert(ratios@.len() == ratios.len());
        },
        _ => {},
    }
    lemma_read_node(Seq::empty(), n@, Seq::empty());
    assert(Seq::<TokenView>::empty() + node_form(n@) + Seq::<TokenView>::empty() =~= node_form(
        n@,
    ));
}

/// The view of a run with one more token is the view of the run with one
/// more view.
proof fn lemma_views_push(tokens: Seq<Token>, t: Token)
    ensures
        views(tokens.push(t)) == views(tokens).push(t@),
{
    assert(views(tokens.push(t)) =~= views(tokens).push(t@));
}

/// Adds `token` at the end of `out`.
fn put(out: &mut Vec<Token>, token: Token)
    ensures
        views(final(out)@) == views(old(out)@).push(token@),
{
    proof {
        lemma_views_push(out@, token);
    }
    out.push(token);
}

fn is_label(tokens: &[Token], at: usize, label: Label) -> (b: bool)
    ensures
        b == label_at(views(tokens@), at as int, label),
        b ==> at < tokens@.len() <= usize::MAX,
{
    if at >= tokens.len() {
        return false;
    }
    match &tokens[at] {
        Token::Label(l) => *l == label,
        _ => false,
    }
}

fn millihertz(tokens: &[Token], at: usize) -> (m: Option<i64>)
    ensures
        m is Some <==> millihertz_at(views(tokens@), at as int),
        m is Some ==> m->Some_0 == views(tokens@)[at as int]->Millihertz_0,
        m is Some ==> at < tokens@.len() <= usize::MAX,
{
    if at >= tokens.len() {
        return None;
    }
    match &tokens[at] {
        Token::Millihertz(m) => Some(*m),
        _ => None,
    }
}

/// Reads the value that starts at `at`.
fn read_value_at(tokens: &[Token], at: usize) -> (r: Option<(Value, usize)>)
    ensures
        r is Some <==> read_value(views(tokens@), at as int) is Some,
        r is Some ==> read_value(views(tokens@), at as int) == Some(
            (r->Some_0.0, r->Some_0.1 as int),
        ),
        r is Some ==> at < r->Some_0.1 <= tokens@.len() <= usize::MAX,
{
    if is_label(tokens, at, Label::Constant) {
        if let Some(m) = millihertz(tokens, at + 1) {
            return Some((Value::Constant(Frequency { millihertz: m }), at + 2));
        }
    }
    if is_label(tokens, at, Label::Range) && is_label(tokens, at + 1, Label::Min) {
        if let Some(min) = millihertz(tokens, at + 2) {
            if is_label(tokens, at + 3, Label::Max) {
                if let Some(max) = millihertz(tokens, at + 4) {
                    return Some(
                        (
                            Value::Range {
                                min: Frequency { millihertz: min },
                                max: Frequency { millihertz: max },
                            },
                            at + 5,
                        ),
                    );
                }
            }
        }
    }
    if is_label(tokens, at, Label::DontCare) {
        return Some((Value::DontCare, at + 1));
    }
    None
}

/// Reads the endpoint that starts at `at`.
fn read_endpoint_at(tokens: &[Token], at: usize) -> (r: Option<(Endpoint, usize)>)
    ensures
        r is Some <==> read_endpoint(views(tokens@), at as int) is Some,
        r is Some ==> read_endpoint(views(tokens@), at as int) == Some(
            (r->Some_0.0@, r->Some_0.1 as int),
        ),
        r is Some ==> at < r->Some_0.1 <= tokens@.len() <= usize::MAX,
{
    if !is_label(tokens, at, Label::Name) {
        return None;
    }
    if at + 1 >= tokens.len() {
        return None;
    }
    let name = match &tokens[at + 1] {
        Token::Text(text) => text.clone(),
        _ => {
            return None;
        },
    };
    if !is_label(tokens, at + 2, Label::Value) {
        return None;
    }
    let (value, after) = match read_value_at(tokens, at + 3) {
        Some(found) => found,
        None => {
            return None;
        },
    };
    if !is_label(tokens, after, Label::IsInternal) {
        return None;
    }
    if after + 1 >= tokens.len() {
        return None;
    }
    let is_internal = match &tokens[after + 1] {
        Token::Flag(b) => *b,
        _ => {
            return None;
        },
    };
    Some((Endpoint { name, value, is_internal }, after + 2))
}

/// Reads the list of ratios that starts at `at`.
fn read_ratios_at(tokens: &[Token], at: usize) -> (r: Option<(Vec<u64>, usize)>)
    ensures
        r is Some <==> read_ratios(views(tokens@), at as int) is Some,
        r is Some ==> read_ratios(views(tokens@), at as int) == Some(
            (r->Some_0.0@, r->Some_0.1 as int),
        ),
        r is Some ==> at < r->Some_0.1 <= tokens@.len() <= usize::MAX,
{
    if at >= tokens.len() {
        return None;
    }
    let count = match &tokens[at] {
        Token::Length(n) => *n,
        _ => {
            return None;
        },
    };
    if count > tokens.len() - at - 1 {
        return None;
    }
    let ghost s = views(tokens@);
    let mut ratios: Vec<u64> = Vec::new();
    let mut i: usize = 0;
    while i < count
        invariant
            s == views(tokens@),
            at < tokens.len(),
            s[at as int] == TokenView::Length(count),
            at + 1 + count <= tokens.len(),
            i <= count,
            ratios.len() == i,
            forall|j: int| at < j <= at + i ==> (#[trigger] s[j]) is Ratio,
            forall|j: int| 0 <= j < i ==> ratios[j] == s[at + 1 + j]->Ratio_0,
        decreases count - i,
    {
        match &tokens[at + 1 + i] {
            Token::Ratio(ratio) => {
                ratios.push(*ratio);
            },
            _ => {
                assert(!(s[at + 1 + i] is Ratio));
                return None;
            },
        }
        i = i + 1;
    }
    assert(ratios@ =~= read_ratios(s, at as int)->Some_0.0);
    Some((ratios, at + 1 + count))
}

/// Reads the block that starts at `at`.
fn read_node_at(tokens: &[Token], at: usize) -> (r: Option<(Node, usize)>)
    ensures
        r is Some <==> read_node(views(tokens@), at as int) is Some,
        r is Some ==> read_node(views(tokens@), at as int) == Some(
            (r->Some_0.0@, r->Some_0.1 as int),
        ),
        r is Some ==> at < r->Some_0.1 <= tokens@.len() <= usize::MAX,
{
    if is_label(tokens, at, Label::Divide) {
        match read_ratios_at(tokens, at + 1) {
            Some((ratios, after)) => Some((Node::Divide(ratios), after)),
            None => None,
        }
    } else if is_label(tokens, at, Label::Multiply) {
        match read_ratios_at(tokens, at + 1) {
            Some((ratios, after)) => Some((Node::Multiply(ratios), after)),
            None => None,
        }
    } else if is_label(tokens, at, Label::Mux) {
        Some((Node::Mux, at + 1))
    } else if is_label(tokens, at, Label::Input) {
        match read_endpoint_at(tokens, at + 1) {
            Some((endpoint, after)) => Some((Node::Input(endpoint), after)),
            None => None,
        }
    } else if is_label(tokens, at, Label::Output) {
        match read_endpoint_at(tokens, at + 1) {
            Some((endpoint, after)) => Some((Node::Output(endpoint), after)),
            None => None,
        }
    } else {
        None
    }
}

/// Writes the list of ratios at the end of `out`.
fn write_ratios(ratios: &Vec<u64>, out: &mut Vec<Token>)
    ensures
        views(final(out)@) == views(old(out)@) + ratios_form(ratios@),
{
    put(out, Token::Length(ratios.len()));
    let mut i: usize = 0;
    assert(views(out@) =~= views(old(out)@) + ratios_form(ratios@).take(1));
    while i < ratios.len()
        invariant
            i <= ratios.len(),
            views(out@) == views(old(out)@) + ratios_form(ratios@).take(1 + i),
        decreases ratios.len() - i,
    {
        put(out, Token::Ratio(ratios[i]));
        assert(ratios_form(ratios@).take(1 + i).push(TokenView::Ratio(ratios[i as int]))
            =~= ratios_form(ratios@).take(2 + i));
        assert(views(out@) =~= views(old(out)@) + ratios_form(ratios@).take(2 + i));
        i = i + 1;
    }
    assert(ratios_form(ratios@).take(1 + i) =~= ratios_form(ratios@));
}

impl Value {
    /// Writes the structured form of the value at the end of `out`.
    pub fn write_to(&self, out: &mut Vec<Token>)
        ensures
            views(final(out)@) == views(old(out)@) + value_form(*self),
    {
        match self {
            Value::Constant(f) => {
                put(out, Token::Label(Label::Constant));
                put(out, Token::Millihertz(f.millihertz));
            },
            Value::Range { min, max } => {
                put(out, Token::Label(Label::Range));
                put(out, Token::Label(Label::Min));
                put(out, Token::Millihertz(min.millihertz));
                put(out, Token::Label(Label::Max));
                put(out, Token::Millihertz(max.millihertz));
            },
            Value::DontCare => {
                put(out, Token::Label(Label::DontCare));
            },
        }
        assert(views(out@) =~= views(old(out)@) + value_form(*self));
    }

    /// The structured form of the value.
    pub fn encode(&self) -> (tokens: Vec<Token>)
        ensures
            views(tokens@) == value_form(*self),
            value_of(views(tokens@)) == Some(*self),
    {
        let mut tokens: Vec<Token> = Vec::new();
        self.write_to(&mut tokens);
        proof {
            assert(views(tokens@) =~= value_form(*self));
            lemma_value_round_trip(*self);
        }
        tokens
    }

    /// Reads a value from its structured form. The answer is `None` where
    /// the tokens are not the form of a value, or hold more than one.
    pub fn decode(tokens: &[Token]) -> (v: Option<Value>)
        ensures
            v == value_of(views(tokens@)),
    {
        match read_value_at(tokens, 0) {
            Some((v, after)) => if after == tokens.len() {
                Some(v)
            } else {
                None
            },
            None => None,
        }
    }
}

impl Endpoint {
    /// Writes the structured form of the endpoint at the end of `out`.
    pub fn write_to(&self, out: &mut Vec<Token>)
        ensures
            views(final(out)@) == views(old(out)@) + endpoint_form(self@),
    {
        put(out, Token::Label(Label::Name));
        put(out, Token::Text(self.name.clone()));
        put(out, Token::Label(Label::Value));
        self.value.write_to(out);
        put(out, Token::Label(Label::IsInternal));
        put(out, Token::Flag(self.is_internal));
        assert(views(out@) =~= views(old(out)@) + endpoint_form(self@));
    }

    /// The structured form of the endpoint.
    pub fn encode(&self) -> (tokens: Vec<Token>)
        ensures
            views(tokens@) == endpoint_form(self@),
            endpoint_of(views(tokens@)) == Some(self@),
    {
        let mut tokens: Vec<Token> = Vec::new();
        self.write_to(&mut tokens);
        proof {
            assert(views(tokens@) =~= endpoint_form(self@));
            lemma_endpoint_round_trip(self@);
        }
        tokens
    }

    /// Reads an endpoint from its structured form. The answer is `None`
    /// where the tokens are not the form of an endpoint, or hold more than
    /// one.
    pub fn decode(tokens: &[Token]) -> (e: Option<Endpoint>)
        ensures
            e is Some <==> endpoint_of(views(tokens@)) is Some,
            e is Some ==> endpoint_of(views(tokens@)) == Some(e->Some_0@),
    {
        match read_endpoint_at(tokens, 0) {
            Some((e, after)) => if after == tokens.len() {
                Some(e)
            } else {
                None
            },
            None => None,
        }
    }
}

impl Node {
    /// Writes the structured form of the block at the end of `out`.
    pub fn write_to(&self, out: &mut Vec<Token>)
        ensures
            views(final(out)@) == views(old(out)@) + node_form(self@),
    {
        match self {
            Node::Divide(ratios) => {
                put(out, Token::Label(Label::Divide));
                write_ratios(ratios, out);
            },
            Node::Multiply(ratios) => {
                put(out, Token::Label(Label::Multiply));
                write_ratios(ratios, out);
            },
            Node::Mux => {
                put(out, Token::Label(Label::Mux));
            },
            Node::Input(endpoint) => {
                put(out, Token::Label(Label::Input));
                endpoint.write_to(out);
            },
            Node::Output(endpoint) => {
                put(out, Token::Label(Label::Output));
                endpoint.write_to(out);
            },
        }
        assert(views(out@) =~= views(old(out)@) + node_form(self@));
    }

    /// The structured form of the block.
    pub fn encode(&self) -> (tokens: Vec<Token>)
        ensures
            views(tokens@) == node_form(self@),
            node_of(views(tokens@)) == Some(self@),
    {
        let mut tokens: Vec<Token> = Vec::new();
        self.write_to(&mut tokens);
        proof {
            assert(views(tokens@) =~= node_form(self@));
            lemma_node_round_trip(*self);
        }
        tokens
    }

    /// Reads a block from its structured form. The answer is `None` where
    /// the tokens are not the form of a block, or hold more than one.
    pub fn decode(tokens: &[Token]) -> (n: Option<Node>)
        ensures
            n is Some <==> node_of(views(tokens@)) is Some,
            n is Some ==> node_of(views(tokens@)) == Some(n->Some_0@),
    {
        match read_node_at(tokens, 0) {
            Some((n, after)) => if after == tokens.len() {
                Some(n)
            } else {
                None
            },
            None => None,
        }
    }
}

} // verus!
