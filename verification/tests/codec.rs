use clock_solver::codec::Label;
use clock_solver::codec::Token;
use clock_solver::types::Endpoint;
use clock_solver::types::Frequency;
use clock_solver::types::Node;
use clock_solver::types::Value;

fn mhz(m: i64) -> Frequency {
    Frequency::from_millihertz(m)
}

fn sample_values() -> Vec<Value> {
    vec![
        Value::DontCare,
        Value::Constant(mhz(0)),
        Value::Constant(mhz(-1)),
        Value::Constant(mhz(48_000_000_000)),
        Value::Constant(mhz(i64::MIN)),
        Value::Range { min: mhz(1), max: mhz(2) },
        Value::Range { min: mhz(i64::MIN), max: mhz(i64::MAX) },
        Value::Range { min: mhz(5), max: mhz(5) },
    ]
}

fn sample_endpoints() -> Vec<Endpoint> {
    let mut out = Vec::new();
    for (i, value) in sample_values().into_iter().enumerate() {
        out.push(Endpoint::new(format!("port {}", i), value, i % 2 == 0));
    }
    out.push(Endpoint::new(String::new(), Value::DontCare, true));
    out.push(Endpoint::new("Takt \u{00e9}\u{4e2d}".to_string(), Value::DontCare, false));
    out
}

fn sample_nodes() -> Vec<Node> {
    let mut out = vec![
        Node::Mux,
        Node::Divide(Vec::new()),
        Node::Divide(vec![2, 4, 8]),
        Node::Multiply(Vec::new()),
        Node::Multiply(vec![u64::MAX, 0, 3]),
    ];
    for e in sample_endpoints() {
        out.push(Node::Input(e.clone()));
        out.push(Node::Output(e));
    }
    out
}

#[test]
fn value_round_trip() {
    for v in sample_values() {
        assert_eq!(Value::decode(&v.encode()), Some(v));
    }
}

#[test]
fn endpoint_round_trip() {
    for e in sample_endpoints() {
        assert_eq!(Endpoint::decode(&e.encode()), Some(e));
    }
}

#[test]
fn node_round_trip() {
    for n in sample_nodes() {
        assert_eq!(Node::decode(&n.encode()), Some(n));
    }
}

#[test]
fn equal_frequencies_have_equal_forms() {
    let a = Value::Constant(mhz(1_000));
    let b = Value::constant(Frequency::from_millihertz(1_000));
    assert_eq!(a, b);
    assert_eq!(a.encode(), b.encode());
    assert_eq!(Value::decode(&Value::DontCare.encode()), Some(Value::dont_care()));
}

#[test]
fn form_of_a_value() {
    assert_eq!(Value::DontCare.encode(), vec![Token::Label(Label::DontCare)]);
    assert_eq!(
        Value::Constant(mhz(7)).encode(),
        vec![Token::Label(Label::Constant), Token::Millihertz(7)]
    );
    assert_eq!(
        Value::Range { min: mhz(-3), max: mhz(9) }.encode(),
        vec![
            Token::Label(Label::Range),
            Token::Label(Label::Min),
            Token::Millihertz(-3),
            Token::Label(Label::Max),
            Token::Millihertz(9),
        ]
    );
}

#[test]
fn form_of_an_endpoint() {
    let e = Endpoint::new("xtal".to_string(), Value::Constant(mhz(12)), true);
    assert_eq!(
        e.encode(),
        vec![
            Token::Label(Label::Name),
            Token::Text("xtal".to_string()),
            Token::Label(Label::Value),
            Token::Label(Label::Constant),
            Token::Millihertz(12),
            Token::Label(Label::IsInternal),
            Token::Flag(true),
        ]
    );
}

#[test]
fn form_of_a_block() {
    assert_eq!(Node::Mux.encode(), vec![Token::Label(Label::Mux)]);
    assert_eq!(
        Node::Divide(vec![2, 4]).encode(),
        vec![Token::Label(Label::Divide), Token::Length(2), Token::Ratio(2), Token::Ratio(4)]
    );
    assert_eq!(
        Node::Multiply(Vec::new()).encode(),
        vec![Token::Label(Label::Multiply), Token::Length(0)]
    );
    let e = Endpoint::new("o".to_string(), Value::DontCare, false);
    assert_eq!(
        Node::Output(e.clone()).encode(),
        vec![
            Token::Label(Label::Output),
            Token::Label(Label::Name),
            Token::Text("o".to_string()),
            Token::Label(Label::Value),
            Token::Label(Label::DontCare),
            Token::Label(Label::IsInternal),
            Token::Flag(false),
        ]
    );
    let mut as_input = Node::Output(e.clone()).encode();
    as_input[0] = Token::Label(Label::Input);
    assert_eq!(Node::Input(e).encode(), as_input);
}

#[test]
fn write_to_appends() {
    let mut out = vec![Token::Flag(true)];
    Value::DontCare.write_to(&mut out);
    Node::Mux.write_to(&mut out);
    Endpoint::new("a".to_string(), Value::DontCare, false).write_to(&mut out);
    assert_eq!(out.len(), 1 + 1 + 1 + 6);
    assert_eq!(out[0], Token::Flag(true));
    assert_eq!(out[1], Token::Label(Label::DontCare));
    assert_eq!(out[2], Token::Label(Label::Mux));
    assert_eq!(out[3], Token::Label(Label::Name));
}

#[test]
fn decode_refuses_what_is_not_a_value() {
    assert_eq!(Value::decode(&[]), None);
    assert_eq!(Value::decode(&[Token::Millihertz(1)]), None);
    assert_eq!(Value::decode(&[Token::Label(Label::Mux)]), None);
    assert_eq!(Value::decode(&[Token::Label(Label::Constant)]), None);
    assert_eq!(Value::decode(&[Token::Label(Label::Constant), Token::Ratio(1)]), None);
    assert_eq!(
        Value::decode(&[
            Token::Label(Label::Range),
            Token::Label(Label::Max),
            Token::Millihertz(1),
            Token::Label(Label::Min),
            Token::Millihertz(2),
        ]),
        None
    );
    assert_eq!(
        Value::decode(&[
            Token::Label(Label::Range),
            Token::Label(Label::Min),
            Token::Millihertz(1),
            Token::Label(Label::Max),
        ]),
        None
    );
}

#[test]
fn decode_refuses_trailing_tokens() {
    let mut tokens = Value::DontCare.encode();
    tokens.push(Token::Flag(true));
    assert_eq!(Value::decode(&tokens), None);
    let mut tokens = Node::Mux.encode();
    tokens.push(Token::Label(Label::Mux));
    assert_eq!(Node::decode(&tokens), None);
    let mut tokens = Endpoint::new("a".to_string(), Value::DontCare, false).encode();
    tokens.push(Token::Flag(false));
    assert_eq!(Endpoint::decode(&tokens), None);
}

#[test]
fn decode_refuses_what_is_not_an_endpoint() {
    let good = Endpoint::new("a".to_string(), Value::Constant(mhz(1)), false).encode();
    assert!(Endpoint::decode(&good).is_some());
    for cut in 0..good.len() {
        assert_eq!(Endpoint::decode(&good[..cut]), None);
    }
    for i in 0..good.len() {
        let mut bad = good.clone();
        bad[i] = Token::Length(3);
        assert_eq!(Endpoint::decode(&bad), None);
    }
}

#[test]
fn decode_refuses_what_is_not_a_block() {
    assert_eq!(Node::decode(&[]), None);
    assert_eq!(Node::decode(&[Token::Label(Label::Divide)]), None);
    assert_eq!(Node::decode(&[Token::Label(Label::Divide), Token::Ratio(2)]), None);
    assert_eq!(
        Node::decode(&[Token::Label(Label::Divide), Token::Length(2), Token::Ratio(2)]),
        None
    );
    assert_eq!(
        Node::decode(&[
            Token::Label(Label::Multiply),
            Token::Length(2),
            Token::Ratio(2),
            Token::Millihertz(2),
        ]),
        None
    );
    assert_eq!(
        Node::decode(&[Token::Label(Label::Multiply), Token::Length(usize::MAX), Token::Ratio(2)]),
        None
    );
    assert_eq!(Node::decode(&[Token::Label(Label::Input)]), None);
    assert_eq!(Node::decode(&[Token::Label(Label::DontCare)]), None);
}

#[test]
fn decode_takes_a_range_with_swapped_bounds_as_written() {
    let swapped = Value::Range { min: mhz(9), max: mhz(1) };
    assert!(!swapped.is_valid());
    assert_eq!(Value::decode(&swapped.encode()), Some(swapped));
}
