//! End-to-end behaviour of the expander: the concrete scenarios, the
//! boundary cases, each error, and the fusion rules.

use seq_expand::expand::expand_invocation;
use seq_expand::parse::{ExpandError, Invocation};
use seq_expand::transform::transform_tokens;
use seq_expand::tree::{Delim, LeafKind, Node};

fn name(s: &str) -> Node {
    Node::Leaf { kind: LeafKind::Name, text: s.as_bytes().to_vec() }
}

fn lit(s: &str) -> Node {
    Node::Leaf { kind: LeafKind::Literal, text: s.as_bytes().to_vec() }
}

fn sym(s: &str) -> Node {
    Node::Leaf { kind: LeafKind::Symbol, text: s.as_bytes().to_vec() }
}

fn group(delim: Delim, children: Vec<Node>) -> Node {
    Node::Group { delim, children }
}

fn invocation(ph: &str, start: &str, end: &str, body: Vec<Node>) -> Vec<Node> {
    vec![
        name(ph),
        name("in"),
        lit(start),
        sym("."),
        sym("."),
        lit(end),
        group(Delim::Brace, body),
    ]
}

#[test]
fn three_function_fragments() {
    let body = vec![
        name("fn"),
        name("f"),
        sym("~"),
        name("i"),
        group(Delim::Paren, vec![]),
        group(Delim::Brace, vec![]),
    ];
    let out = expand_invocation(&invocation("i", "0", "3", body)).unwrap();
    let expected = vec![
        name("fn"),
        name("f0"),
        group(Delim::Paren, vec![]),
        group(Delim::Brace, vec![]),
        name("fn"),
        name("f1"),
        group(Delim::Paren, vec![]),
        group(Delim::Brace, vec![]),
        name("fn"),
        name("f2"),
        group(Delim::Paren, vec![]),
        group(Delim::Brace, vec![]),
    ];
    assert_eq!(out, expected);
}

#[test]
fn empty_range_expands_to_nothing() {
    let body = vec![name("unused"), sym("~"), name("i")];
    let out = expand_invocation(&invocation("i", "5", "5", body)).unwrap();
    assert_eq!(out, Vec::<Node>::new());
}

#[test]
fn reversed_range_expands_to_nothing() {
    let out = expand_invocation(&invocation("i", "3", "0", vec![name("i")])).unwrap();
    assert_eq!(out, Vec::<Node>::new());
}

#[test]
fn missing_range_operator_is_malformed() {
    let tokens = vec![
        name("i"),
        name("in"),
        lit("0"),
        lit("3"),
        group(Delim::Brace, vec![name("i")]),
    ];
    let err = expand_invocation(&tokens).unwrap_err();
    assert_eq!(err, ExpandError::MalformedInvocation { at: 3 });
}

#[test]
fn missing_keyword_is_malformed() {
    let mut tokens = invocation("i", "0", "3", vec![name("i")]);
    tokens[1] = name("of");
    let err = expand_invocation(&tokens).unwrap_err();
    assert_eq!(err, ExpandError::MalformedInvocation { at: 1 });
}

#[test]
fn leading_literal_is_malformed() {
    let mut tokens = invocation("i", "0", "3", vec![name("i")]);
    tokens[0] = lit("9");
    let err = expand_invocation(&tokens).unwrap_err();
    assert_eq!(err, ExpandError::MalformedInvocation { at: 0 });
}

#[test]
fn wrong_body_delimiter_is_malformed() {
    let mut tokens = invocation("i", "0", "3", vec![name("i")]);
    tokens[6] = group(Delim::Paren, vec![name("i")]);
    let err = expand_invocation(&tokens).unwrap_err();
    assert_eq!(err, ExpandError::MalformedInvocation { at: 6 });
}

#[test]
fn trailing_token_is_malformed() {
    let mut tokens = invocation("i", "0", "3", vec![name("i")]);
    tokens.push(name("extra"));
    let err = expand_invocation(&tokens).unwrap_err();
    assert_eq!(err, ExpandError::MalformedInvocation { at: 7 });
}

#[test]
fn truncated_invocation_is_malformed() {
    let tokens = vec![name("i"), name("in"), lit("0")];
    let err = expand_invocation(&tokens).unwrap_err();
    assert_eq!(err, ExpandError::MalformedInvocation { at: 3 });
}

#[test]
fn unparsable_start_bound_is_invalid() {
    let err = expand_invocation(&invocation("i", "abc", "3", vec![name("i")])).unwrap_err();
    assert_eq!(err, ExpandError::InvalidRangeBound { at: 2 });
}

#[test]
fn overflowing_end_bound_is_invalid() {
    let err = expand_invocation(&invocation("i", "0", "99999999999999999999", vec![name("i")]))
        .unwrap_err();
    assert_eq!(err, ExpandError::InvalidRangeBound { at: 5 });
}

#[test]
fn expansion_is_deterministic() {
    let body = vec![name("f"), sym("~"), name("i"), group(Delim::Paren, vec![name("i")])];
    let first = expand_invocation(&invocation("i", "0", "4", body.clone())).unwrap();
    let second = expand_invocation(&invocation("i", "0", "4", body)).unwrap();
    assert_eq!(first, second);
}

#[test]
fn nested_groups_keep_their_delimiters() {
    let body = vec![group(Delim::Paren, vec![name("i")])];
    let out = expand_invocation(&invocation("i", "0", "2", body)).unwrap();
    let expected = vec![
        group(Delim::Paren, vec![lit("0")]),
        group(Delim::Paren, vec![lit("1")]),
    ];
    assert_eq!(out, expected);
}

#[test]
fn deeply_nested_substitution() {
    let body = vec![group(
        Delim::Bracket,
        vec![group(Delim::Paren, vec![name("i"), sym(","), name("x")])],
    )];
    let out = expand_invocation(&invocation("i", "7", "8", body)).unwrap();
    let expected = vec![group(
        Delim::Bracket,
        vec![group(Delim::Paren, vec![lit("7"), sym(","), name("x")])],
    )];
    assert_eq!(out, expected);
}

#[test]
fn fusion_builds_one_composite_name() {
    let out = expand_invocation(&invocation("i", "3", "4", vec![name("item"), sym("~"), name("i")]))
        .unwrap();
    assert_eq!(out, vec![name("item3")]);
}

#[test]
fn fusion_applies_twice_in_a_row() {
    let body = vec![name("f"), sym("~"), name("i"), sym("~"), name("i")];
    let out = expand_invocation(&invocation("i", "2", "3", body)).unwrap();
    assert_eq!(out, vec![name("f22")]);
}

#[test]
fn marker_without_following_placeholder_passes_through() {
    let body = vec![name("x"), sym("~"), name("y")];
    let out = expand_invocation(&invocation("i", "0", "1", body)).unwrap();
    assert_eq!(out, vec![name("x"), sym("~"), name("y")]);
}

#[test]
fn marker_without_preceding_name_passes_through() {
    let body = vec![sym("~"), name("i")];
    let out = expand_invocation(&invocation("i", "4", "5", body)).unwrap();
    assert_eq!(out, vec![sym("~"), lit("4")]);
}

#[test]
fn fusion_does_not_cross_group_boundary() {
    let body = vec![name("x"), group(Delim::Paren, vec![]), sym("~"), name("i")];
    let out = expand_invocation(&invocation("i", "1", "2", body)).unwrap();
    assert_eq!(out, vec![name("x"), group(Delim::Paren, vec![]), sym("~"), lit("1")]);
}

#[test]
fn other_leaves_pass_through_unchanged() {
    let body = vec![name("x"), lit("42"), sym("+"), name("i"), sym(";")];
    let out = expand_invocation(&invocation("i", "9", "10", body)).unwrap();
    assert_eq!(out, vec![name("x"), lit("42"), sym("+"), lit("9"), sym(";")]);
}

#[test]
fn negative_range_bounds_expand() {
    let out = expand_invocation(&invocation("i", "-2", "1", vec![name("i")])).unwrap();
    assert_eq!(out, vec![lit("-2"), lit("-1"), lit("0")]);
}

#[test]
fn empty_body_expands_to_nothing() {
    let out = expand_invocation(&invocation("i", "0", "4", vec![])).unwrap();
    assert_eq!(out, Vec::<Node>::new());
}

#[test]
fn copy_count_matches_range_length() {
    let body = vec![name("a"), name("i")];
    let out = expand_invocation(&invocation("i", "0", "50", body)).unwrap();
    assert_eq!(out.len(), 100);
    assert_eq!(out[98], name("a"));
    assert_eq!(out[99], lit("49"));
}

#[test]
fn parse_yields_the_invocation_record() {
    let tokens = invocation("idx", "2", "9", vec![name("idx"), sym("!")]);
    let inv = Invocation::parse(&tokens).unwrap();
    assert_eq!(inv.placeholder, b"idx".to_vec());
    assert_eq!(inv.start, 2);
    assert_eq!(inv.end, 9);
    assert_eq!(inv.body, vec![name("idx"), sym("!")]);
}

#[test]
fn expand_on_a_built_invocation() {
    let inv = Invocation {
        placeholder: b"n".to_vec(),
        start: 10,
        end: 12,
        body: vec![name("n")],
    };
    assert_eq!(inv.expand(), vec![lit("10"), lit("11")]);
}

#[test]
fn transform_substitutes_one_iteration() {
    let ts = vec![name("a"), name("i"), name("a"), sym("~"), name("i")];
    let out = transform_tokens(&ts, &b"i".to_vec(), 6);
    assert_eq!(out, vec![name("a"), lit("6"), name("a6")]);
}

#[test]
fn substituted_literal_is_not_a_fusion_target() {
    let body = vec![name("i"), sym("~"), name("i")];
    let out = expand_invocation(&invocation("i", "8", "9", body)).unwrap();
    assert_eq!(out, vec![lit("8"), sym("~"), lit("8")]);
}
