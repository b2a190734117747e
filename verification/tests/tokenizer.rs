use tokentree::atom::{
    is_operator_symbol, tokenize, ActiveAtom, Atom, Group, GroupType, Identifier, IntegerLiteral,
    Node, NumericLiteral, Operator, StringLiteral,
};

fn chars(s: &str) -> Vec<char> {
    s.chars().collect()
}

fn ident(s: &str) -> Node {
    Node::Identifier { text: s.chars().collect() }
}

fn oper(s: &str) -> Node {
    Node::Operator { text: s.chars().collect() }
}

fn strlit(s: &str) -> Node {
    Node::StringLiteral { text: s.chars().collect() }
}

fn group(kind: GroupType, children: Vec<Node>) -> Node {
    Node::Group { kind, children }
}

/// The children of the root group after scanning the input, with the
/// in-progress atom (if any) discarded, as at end of input.
fn root_children(input: &str) -> Vec<Node> {
    match tokenize(&chars(input)) {
        ActiveAtom::Group(g) => {
            assert!(matches!(g.group_type, GroupType::Root), "scan did not end at the root");
            assert!(g.parent.is_none());
            g.children
        },
        _ => panic!("scan ended inside a leaf"),
    }
}

#[test]
fn empty_input_yields_empty_root() {
    let a = tokenize(&chars(""));
    match a {
        ActiveAtom::Group(g) => {
            assert!(matches!(g.group_type, GroupType::Root));
            assert!(g.parent.is_none());
            assert_eq!(g.children, vec![]);
        },
        _ => panic!("expected the root group"),
    }
}

#[test]
fn identifier_boundary_two_siblings() {
    // two identifiers separated by dropped whitespace, both finalized
    assert_eq!(root_children("ab1 cd "), vec![ident("ab1"), ident("cd")]);
}

#[test]
fn identifier_in_progress_is_not_attached() {
    // without a terminator the second identifier is still accumulating
    let a = tokenize(&chars("ab1 cd"));
    match a {
        ActiveAtom::Identifier(id) => {
            assert_eq!(id.value, chars("cd"));
            assert_eq!(id.parent.children, vec![ident("ab1")]);
        },
        _ => panic!("expected an identifier to be active"),
    }
}

#[test]
fn bracket_nesting_mirrors_input() {
    assert_eq!(
        root_children("{[()]}()"),
        vec![
            group(
                GroupType::Curly,
                vec![group(GroupType::Square, vec![group(GroupType::Curved, vec![])])],
            ),
            group(GroupType::Curved, vec![]),
        ],
    );
}

#[test]
fn children_keep_source_order() {
    assert_eq!(
        root_children("a b {c} 1;"),
        vec![
            ident("a"),
            ident("b"),
            group(GroupType::Curly, vec![ident("c")]),
            Node::IntegerLiteral { value: 1 },
            oper(";"),
        ],
    );
}

#[test]
fn integer_then_float_promotion() {
    let cs = root_children("123.45 ");
    assert_eq!(cs, vec![Node::NumericLiteral { base: 123, frac: vec![4, 5] }]);
    // the digits stand for the decimal fraction 123.45
    match &cs[0] {
        Node::NumericLiteral { base, frac } => {
            let mut value = *base as f64;
            let mut position = 1i32;
            for d in frac {
                value += (*d as f64) / 10f64.powi(position);
                position += 1;
            }
            assert!((value - 123.45).abs() < 1e-9);
        },
        _ => unreachable!(),
    }
}

#[test]
fn string_escape_newline() {
    // "a\nb" with a literal backslash-n becomes an actual newline
    assert_eq!(root_children("\"a\\nb\""), vec![strlit("a\nb")]);
}

#[test]
fn string_escape_quote() {
    // "a\"b" keeps the quote inside the literal
    assert_eq!(root_children("\"a\\\"b\""), vec![strlit("a\"b")]);
}

#[test]
fn string_unknown_escape_passes_through() {
    assert_eq!(root_children("\"a\\qb\""), vec![strlit("aqb")]);
}

#[test]
fn string_escape_tab_return_backslash() {
    assert_eq!(root_children("\"\\t\\r\\\\\""), vec![strlit("\t\r\\")]);
}

#[test]
fn unterminated_string_is_not_attached() {
    let a = tokenize(&chars("\"abc"));
    match a {
        ActiveAtom::StringLiteral(s) => {
            assert_eq!(s.value, chars("abc"));
            assert!(!s.escaped);
            assert_eq!(s.parent.children, vec![]);
        },
        _ => panic!("expected a string literal to be active"),
    }
}

#[test]
fn operator_terminal_is_consumed() {
    assert_eq!(root_children("+-;"), vec![oper("+-;")]);
}

#[test]
fn operator_in_progress_is_not_attached() {
    let a = tokenize(&chars("+-"));
    match a {
        ActiveAtom::Operator(op) => {
            assert_eq!(op.value, chars("+-"));
            assert_eq!(op.parent.children, vec![]);
        },
        _ => panic!("expected an operator to be active"),
    }
}

#[test]
fn mismatched_bracket_is_a_no_op() {
    assert_eq!(root_children("{]}"), vec![group(GroupType::Curly, vec![])]);
}

#[test]
fn unclosed_group_is_not_attached() {
    let a = tokenize(&chars("{a "));
    match a {
        ActiveAtom::Group(g) => {
            assert!(matches!(g.group_type, GroupType::Curly));
            assert_eq!(g.children, vec![ident("a")]);
            let p = g.parent.expect("a curly group has a parent");
            assert!(matches!(p.group_type, GroupType::Root));
            assert_eq!(p.children, vec![]);
        },
        _ => panic!("expected the open curly group to be active"),
    }
}

#[test]
fn integer_accumulates_digits() {
    assert_eq!(
        root_children("12 034 "),
        vec![Node::IntegerLiteral { value: 12 }, Node::IntegerLiteral { value: 34 }],
    );
}

#[test]
fn integer_overflow_wraps() {
    // one past i64::MAX wraps to i64::MIN, with no detection
    assert_eq!(
        root_children("9223372036854775808 "),
        vec![Node::IntegerLiteral { value: i64::MIN }],
    );
}

#[test]
fn second_dot_ends_the_number_and_starts_an_operator() {
    // the dot is an operator symbol, so the redispatched second dot opens
    // an operator token
    assert_eq!(
        root_children("1.2.3 "),
        vec![
            Node::NumericLiteral { base: 1, frac: vec![2] },
            oper("."),
            Node::IntegerLiteral { value: 3 },
        ],
    );
}

#[test]
fn number_closed_by_bracket() {
    assert_eq!(
        root_children("(7.5)"),
        vec![group(GroupType::Curved, vec![Node::NumericLiteral { base: 7, frac: vec![5] }])],
    );
}

#[test]
fn operator_alphabet_membership() {
    for c in "#@!%^&*-_+><=/\\~`,.|?:".chars() {
        assert!(is_operator_symbol(c));
    }
    for c in ";\"{}()[] a0".chars() {
        assert!(!is_operator_symbol(c));
    }
}

#[test]
fn mixed_operator_run_is_one_token() {
    assert_eq!(root_children("<=> "), vec![oper("<=>")]);
}

#[test]
fn whitespace_and_unknown_punctuation_are_dropped() {
    assert_eq!(root_children("a $ b\t\n"), vec![ident("a"), ident("b")]);
}

#[test]
fn atom_names() {
    let root = Group::new(GroupType::Root, None);
    let boxed = |k: GroupType| Box::new(Group::new(k, None));
    assert_eq!(Group::new(GroupType::Curly, None).name(), "Group Curly");
    assert_eq!(Group::new(GroupType::Square, None).name(), "Group Square");
    assert_eq!(Group::new(GroupType::Curved, None).name(), "Group Curved");
    assert_eq!(root.name(), "Group Root");
    assert_eq!(Identifier::new(boxed(GroupType::Root)).name(), "Identifier");
    assert_eq!(StringLiteral::new(boxed(GroupType::Root)).name(), "String Literal");
    assert_eq!(IntegerLiteral::new(boxed(GroupType::Root)).name(), "Integer Literal");
    assert_eq!(NumericLiteral::new(boxed(GroupType::Root), 5).name(), "Numeric Literal");
    assert_eq!(Operator::new(boxed(GroupType::Root)).name(), "Operator");
}

#[test]
fn read_default_ignores_unrecognized() {
    let root = Group::new(GroupType::Root, None);
    match root.read_default(' ') {
        ActiveAtom::Group(g) => {
            assert!(matches!(g.group_type, GroupType::Root));
            assert_eq!(g.children, vec![]);
        },
        _ => panic!("whitespace must leave the group active"),
    }
}

#[test]
fn read_char_starts_a_string() {
    let root = Group::new(GroupType::Root, None);
    match root.read_char('"') {
        ActiveAtom::StringLiteral(s) => {
            assert_eq!(s.value, vec![]);
            assert!(!s.escaped);
        },
        _ => panic!("a quote must start a string literal"),
    }
}

#[test]
fn deep_nesting_and_leaves() {
    assert_eq!(
        root_children("x{y[z(\"w\")]}"),
        vec![
            ident("x"),
            group(
                GroupType::Curly,
                vec![
                    ident("y"),
                    group(
                        GroupType::Square,
                        vec![ident("z"), group(GroupType::Curved, vec![strlit("w")])],
                    ),
                ],
            ),
        ],
    );
}
