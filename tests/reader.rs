use lisp::parse;
use lisp::to_lispexpr;
use lisp::tokenize;
use lisp::AstNode;
use lisp::LispExpr::{Integer, List, Symbol};

fn strings(v: &[&str]) -> Vec<String> {
    v.iter().map(|s| s.to_string()).collect()
}

#[test]
fn parser_test() {
    let tokens = tokenize("(define (f x) (* x 2)) (f -3)");
    let tree = parse(&tokens);
    assert_eq!(
        tree.to_lispexpr(),
        List(vec![
            List(vec![
                Symbol("define".to_string()),
                List(vec![Symbol("f".to_string()), Symbol("x".to_string())]),
                List(vec![Symbol("*".to_string()), Symbol("x".to_string()), Integer(2)]),
            ]),
            List(vec![Symbol("f".to_string()), Integer(-3)]),
        ])
    );
}

#[test]
fn tokenize_splits_parentheses_and_whitespace() {
    assert_eq!(tokenize("(+ 1\t(car p))\n"), strings(&["(", "+", "1", "(", "car", "p", ")", ")"]));
    assert_eq!(tokenize(""), Vec::<String>::new());
    assert_eq!(tokenize("   "), Vec::<String>::new());
    assert_eq!(tokenize("abc"), strings(&["abc"]));
    assert_eq!(tokenize("a(b"), strings(&["a", "(", "b"]));
    assert_eq!(
        tokenize("a\u{A0}b\u{3000}c\u{85}d\u{2028}e\u{200A}f"),
        strings(&["a", "b", "c", "d", "e", "f"])
    );
}

#[test]
fn integer_tokens() {
    assert_eq!(to_lispexpr("42"), Integer(42));
    assert_eq!(to_lispexpr("+7"), Integer(7));
    assert_eq!(to_lispexpr("-0"), Integer(0));
    assert_eq!(to_lispexpr("007"), Integer(7));
    assert_eq!(to_lispexpr("9223372036854775807"), Integer(i64::MAX));
    assert_eq!(to_lispexpr("-9223372036854775808"), Integer(i64::MIN));
}

#[test]
fn symbol_tokens() {
    assert_eq!(to_lispexpr("9223372036854775808"), Symbol("9223372036854775808".to_string()));
    assert_eq!(to_lispexpr("-9223372036854775809"), Symbol("-9223372036854775809".to_string()));
    assert_eq!(to_lispexpr("-"), Symbol("-".to_string()));
    assert_eq!(to_lispexpr("+"), Symbol("+".to_string()));
    assert_eq!(to_lispexpr("12a"), Symbol("12a".to_string()));
    assert_eq!(to_lispexpr("eq?"), Symbol("eq?".to_string()));
}

#[test]
fn unclosed_groups_are_closed_at_the_end() {
    let tree = parse(&tokenize("(+ 1 (* 2 3"));
    assert_eq!(
        tree.to_lispexpr(),
        List(vec![List(vec![
            Symbol("+".to_string()),
            Integer(1),
            List(vec![Symbol("*".to_string()), Integer(2), Integer(3)]),
        ])])
    );
}

#[test]
fn stray_close_ends_the_input() {
    let tree = parse(&tokenize("1 ) 2"));
    assert_eq!(tree.to_lispexpr(), List(vec![Integer(1)]));
}

#[test]
fn push_adds_to_a_group_only() {
    let mut node = AstNode::Node(Vec::new());
    node.push(AstNode::Leaf(Integer(1)));
    assert_eq!(node.to_lispexpr(), List(vec![Integer(1)]));
    let mut leaf = AstNode::Leaf(Integer(2));
    leaf.push(AstNode::Leaf(Integer(3)));
    assert_eq!(leaf.to_lispexpr(), Integer(2));
}

#[test]
fn groups_become_nodes_and_tokens_leaves() {
    let tree = parse(&tokenize("(+ 3 5)"));
    match tree {
        AstNode::Node(top) => {
            assert_eq!(top.len(), 1);
            match &top[0] {
                AstNode::Node(items) => {
                    assert_eq!(items.len(), 3);
                    assert!(matches!(&items[0], AstNode::Leaf(Symbol(s)) if s == "+"));
                    assert!(matches!(&items[1], AstNode::Leaf(Integer(3))));
                    assert!(matches!(&items[2], AstNode::Leaf(Integer(5))));
                }
                AstNode::Leaf(_) => panic!("a group became a leaf"),
            }
        }
        AstNode::Leaf(_) => panic!("the program became a leaf"),
    }
}
