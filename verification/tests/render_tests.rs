use cminus_front::ast::ASTNode;
use cminus_front::lexer::Location;
use cminus_front::render::render_ast;
use cminus_front::token::Token;

fn leaf_id(name: &str, line: usize, col: usize) -> ASTNode {
    ASTNode::ident(name, Location::new(line, col))
}

#[test]
fn renders_a_small_program_tree() {
    let type_leaf = ASTNode::typename("int".to_string(), Location::new(1, 1));
    let name_leaf = leaf_id("main", 1, 5);
    let ret_leaf = ASTNode::keyword(Token::RETURN, Location::new(1, 13));
    let zero_leaf = ASTNode::integer(0, Location::new(1, 20));
    let stmt = ASTNode::node("Stmt", vec![ret_leaf, zero_leaf]);
    let body = ASTNode::node("CompSt", vec![stmt]);
    let program = ASTNode::node("ExtDef", vec![type_leaf, name_leaf, body]);
    let text = render_ast(&program, 0);
    assert_eq!(
        text,
        "ExtDef (1)\n  TYPE: int\n  ID: main\n  CompSt (1)\n    Stmt (1)\n      RETURN\n      INT: 0\n"
    );
}

#[test]
fn interior_node_reports_first_leaf_line() {
    let a = leaf_id("a", 4, 2);
    let b = leaf_id("b", 5, 1);
    let inner = ASTNode::node("Exp", vec![a, b]);
    let outer = ASTNode::node("Stmt", vec![inner]);
    assert_eq!(outer.location, Location::new(4, 2));
    let text = render_ast(&outer, 0);
    assert!(text.starts_with("Stmt (4)\n  Exp (4)\n"));
}

#[test]
fn exp_wrapper_around_exp_child_is_collapsed() {
    let a = leaf_id("a", 1, 1);
    let b = leaf_id("b", 1, 3);
    let inner = ASTNode::node("Exp", vec![a, b]);
    let outer = ASTNode::node("Exp", vec![inner]);
    let text = render_ast(&outer, 0);
    assert_eq!(text, "Exp (1)\n  ID: a\n  ID: b\n");
}

#[test]
fn exp_wrapper_with_two_children_is_not_collapsed() {
    let a = leaf_id("a", 1, 1);
    let inner = ASTNode::node("Exp", vec![a]);
    let b = leaf_id("b", 1, 3);
    let outer = ASTNode::node("Exp", vec![inner, b]);
    let text = render_ast(&outer, 0);
    assert_eq!(text, "Exp (1)\n  Exp (1)\n    ID: a\n  ID: b\n");
}

#[test]
fn collapse_preserves_leaves_in_order() {
    let a = leaf_id("a", 1, 1);
    let b = leaf_id("b", 1, 3);
    let collapsed = {
        let inner = ASTNode::node("Exp", vec![a, b]);
        ASTNode::node("Exp", vec![inner])
    };
    let text = render_ast(&collapsed, 0);
    let leaf_lines: Vec<&str> = text
        .lines()
        .map(|l| l.trim_start())
        .filter(|l| l.starts_with("ID: "))
        .collect();
    assert_eq!(leaf_lines, vec!["ID: a", "ID: b"]);
}

#[test]
fn rendering_twice_is_byte_identical() {
    let a = leaf_id("left", 2, 1);
    let b = ASTNode::integer(42, Location::new(2, 8));
    let tree = ASTNode::node("Exp", vec![a, b]);
    let first = render_ast(&tree, 0);
    let second = render_ast(&tree, 0);
    assert_eq!(first, second);
}

#[test]
fn empty_placeholder_prints_nothing() {
    let text = render_ast(&ASTNode::empty(), 0);
    assert_eq!(text, "");
}

#[test]
fn float_leaf_prints_six_fraction_digits() {
    let short = ASTNode::float("3.14".to_string(), Location::new(1, 1));
    assert_eq!(render_ast(&short, 0), "FLOAT: 3.140000\n");
    let long = ASTNode::float("1.2345678".to_string(), Location::new(1, 1));
    assert_eq!(render_ast(&long, 0), "FLOAT: 1.234567\n");
    let exact = ASTNode::float("0.500000".to_string(), Location::new(1, 1));
    assert_eq!(render_ast(&exact, 0), "FLOAT: 0.500000\n");
}

#[test]
fn negative_integer_leaf() {
    let n = ASTNode::integer(-2147483648, Location::new(1, 1));
    assert_eq!(render_ast(&n, 0), "INT: -2147483648\n");
}

#[test]
fn relop_leaf_hides_operator_text() {
    let n = ASTNode::relop("<=".to_string(), Location::new(1, 1));
    assert_eq!(render_ast(&n, 0), "RELOP\n");
}

#[test]
fn other_leaf_kinds_print_symbolic_names() {
    let n = ASTNode::keyword(Token::SEMI, Location::new(1, 1));
    assert_eq!(render_ast(&n, 0), "SEMI\n");
    let w = ASTNode::keyword(Token::WHILE, Location::new(1, 1));
    assert_eq!(render_ast(&w, 0), "WHILE\n");
}

#[test]
fn starting_indent_is_respected() {
    let n = leaf_id("x", 1, 1);
    assert_eq!(render_ast(&n, 4), "    ID: x\n");
}
