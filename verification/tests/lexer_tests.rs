use cminus_front::lexer::tokenize;
use cminus_front::lexer::Lexer;
use cminus_front::lexer::Location;
use cminus_front::token::Token;

fn scan(src: &str) -> Vec<(Location, Token, Location)> {
    tokenize(src.chars().collect())
}

fn scan_tokens(src: &str) -> Vec<Token> {
    scan(src).into_iter().map(|(_, t, _)| t).collect()
}

#[test]
fn c_like_program_token_sequence() {
    let toks = scan_tokens("int main(){ return 0; }");
    assert_eq!(
        toks,
        vec![
            Token::TYPE("int".to_string()),
            Token::ID("main".to_string()),
            Token::LP,
            Token::RP,
            Token::LC,
            Token::RETURN,
            Token::INT(0),
            Token::SEMI,
            Token::RC,
            Token::EOI,
        ]
    );
}

#[test]
fn bare_zero_is_decimal_zero() {
    let toks = scan_tokens("0");
    assert_eq!(toks, vec![Token::INT(0), Token::EOI]);
}

#[test]
fn octal_literal_value() {
    let toks = scan_tokens("x = 010;");
    assert_eq!(
        toks,
        vec![
            Token::ID("x".to_string()),
            Token::ASSIGNOP,
            Token::INT(8),
            Token::SEMI,
            Token::EOI,
        ]
    );
}

#[test]
fn illegal_octal_literal() {
    let toks = scan_tokens("x = 019;");
    assert_eq!(
        toks,
        vec![
            Token::ID("x".to_string()),
            Token::ASSIGNOP,
            Token::IllegalOct("019".to_string()),
            Token::SEMI,
            Token::EOI,
        ]
    );
}

#[test]
fn illegal_hex_literal() {
    let toks = scan_tokens("x = 0xFG;");
    assert_eq!(
        toks,
        vec![
            Token::ID("x".to_string()),
            Token::ASSIGNOP,
            Token::IllegalHex("0xFG".to_string()),
            Token::SEMI,
            Token::EOI,
        ]
    );
}

#[test]
fn unknown_character_token() {
    let toks = scan_tokens("x = @;");
    assert_eq!(
        toks,
        vec![
            Token::ID("x".to_string()),
            Token::ASSIGNOP,
            Token::UnknownChar('@'),
            Token::SEMI,
            Token::EOI,
        ]
    );
}

#[test]
fn scanner_is_total_on_garbage() {
    let toks = scan_tokens("@#$`\u{7}\\ ~?");
    let eoi_count = toks.iter().filter(|t| matches!(t, Token::EOI)).count();
    assert_eq!(eoi_count, 1);
    assert_eq!(toks.last(), Some(&Token::EOI));
}

#[test]
fn empty_input_yields_only_eoi() {
    let items = scan("");
    assert_eq!(items.len(), 1);
    assert_eq!(items[0].1, Token::EOI);
    assert_eq!(items[0].0, Location::new(1, 1));
}

#[test]
fn keywords_and_type_names_before_identifiers() {
    let toks = scan_tokens("struct return if else while int float ifx intx");
    assert_eq!(
        toks,
        vec![
            Token::STRUCT,
            Token::RETURN,
            Token::IF,
            Token::ELSE,
            Token::WHILE,
            Token::TYPE("int".to_string()),
            Token::TYPE("float".to_string()),
            Token::ID("ifx".to_string()),
            Token::ID("intx".to_string()),
            Token::EOI,
        ]
    );
}

#[test]
fn relational_and_two_char_operators() {
    let toks = scan_tokens("a<=b >= c == d != e < f > g = h && i || j ! k");
    let relops: Vec<&Token> = toks
        .iter()
        .filter(|t| matches!(t, Token::RELOP(_)))
        .collect();
    assert_eq!(
        relops,
        vec![
            &Token::RELOP("<=".to_string()),
            &Token::RELOP(">=".to_string()),
            &Token::RELOP("==".to_string()),
            &Token::RELOP("!=".to_string()),
            &Token::RELOP("<".to_string()),
            &Token::RELOP(">".to_string()),
        ]
    );
    assert!(toks.contains(&Token::ASSIGNOP));
    assert!(toks.contains(&Token::AND));
    assert!(toks.contains(&Token::OR));
    assert!(toks.contains(&Token::NOT));
}

#[test]
fn lone_ampersand_is_unknown() {
    let toks = scan_tokens("a & b | c");
    assert_eq!(
        toks,
        vec![
            Token::ID("a".to_string()),
            Token::UnknownChar('&'),
            Token::ID("b".to_string()),
            Token::UnknownChar('|'),
            Token::ID("c".to_string()),
            Token::EOI,
        ]
    );
}

#[test]
fn punctuation_tokens() {
    let toks = scan_tokens(";,+-*/.()[]{}");
    assert_eq!(
        toks,
        vec![
            Token::SEMI,
            Token::COMMA,
            Token::PLUS,
            Token::MINUS,
            Token::STAR,
            Token::DIV,
            Token::DOT,
            Token::LP,
            Token::RP,
            Token::LB,
            Token::RB,
            Token::LC,
            Token::RC,
            Token::EOI,
        ]
    );
}

#[test]
fn float_literal_is_kept_as_lexeme() {
    let toks = scan_tokens("3.14 0.5 019.5");
    assert_eq!(
        toks,
        vec![
            Token::FLOAT("3.14".to_string()),
            Token::FLOAT("0.5".to_string()),
            Token::FLOAT("019.5".to_string()),
            Token::EOI,
        ]
    );
}

#[test]
fn hex_literal_values_and_bounds() {
    assert_eq!(
        scan_tokens("0xff"),
        vec![Token::INT(255), Token::EOI]
    );
    assert_eq!(
        scan_tokens("0X1A"),
        vec![Token::INT(26), Token::EOI]
    );
    assert_eq!(
        scan_tokens("0x7FFFFFFF"),
        vec![Token::INT(2147483647), Token::EOI]
    );
    assert_eq!(
        scan_tokens("0x80000000"),
        vec![Token::IllegalHex("0x80000000".to_string()), Token::EOI]
    );
}

#[test]
fn octal_literal_bounds() {
    assert_eq!(
        scan_tokens("017777777777"),
        vec![Token::INT(2147483647), Token::EOI]
    );
    assert_eq!(
        scan_tokens("020000000000"),
        vec![Token::IllegalOct("020000000000".to_string()), Token::EOI]
    );
}

#[test]
fn decimal_overflow_saturates() {
    assert_eq!(
        scan_tokens("2147483647"),
        vec![Token::INT(2147483647), Token::EOI]
    );
    assert_eq!(
        scan_tokens("99999999999999999999"),
        vec![Token::INT(2147483647), Token::EOI]
    );
}

#[test]
fn hex_prefix_without_digits_falls_back() {
    assert_eq!(
        scan_tokens("0x"),
        vec![Token::INT(0), Token::ID("x".to_string()), Token::EOI]
    );
}

#[test]
fn locations_track_lines_and_columns() {
    let items = scan("a\n  bb\n@");
    assert_eq!(items[0].0, Location::new(1, 1));
    assert_eq!(items[0].2, Location::new(1, 2));
    assert_eq!(items[1].1, Token::ID("bb".to_string()));
    assert_eq!(items[1].0, Location::new(2, 3));
    assert_eq!(items[1].2, Location::new(2, 5));
    assert_eq!(items[2].1, Token::UnknownChar('@'));
    assert_eq!(items[2].0, Location::new(3, 1));
}

#[test]
fn pull_based_scanner_yields_then_exhausts() {
    let mut lx = Lexer::parse("x;".chars().collect());
    let first = lx.next().expect("a token");
    assert_eq!(first.1, Token::ID("x".to_string()));
    assert_eq!(first.0, Location::new(1, 1));
    let second = lx.next().expect("a token");
    assert_eq!(second.1, Token::SEMI);
    let third = lx.next().expect("a token");
    assert_eq!(third.1, Token::EOI);
    assert!(lx.next().is_none());
    assert!(lx.next().is_none());
}

#[test]
fn token_display_and_debug_strings() {
    assert_eq!(Token::SEMI.display_string(), ";");
    assert_eq!(Token::LC.display_string(), "{");
    assert_eq!(Token::STRUCT.display_string(), "struct");
    assert_eq!(Token::RELOP("<=".to_string()).display_string(), "<=");
    assert_eq!(Token::INT(5).display_string(), "INT(5)");
    assert_eq!(Token::INT(-7).debug_string(), "INT(-7)");
    assert_eq!(Token::ID("x".to_string()).debug_string(), "ID(\"x\")");
    assert_eq!(Token::UnknownChar('@').debug_string(), "UnknownChar('@')");
    assert_eq!(Token::EOI.debug_string(), "EOI");
}
