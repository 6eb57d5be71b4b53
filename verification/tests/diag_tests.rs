use cminus_front::diag::format_error;
use cminus_front::diag::ParseError;
use cminus_front::lexer::tokenize;
use cminus_front::lexer::Location;
use cminus_front::token::Token;

fn first_malformed(src: &str) -> ParseError {
    let items = tokenize(src.chars().collect());
    for (start, tok, end) in items {
        if tok.malformed() {
            return ParseError::UnrecognizedToken { location: start, token: tok, end };
        }
    }
    panic!("no malformed token in input");
}

#[test]
fn illegal_octal_reported_as_type_a() {
    let e = first_malformed("x = 019;");
    assert_eq!(
        format_error(&e),
        "Error type A at Line 1: Illegal octal number '019'."
    );
}

#[test]
fn illegal_hex_reported_as_type_a() {
    let e = first_malformed("x = 0xFG;");
    assert_eq!(
        format_error(&e),
        "Error type A at Line 1: Illegal hexadecimal number '0xFG'."
    );
}

#[test]
fn mysterious_character_reported_with_its_line() {
    let e = first_malformed("x = 1;\ny = @;");
    assert_eq!(
        format_error(&e),
        "Error type A at Line 2: Mysterious character '@'."
    );
}

#[test]
fn unrecognized_eof_reported_as_type_b() {
    let e = ParseError::UnrecognizedEof { location: Location::new(3, 1) };
    assert_eq!(format_error(&e), "Error type B at Line 3: Unrecognized EOF.");
}

#[test]
fn invalid_token_reported_as_type_b() {
    let e = ParseError::InvalidToken { location: Location::new(7, 2) };
    assert_eq!(format_error(&e), "Error type B at Line 7: Invalid Token.");
}

#[test]
fn unexpected_token_uses_symbolic_rendering() {
    let e = ParseError::UnrecognizedToken {
        location: Location::new(1, 5),
        token: Token::SEMI,
        end: Location::new(1, 6),
    };
    assert_eq!(format_error(&e), "Error type B at Line 1: Unexpected token SEMI.");
}

#[test]
fn extra_token_uses_symbolic_rendering() {
    let e = ParseError::ExtraToken {
        location: Location::new(2, 1),
        token: Token::ID("x".to_string()),
        end: Location::new(2, 2),
    };
    assert_eq!(
        format_error(&e),
        "Error type B at Line 2: Extra token ID(\"x\")."
    );
}

#[test]
fn classification_follows_token_nature_not_parse_site() {
    let lexical = ParseError::UnrecognizedToken {
        location: Location::new(4, 1),
        token: Token::IllegalHex("0xZZ".to_string()),
        end: Location::new(4, 5),
    };
    assert!(format_error(&lexical).starts_with("Error type A"));
    let syntactic = ParseError::UnrecognizedToken {
        location: Location::new(4, 1),
        token: Token::RETURN,
        end: Location::new(4, 7),
    };
    assert!(format_error(&syntactic).starts_with("Error type B"));
}
