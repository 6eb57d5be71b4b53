//! Diagnostic classification and printing. Every parse error falls into one
//! of two fixed categories, chosen by the offending token's nature and never
//! by where the parse failed: lexical malformations are "type A", every
//! other shape "type B". Each error prints as one fixed-format line.

use vstd::prelude::*;
use vstd::string::StringExecFns;
use crate::lexer::Location;
use crate::token::Token;
use crate::token::debug_str;
use crate::token::is_malformed;
use crate::textfmt::dec_str;
use crate::textfmt::usize_to_string;

verus! {

/// A structured parse error: the shapes the grammar engine delivers, and
/// the only thing this layer needs from it. The internal expected-token set
/// a grammar engine may carry is deliberately not represented: it never
/// reaches the user-facing message.
pub enum ParseError {
    /// A token the grammar cannot accept in its current state.
    InvalidToken { location: Location },
    /// Input ended while a construct was incomplete.
    UnrecognizedEof { location: Location },
    /// An offending token no rule allows; malformed-literal and
    /// unknown-character tokens surface through this shape.
    UnrecognizedToken { location: Location, token: Token, end: Location },
    /// A token left over after an otherwise complete parse.
    ExtraToken { location: Location, token: Token, end: Location },
}

/// Whether the diagnostic for `e` is lexical ("type A"): exactly when the
/// offending item is an unknown character, an illegal octal literal or an
/// illegal hexadecimal literal.
pub open spec fn is_type_a(e: ParseError) -> bool {
    e matches ParseError::UnrecognizedToken { token, .. } && is_malformed(token)
}

/// The diagnostic line for an error, character for character.
pub open spec fn error_line(e: ParseError) -> Seq<char> {
    match e {
        ParseError::InvalidToken { location } => "Error type B at Line "@ + dec_str(
            location.line as nat,
        ) + ": Invalid Token."@,
        ParseError::UnrecognizedEof { location } => "Error type B at Line "@ + dec_str(
            location.line as nat,
        ) + ": Unrecognized EOF."@,
        ParseError::UnrecognizedToken { location, token, end } => {
            match token {
                Token::UnknownChar(c) => "Error type A at Line "@ + dec_str(location.line as nat)
                    + ": Mysterious character '"@ + seq![c] + "'."@,
                Token::IllegalOct(s) => "Error type A at Line "@ + dec_str(location.line as nat)
                    + ": Illegal octal number '"@ + s@ + "'."@,
                Token::IllegalHex(s) => "Error type A at Line "@ + dec_str(location.line as nat)
                    + ": Illegal hexadecimal number '"@ + s@ + "'."@,
                _ => "Error type B at Line "@ + dec_str(location.line as nat)
                    + ": Unexpected token "@ + debug_str(token) + "."@,
            }
        },
        ParseError::ExtraToken { location, token, end } => "Error type B at Line "@ + dec_str(
            location.line as nat,
        ) + ": Extra token "@ + debug_str(token) + "."@,
    }
}

/// Exactly two categories: a diagnostic line opens with `Error type A` for
/// a lexical malformation and with `Error type B` for every other shape,
/// whatever position the parse had reached.
pub proof fn lemma_classification(e: ParseError)
    ensures
        is_type_a(e) ==> error_line(e).subrange(0, 21) == "Error type A at Line "@,
        !is_type_a(e) ==> error_line(e).subrange(0, 21) == "Error type B at Line "@,
{
    reveal_strlit("Error type A at Line ");
    reveal_strlit("Error type B at Line ");
    match e {
        ParseError::InvalidToken { location } => {
            assert(error_line(e).subrange(0, 21) =~= "Error type B at Line "@);
        },
        ParseError::UnrecognizedEof { location } => {
            assert(error_line(e).subrange(0, 21) =~= "Error type B at Line "@);
        },
        ParseError::UnrecognizedToken { location, token, end } => {
            match token {
                Token::UnknownChar(_) => {
                    assert(error_line(e).subrange(0, 21) =~= "Error type A at Line "@);
                },
                Token::IllegalOct(_) => {
                    assert(error_line(e).subrange(0, 21) =~= "Error type A at Line "@);
                },
                Token::IllegalHex(_) => {
                    assert(error_line(e).subrange(0, 21) =~= "Error type A at Line "@);
                },
                _ => {
                    assert(error_line(e).subrange(0, 21) =~= "Error type B at Line "@);
                },
            }
        },
        ParseError::ExtraToken { location, token, end } => {
            assert(error_line(e).subrange(0, 21) =~= "Error type B at Line "@);
        },
    }
}

/// The diagnostic line for `e`, exactly as printed: one line per error, in
/// discovery order, the caller printing one call's result per line.
pub fn format_error(e: &ParseError) -> (r: String)
    ensures
        r@ == error_line(*e),
{
    match e {
        ParseError::InvalidToken { location } => {
            let mut r = String::from_str("Error type B at Line ");
            let d = usize_to_string(location.line);
            r.append(d.as_str());
            r.append(": Invalid Token.");
            r
        },
        ParseError::UnrecognizedEof { location } => {
            let mut r = String::from_str("Error type B at Line ");
            let d = usize_to_string(location.line);
            r.append(d.as_str());
            r.append(": Unrecognized EOF.");
            r
        },
        ParseError::UnrecognizedToken { location, token, end: _ } => {
            match token {
                Token::UnknownChar(c) => {
                    let mut r = String::from_str("Error type A at Line ");
                    let d = usize_to_string(location.line);
                    r.append(d.as_str());
                    r.append(": Mysterious character '");
                    r.push(*c);
                    r.append("'.");
                    proof {
                        assert(r@ =~= error_line(*e));
                    }
                    r
                },
                Token::IllegalOct(s) => {
                    let mut r = String::from_str("Error type A at Line ");
                    let d = usize_to_string(location.line);
                    r.append(d.as_str());
                    r.append(": Illegal octal number '");
                    r.append(s.as_str());
                    r.append("'.");
                    r
                },
                Token::IllegalHex(s) => {
                    let mut r = String::from_str("Error type A at Line ");
                    let d = usize_to_string(location.line);
                    r.append(d.as_str());
                    r.append(": Illegal hexadecimal number '");
                    r.append(s.as_str());
                    r.append("'.");
                    r
                },
                _ => {
                    let mut r = String::from_str("Error type B at Line ");
                    let d = usize_to_string(location.line);
                    r.append(d.as_str());
                    r.append(": Unexpected token ");
                    let t = token.debug_string();
                    r.append(t.as_str());
                    r.append(".");
                    r
                },
            }
        },
        ParseError::ExtraToken { location, token, end: _ } => {
            let mut r = String::from_str("Error type B at Line ");
            let d = usize_to_string(location.line);
            r.append(d.as_str());
            r.append(": Extra token ");
            let t = token.debug_string();
            r.append(t.as_str());
            r.append(".");
            r
        },
    }
}

} // verus!
