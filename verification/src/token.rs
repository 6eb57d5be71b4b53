//! The closed set of lexical categories. Malformed input is carried as
//! first-class token values (`UnknownChar`, `IllegalOct`, `IllegalHex`) so
//! that scanning never fails.

use vstd::prelude::*;
use vstd::string::StringExecFns;
use crate::textfmt::i32_str;
use crate::textfmt::i32_to_string;

verus! {

/// A lexical token. Fixed-spelling punctuation and keywords carry no data;
/// identifiers, type names and literals carry their text or value. A float
/// literal is carried as its lexeme, exactly as it stood in the source.
#[derive(Clone, Debug, PartialEq)]
pub enum Token {
    SEMI,
    COMMA,
    ASSIGNOP,
    RELOP(String),
    PLUS,
    MINUS,
    STAR,
    DIV,
    AND,
    OR,
    DOT,
    NOT,
    TYPE(String),
    LP,
    RP,
    LB,
    RB,
    LC,
    RC,
    STRUCT,
    RETURN,
    IF,
    ELSE,
    WHILE,
    ID(String),
    INT(i32),
    FLOAT(String),
    EOI,
    UnknownChar(char),
    IllegalOct(String),
    IllegalHex(String),
}

/// The mathematical shape of a token: text payloads as character sequences,
/// the integer payload as an unbounded integer.
pub enum TokenV {
    Semi,
    Comma,
    Assign,
    Relop(Seq<char>),
    Plus,
    Minus,
    Star,
    Div,
    And,
    Or,
    Dot,
    Not,
    Type(Seq<char>),
    Lp,
    Rp,
    Lb,
    Rb,
    Lc,
    Rc,
    Struct,
    Return,
    If,
    Else,
    While,
    Id(Seq<char>),
    Int(int),
    Float(Seq<char>),
    Eoi,
    Unknown(char),
    IllegalOct(Seq<char>),
    IllegalHex(Seq<char>),
}

impl View for Token {
    type V = TokenV;

    open spec fn view(&self) -> TokenV {
        match self {
            Token::SEMI => TokenV::Semi,
            Token::COMMA => TokenV::Comma,
            Token::ASSIGNOP => TokenV::Assign,
            Token::RELOP(s) => TokenV::Relop(s@),
            Token::PLUS => TokenV::Plus,
            Token::MINUS => TokenV::Minus,
            Token::STAR => TokenV::Star,
            Token::DIV => TokenV::Div,
            Token::AND => TokenV::And,
            Token::OR => TokenV::Or,
            Token::DOT => TokenV::Dot,
            Token::NOT => TokenV::Not,
            Token::TYPE(s) => TokenV::Type(s@),
            Token::LP => TokenV::Lp,
            Token::RP => TokenV::Rp,
            Token::LB => TokenV::Lb,
            Token::RB => TokenV::Rb,
            Token::LC => TokenV::Lc,
            Token::RC => TokenV::Rc,
            Token::STRUCT => TokenV::Struct,
            Token::RETURN => TokenV::Return,
            Token::IF => TokenV::If,
            Token::ELSE => TokenV::Else,
            Token::WHILE => TokenV::While,
            Token::ID(s) => TokenV::Id(s@),
            Token::INT(v) => TokenV::Int(*v as int),
            Token::FLOAT(s) => TokenV::Float(s@),
            Token::EOI => TokenV::Eoi,
            Token::UnknownChar(c) => TokenV::Unknown(*c),
            Token::IllegalOct(s) => TokenV::IllegalOct(s@),
            Token::IllegalHex(s) => TokenV::IllegalHex(s@),
        }
    }
}

/// The symbolic rendering of a token: the variant name, with any payload in
/// parentheses (text payloads quoted, the character payload in single
/// quotes). Used for leaves without a dedicated rendering and inside
/// syntactic diagnostics.
pub open spec fn debug_str(t: Token) -> Seq<char> {
    match t {
        Token::SEMI => "SEMI"@,
        Token::COMMA => "COMMA"@,
        Token::ASSIGNOP => "ASSIGNOP"@,
        Token::RELOP(s) => "RELOP(\""@ + s@ + "\")"@,
        Token::PLUS => "PLUS"@,
        Token::MINUS => "MINUS"@,
        Token::STAR => "STAR"@,
        Token::DIV => "DIV"@,
        Token::AND => "AND"@,
        Token::OR => "OR"@,
        Token::DOT => "DOT"@,
        Token::NOT => "NOT"@,
        Token::TYPE(s) => "TYPE(\""@ + s@ + "\")"@,
        Token::LP => "LP"@,
        Token::RP => "RP"@,
        Token::LB => "LB"@,
        Token::RB => "RB"@,
        Token::LC => "LC"@,
        Token::RC => "RC"@,
        Token::STRUCT => "STRUCT"@,
        Token::RETURN => "RETURN"@,
        Token::IF => "IF"@,
        Token::ELSE => "ELSE"@,
        Token::WHILE => "WHILE"@,
        Token::ID(s) => "ID(\""@ + s@ + "\")"@,
        Token::INT(v) => "INT("@ + i32_str(v) + ")"@,
        Token::FLOAT(s) => "FLOAT("@ + s@ + ")"@,
        Token::EOI => "EOI"@,
        Token::UnknownChar(c) => "UnknownChar('"@ + seq![c] + "')"@,
        Token::IllegalOct(s) => "IllegalOct(\""@ + s@ + "\")"@,
        Token::IllegalHex(s) => "IllegalHex(\""@ + s@ + "\")"@,
    }
}

/// The concrete spelling of a token: fixed-spelling tokens render as their
/// source text, a relational operator as its operator text, everything else
/// as its symbolic rendering.
pub open spec fn display_str(t: Token) -> Seq<char> {
    match t {
        Token::SEMI => ";"@,
        Token::COMMA => ","@,
        Token::ASSIGNOP => "="@,
        Token::RELOP(s) => s@,
        Token::PLUS => "+"@,
        Token::MINUS => "-"@,
        Token::STAR => "*"@,
        Token::DIV => "/"@,
        Token::AND => "&&"@,
        Token::OR => "||"@,
        Token::DOT => "."@,
        Token::NOT => "!"@,
        Token::LP => "("@,
        Token::RP => ")"@,
        Token::LB => "["@,
        Token::RB => "]"@,
        Token::LC => "{"@,
        Token::RC => "}"@,
        Token::STRUCT => "struct"@,
        Token::RETURN => "return"@,
        Token::IF => "if"@,
        Token::ELSE => "else"@,
        Token::WHILE => "while"@,
        _ => debug_str(t),
    }
}

/// Whether a token is a lexical malformation, the mark that sends a
/// diagnostic into the lexical category rather than the syntactic one.
pub open spec fn is_malformed(t: Token) -> bool {
    t matches Token::UnknownChar(_) || t matches Token::IllegalOct(_) || t matches Token::IllegalHex(
        _,
    )
}

impl Token {
    /// The symbolic rendering, as text.
    pub fn debug_string(&self) -> (r: String)
        ensures
            r@ == debug_str(*self),
    {
        match self {
            Token::SEMI => String::from_str("SEMI"),
            Token::COMMA => String::from_str("COMMA"),
            Token::ASSIGNOP => String::from_str("ASSIGNOP"),
            Token::RELOP(s) => {
                let mut r = String::from_str("RELOP(\"");
                r.append(s.as_str());
                r.append("\")");
                r
            },
            Token::PLUS => String::from_str("PLUS"),
            Token::MINUS => String::from_str("MINUS"),
            Token::STAR => String::from_str("STAR"),
            Token::DIV => String::from_str("DIV"),
            Token::AND => String::from_str("AND"),
            Token::OR => String::from_str("OR"),
            Token::DOT => String::from_str("DOT"),
            Token::NOT => String::from_str("NOT"),
            Token::TYPE(s) => {
                let mut r = String::from_str("TYPE(\"");
                r.append(s.as_str());
                r.append("\")");
                r
            },
            Token::LP => String::from_str("LP"),
            Token::RP => String::from_str("RP"),
            Token::LB => String::from_str("LB"),
            Token::RB => String::from_str("RB"),
            Token::LC => String::from_str("LC"),
            Token::RC => String::from_str("RC"),
            Token::STRUCT => String::from_str("STRUCT"),
            Token::RETURN => String::from_str("RETURN"),
            Token::IF => String::from_str("IF"),
            Token::ELSE => String::from_str("ELSE"),
            Token::WHILE => String::from_str("WHILE"),
            Token::ID(s) => {
                let mut r = String::from_str("ID(\"");
                r.append(s.as_str());
                r.append("\")");
                r
            },
            Token::INT(v) => {
                let mut r = String::from_str("INT(");
                let digits = i32_to_string(*v);
                r.append(digits.as_str());
                r.append(")");
                r
            },
            Token::FLOAT(s) => {
                let mut r = String::from_str("FLOAT(");
                r.append(s.as_str());
                r.append(")");
                r
            },
            Token::EOI => String::from_str("EOI"),
            Token::UnknownChar(c) => {
                let mut r = String::from_str("UnknownChar('");
                r.push(*c);
                r.append("')");
                proof {
                    assert(("UnknownChar('"@.push(*c)) + "')"@ =~= "UnknownChar('"@ + seq![*c]
                        + "')"@);
                }
                r
            },
            Token::IllegalOct(s) => {
                let mut r = String::from_str("IllegalOct(\"");
                r.append(s.as_str());
                r.append("\")");
                r
            },
            Token::IllegalHex(s) => {
                let mut r = String::from_str("IllegalHex(\"");
                r.append(s.as_str());
                r.append("\")");
                r
            },
        }
    }

    /// The concrete spelling, as text.
    pub fn display_string(&self) -> (r: String)
        ensures
            r@ == display_str(*self),
    {
        match self {
            Token::SEMI => String::from_str(";"),
            Token::COMMA => String::from_str(","),
            Token::ASSIGNOP => String::from_str("="),
            Token::RELOP(s) => {
                let mut r = String::new();
                r.append(s.as_str());
                proof {
                    assert(Seq::<char>::empty() + s@ =~= s@);
                }
                r
            },
            Token::PLUS => String::from_str("+"),
            Token::MINUS => String::from_str("-"),
            Token::STAR => String::from_str("*"),
            Token::DIV => String::from_str("/"),
            Token::AND => String::from_str("&&"),
            Token::OR => String::from_str("||"),
            Token::DOT => String::from_str("."),
            Token::NOT => String::from_str("!"),
            Token::LP => String::from_str("("),
            Token::RP => String::from_str(")"),
            Token::LB => String::from_str("["),
            Token::RB => String::from_str("]"),
            Token::LC => String::from_str("{"),
            Token::RC => String::from_str("}"),
            Token::STRUCT => String::from_str("struct"),
            Token::RETURN => String::from_str("return"),
            Token::IF => String::from_str("if"),
            Token::ELSE => String::from_str("else"),
            Token::WHILE => String::from_str("while"),
            _ => self.debug_string(),
        }
    }

    /// Whether this token is a lexical malformation.
    pub fn malformed(&self) -> (r: bool)
        ensures
            r == is_malformed(*self),
    {
        match self {
            Token::UnknownChar(_) => true,
            Token::IllegalOct(_) => true,
            Token::IllegalHex(_) => true,
            _ => false,
        }
    }
}

} // verus!
