//! The lexical scanner: a total, deterministic, single-pass tokenizer.
//! Malformed numeric literals and unknown characters become ordinary tokens,
//! so scanning never fails; every scan ends in exactly one `EOI` token.
//!
//! The reference meaning of the scanner is the spec function `tokens_from`,
//! which applies one fixed pattern table with maximal munch: keywords and
//! type names before identifiers, two-character operators before
//! one-character ones, and the `0x`/`0X` and leading-`0` numeric prefixes
//! before the plain decimal pattern.

use vstd::prelude::*;
use vstd::string::StringExecFns;
use crate::token::Token;
use crate::token::TokenV;

verus! {

/// A point in source text, 1-indexed; the 0/0 pair is a sentinel used only
/// by the placeholder empty syntax-tree node.
#[derive(Clone, Copy, Debug, PartialEq, Eq, Structural)]
pub struct Location {
    pub line: usize,
    pub column: usize,
}

impl Location {
    pub fn new(line: usize, column: usize) -> (l: Location)
        ensures
            l.line == line,
            l.column == column,
    {
        Location { line, column }
    }
}

impl Default for Location {
    fn default() -> (l: Location)
        ensures
            l.line == 0,
            l.column == 0,
    {
        Location { line: 0, column: 0 }
    }
}

/// A point in source text with unbounded coordinates, for specifications.
pub struct LocV {
    pub line: int,
    pub col: int,
}

/// One element of the scanned sequence: a token together with its start
/// (inclusive) and end (exclusive) source positions.
pub struct LexItem {
    pub start: LocV,
    pub token: TokenV,
    pub end: LocV,
}

pub open spec fn is_ws_char(c: char) -> bool {
    c == ' ' || c == '\t' || c == '\r' || c == '\n'
}

pub open spec fn is_digit_char(c: char) -> bool {
    48 <= c as u32 <= 57
}

pub open spec fn is_alpha_char(c: char) -> bool {
    (65 <= c as u32 <= 90) || (97 <= c as u32 <= 122)
}

pub open spec fn is_ident_start_char(c: char) -> bool {
    is_alpha_char(c) || c == '_'
}

pub open spec fn is_ident_char(c: char) -> bool {
    is_ident_start_char(c) || is_digit_char(c)
}

pub open spec fn is_alnum_char(c: char) -> bool {
    is_alpha_char(c) || is_digit_char(c)
}

/// The numeric value of a digit character in bases up to 16; 16 marks a
/// character that is a digit in no base handled here.
pub open spec fn digit_value(c: char) -> nat {
    let u = c as u32;
    if 48 <= u <= 57 {
        (u - 48) as nat
    } else if 65 <= u <= 70 {
        (u - 55) as nat
    } else if 97 <= u <= 102 {
        (u - 87) as nat
    } else {
        16
    }
}

/// The value of a digit string read in base `b`, most significant first.
pub open spec fn radix_val(s: Seq<char>, b: nat) -> nat
    decreases s.len(),
{
    if s.len() == 0 {
        0
    } else {
        radix_val(s.drop_last(), b) * b + digit_value(s.last())
    }
}

/// Whether every character of `s` is a valid digit in base `b`.
pub open spec fn all_radix_digits(s: Seq<char>, b: nat) -> bool {
    forall|k: int| 0 <= k < s.len() ==> digit_value(#[trigger] s[k]) < b
}

/// The end of the run of whitespace characters beginning at `i`.
pub open spec fn ws_end(s: Seq<char>, i: int) -> int
    decreases s.len() - i,
{
    if i < s.len() && is_ws_char(s[i]) {
        ws_end(s, i + 1)
    } else {
        i
    }
}

/// The end of the run of identifier characters beginning at `i`.
pub open spec fn ident_end(s: Seq<char>, i: int) -> int
    decreases s.len() - i,
{
    if i < s.len() && is_ident_char(s[i]) {
        ident_end(s, i + 1)
    } else {
        i
    }
}

/// The end of the run of decimal digits beginning at `i`.
pub open spec fn digit_end(s: Seq<char>, i: int) -> int
    decreases s.len() - i,
{
    if i < s.len() && is_digit_char(s[i]) {
        digit_end(s, i + 1)
    } else {
        i
    }
}

/// The end of the run of letters and digits beginning at `i`.
pub open spec fn alnum_end(s: Seq<char>, i: int) -> int
    decreases s.len() - i,
{
    if i < s.len() && is_alnum_char(s[i]) {
        alnum_end(s, i + 1)
    } else {
        i
    }
}

/// An identifier-shaped word is a keyword, a builtin type name, or a plain
/// identifier; the first two take priority over the identifier pattern.
pub open spec fn classify_word(w: Seq<char>) -> TokenV {
    if w == "struct"@ {
        TokenV::Struct
    } else if w == "return"@ {
        TokenV::Return
    } else if w == "if"@ {
        TokenV::If
    } else if w == "else"@ {
        TokenV::Else
    } else if w == "while"@ {
        TokenV::While
    } else if w == "int"@ || w == "float"@ {
        TokenV::Type(w)
    } else {
        TokenV::Id(w)
    }
}

/// The token scanned for a numeric literal beginning at `i`, and its end.
///
/// A literal beginning `0x`/`0X` is hexadecimal and swallows the whole
/// following alphanumeric run; a digit run followed by `.` and another digit
/// run is a float literal, kept as its lexeme; a leading `0` with further
/// digits is octal; anything else (a bare `0` included) is decimal. An
/// out-of-range digit or a value above `i32::MAX` makes a hexadecimal or
/// octal literal illegal, carried as its full lexeme. A decimal value
/// saturates at `i32::MAX`.
pub open spec fn scan_number(s: Seq<char>, i: int) -> (TokenV, int)
    recommends
        0 <= i < s.len(),
        is_digit_char(s[i]),
{
    let de = digit_end(s, i);
    if s[i] == '0' && i + 1 < s.len() && (s[i + 1] == 'x' || s[i + 1] == 'X') && i + 2 < s.len()
        && is_alnum_char(s[i + 2]) {
        let ae = alnum_end(s, i + 2);
        let digits = s.subrange(i + 2, ae);
        if all_radix_digits(digits, 16) && radix_val(digits, 16) <= 0x7fffffff {
            (TokenV::Int(radix_val(digits, 16) as int), ae)
        } else {
            (TokenV::IllegalHex(s.subrange(i, ae)), ae)
        }
    } else if de < s.len() && s[de] == '.' && de + 1 < s.len() && is_digit_char(s[de + 1]) {
        let fe = digit_end(s, de + 1);
        (TokenV::Float(s.subrange(i, fe)), fe)
    } else if s[i] == '0' && de > i + 1 {
        let digits = s.subrange(i + 1, de);
        if all_radix_digits(digits, 8) && radix_val(digits, 8) <= 0x7fffffff {
            (TokenV::Int(radix_val(digits, 8) as int), de)
        } else {
            (TokenV::IllegalOct(s.subrange(i, de)), de)
        }
    } else {
        let v = radix_val(s.subrange(i, de), 10);
        (TokenV::Int(if v <= 0x7fffffff { v as int } else { 0x7fffffff }), de)
    }
}

/// The token scanned at position `i` (not whitespace), and its end.
pub open spec fn scan_token(s: Seq<char>, i: int) -> (TokenV, int)
    recommends
        0 <= i < s.len(),
        !is_ws_char(s[i]),
{
    let c = s[i];
    if c == '&' {
        if i + 1 < s.len() && s[i + 1] == '&' {
            (TokenV::And, i + 2)
        } else {
            (TokenV::Unknown(c), i + 1)
        }
    } else if c == '|' {
        if i + 1 < s.len() && s[i + 1] == '|' {
            (TokenV::Or, i + 2)
        } else {
            (TokenV::Unknown(c), i + 1)
        }
    } else if c == '<' || c == '>' {
        if i + 1 < s.len() && s[i + 1] == '=' {
            (TokenV::Relop(seq![c, '=']), i + 2)
        } else {
            (TokenV::Relop(seq![c]), i + 1)
        }
    } else if c == '=' {
        if i + 1 < s.len() && s[i + 1] == '=' {
            (TokenV::Relop(seq!['=', '=']), i + 2)
        } else {
            (TokenV::Assign, i + 1)
        }
    } else if c == '!' {
        if i + 1 < s.len() && s[i + 1] == '=' {
            (TokenV::Relop(seq!['!', '=']), i + 2)
        } else {
            (TokenV::Not, i + 1)
        }
    } else if c == ';' {
        (TokenV::Semi, i + 1)
    } else if c == ',' {
        (TokenV::Comma, i + 1)
    } else if c == '+' {
        (TokenV::Plus, i + 1)
    } else if c == '-' {
        (TokenV::Minus, i + 1)
    } else if c == '*' {
        (TokenV::Star, i + 1)
    } else if c == '/' {
        (TokenV::Div, i + 1)
    } else if c == '.' {
        (TokenV::Dot, i + 1)
    } else if c == '(' {
        (TokenV::Lp, i + 1)
    } else if c == ')' {
        (TokenV::Rp, i + 1)
    } else if c == '[' {
        (TokenV::Lb, i + 1)
    } else if c == ']' {
        (TokenV::Rb, i + 1)
    } else if c == '{' {
        (TokenV::Lc, i + 1)
    } else if c == '}' {
        (TokenV::Rc, i + 1)
    } else if is_ident_start_char(c) {
        let e = ident_end(s, i);
        (classify_word(s.subrange(i, e)), e)
    } else if is_digit_char(c) {
        scan_number(s, i)
    } else {
        (TokenV::Unknown(c), i + 1)
    }
}

/// The line number at offset `i`: one more than the newlines before it.
pub open spec fn line_at(s: Seq<char>, i: int) -> int
    decreases i,
{
    if i <= 0 {
        1
    } else {
        line_at(s, i - 1) + if s[i - 1] == '\n' {
            1int
        } else {
            0int
        }
    }
}

/// The column number at offset `i`: one more than the characters since the
/// last newline before it.
pub open spec fn col_at(s: Seq<char>, i: int) -> int
    decreases i,
{
    if i <= 0 {
        1
    } else if s[i - 1] == '\n' {
        1
    } else {
        col_at(s, i - 1) + 1
    }
}

pub open spec fn loc_at(s: Seq<char>, i: int) -> LocV {
    LocV { line: line_at(s, i), col: col_at(s, i) }
}

/// The full scanned sequence from offset `i`: whitespace is skipped, one
/// token is taken by `scan_token`, and the rest follows; at the end of input
/// a final `EOI` item closes the sequence.
pub open spec fn tokens_from(s: Seq<char>, i: int) -> Seq<LexItem>
    recommends
        0 <= i <= s.len(),
    decreases s.len() - i,
        via tokens_from_decreases
{
    let j = ws_end(s, i);
    if j >= s.len() {
        seq![
            LexItem {
                start: loc_at(s, s.len() as int),
                token: TokenV::Eoi,
                end: loc_at(s, s.len() as int),
            },
        ]
    } else {
        let (t, e) = scan_token(s, j);
        seq![LexItem { start: loc_at(s, j), token: t, end: loc_at(s, e) }] + tokens_from(s, e)
    }
}

#[via_fn]
proof fn tokens_from_decreases(s: Seq<char>, i: int) {
    lemma_ws_end_bounds(s, i);
    let j = ws_end(s, i);
    if j < s.len() {
        lemma_scan_token_end(s, j);
    }
}

pub proof fn lemma_ws_end_bounds(s: Seq<char>, i: int)
    ensures
        i <= ws_end(s, i),
        i <= s.len() ==> ws_end(s, i) <= s.len(),
        forall|k: int| i <= k < ws_end(s, i) ==> is_ws_char(#[trigger] s[k]),
        ws_end(s, i) < s.len() ==> !is_ws_char(s[ws_end(s, i)]),
    decreases s.len() - i,
{
    if i < s.len() && is_ws_char(s[i]) {
        lemma_ws_end_bounds(s, i + 1);
    }
}

pub proof fn lemma_ident_end_bounds(s: Seq<char>, i: int)
    ensures
        i <= ident_end(s, i),
        i <= s.len() ==> ident_end(s, i) <= s.len(),
        forall|k: int| i <= k < ident_end(s, i) ==> is_ident_char(#[trigger] s[k]),
        ident_end(s, i) < s.len() ==> !is_ident_char(s[ident_end(s, i)]),
    decreases s.len() - i,
{
    if i < s.len() && is_ident_char(s[i]) {
        lemma_ident_end_bounds(s, i + 1);
    }
}

pub proof fn lemma_digit_end_bounds(s: Seq<char>, i: int)
    ensures
        i <= digit_end(s, i),
        i <= s.len() ==> digit_end(s, i) <= s.len(),
        forall|k: int| i <= k < digit_end(s, i) ==> is_digit_char(#[trigger] s[k]),
        digit_end(s, i) < s.len() ==> !is_digit_char(s[digit_end(s, i)]),
    decreases s.len() - i,
{
    if i < s.len() && is_digit_char(s[i]) {
        lemma_digit_end_bounds(s, i + 1);
    }
}

pub proof fn lemma_alnum_end_bounds(s: Seq<char>, i: int)
    ensures
        i <= alnum_end(s, i),
        i <= s.len() ==> alnum_end(s, i) <= s.len(),
        forall|k: int| i <= k < alnum_end(s, i) ==> is_alnum_char(#[trigger] s[k]),
        alnum_end(s, i) < s.len() ==> !is_alnum_char(s[alnum_end(s, i)]),
    decreases s.len() - i,
{
    if i < s.len() && is_alnum_char(s[i]) {
        lemma_alnum_end_bounds(s, i + 1);
    }
}

/// Every scanned token consumes at least one character and stays in bounds.
pub proof fn lemma_scan_token_end(s: Seq<char>, i: int)
    requires
        i < s.len(),
    ensures
        i < scan_token(s, i).1 <= s.len(),
{
    let c = s[i];
    if !(c == '&' || c == '|' || c == '<' || c == '>' || c == '=' || c == '!' || c == ';' || c
        == ',' || c == '+' || c == '-' || c == '*' || c == '/' || c == '.' || c == '(' || c == ')'
        || c == '[' || c == ']' || c == '{' || c == '}') {
        if is_ident_start_char(c) {
            lemma_ident_end_bounds(s, i);
            lemma_ident_end_bounds(s, i + 1);
        } else if is_digit_char(c) {
            lemma_digit_end_bounds(s, i);
            lemma_digit_end_bounds(s, i + 1);
            let de = digit_end(s, i);
            if s[i] == '0' && i + 1 < s.len() && (s[i + 1] == 'x' || s[i + 1] == 'X') && i + 2
                < s.len() && is_alnum_char(s[i + 2]) {
                lemma_alnum_end_bounds(s, i + 2);
                lemma_alnum_end_bounds(s, i + 3);
            } else if de < s.len() && s[de] == '.' && de + 1 < s.len() && is_digit_char(
                s[de + 1],
            ) {
                lemma_digit_end_bounds(s, de + 1);
                lemma_digit_end_bounds(s, de + 2);
            }
        }
    }
}

/// The scanner itself never produces the end-of-input token; only the final
/// item of the sequence carries it.
pub proof fn lemma_scan_token_not_eoi(s: Seq<char>, i: int)
    requires
        i < s.len(),
    ensures
        !(scan_token(s, i).0 is Eoi),
{
}

/// Totality of the scan: from any well-formed start offset the scanned
/// sequence is finite and non-empty, its last token is `EOI`, and no
/// earlier item carries `EOI`.
pub proof fn lemma_tokens_from_total(s: Seq<char>, i: int)
    requires
        0 <= i <= s.len(),
    ensures
        tokens_from(s, i).len() >= 1,
        tokens_from(s, i).last().token is Eoi,
        forall|k: int|
            0 <= k < tokens_from(s, i).len() - 1 ==> !(#[trigger] tokens_from(s, i)[k].token
                is Eoi),
    decreases s.len() - i,
{
    lemma_ws_end_bounds(s, i);
    let j = ws_end(s, i);
    if j < s.len() {
        lemma_scan_token_end(s, j);
        lemma_scan_token_not_eoi(s, j);
        let e = scan_token(s, j).1;
        lemma_tokens_from_total(s, e);
    }
}

/// Reading one more digit multiplies the value so far by the base and adds
/// the digit.
proof fn lemma_radix_val_snoc(s: Seq<char>, a: int, k: int, b: nat)
    requires
        0 <= a <= k < s.len(),
    ensures
        radix_val(s.subrange(a, k + 1), b) == radix_val(s.subrange(a, k), b) * b + digit_value(
            s[k],
        ),
{
    let t = s.subrange(a, k + 1);
    assert(t.drop_last() =~= s.subrange(a, k));
    assert(t.last() == s[k]);
}

fn ws_char(c: char) -> (r: bool)
    ensures
        r == is_ws_char(c),
{
    c == ' ' || c == '\t' || c == '\r' || c == '\n'
}

fn digit_char_test(c: char) -> (r: bool)
    ensures
        r == is_digit_char(c),
{
    let u = c as u32;
    48 <= u && u <= 57
}

fn ident_start_char(c: char) -> (r: bool)
    ensures
        r == is_ident_start_char(c),
{
    let u = c as u32;
    (65 <= u && u <= 90) || (97 <= u && u <= 122) || c == '_'
}

fn alnum_char(c: char) -> (r: bool)
    ensures
        r == is_alnum_char(c),
{
    let u = c as u32;
    (65 <= u && u <= 90) || (97 <= u && u <= 122) || (48 <= u && u <= 57)
}

fn digit_value_of(c: char) -> (d: u64)
    ensures
        d == digit_value(c),
{
    let u = c as u32;
    if 48 <= u && u <= 57 {
        (u - 48) as u64
    } else if 65 <= u && u <= 70 {
        (u - 55) as u64
    } else if 97 <= u && u <= 102 {
        (u - 87) as u64
    } else {
        16
    }
}

/// Copies the characters of `src[a..b]` into a fresh string.
fn substring(src: &Vec<char>, a: usize, b: usize) -> (r: String)
    requires
        a <= b <= src@.len(),
    ensures
        r@ == src@.subrange(a as int, b as int),
{
    let mut r = String::new();
    let mut k = a;
    proof {
        assert(Seq::<char>::empty() =~= src@.subrange(a as int, a as int));
    }
    while k < b
        invariant
            a <= k <= b <= src@.len(),
            r@ == src@.subrange(a as int, k as int),
        decreases b - k,
    {
        r.push(src[k]);
        proof {
            assert(src@.subrange(a as int, k as int).push(src@[k as int]) =~= src@.subrange(
                a as int,
                k + 1,
            ));
        }
        k = k + 1;
    }
    r
}

fn scan_ident_end(src: &Vec<char>, i: usize) -> (e: usize)
    requires
        i <= src@.len(),
    ensures
        e == ident_end(src@, i as int),
        i <= e <= src@.len(),
{
    let mut k = i;
    while k < src.len() && ident_start_char(src[k]) || k < src.len() && digit_char_test(src[k])
        invariant
            i <= k <= src@.len(),
            ident_end(src@, i as int) == ident_end(src@, k as int),
        decreases src@.len() - k,
    {
        k = k + 1;
    }
    k
}

fn scan_digit_end(src: &Vec<char>, i: usize) -> (e: usize)
    requires
        i <= src@.len(),
    ensures
        e == digit_end(src@, i as int),
        i <= e <= src@.len(),
{
    let mut k = i;
    while k < src.len() && digit_char_test(src[k])
        invariant
            i <= k <= src@.len(),
            digit_end(src@, i as int) == digit_end(src@, k as int),
        decreases src@.len() - k,
    {
        k = k + 1;
    }
    k
}

fn scan_alnum_end(src: &Vec<char>, i: usize) -> (e: usize)
    requires
        i <= src@.len(),
    ensures
        e == alnum_end(src@, i as int),
        i <= e <= src@.len(),
{
    let mut k = i;
    while k < src.len() && alnum_char(src[k])
        invariant
            i <= k <= src@.len(),
            alnum_end(src@, i as int) == alnum_end(src@, k as int),
        decreases src@.len() - k,
    {
        k = k + 1;
    }
    k
}

/// Reads the digit run `src[a..b]` in base `b16` (8 or 16), reporting
/// whether every digit was in range and, if so, whether the value stayed
/// within `i32::MAX`; `value` is meaningful only when both hold.
fn read_radix(src: &Vec<char>, a: usize, b: usize, base: u64) -> (r: (bool, bool, u64))
    requires
        a <= b <= src@.len(),
        base == 8 || base == 16,
    ensures
        r.0 == all_radix_digits(src@.subrange(a as int, b as int), base as nat),
        r.0 && !r.1 ==> r.2 == radix_val(src@.subrange(a as int, b as int), base as nat) && r.2
            <= 0x7fffffff,
        r.0 && r.1 ==> radix_val(src@.subrange(a as int, b as int), base as nat) > 0x7fffffff,
{
    let mut k = a;
    let mut ok = true;
    let mut over = false;
    let mut acc: u64 = 0;
    proof {
        assert(src@.subrange(a as int, a as int) =~= Seq::<char>::empty());
    }
    while k < b
        invariant
            a <= k <= b <= src@.len(),
            base == 8 || base == 16,
            ok == all_radix_digits(src@.subrange(a as int, k as int), base as nat),
            ok && !over ==> acc == radix_val(src@.subrange(a as int, k as int), base as nat) && acc
                <= 0x7fffffff,
            ok && over ==> radix_val(src@.subrange(a as int, k as int), base as nat) > 0x7fffffff,
        decreases b - k,
    {
        let ghost pre = src@.subrange(a as int, k as int);
        let ghost post = src@.subrange(a as int, k + 1);
        let d = digit_value_of(src[k]);
        proof {
            lemma_radix_val_snoc(src@, a as int, k as int, base as nat);
            assert(post[k - a] == src@[k as int]);
            assert(forall|q: int| 0 <= q < pre.len() ==> post[q] == #[trigger] pre[q]);
        }
        if d >= base {
            ok = false;
            proof {
                assert(digit_value(post[k - a]) >= base as nat);
            }
        } else if ok {
            proof {
                assert forall|q: int| 0 <= q < post.len() implies digit_value(#[trigger] post[q])
                    < base as nat by {
                    if q < pre.len() {
                        assert(digit_value(pre[q]) < base as nat);
                    } else {
                        assert(post[q] == src@[k as int]);
                    }
                }
            }
            if !over {
                let na = acc * base + d;
                if na > 0x7fffffff {
                    over = true;
                } else {
                    acc = na;
                }
            } else {
                proof {
                    let vp = radix_val(pre, base as nat);
                    assert(vp * (base as nat) >= vp) by (nonlinear_arith)
                        requires
                            vp >= 0,
                            base >= 1,
                    ;
                }
            }
        } else {
            proof {
                let q0 = choose|q: int|
                    0 <= q < pre.len() && !(digit_value(#[trigger] pre[q]) < base as nat);
                assert(post[q0] == pre[q0]);
                assert(!(digit_value(post[q0]) < base as nat));
            }
        }
        k = k + 1;
    }
    (ok, over, acc)
}

/// Reads the digit run `src[a..b]` in decimal, saturating at `i32::MAX`.
fn read_decimal(src: &Vec<char>, a: usize, b: usize) -> (r: u64)
    requires
        a <= b <= src@.len(),
        forall|k: int| a <= k < b ==> is_digit_char(#[trigger] src@[k]),
    ensures
        ({
            let v = radix_val(src@.subrange(a as int, b as int), 10);
            r == if v <= 0x7fffffff {
                v
            } else {
                0x7fffffff as nat
            }
        }),
{
    let mut k = a;
    let mut over = false;
    let mut acc: u64 = 0;
    proof {
        assert(src@.subrange(a as int, a as int) =~= Seq::<char>::empty());
    }
    while k < b
        invariant
            a <= k <= b <= src@.len(),
            forall|q: int| a <= q < b ==> is_digit_char(#[trigger] src@[q]),
            !over ==> acc == radix_val(src@.subrange(a as int, k as int), 10) && acc <= 0x7fffffff,
            over ==> radix_val(src@.subrange(a as int, k as int), 10) > 0x7fffffff,
        decreases b - k,
    {
        let ghost pre = src@.subrange(a as int, k as int);
        let d = digit_value_of(src[k]);
        proof {
            lemma_radix_val_snoc(src@, a as int, k as int, 10);
            assert(d < 10);
        }
        if !over {
            let na = acc * 10 + d;
            if na > 0x7fffffff {
                over = true;
            } else {
                acc = na;
            }
        } else {
            proof {
                let vp = radix_val(pre, 10);
                assert(vp * 10 >= vp) by (nonlinear_arith)
                    requires
                        vp >= 0,
                ;
            }
        }
        k = k + 1;
    }
    if over {
        0x7fffffff
    } else {
        acc
    }
}

/// Scans the numeric literal at `j`, mirroring `scan_number`.
fn scan_number_at(src: &Vec<char>, j: usize) -> (r: (Token, usize))
    requires
        j < src@.len(),
        src@.len() < usize::MAX,
        is_digit_char(src@[j as int]),
    ensures
        r.0@ == scan_number(src@, j as int).0,
        r.1 == scan_number(src@, j as int).1,
        j < r.1 <= src@.len(),
{
    let ghost s = src@;
    proof {
        lemma_digit_end_bounds(s, j as int);
        lemma_digit_end_bounds(s, j + 1);
    }
    let de = scan_digit_end(src, j);
    if src[j] == '0' && j + 1 < src.len() && (src[j + 1] == 'x' || src[j + 1] == 'X') && j + 2
        < src.len() && alnum_char(src[j + 2]) {
        proof {
            lemma_alnum_end_bounds(s, j + 2);
            lemma_alnum_end_bounds(s, j + 3);
        }
        let ae = scan_alnum_end(src, j + 2);
        let (ok, over, acc) = read_radix(src, j + 2, ae, 16);
        if ok && !over {
            (Token::INT(acc as i32), ae)
        } else {
            (Token::IllegalHex(substring(src, j, ae)), ae)
        }
    } else if de < src.len() && src[de] == '.' && de + 1 < src.len() && digit_char_test(
        src[de + 1],
    ) {
        proof {
            lemma_digit_end_bounds(s, de + 1);
            lemma_digit_end_bounds(s, de + 2);
        }
        let fe = scan_digit_end(src, de + 1);
        (Token::FLOAT(substring(src, j, fe)), fe)
    } else if src[j] == '0' && de > j + 1 {
        let (ok, over, acc) = read_radix(src, j + 1, de, 8);
        if ok && !over {
            (Token::INT(acc as i32), de)
        } else {
            (Token::IllegalOct(substring(src, j, de)), de)
        }
    } else {
        let v = read_decimal(src, j, de);
        (Token::INT(v as i32), de)
    }
}

/// Scans one token at `j` (not whitespace), mirroring `scan_token`.
fn scan_at(src: &Vec<char>, j: usize) -> (r: (Token, usize))
    requires
        j < src@.len(),
        src@.len() < usize::MAX,
    ensures
        r.0@ == scan_token(src@, j as int).0,
        r.1 == scan_token(src@, j as int).1,
        j < r.1 <= src@.len(),
{
    let ghost s = src@;
    let c = src[j];
    if c == '&' {
        if j + 1 < src.len() && src[j + 1] == '&' {
            (Token::AND, j + 2)
        } else {
            (Token::UnknownChar('&'), j + 1)
        }
    } else if c == '|' {
        if j + 1 < src.len() && src[j + 1] == '|' {
            (Token::OR, j + 2)
        } else {
            (Token::UnknownChar('|'), j + 1)
        }
    } else if c == '<' || c == '>' {
        if j + 1 < src.len() && src[j + 1] == '=' {
            let mut w = String::new();
            w.push(c);
            w.push('=');
            proof {
                assert(w@ =~= seq![c, '=']);
            }
            (Token::RELOP(w), j + 2)
        } else {
            let mut w = String::new();
            w.push(c);
            proof {
                assert(w@ =~= seq![c]);
            }
            (Token::RELOP(w), j + 1)
        }
    } else if c == '=' {
        if j + 1 < src.len() && src[j + 1] == '=' {
            let mut w = String::new();
            w.push('=');
            w.push('=');
            proof {
                assert(w@ =~= seq!['=', '=']);
            }
            (Token::RELOP(w), j + 2)
        } else {
            (Token::ASSIGNOP, j + 1)
        }
    } else if c == '!' {
        if j + 1 < src.len() && src[j + 1] == '=' {
            let mut w = String::new();
            w.push('!');
            w.push('=');
            proof {
                assert(w@ =~= seq!['!', '=']);
            }
            (Token::RELOP(w), j + 2)
        } else {
            (Token::NOT, j + 1)
        }
    } else if c == ';' {
        (Token::SEMI, j + 1)
    } else if c == ',' {
        (Token::COMMA, j + 1)
    } else if c == '+' {
        (Token::PLUS, j + 1)
    } else if c == '-' {
        (Token::MINUS, j + 1)
    } else if c == '*' {
        (Token::STAR, j + 1)
    } else if c == '/' {
        (Token::DIV, j + 1)
    } else if c == '.' {
        (Token::DOT, j + 1)
    } else if c == '(' {
        (Token::LP, j + 1)
    } else if c == ')' {
        (Token::RP, j + 1)
    } else if c == '[' {
        (Token::LB, j + 1)
    } else if c == ']' {
        (Token::RB, j + 1)
    } else if c == '{' {
        (Token::LC, j + 1)
    } else if c == '}' {
        (Token::RC, j + 1)
    } else if ident_start_char(c) {
        proof {
            lemma_ident_end_bounds(s, j as int);
            lemma_ident_end_bounds(s, j + 1);
        }
        let e = scan_ident_end(src, j);
        let w = substring(src, j, e);
        let tok = if w == String::from_str("struct") {
            Token::STRUCT
        } else if w == String::from_str("return") {
            Token::RETURN
        } else if w == String::from_str("if") {
            Token::IF
        } else if w == String::from_str("else") {
            Token::ELSE
        } else if w == String::from_str("while") {
            Token::WHILE
        } else if w == String::from_str("int") || w == String::from_str("float") {
            Token::TYPE(w)
        } else {
            Token::ID(w)
        };
        (tok, e)
    } else if digit_char_test(c) {
        scan_number_at(src, j)
    } else {
        (Token::UnknownChar(c), j + 1)
    }
}

/// Locations are monotonic with source order: the line number never
/// decreases from one offset to a later one.
pub proof fn lemma_line_monotone(s: Seq<char>, i: int, j: int)
    requires
        0 <= i <= j,
    ensures
        line_at(s, i) <= line_at(s, j),
    decreases j - i,
{
    if i < j {
        lemma_line_monotone(s, i, j - 1);
    }
}

/// Line and column numbers never exceed the offset by more than one.
pub proof fn lemma_loc_bounds(s: Seq<char>, i: int)
    requires
        0 <= i,
    ensures
        1 <= line_at(s, i) <= i + 1,
        1 <= col_at(s, i) <= i + 1,
    decreases i,
{
    if i > 0 {
        lemma_loc_bounds(s, i - 1);
    }
}

/// How one yielded triple realizes one specified item: the locations agree
/// coordinate by coordinate and the token has the specified shape.
pub open spec fn item_matches(t: (Location, Token, Location), it: LexItem) -> bool {
    &&& t.0.line as int == it.start.line
    &&& t.0.column as int == it.start.col
    &&& t.1@ == it.token
    &&& t.2.line as int == it.end.line
    &&& t.2.column as int == it.end.col
}

/// A pull-based scanner over one source text: each call of `next` yields the
/// next (start, token, end) triple, and `None` once after the final `EOI`.
/// It cannot be rewound; a fresh source needs a fresh scanner.
pub struct Lexer {
    src: Vec<char>,
    pos: usize,
    line: usize,
    col: usize,
    finished: bool,
}

impl Lexer {
    /// Internal consistency: the cursor is in bounds and the tracked line
    /// and column agree with the cursor position.
    pub closed spec fn wf(self) -> bool {
        &&& self.pos <= self.src@.len()
        &&& self.src@.len() < usize::MAX
        &&& self.line as int == line_at(self.src@, self.pos as int)
        &&& self.col as int == col_at(self.src@, self.pos as int)
    }

    /// The items this scanner has yet to yield.
    pub closed spec fn remaining(self) -> Seq<LexItem> {
        if self.finished {
            Seq::empty()
        } else {
            tokens_from(self.src@, self.pos as int)
        }
    }

    /// Starts scanning at the beginning of `source`.
    pub fn parse(source: Vec<char>) -> (l: Lexer)
        requires
            source@.len() < usize::MAX,
        ensures
            l.wf(),
            l.remaining() == tokens_from(source@, 0),
    {
        Lexer { src: source, pos: 0, line: 1, col: 1, finished: false }
    }

    /// Moves the cursor forward to `e`, keeping line and column in step.
    fn advance_to(&mut self, e: usize)
        requires
            old(self).wf(),
            old(self).pos <= e <= old(self).src@.len(),
        ensures
            final(self).wf(),
            final(self).src == old(self).src,
            final(self).finished == old(self).finished,
            final(self).pos == e,
    {
        while self.pos < e
            invariant
                self.wf(),
                self.pos <= e <= self.src@.len(),
                self.src == old(self).src,
                self.finished == old(self).finished,
            decreases e - self.pos,
        {
            proof {
                lemma_loc_bounds(self.src@, self.pos as int);
            }
            let c = self.src[self.pos];
            if c == '\n' {
                self.line = self.line + 1;
                self.col = 1;
            } else {
                self.col = self.col + 1;
            }
            self.pos = self.pos + 1;
        }
    }

    /// Yields the next triple, or `None` once the `EOI` triple has been
    /// yielded. The scanner is total: this never fails, whatever the input.
    pub fn next(&mut self) -> (r: Option<(Location, Token, Location)>)
        requires
            old(self).wf(),
        ensures
            final(self).wf(),
            old(self).remaining().len() == 0 ==> r is None && final(self).remaining()
                == Seq::<LexItem>::empty(),
            old(self).remaining().len() > 0 ==> r is Some && item_matches(
                r->0,
                old(self).remaining()[0],
            ) && final(self).remaining() == old(self).remaining().drop_first(),
    {
        let ghost s = self.src@;
        let ghost i0 = self.pos as int;
        if self.finished {
            return None;
        }
        proof {
            lemma_tokens_from_total(s, i0);
            lemma_ws_end_bounds(s, i0);
        }
        let mut j = self.pos;
        while j < self.src.len() && ws_char(self.src[j])
            invariant
                i0 <= j <= s.len(),
                s == self.src@,
                ws_end(s, i0) == ws_end(s, j as int),
            decreases s.len() - j,
        {
            j = j + 1;
        }
        assert(j == ws_end(s, i0));
        self.advance_to(j);
        if j == self.src.len() {
            self.finished = true;
            let loc = Location::new(self.line, self.col);
            proof {
                assert(old(self).remaining().drop_first() =~= Seq::<LexItem>::empty());
            }
            return Some((loc, Token::EOI, loc));
        }
        let (tok, e) = scan_at(&self.src, j);
        let start = Location::new(self.line, self.col);
        self.advance_to(e);
        let end_loc = Location::new(self.line, self.col);
        proof {
            let item = LexItem {
                start: loc_at(s, j as int),
                token: scan_token(s, j as int).0,
                end: loc_at(s, scan_token(s, j as int).1),
            };
            assert((seq![item] + tokens_from(s, e as int)).drop_first() =~= tokens_from(
                s,
                e as int,
            ));
        }
        Some((start, tok, end_loc))
    }
}

/// Scans a whole source text into a vector of triples realizing the
/// specified sequence `tokens_from(source, 0)`. The scan is total: it always
/// succeeds, the result ends in an `EOI` token, and no earlier element
/// carries `EOI`.
pub fn tokenize(source: Vec<char>) -> (r: Vec<(Location, Token, Location)>)
    requires
        source@.len() < usize::MAX,
    ensures
        r@.len() == tokens_from(source@, 0).len(),
        forall|k: int|
            0 <= k < r@.len() ==> item_matches(#[trigger] r@[k], tokens_from(source@, 0)[k]),
        r@.len() >= 1,
        r@[r@.len() - 1].1@ is Eoi,
        forall|k: int| 0 <= k < r@.len() - 1 ==> !((#[trigger] r@[k]).1@ is Eoi),
{
    let ghost total = tokens_from(source@, 0);
    proof {
        lemma_tokens_from_total(source@, 0);
        assert(total.skip(0) =~= total);
    }
    let mut lx = Lexer::parse(source);
    let mut out: Vec<(Location, Token, Location)> = Vec::new();
    loop
        invariant
            lx.wf(),
            out@.len() + lx.remaining().len() == total.len(),
            lx.remaining() == total.skip(out@.len() as int),
            forall|k: int| 0 <= k < out@.len() ==> item_matches(#[trigger] out@[k], total[k]),
        ensures
            lx.remaining().len() == 0,
            out@.len() == total.len(),
            forall|k: int| 0 <= k < out@.len() ==> item_matches(#[trigger] out@[k], total[k]),
        decreases lx.remaining().len(),
    {
        let nx = lx.next();
        match nx {
            Some(t) => {
                proof {
                    assert(total.skip(out@.len() as int).drop_first() =~= total.skip(
                        out@.len() as int + 1,
                    ));
                }
                out.push(t);
            },
            None => {
                break ;
            },
        }
    }
    out
}

} // verus!
