//! The tree printer: pre-order, two more spaces of indent per level, one
//! line per printed node. Leaves render by category; an interior node
//! renders its name and line number; an `Exp` wrapper with a single `Exp`
//! child is collapsed, printing the child at the parent's indent with no
//! wrapper line; the placeholder node prints nothing.

use vstd::prelude::*;
use vstd::string::StringExecFns;
use vstd::string::StrSliceExecFns;
use crate::ast::ASTNode;
use crate::ast::ASTNodeIdent;
use crate::ast::well_formed;
use crate::ast::height;
use crate::ast::lemma_child_height;
use crate::token::Token;
use crate::token::debug_str;
use crate::textfmt::spaces;
use crate::textfmt::dec_str;
use crate::textfmt::i32_str;
use crate::textfmt::push_spaces;
use crate::textfmt::usize_to_string;
use crate::textfmt::i32_to_string;

verus! {

/// A run of `n` zero digits, used to pad float fractions.
pub open spec fn zeros(n: nat) -> Seq<char>
    decreases n,
{
    if n == 0 {
        Seq::empty()
    } else {
        zeros((n - 1) as nat).push('0')
    }
}

/// The offset of the first `.` at or after `i`, or the length if none.
pub open spec fn first_dot(s: Seq<char>, i: int) -> int
    decreases s.len() - i,
{
    if i >= s.len() {
        s.len() as int
    } else if s[i] == '.' {
        i
    } else {
        first_dot(s, i + 1)
    }
}

/// A fraction reshaped to exactly six digits: cut at six, or padded with
/// zeros.
pub open spec fn pad6(f: Seq<char>) -> Seq<char> {
    if f.len() >= 6 {
        f.subrange(0, 6)
    } else {
        f + zeros((6 - f.len()) as nat)
    }
}

/// A float lexeme reshaped to exactly six fractional digits: the text before
/// the first dot, a dot, then the fraction cut or zero-padded to six digits.
/// This is a fixed-width presentation convention; digits are not re-rounded.
pub open spec fn fixed6(s: Seq<char>) -> Seq<char> {
    let d = first_dot(s, 0);
    let intpart = s.subrange(0, d);
    let frac = if d < s.len() {
        s.subrange(d + 1, s.len() as int)
    } else {
        Seq::empty()
    };
    intpart + seq!['.'] + pad6(frac)
}

/// A leaf's rendered text, keyed on the wrapped token's category; token
/// kinds with no dedicated rendering show their symbolic name.
pub open spec fn leaf_text(t: Token) -> Seq<char> {
    match t {
        Token::ID(s) => "ID: "@ + s@,
        Token::TYPE(s) => "TYPE: "@ + s@,
        Token::INT(v) => "INT: "@ + i32_str(v),
        Token::FLOAT(s) => "FLOAT: "@ + fixed6(s@),
        Token::RELOP(_) => "RELOP"@,
        _ => debug_str(t),
    }
}

/// One output line: an interior node's header, or a leaf's rendering.
pub enum RenderLine {
    Wrapper { indent: nat, name: Seq<char>, line: nat },
    Leaf { indent: nat, token: Token },
}

/// The text of one output line, indent included, newline-terminated.
pub open spec fn line_text(l: RenderLine) -> Seq<char> {
    match l {
        RenderLine::Wrapper { indent, name, line } => spaces(indent) + name + " ("@ + dec_str(
            line,
        ) + ")"@ + seq!['\n'],
        RenderLine::Leaf { indent, token } => spaces(indent) + leaf_text(token) + seq!['\n'],
    }
}

/// The concatenated text of a sequence of output lines.
pub open spec fn lines_text(ls: Seq<RenderLine>) -> Seq<char>
    decreases ls.len(),
{
    if ls.len() == 0 {
        Seq::empty()
    } else {
        line_text(ls[0]) + lines_text(ls.drop_first())
    }
}

proof fn lemma_lines_text_concat(a: Seq<RenderLine>, b: Seq<RenderLine>)
    ensures
        lines_text(a + b) == lines_text(a) + lines_text(b),
    decreases a.len(),
{
    if a.len() == 0 {
        assert(a + b =~= b);
        assert(lines_text(a) + lines_text(b) =~= lines_text(b));
    } else {
        assert((a + b).drop_first() =~= a.drop_first() + b);
        lemma_lines_text_concat(a.drop_first(), b);
        assert((a + b)[0] == a[0]);
        assert(line_text(a[0]) + (lines_text(a.drop_first()) + lines_text(b)) =~= (line_text(a[0])
            + lines_text(a.drop_first())) + lines_text(b));
    }
}

/// Whether a node is an interior node named `Exp`.
pub open spec fn is_exp_wrapper(n: ASTNode) -> bool {
    n.ident matches ASTNodeIdent::Name(s) && s@ == "Exp"@
}

/// The lines the printer emits for `n` at indent `ind`.
pub open spec fn render_lines(n: ASTNode, ind: nat) -> Seq<RenderLine>
    decreases n, 1int, 0int,
{
    match n.ident {
        ASTNodeIdent::Token(t) => seq![RenderLine::Leaf { indent: ind, token: t }],
        ASTNodeIdent::Name(name) => {
            if name@.len() == 0 {
                Seq::empty()
            } else {
                match n.children {
                    None => Seq::empty(),
                    Some(cs) => {
                        if name@ == "Exp"@ && cs@.len() == 1 && is_exp_wrapper(cs@[0]) {
                            render_lines(cs@[0], ind)
                        } else {
                            seq![
                                RenderLine::Wrapper {
                                    indent: ind,
                                    name: name@,
                                    line: n.location.line as nat,
                                },
                            ] + children_lines(n, 0, ind + 2)
                        }
                    },
                }
            }
        },
    }
}

/// The lines emitted for the children of `n` from index `k` on.
pub open spec fn children_lines(n: ASTNode, k: int, ind: nat) -> Seq<RenderLine>
    decreases n, 0int, n.children->0@.len() - k,
{
    if n.children is Some && 0 <= k < n.children->0@.len() {
        render_lines(n.children->0@[k], ind) + children_lines(n, k + 1, ind)
    } else {
        Seq::empty()
    }
}

/// The full rendered text of a tree at a given starting indent.
pub open spec fn render_text(n: ASTNode, ind: nat) -> Seq<char> {
    lines_text(render_lines(n, ind))
}

/// The leaf tokens of a tree, left to right.
pub open spec fn leaf_tokens(n: ASTNode) -> Seq<Token>
    decreases n, 1int, 0int,
{
    match n.ident {
        ASTNodeIdent::Token(t) => seq![t],
        ASTNodeIdent::Name(_) => {
            match n.children {
                None => Seq::empty(),
                Some(cs) => leaf_tokens_children(n, 0),
            }
        },
    }
}

/// The leaf tokens under the children of `n` from index `k` on.
pub open spec fn leaf_tokens_children(n: ASTNode, k: int) -> Seq<Token>
    decreases n, 0int, n.children->0@.len() - k,
{
    if n.children is Some && 0 <= k < n.children->0@.len() {
        leaf_tokens(n.children->0@[k]) + leaf_tokens_children(n, k + 1)
    } else {
        Seq::empty()
    }
}

/// The tokens of the leaf lines within a sequence of output lines, in order.
pub open spec fn line_leaves(ls: Seq<RenderLine>) -> Seq<Token>
    decreases ls.len(),
{
    if ls.len() == 0 {
        Seq::empty()
    } else {
        (match ls[0] {
            RenderLine::Leaf { token, .. } => seq![token],
            RenderLine::Wrapper { .. } => Seq::empty(),
        }) + line_leaves(ls.drop_first())
    }
}

proof fn lemma_line_leaves_concat(a: Seq<RenderLine>, b: Seq<RenderLine>)
    ensures
        line_leaves(a + b) == line_leaves(a) + line_leaves(b),
    decreases a.len(),
{
    if a.len() == 0 {
        assert(a + b =~= b);
        assert(line_leaves(a) + line_leaves(b) =~= line_leaves(b));
    } else {
        assert((a + b).drop_first() =~= a.drop_first() + b);
        lemma_line_leaves_concat(a.drop_first(), b);
        assert((a + b)[0] == a[0]);
        let h = match a[0] {
            RenderLine::Leaf { token, .. } => seq![token],
            RenderLine::Wrapper { .. } => Seq::<Token>::empty(),
        };
        assert(h + (line_leaves(a.drop_first()) + line_leaves(b)) =~= (h + line_leaves(
            a.drop_first(),
        )) + line_leaves(b));
    }
}

/// Leaf preservation: whatever wrapper lines the `Exp`-collapse rule drops,
/// the leaf tokens that reach the output, and their order, are exactly the
/// leaves of the tree; collapsing changes wrapper lines only.
pub proof fn lemma_leaf_preservation(n: ASTNode, ind: nat)
    requires
        well_formed(n),
    ensures
        line_leaves(render_lines(n, ind)) == leaf_tokens(n),
    decreases n, 1int, 0int,
{
    match n.ident {
        ASTNodeIdent::Token(t) => {
            let l = RenderLine::Leaf { indent: ind, token: t };
            assert(render_lines(n, ind) == seq![l]);
            assert(seq![l][0] == l);
            assert(seq![l].drop_first() =~= Seq::<RenderLine>::empty());
            assert(line_leaves(seq![l]) == seq![t] + line_leaves(Seq::<RenderLine>::empty()));
            assert(seq![t] + Seq::<Token>::empty() =~= seq![t]);
            assert(line_leaves(render_lines(n, ind)) == seq![t]);
            assert(leaf_tokens(n) == seq![t]);
        },
        ASTNodeIdent::Name(name) => {
            if name@.len() == 0 {
            } else {
                match n.children {
                    None => {
                    },
                    Some(cs) => {
                        if name@ == "Exp"@ && cs@.len() == 1 && is_exp_wrapper(cs@[0]) {
                            lemma_leaf_preservation(cs@[0], ind);
                            assert(leaf_tokens_children(n, 1) == Seq::<Token>::empty());
                            assert(leaf_tokens(n) == leaf_tokens(cs@[0]) + leaf_tokens_children(
                                n,
                                1,
                            ));
                            assert(leaf_tokens(cs@[0]) + Seq::<Token>::empty() =~= leaf_tokens(
                                cs@[0],
                            ));
                        } else {
                            lemma_leaf_preservation_children(n, 0, ind + 2);
                            let hdr = RenderLine::Wrapper {
                                indent: ind,
                                name: name@,
                                line: n.location.line as nat,
                            };
                            lemma_line_leaves_concat(seq![hdr], children_lines(n, 0, ind + 2));
                            assert(seq![hdr][0] == hdr);
                            assert(seq![hdr].drop_first() =~= Seq::<RenderLine>::empty());
                            assert(line_leaves(seq![hdr]) == Seq::<Token>::empty() + line_leaves(
                                Seq::<RenderLine>::empty(),
                            ));
                            assert(Seq::<Token>::empty() + Seq::<Token>::empty()
                                =~= Seq::<Token>::empty());
                            assert(Seq::<Token>::empty() + line_leaves(
                                children_lines(n, 0, ind + 2),
                            ) =~= line_leaves(children_lines(n, 0, ind + 2)));
                        }
                    },
                }
            }
        },
    }
}

proof fn lemma_leaf_preservation_children(n: ASTNode, k: int, ind: nat)
    requires
        well_formed(n),
        n.children is Some,
        forall|q: int|
            0 <= q < n.children->0@.len() ==> well_formed(#[trigger] n.children->0@[q]),
    ensures
        line_leaves(children_lines(n, k, ind)) == leaf_tokens_children(n, k),
    decreases n, 0int, n.children->0@.len() - k,
{
    if 0 <= k < n.children->0@.len() {
        lemma_leaf_preservation(n.children->0@[k], ind);
        lemma_leaf_preservation_children(n, k + 1, ind);
        lemma_line_leaves_concat(
            render_lines(n.children->0@[k], ind),
            children_lines(n, k + 1, ind),
        );
    }
}

/// Printing is deterministic: the printed text is a pure function of the
/// tree and the indent, so printing the same tree twice yields identical
/// text.
pub proof fn lemma_render_deterministic(a: ASTNode, b: ASTNode, ind: nat)
    requires
        a == b,
    ensures
        render_text(a, ind) == render_text(b, ind),
{
}

/// Appends the six-fractional-digit reshaping of a float lexeme.
fn push_fixed6(out: &mut String, s: &String)
    ensures
        final(out)@ == old(out)@ + fixed6(s@),
{
    let slen = s.as_str().unicode_len();
    let mut d: usize = 0;
    while d < slen && s.as_str().get_char(d) != '.'
        invariant
            0 <= d <= slen == s@.len(),
            first_dot(s@, 0) == first_dot(s@, d as int),
        decreases slen - d,
    {
        d = d + 1;
    }
    assert(d == first_dot(s@, 0));
    let ghost intpart = s@.subrange(0, d as int);
    let ghost frac = if (d as int) < s@.len() {
        s@.subrange(d as int + 1, s@.len() as int)
    } else {
        Seq::<char>::empty()
    };
    let mut k: usize = 0;
    proof {
        assert(out@ + s@.subrange(0, 0) =~= out@);
    }
    let ghost base = out@;
    while k < d
        invariant
            0 <= k <= d <= slen == s@.len(),
            out@ == base + s@.subrange(0, k as int),
        decreases d - k,
    {
        out.push(s.as_str().get_char(k));
        proof {
            assert(s@.subrange(0, k as int).push(s@[k as int]) =~= s@.subrange(0, k + 1));
        }
        k = k + 1;
    }
    out.push('.');
    let fr_len: usize = if d < slen {
        slen - d - 1
    } else {
        0
    };
    proof {
        assert(frac.len() == fr_len);
    }
    let take: usize = if fr_len > 6 {
        6
    } else {
        fr_len
    };
    let ghost base2 = out@;
    let mut q: usize = 0;
    proof {
        assert(base2 + frac.subrange(0, 0) =~= base2);
    }
    while q < take
        invariant
            0 <= q <= take <= fr_len,
            fr_len <= 6 || take == 6,
            d < slen || fr_len == 0,
            slen == s@.len(),
            frac.len() == fr_len,
            d < slen ==> frac == s@.subrange(d as int + 1, s@.len() as int),
            out@ == base2 + frac.subrange(0, q as int),
        decreases take - q,
    {
        out.push(s.as_str().get_char(d + 1 + q));
        proof {
            assert(frac[q as int] == s@[d + 1 + q]);
            assert(frac.subrange(0, q as int).push(frac[q as int]) =~= frac.subrange(0, q + 1));
        }
        q = q + 1;
    }
    let mut z: usize = take;
    while z < 6
        invariant
            take <= z <= 6,
            out@ == base2 + frac.subrange(0, take as int) + zeros((z - take) as nat),
        decreases 6 - z,
    {
        out.push('0');
        proof {
            assert((base2 + frac.subrange(0, take as int) + zeros((z - take) as nat)).push('0')
                =~= base2 + frac.subrange(0, take as int) + zeros((z + 1 - take) as nat));
        }
        z = z + 1;
    }
    proof {
        if fr_len >= 6 {
            assert(frac.subrange(0, take as int) =~= pad6(frac));
            assert(zeros(0) =~= Seq::<char>::empty());
            assert(base2 + pad6(frac) + Seq::<char>::empty() =~= base2 + pad6(frac));
        } else {
            assert(frac.subrange(0, take as int) =~= frac);
            assert(base2 + frac + zeros((6 - fr_len) as nat) =~= base2 + (frac + zeros(
                (6 - fr_len) as nat,
            )));
        }
        assert(base2 =~= base + intpart + seq!['.']);
        assert(base + intpart + seq!['.'] + pad6(frac) =~= base + (intpart + seq!['.'] + pad6(
            frac,
        )));
        assert(out@ =~= old(out)@ + fixed6(s@));
    }
}

/// A leaf's rendered text, keyed on the token's category.
fn leaf_string(t: &Token) -> (r: String)
    ensures
        r@ == leaf_text(*t),
{
    match t {
        Token::ID(s) => {
            let mut r = String::from_str("ID: ");
            r.append(s.as_str());
            r
        },
        Token::TYPE(s) => {
            let mut r = String::from_str("TYPE: ");
            r.append(s.as_str());
            r
        },
        Token::INT(v) => {
            let mut r = String::from_str("INT: ");
            let digits = i32_to_string(*v);
            r.append(digits.as_str());
            r
        },
        Token::FLOAT(s) => {
            let mut r = String::from_str("FLOAT: ");
            push_fixed6(&mut r, s);
            r
        },
        Token::RELOP(_) => String::from_str("RELOP"),
        _ => t.debug_string(),
    }
}

/// Renders the subtree at `n` into `out`, starting at indent `ind`.
fn render_into(n: &ASTNode, ind: usize, out: &mut String)
    requires
        well_formed(*n),
        ind + 2 * height(*n) <= usize::MAX,
    ensures
        final(out)@ == old(out)@ + render_text(*n, ind as nat),
    decreases *n,
{
    match &n.ident {
        ASTNodeIdent::Token(t) => {
            push_spaces(out, ind);
            let lt = leaf_string(t);
            out.append(lt.as_str());
            out.push('\n');
            proof {
                let l = RenderLine::Leaf { indent: ind as nat, token: *t };
                assert(render_lines(*n, ind as nat) == seq![l]);
                assert(seq![l][0] == l);
                assert(seq![l].drop_first() =~= Seq::<RenderLine>::empty());
                assert(render_text(*n, ind as nat) == line_text(l) + lines_text(
                    Seq::<RenderLine>::empty(),
                ));
                assert(line_text(l) == spaces(ind as nat) + leaf_text(*t) + seq!['\n']);
                assert(out@ == old(out)@ + spaces(ind as nat) + leaf_text(*t) + seq!['\n']);
                assert(out@ =~= old(out)@ + render_text(*n, ind as nat));
            }
        },
        ASTNodeIdent::Name(name) => {
            if name.as_str().is_empty() {
                proof {
                    assert(old(out)@ + Seq::<char>::empty() =~= old(out)@);
                }
                return ;
            }
            let cs = n.children.as_ref().unwrap();
            let collapse = cs.len() == 1 && *name == String::from_str("Exp") && (match &cs[0].ident {
                ASTNodeIdent::Name(cn) => *cn == String::from_str("Exp"),
                _ => false,
            });
            if collapse {
                proof {
                    lemma_child_height(*n, 0);
                }
                render_into(&cs[0], ind, out);
                return ;
            }
            push_spaces(out, ind);
            out.append(name.as_str());
            out.append(" (");
            let ls = usize_to_string(n.location.line);
            out.append(ls.as_str());
            out.append(")");
            out.push('\n');
            let ghost hdr = RenderLine::Wrapper {
                indent: ind as nat,
                name: name@,
                line: n.location.line as nat,
            };
            proof {
                assert(out@ =~= old(out)@ + line_text(hdr));
            }
            let ghost base = out@;
            let mut k: usize = 0;
            while k < cs.len()
                invariant
                    well_formed(*n),
                    ind + 2 * height(*n) <= usize::MAX,
                    n.children is Some,
                    cs == n.children->0,
                    0 <= k <= cs@.len(),
                    out@ + lines_text(children_lines(*n, k as int, ind as nat + 2)) == base
                        + lines_text(children_lines(*n, 0, ind as nat + 2)),
                decreases cs@.len() - k,
            {
                proof {
                    lemma_child_height(*n, k as int);
                    lemma_lines_text_concat(
                        render_lines(cs@[k as int], ind as nat + 2),
                        children_lines(*n, k as int + 1, ind as nat + 2),
                    );
                }
                let ghost before = out@;
                render_into(&cs[k], ind + 2, out);
                proof {
                    assert(before + (render_text(cs@[k as int], ind as nat + 2) + lines_text(
                        children_lines(*n, k as int + 1, ind as nat + 2),
                    )) =~= (before + render_text(cs@[k as int], ind as nat + 2)) + lines_text(
                        children_lines(*n, k as int + 1, ind as nat + 2),
                    ));
                }
                k = k + 1;
            }
            proof {
                assert(lines_text(children_lines(*n, cs@.len() as int, ind as nat + 2))
                    =~= Seq::<char>::empty());
                assert(out@ + Seq::<char>::empty() =~= out@);
                lemma_lines_text_concat(seq![hdr], children_lines(*n, 0, ind as nat + 2));
                assert(seq![hdr].drop_first() =~= Seq::<RenderLine>::empty());
                assert(line_text(hdr) + Seq::<char>::empty() =~= line_text(hdr));
                assert(old(out)@ + line_text(hdr) + lines_text(
                    children_lines(*n, 0, ind as nat + 2),
                ) =~= old(out)@ + (line_text(hdr) + lines_text(
                    children_lines(*n, 0, ind as nat + 2),
                )));
                assert(out@ =~= old(out)@ + render_text(*n, ind as nat));
            }
        },
    }
}

/// Renders the tree as indented text: pre-order, two more spaces per level,
/// exactly the lines of `render_lines`. Printing is a pure function of the
/// tree, so printing the same tree twice yields byte-identical text.
pub fn render_ast(ast: &ASTNode, indent: usize) -> (r: String)
    requires
        well_formed(*ast),
        indent + 2 * height(*ast) <= usize::MAX,
    ensures
        r@ == render_text(*ast, indent as nat),
{
    let mut out = String::new();
    render_into(ast, indent, &mut out);
    proof {
        assert(Seq::<char>::empty() + render_text(*ast, indent as nat) =~= render_text(
            *ast,
            indent as nat,
        ));
    }
    out
}

} // verus!
