//! The abstract syntax tree: a node is either a leaf wrapping one token with
//! its location, or an interior node with a non-empty name and a non-empty
//! ordered sequence of children whose location is its first child's. A
//! placeholder node (empty name, no children, 0/0 location) exists only as a
//! sentinel value and is never part of a real parse result.

use vstd::prelude::*;
use vstd::string::StringExecFns;
use crate::lexer::Location;
use crate::token::Token;

verus! {

/// What a node is: a grammar non-terminal's name, or a wrapped token.
pub enum ASTNodeIdent {
    Name(String),
    Token(Token),
}

/// One tree node. A leaf holds a token and no children; an interior node
/// holds a name and its children. Trees are built bottom-up and never
/// mutated afterwards; a parent owns its children outright.
pub struct ASTNode {
    pub ident: ASTNodeIdent,
    pub location: Location,
    pub children: Option<Vec<ASTNode>>,
}

/// The placeholder value: empty name, default location, no children.
pub open spec fn is_empty_marker(n: ASTNode) -> bool {
    &&& n.ident matches ASTNodeIdent::Name(s) && s@.len() == 0
    &&& n.location.line == 0
    &&& n.location.column == 0
    &&& n.children is None
}

/// The structural invariant every constructor establishes: a leaf has no
/// children; a named node is either the placeholder (empty name, no
/// children) or has at least one child, all well-formed, and carries its
/// first child's location.
pub open spec fn well_formed(n: ASTNode) -> bool
    decreases n,
{
    match n.ident {
        ASTNodeIdent::Token(_) => n.children is None,
        ASTNodeIdent::Name(name) => {
            if name@.len() == 0 {
                n.children is None
            } else {
                &&& n.children is Some
                &&& n.children->0@.len() > 0
                &&& forall|k: int|
                    0 <= k < n.children->0@.len() ==> well_formed(#[trigger] n.children->0@[k])
                &&& n.location == n.children->0@[0].location
            }
        },
    }
}

/// Whether no node of the tree is a placeholder; real parse results have
/// this shape.
pub open spec fn proper(n: ASTNode) -> bool
    decreases n,
{
    &&& (n.ident matches ASTNodeIdent::Name(s) ==> s@.len() > 0)
    &&& match n.children {
        Some(cs) => forall|k: int| 0 <= k < cs@.len() ==> proper(#[trigger] cs@[k]),
        None => true,
    }
}

/// The location of the leftmost leaf reachable by first children.
pub open spec fn leftmost_leaf_location(n: ASTNode) -> Location
    decreases n,
{
    match n.children {
        Some(cs) => if cs@.len() > 0 {
            leftmost_leaf_location(cs@[0])
        } else {
            n.location
        },
        None => n.location,
    }
}

/// Location invariant: in a well-formed tree free of placeholders, every
/// node — each interior node in particular — reports the location (and so
/// the line) of its leftmost leaf descendant.
pub proof fn lemma_location_of_leftmost_leaf(n: ASTNode)
    requires
        well_formed(n),
        proper(n),
    ensures
        n.location == leftmost_leaf_location(n),
    decreases n,
{
    match n.ident {
        ASTNodeIdent::Token(_) => {
        },
        ASTNodeIdent::Name(name) => {
            let cs = n.children->0@;
            lemma_location_of_leftmost_leaf(cs[0]);
        },
    }
}

/// The nesting depth of a tree: zero at a leaf, one more than the deepest
/// child at an interior node.
pub open spec fn height(n: ASTNode) -> nat
    decreases n, 1int, 0int,
{
    match n.children {
        None => 0,
        Some(cs) => 1 + children_height(n, 0),
    }
}

/// The deepest height among the children of `n` from index `k` on.
pub open spec fn children_height(n: ASTNode, k: int) -> nat
    decreases n, 0int, n.children->0@.len() - k,
{
    if n.children is Some && 0 <= k < n.children->0@.len() {
        let h = height(n.children->0@[k]);
        let rest = children_height(n, k + 1);
        if h > rest {
            h
        } else {
            rest
        }
    } else {
        0
    }
}

/// Every child is strictly lower than its parent.
pub proof fn lemma_child_height(n: ASTNode, j: int)
    requires
        n.children is Some,
        0 <= j < n.children->0@.len(),
    ensures
        height(n.children->0@[j]) < height(n),
    decreases j,
{
    lemma_children_height_bound(n, 0, j);
}

proof fn lemma_children_height_bound(n: ASTNode, k: int, j: int)
    requires
        n.children is Some,
        0 <= k <= j < n.children->0@.len(),
    ensures
        children_height(n, k) >= height(n.children->0@[j]),
    decreases j - k,
{
    if k < j {
        lemma_children_height_bound(n, k + 1, j);
    }
}

impl ASTNode {
    /// The placeholder node; never part of a real parse result.
    pub fn empty() -> (n: ASTNode)
        ensures
            well_formed(n),
            is_empty_marker(n),
    {
        ASTNode {
            ident: ASTNodeIdent::Name(String::new()),
            location: Location::default(),
            children: None,
        }
    }

    /// An interior node: a named group over already-built children, stamped
    /// with the first child's location. Building one from zero children is a
    /// caller contract violation, ruled out here.
    pub fn node(name: &str, children: Vec<ASTNode>) -> (n: ASTNode)
        requires
            name@.len() > 0,
            children@.len() > 0,
            forall|k: int| 0 <= k < children@.len() ==> well_formed(#[trigger] children@[k]),
        ensures
            well_formed(n),
            n.ident matches ASTNodeIdent::Name(s) && s@ == name@,
            n.location == children@[0].location,
            n.children matches Some(cs) && cs@ == children@,
    {
        let location = children[0].location;
        ASTNode { ident: ASTNodeIdent::Name(String::from_str(name)), location, children: Some(children) }
    }

    /// A leaf for a fixed-spelling token.
    pub fn keyword(token: Token, location: Location) -> (n: ASTNode)
        ensures
            well_formed(n),
            n.ident matches ASTNodeIdent::Token(t) && t == token,
            n.location == location,
            n.children is None,
    {
        ASTNode { ident: ASTNodeIdent::Token(token), location, children: None }
    }

    /// A leaf for an identifier.
    pub fn ident(ident: &str, location: Location) -> (n: ASTNode)
        ensures
            well_formed(n),
            n.ident matches ASTNodeIdent::Token(t) && t matches Token::ID(s) && s@ == ident@,
            n.location == location,
            n.children is None,
    {
        ASTNode {
            ident: ASTNodeIdent::Token(Token::ID(String::from_str(ident))),
            location,
            children: None,
        }
    }

    /// A leaf for a builtin type name.
    pub fn typename(text: String, location: Location) -> (n: ASTNode)
        ensures
            well_formed(n),
            n.ident matches ASTNodeIdent::Token(t) && t matches Token::TYPE(s) && s@
                == text@,
            n.location == location,
            n.children is None,
    {
        ASTNode { ident: ASTNodeIdent::Token(Token::TYPE(text)), location, children: None }
    }

    /// A leaf for an integer literal.
    pub fn integer(value: i32, location: Location) -> (n: ASTNode)
        ensures
            well_formed(n),
            n.ident matches ASTNodeIdent::Token(t) && t == Token::INT(value),
            n.location == location,
            n.children is None,
    {
        ASTNode { ident: ASTNodeIdent::Token(Token::INT(value)), location, children: None }
    }

    /// A leaf for a float literal, carried as its lexeme.
    pub fn float(lexeme: String, location: Location) -> (n: ASTNode)
        ensures
            well_formed(n),
            n.ident matches ASTNodeIdent::Token(t) && t matches Token::FLOAT(s) && s@ == lexeme@,
            n.location == location,
            n.children is None,
    {
        ASTNode { ident: ASTNodeIdent::Token(Token::FLOAT(lexeme)), location, children: None }
    }

    /// A leaf for a relational operator.
    pub fn relop(relop: String, location: Location) -> (n: ASTNode)
        ensures
            well_formed(n),
            n.ident matches ASTNodeIdent::Token(t) && t matches Token::RELOP(s) && s@ == relop@,
            n.location == location,
            n.children is None,
    {
        ASTNode { ident: ASTNodeIdent::Token(Token::RELOP(relop)), location, children: None }
    }
}

} // verus!
