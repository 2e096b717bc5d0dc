//! Abstract syntax trees.  The parser turns the lexer's tokens into
//! [`AstNode`] values; the evaluator walks them.
//!
//! Floating point literals are carried as their IEEE-754 binary64 bit
//! patterns (`u64`), so that the tree itself stays within plain data; all
//! floating point arithmetic is delegated to one well-tested software
//! implementation (see the `float` module).

use vstd::prelude::*;
use vstd::string::*;
use crate::float::float_repr;
use crate::text::{int_repr, push_int, push_char};
use crate::value::op_char;

verus! {

/// The closed set of operators of the language.
#[derive(Debug, Clone, Copy, PartialEq, Eq, Structural)]
pub enum Op {
    Plus,
    Minus,
    Star,
    Slash,
    Equal,
    Greater,
    Less,
}

/// The mathematical shape of an [`AstNode`], used in specifications: text
/// becomes a sequence of characters, and child vectors become sequences.
pub enum Ast {
    Int(i64),
    Float(u64),
    Name(Seq<char>),
    Symbol(Seq<char>),
    Str(Seq<char>),
    Operator(Op),
    Expr(Seq<Ast>),
    List(Seq<Ast>),
}

/// A node of the abstract syntax tree.
///
/// `Expr` is a compound expression to be evaluated; `List` is the quoted
/// list literal form, and `Symbol` the quoted name form.
#[derive(Debug)]
pub enum AstNode {
    Int(i64),
    Float(u64),
    Name(String),
    Symbol(String),
    Str(String),
    Operator(Op),
    Expr(Vec<AstNode>),
    List(Vec<AstNode>),
}

/// The views of a sequence of nodes, in order.
pub open spec fn asts_of(ns: Seq<AstNode>) -> Seq<Ast>
    decreases ns,
{
    if ns.len() == 0 {
        Seq::empty()
    } else {
        asts_of(ns.drop_last()).push(ns.last()@)
    }
}

impl View for AstNode {
    type V = Ast;

    open spec fn view(&self) -> Ast
        decreases self,
    {
        match self {
            AstNode::Int(i) => Ast::Int(*i),
            AstNode::Float(b) => Ast::Float(*b),
            AstNode::Name(s) => Ast::Name(s@),
            AstNode::Symbol(s) => Ast::Symbol(s@),
            AstNode::Str(s) => Ast::Str(s@),
            AstNode::Operator(op) => Ast::Operator(*op),
            AstNode::Expr(ns) => Ast::Expr(asts_of(ns@)),
            AstNode::List(ns) => Ast::List(asts_of(ns@)),
        }
    }
}

/// `asts_of` maps the view over the sequence element by element.
pub broadcast proof fn lemma_asts_of(ns: Seq<AstNode>)
    ensures
        (#[trigger] asts_of(ns)).len() == ns.len(),
        forall|i: int| 0 <= i < ns.len() ==> asts_of(ns)[i] == #[trigger] ns[i]@,
    decreases ns,
{
    if ns.len() > 0 {
        lemma_asts_of(ns.drop_last());
        assert(asts_of(ns) == asts_of(ns.drop_last()).push(ns.last()@));
        assert forall|i: int| 0 <= i < ns.len() implies asts_of(ns)[i] == ns[i]@ by {
            if i < ns.len() - 1 {
                assert(asts_of(ns)[i] == asts_of(ns.drop_last())[i]);
                assert(ns.drop_last()[i] == ns[i]);
            } else {
                assert(asts_of(ns)[i] == ns.last()@);
            }
        }
    }
}


/// Pushing a node onto a sequence pushes its view onto the views.
pub broadcast proof fn lemma_asts_of_push(ns: Seq<AstNode>, x: AstNode)
    ensures
        #[trigger] asts_of(ns.push(x)) == asts_of(ns).push(x@),
{
    assert(ns.push(x).drop_last() =~= ns);
    assert(ns.push(x).last() == x);
}


/// The normalized source rendering of a tree: what [`AstNode::to_source`]
/// writes.  Integers render in decimal, floats by their decimal rendering,
/// strings between plain quotes (the language has no escapes), quoted
/// forms behind a quote mark, and compounds between parentheses with one
/// space between the items.
pub open spec fn ast_src(a: Ast) -> Seq<char>
    decreases a, 0int,
{
    match a {
        Ast::Int(i) => int_repr(i as int),
        Ast::Float(b) => float_repr(b),
        Ast::Name(s) => s,
        Ast::Symbol(s) => seq!['\''] + s,
        Ast::Str(s) => seq!['"'] + s + seq!['"'],
        Ast::Operator(op) => seq![op_char(op)],
        Ast::Expr(ns) => seq!['('] + ast_src_items(ns) + seq![')'],
        Ast::List(ns) => seq!['\'', '('] + ast_src_items(ns) + seq![')'],
    }
}

/// The renderings of sibling trees, separated by single spaces.
pub open spec fn ast_src_items(ns: Seq<Ast>) -> Seq<char>
    decreases ns, 1int,
{
    if ns.len() == 0 {
        Seq::empty()
    } else if ns.len() == 1 {
        ast_src(ns[0])
    } else {
        ast_src_items(ns.drop_last()) + seq![' '] + ast_src(ns.last())
    }
}

/// Appends the renderings of the nodes, space-separated, to `out`.
fn push_source_items(out: &mut String, ns: &Vec<AstNode>)
    ensures
        final(out)@ == old(out)@ + ast_src_items(asts_of(ns@)),
    decreases ns@,
{
    let ghost views = asts_of(ns@);
    proof {
        lemma_asts_of(ns@);
    }
    let mut idx: usize = 0;
    while idx < ns.len()
        invariant
            idx <= ns@.len(),
            views == asts_of(ns@),
            views.len() == ns@.len(),
            forall|i: int| 0 <= i < ns@.len() ==> views[i] == #[trigger] ns@[i]@,
            out@ == old(out)@ + ast_src_items(views.take(idx as int)),
        decreases ns@.len() - idx,
    {
        if idx > 0 {
            push_char(out, ' ');
        }
        push_source(out, &ns[idx]);
        proof {
            assert(views.take(idx + 1).drop_last() =~= views.take(idx as int));
            assert(views.take(idx + 1).last() == views[idx as int]);
            if idx > 0 {
                assert(views.take(idx + 1).len() > 1);
            }
            assert(out@ =~= old(out)@ + ast_src_items(views.take(idx + 1)));
        }
        idx += 1;
    }
    proof {
        assert(views.take(ns@.len() as int) =~= views);
    }
}

/// Appends the rendering of one node to `out`.
fn push_source(out: &mut String, node: &AstNode)
    ensures
        final(out)@ == old(out)@ + ast_src(node@),
    decreases node,
{
    match node {
        AstNode::Int(i) => {
            push_int(out, *i);
        },
        AstNode::Float(b) => {
            let s = crate::float::float_to_string(*b);
            out.append(s.as_str());
        },
        AstNode::Name(s) => {
            out.append(s.as_str());
        },
        AstNode::Symbol(s) => {
            push_char(out, '\'');
            out.append(s.as_str());
            proof {
                assert(out@ =~= old(out)@ + ast_src(node@));
            }
        },
        AstNode::Str(s) => {
            push_char(out, '"');
            out.append(s.as_str());
            push_char(out, '"');
            proof {
                assert(out@ =~= old(out)@ + ast_src(node@));
            }
        },
        AstNode::Operator(op) => {
            let c = crate::value::op_char_of(*op);
            push_char(out, c);
        },
        AstNode::Expr(ns) => {
            push_char(out, '(');
            push_source_items(out, ns);
            push_char(out, ')');
            proof {
                assert(out@ =~= old(out)@ + ast_src(node@));
            }
        },
        AstNode::List(ns) => {
            push_char(out, '\'');
            push_char(out, '(');
            push_source_items(out, ns);
            push_char(out, ')');
            proof {
                assert(out@ =~= old(out)@ + ast_src(node@));
            }
        },
    }
}

impl AstNode {
    /// The normalized source rendering of this tree: re-parsing it is
    /// meant to reproduce the tree (see [`ast_src`] for the exact form).
    pub fn to_source(&self) -> (r: String)
        ensures
            r@ == ast_src(self@),
    {
        let mut out = String::new();
        push_source(&mut out, self);
        proof {
            assert(out@ =~= ast_src(self@));
        }
        out
    }
}

/// An error raised while lexing or parsing; fatal to the current parse.
#[derive(Debug)]
pub struct SyntaxError(pub String);

} // verus!
