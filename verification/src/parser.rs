//! The parser: recursive descent over the lexer's tokens, with one token
//! of lookahead, producing [`AstNode`] trees.
//!
//! The specification parser (`sparse_expr` and friends) works over an
//! abstract token [`PTok`] — the current token plus the position scanning
//! resumes from — and pins down exactly which tree each input denotes.
//! Each specification function guards its recursive calls on the progress
//! facts (`tok_ok`, a shrinking [`pm`] measure) that every reachable state
//! enjoys, so the definitions are total.

use vstd::prelude::*;
use vstd::string::*;
use crate::ast::{Ast, AstNode, Op, SyntaxError, asts_of};
use crate::float::{float_of_decimal, parse_float};
use crate::lexer::{Lexer, Scan, slex, lemma_slex_bounds, lemma_slex_int_shape};
use crate::text::is_digit;
use crate::token::{Token, TokenKind};

verus! {

/// The parser's view of its current token: the token's kind and span,
/// and the position the lexer will scan the following token from.
pub struct PTok {
    pub kind: TokenKind,
    pub start: int,
    pub end: int,
    pub next: int,
}

/// The lexer's outcome at `pos`, as a [`PTok`].
pub open spec fn lex_at(src: Seq<char>, pos: int) -> Result<PTok, int> {
    match slex(src, pos) {
        Scan::Tok(kind, start, end, next) => Ok(PTok { kind, start, end, next }),
        Scan::Fail(p) => Err(p),
    }
}

/// A token the lexer can actually produce: spans within the source, and
/// the end-of-input token only at the very end.
pub open spec fn tok_ok(src: Seq<char>, t: PTok) -> bool {
    &&& 0 <= t.start <= t.end <= src.len()
    &&& t.end <= t.next <= src.len()
    &&& (t.kind is EOF ==> t.next == src.len())
}

/// The parser's progress measure: how much input can still be consumed,
/// with one extra step while the current token is not end-of-input.
pub open spec fn pm(src: Seq<char>, t: PTok) -> int {
    2 * (src.len() - t.next) + if t.kind is EOF {
        0int
    } else {
        1int
    }
}

/// The numeric value of a run of digit characters.
pub open spec fn dec_val(s: Seq<char>) -> int
    decreases s,
{
    if s.len() == 0 {
        0
    } else {
        dec_val(s.drop_last()) * 10 + (s.last() as u32 - 48)
    }
}

/// The signed integer a numeric token's text denotes, or `None` where the
/// value does not fit a 64-bit signed integer.
pub open spec fn int_of_text(s: Seq<char>) -> Option<i64> {
    let neg = s.len() > 0 && s[0] == '-';
    let ds = if s.len() > 0 && (s[0] == '-' || s[0] == '+') {
        s.drop_first()
    } else {
        s
    };
    let v = if neg {
        -dec_val(ds)
    } else {
        dec_val(ds)
    };
    if i64::MIN <= v <= i64::MAX {
        Some(v as i64)
    } else {
        None
    }
}

/// The operator an operator token's character denotes.
pub open spec fn op_of_char(c: char) -> Op {
    if c == '-' {
        Op::Minus
    } else if c == '*' {
        Op::Star
    } else if c == '/' {
        Op::Slash
    } else if c == '=' {
        Op::Equal
    } else if c == '>' {
        Op::Greater
    } else if c == '<' {
        Op::Less
    } else {
        Op::Plus
    }
}

/// What parsing an atom from the current token yields: the node, and the
/// state after it.  The token is consumed first (so a lexing error right
/// after it surfaces even for a well-formed atom); a quote parses the
/// expression after it and wraps a compound into a list literal and a
/// name into a symbol.
pub open spec fn sparse_atom(src: Seq<char>, t: PTok) -> Result<(Ast, PTok), ()>
    decreases pm(src, t), 0int,
{
    if !tok_ok(src, t) {
        Err(())
    } else {
        match lex_at(src, t.next) {
            Err(_) => Err(()),
            Ok(t2) => {
                let content = src.subrange(t.start, t.end);
                match t.kind {
                    TokenKind::Int => match int_of_text(content) {
                        Some(i) => Ok((Ast::Int(i), t2)),
                        None => Err(()),
                    },
                    TokenKind::Float => match float_of_decimal(content) {
                        Some(b) => Ok((Ast::Float(b), t2)),
                        None => Err(()),
                    },
                    TokenKind::Str => Ok((Ast::Str(content), t2)),
                    TokenKind::Name => Ok((Ast::Name(content), t2)),
                    TokenKind::Operator => Ok((Ast::Operator(op_of_char(src[t.start])), t2)),
                    TokenKind::Quote => if tok_ok(src, t2) && pm(src, t2) < pm(src, t) {
                        match sparse_expr(src, t2) {
                            Ok((a, t3)) => match a {
                                Ast::Expr(es) => Ok((Ast::List(es), t3)),
                                Ast::Name(n) => Ok((Ast::Symbol(n), t3)),
                                _ => Err(()),
                            },
                            Err(e) => Err(e),
                        }
                    } else {
                        Err(())
                    },
                    _ => Err(()),
                }
            },
        }
    }
}

/// The elements of a parenthesised list: expressions until a closing
/// parenthesis or the end of input stands as the current token.
pub open spec fn sparse_items(src: Seq<char>, t: PTok) -> Result<(Seq<Ast>, PTok), ()>
    decreases pm(src, t), 3int,
{
    if !tok_ok(src, t) {
        Err(())
    } else if t.kind is CloseParen || t.kind is EOF {
        Ok((Seq::empty(), t))
    } else {
        match sparse_expr(src, t) {
            Ok((a, t2)) => if tok_ok(src, t2) && pm(src, t2) < pm(src, t) {
                match sparse_items(src, t2) {
                    Ok((rest, tf)) => Ok((seq![a] + rest, tf)),
                    Err(e) => Err(e),
                }
            } else {
                Err(())
            },
            Err(e) => Err(e),
        }
    }
}

/// A parenthesised list: the opening parenthesis, the elements, and the
/// closing parenthesis (end of input in its place is an error).
pub open spec fn sparse_list(src: Seq<char>, t: PTok) -> Result<(Seq<Ast>, PTok), ()>
    decreases pm(src, t), 1int,
{
    if !tok_ok(src, t) {
        Err(())
    } else if !(t.kind is OpenParen) {
        Err(())
    } else {
        match lex_at(src, t.next) {
            Err(_) => Err(()),
            Ok(t2) => if tok_ok(src, t2) && pm(src, t2) < pm(src, t) {
                match sparse_items(src, t2) {
                    Ok((items, t3)) => if t3.kind is CloseParen {
                        match lex_at(src, t3.next) {
                            Ok(t4) => Ok((items, t4)),
                            Err(_) => Err(()),
                        }
                    } else {
                        Err(())
                    },
                    Err(e) => Err(e),
                }
            } else {
                Err(())
            },
        }
    }
}

/// An expression: a parenthesised compound, or an atom; end of input in
/// its place is an error.
pub open spec fn sparse_expr(src: Seq<char>, t: PTok) -> Result<(Ast, PTok), ()>
    decreases pm(src, t), 2int,
{
    if !tok_ok(src, t) {
        Err(())
    } else {
        match t.kind {
            TokenKind::OpenParen => match sparse_list(src, t) {
                Ok((items, t2)) => Ok((Ast::Expr(items), t2)),
                Err(e) => Err(e),
            },
            TokenKind::EOF => Err(()),
            _ => sparse_atom(src, t),
        }
    }
}

/// Top-level expressions, parsed while the lexer has input left.
pub open spec fn sparse_exprs(src: Seq<char>, t: PTok) -> Result<(Seq<Ast>, PTok), ()>
    decreases pm(src, t), 4int,
{
    if !tok_ok(src, t) {
        Err(())
    } else if t.next >= src.len() {
        Ok((Seq::empty(), t))
    } else {
        match sparse_expr(src, t) {
            Ok((a, t2)) => if tok_ok(src, t2) && pm(src, t2) < pm(src, t) {
                match sparse_exprs(src, t2) {
                    Ok((rest, tf)) => Ok((seq![a] + rest, tf)),
                    Err(e) => Err(e),
                }
            } else {
                Err(())
            },
            Err(e) => Err(e),
        }
    }
}

/// What parsing a whole source string yields: the sequence of top-level
/// trees, or a refusal.
pub open spec fn sparse_program(src: Seq<char>) -> Result<Seq<Ast>, ()> {
    match lex_at(src, 0) {
        Err(_) => Err(()),
        Ok(t0) => match sparse_exprs(src, t0) {
            Ok((asts, _)) => Ok(asts),
            Err(e) => Err(e),
        },
    }
}


/// The numeric value of a prefix of a digit run never exceeds the whole.
proof fn lemma_dec_val_prefix(s: Seq<char>, k: int)
    requires
        0 <= k <= s.len(),
        forall|j: int| 0 <= j < s.len() ==> is_digit(#[trigger] s[j]),
    ensures
        0 <= dec_val(s.take(k)) <= dec_val(s),
    decreases s,
{
    if s.len() == 0 {
        assert(s.take(k) =~= s);
    } else {
        lemma_dec_val_prefix(s.drop_last(), if k <= s.len() - 1 {
            k
        } else {
            (s.len() - 1) as int
        });
        if k <= s.len() - 1 {
            assert(s.drop_last().take(k) =~= s.take(k));
        } else {
            assert(s.take(k) =~= s);
            assert(s.drop_last().take((s.len() - 1) as int) =~= s.drop_last());
        }
        assert(is_digit(s.last()));
        assert(dec_val(s) == dec_val(s.drop_last()) * 10 + (s.last() as u32 - 48));
        assert(dec_val(s.drop_last()) * 10 >= dec_val(s.drop_last())) by (nonlinear_arith)
            requires
                dec_val(s.drop_last()) >= 0,
        ;
    }
}

/// Reads the integer denoted by the characters of `lx` between `start`
/// and `end`: an optional sign and a run of digits.
fn parse_int_span(lx: &Lexer, start: usize, end: usize) -> (r: Option<i64>)
    requires
        lx.wf(),
        start < end <= lx.text().len(),
        is_digit(lx.text()[start as int]) || lx.text()[start as int] == '+'
            || lx.text()[start as int] == '-',
        !is_digit(lx.text()[start as int]) ==> start + 1 < end,
        forall|j: int| start + 1 <= j < end ==> is_digit(#[trigger] lx.text()[j]),
    ensures
        r == int_of_text(lx.text().subrange(start as int, end as int)),
{
    let ghost content = lx.text().subrange(start as int, end as int);
    let c0 = lx.char_at(start);
    let neg = c0 == '-';
    let ds_start: usize = if c0 == '-' || c0 == '+' {
        start + 1
    } else {
        start
    };
    let ghost ds = lx.text().subrange(ds_start as int, end as int);
    proof {
        if c0 == '-' || c0 == '+' {
            assert(content.drop_first() =~= ds);
        } else {
            assert(content =~= ds);
        }
    }
    let limit: u64 = if neg {
        0x8000000000000000
    } else {
        0x7fffffffffffffff
    };
    let mut mag: u64 = 0;
    let mut i: usize = ds_start;
    while i < end
        invariant
            lx.wf(),
            start <= ds_start <= i <= end <= lx.text().len(),
            content == lx.text().subrange(start as int, end as int),
            ds == lx.text().subrange(ds_start as int, end as int),
            neg == (content[0] == '-'),
            content.len() > 0,
            ds == (if content[0] == '-' || content[0] == '+' {
                content.drop_first()
            } else {
                content
            }),
            forall|j: int| 0 <= j < ds.len() ==> is_digit(#[trigger] ds[j]),
            mag == dec_val(ds.take(i - ds_start)),
            mag <= limit,
            limit == (if neg {
                0x8000000000000000u64
            } else {
                0x7fffffffffffffffu64
            }),
        decreases end - i,
    {
        let c = lx.char_at(i);
        proof {
            assert(ds[i - ds_start] == lx.text()[i as int]);
        }
        let u = c as u32;
        let d: u64 = (u - 48) as u64;
        proof {
            assert(ds.take(i - ds_start + 1).drop_last() =~= ds.take(i - ds_start));
            assert(ds.take(i - ds_start + 1).last() == ds[i - ds_start]);
        }
        if mag > (limit - d) / 10 {
            proof {
                assert(mag * 10 + d > limit) by (nonlinear_arith)
                    requires
                        mag > (limit - d) / 10,
                        d <= 9,
                        mag >= 0,
                        limit >= d,
                ;
                lemma_dec_val_prefix(ds, i - ds_start + 1);
                assert(dec_val(ds) >= dec_val(ds.take(i - ds_start + 1)));
                assert(dec_val(ds) > limit);
            }
            return None;
        }
        proof {
            assert(mag * 10 + d <= limit) by (nonlinear_arith)
                requires
                    mag <= (limit - d) / 10,
                    d <= 9,
                    mag >= 0,
                    limit >= d,
            ;
        }
        mag = mag * 10 + d;
        i += 1;
    }
    proof {
        assert(ds.take(end - ds_start) =~= ds);
    }
    if neg {
        if mag == 0x8000000000000000 {
            Some(i64::MIN)
        } else {
            Some(-(mag as i64))
        }
    } else {
        Some(mag as i64)
    }
}

/// The parser: the lexer it pulls tokens from, and the one token of
/// lookahead.
pub struct Parser {
    lexer: Lexer,
    current_token: Token,
}

impl Parser {
    /// The characters of the source being parsed.
    pub closed spec fn text(&self) -> Seq<char> {
        self.lexer.text()
    }

    /// The current token together with the lexer's resume position.
    pub closed spec fn cur(&self) -> PTok {
        PTok {
            kind: self.current_token.kind,
            start: self.current_token.span.start as int,
            end: self.current_token.span.end as int,
            next: self.lexer.cursor(),
        }
    }

    /// The parser state is one the lexer can produce.
    pub closed spec fn wf(&self) -> bool {
        &&& self.lexer.wf()
        &&& tok_ok(self.text(), self.cur())
        &&& exists|p: int|
            0 <= p <= self.text().len() && slex(self.text(), p) == Scan::Tok(
                self.cur().kind,
                self.cur().start,
                self.cur().end,
                self.cur().next,
            )
    }

    /// Creates a parser over a lexer, eagerly pulling one token of
    /// lookahead.
    pub fn new(lexer: Lexer) -> (r: Result<Parser, SyntaxError>)
        requires
            lexer.wf(),
        ensures
            match r {
                Ok(p) => p.wf() && p.text() == lexer.text() && lex_at(lexer.text(), lexer.cursor())
                    == Ok::<PTok, int>(p.cur()),
                Err(_) => lex_at(lexer.text(), lexer.cursor()) is Err,
            },
    {
        let ghost p0 = lexer.cursor();
        let mut lx = lexer;
        proof {
            lx.lemma_cursor_bounds();
            lemma_slex_bounds(lx.text(), p0);
        }
        match lx.next() {
            Ok(t) => Ok(Parser { current_token: t, lexer: lx }),
            Err(e) => Err(e),
        }
    }

    /// Pulls the next token into the lookahead.
    fn advance(&mut self) -> (r: Result<(), SyntaxError>)
        requires
            old(self).wf(),
        ensures
            final(self).text() == old(self).text(),
            match r {
                Ok(_) => final(self).wf() && lex_at(old(self).text(), old(self).cur().next)
                    == Ok::<PTok, int>(final(self).cur()),
                Err(_) => lex_at(old(self).text(), old(self).cur().next) is Err,
            },
    {
        proof {
            lemma_slex_bounds(self.text(), self.cur().next);
        }
        match self.lexer.next() {
            Ok(t) => {
                self.current_token = t;
                Ok(())
            },
            Err(e) => Err(e),
        }
    }

    /// Parses an atom: an integer, a float, a string, a name, an
    /// operator, or a quoted form.
    fn parse_atom(&mut self) -> (r: Result<AstNode, SyntaxError>)
        requires
            old(self).wf(),
        ensures
            final(self).text() == old(self).text(),
            match r {
                Ok(node) => final(self).wf() && sparse_atom(old(self).text(), old(self).cur())
                    == Ok::<(Ast, PTok), ()>((node@, final(self).cur())) && pm(
                    final(self).text(),
                    final(self).cur(),
                ) < pm(old(self).text(), old(self).cur()),
                Err(_) => sparse_atom(old(self).text(), old(self).cur()) is Err,
            },
        decreases pm(old(self).text(), old(self).cur()), 0int,
    {
        let ghost src = self.text();
        let ghost t = self.cur();
        let ghost witness_p = choose|p: int|
            0 <= p <= src.len() && #[trigger] slex(src, p) == Scan::Tok(
                t.kind,
                t.start,
                t.end,
                t.next,
            );
        proof {
            lemma_slex_bounds(src, witness_p);
            lemma_slex_int_shape(src, witness_p);
            lemma_slex_bounds(src, t.next);
        }
        let start = self.current_token.span.start;
        let end = self.current_token.span.end;
        let kind = self.current_token.kind;
        if let Err(e) = self.advance() {
            return Err(e);
        }
        let ghost t2 = self.cur();
        match kind {
            TokenKind::Int => {
                match parse_int_span(&self.lexer, start, end) {
                    Some(i) => Ok(AstNode::Int(i)),
                    None => Err(SyntaxError(String::from_str("integer literal is out of range"))),
                }
            },
            TokenKind::Float => {
                let content = self.lexer.slice(start, end);
                match parse_float(content.as_str()) {
                    Some(b) => Ok(AstNode::Float(b)),
                    None => Err(SyntaxError(String::from_str("malformed float literal"))),
                }
            },
            TokenKind::Str => Ok(AstNode::Str(self.lexer.slice(start, end))),
            TokenKind::Name => Ok(AstNode::Name(self.lexer.slice(start, end))),
            TokenKind::Operator => {
                let c = self.lexer.char_at(start);
                let op = if c == '-' {
                    Op::Minus
                } else if c == '*' {
                    Op::Star
                } else if c == '/' {
                    Op::Slash
                } else if c == '=' {
                    Op::Equal
                } else if c == '>' {
                    Op::Greater
                } else if c == '<' {
                    Op::Less
                } else {
                    Op::Plus
                };
                Ok(AstNode::Operator(op))
            },
            TokenKind::Quote => {
                match self.parse_expr() {
                    Ok(node) => match node {
                        AstNode::Expr(es) => Ok(AstNode::List(es)),
                        AstNode::Name(n) => Ok(AstNode::Symbol(n)),
                        _ => Err(SyntaxError(String::from_str("this form can not be quoted"))),
                    },
                    Err(e) => Err(e),
                }
            },
            _ => Err(SyntaxError(String::from_str("unexpected token while parsing atom"))),
        }
    }

    /// Parses expressions until a closing parenthesis or the end of input
    /// stands as the current token.
    fn parse_items(&mut self) -> (r: Result<Vec<AstNode>, SyntaxError>)
        requires
            old(self).wf(),
        ensures
            final(self).text() == old(self).text(),
            match r {
                Ok(nodes) => final(self).wf() && sparse_items(old(self).text(), old(self).cur())
                    == Ok::<(Seq<Ast>, PTok), ()>((asts_of(nodes@), final(self).cur())) && pm(
                    final(self).text(),
                    final(self).cur(),
                ) <= pm(old(self).text(), old(self).cur()),
                Err(_) => sparse_items(old(self).text(), old(self).cur()) is Err,
            },
        decreases pm(old(self).text(), old(self).cur()), 3int,
    {
        let mut items: Vec<AstNode> = Vec::new();
        loop
            invariant
                self.wf(),
                self.text() == old(self).text(),
                pm(self.text(), self.cur()) <= pm(old(self).text(), old(self).cur()),
                match sparse_items(self.text(), self.cur()) {
                    Ok((rest, tf)) => sparse_items(old(self).text(), old(self).cur()) == Ok::<
                        (Seq<Ast>, PTok),
                        (),
                    >((asts_of(items@) + rest, tf)),
                    Err(_) => sparse_items(old(self).text(), old(self).cur()) is Err,
                },
            decreases pm(self.text(), self.cur()),
        {
            let k = self.current_token.kind;
            if k == TokenKind::CloseParen || k == TokenKind::EOF {
                proof {
                    assert(asts_of(items@) + Seq::<Ast>::empty() =~= asts_of(items@));
                }
                return Ok(items);
            }
            let ghost ti = self.cur();
            let ghost acc0 = asts_of(items@);
            match self.parse_expr() {
                Ok(node) => {
                    proof {
                        crate::ast::lemma_asts_of_push(items@, node);
                    }
                    items.push(node);
                    proof {
                        assert(asts_of(items@) =~= acc0 + seq![node@]);
                        assert forall|rest: Seq<Ast>| true implies (acc0 + (seq![node@] + rest))
                            =~= (asts_of(items@) + rest) by {}
                    }
                },
                Err(e) => {
                    return Err(e);
                },
            }
        }
    }

    /// Parses a parenthesised list of expressions.
    fn parse_list(&mut self) -> (r: Result<Vec<AstNode>, SyntaxError>)
        requires
            old(self).wf(),
        ensures
            final(self).text() == old(self).text(),
            match r {
                Ok(nodes) => final(self).wf() && sparse_list(old(self).text(), old(self).cur())
                    == Ok::<(Seq<Ast>, PTok), ()>((asts_of(nodes@), final(self).cur())) && pm(
                    final(self).text(),
                    final(self).cur(),
                ) < pm(old(self).text(), old(self).cur()),
                Err(_) => sparse_list(old(self).text(), old(self).cur()) is Err,
            },
        decreases pm(old(self).text(), old(self).cur()), 1int,
    {
        let ghost src = self.text();
        let ghost t = self.cur();
        if !(self.current_token.kind == TokenKind::OpenParen) {
            return Err(SyntaxError(String::from_str("expected an opening parenthesis")));
        }
        proof {
            lemma_slex_bounds(src, t.next);
        }
        if let Err(e) = self.advance() {
            return Err(e);
        }
        let ghost t2 = self.cur();
        let items = match self.parse_items() {
            Ok(items) => items,
            Err(e) => {
                return Err(e);
            },
        };
        if !(self.current_token.kind == TokenKind::CloseParen) {
            return Err(SyntaxError(String::from_str("expected CloseParen, found EOF")));
        }
        let ghost t3 = self.cur();
        proof {
            lemma_slex_bounds(src, t3.next);
        }
        match self.advance() {
            Ok(_) => Ok(items),
            Err(e) => Err(e),
        }
    }

    /// Parses an expression: a parenthesised compound, or an atom.
    pub fn parse_expr(&mut self) -> (r: Result<AstNode, SyntaxError>)
        requires
            old(self).wf(),
        ensures
            final(self).text() == old(self).text(),
            match r {
                Ok(node) => final(self).wf() && sparse_expr(old(self).text(), old(self).cur())
                    == Ok::<(Ast, PTok), ()>((node@, final(self).cur())) && pm(
                    final(self).text(),
                    final(self).cur(),
                ) < pm(old(self).text(), old(self).cur()),
                Err(_) => sparse_expr(old(self).text(), old(self).cur()) is Err,
            },
        decreases pm(old(self).text(), old(self).cur()), 2int,
    {
        let k = self.current_token.kind;
        if k == TokenKind::OpenParen {
            match self.parse_list() {
                Ok(items) => Ok(AstNode::Expr(items)),
                Err(e) => Err(e),
            }
        } else if k == TokenKind::EOF {
            Err(SyntaxError(String::from_str("unexpected EOF while parsing atom")))
        } else {
            self.parse_atom()
        }
    }

    /// Parses top-level expressions while the lexer has input left.
    pub fn parse_exprs(&mut self) -> (r: Result<Vec<AstNode>, SyntaxError>)
        requires
            old(self).wf(),
        ensures
            final(self).text() == old(self).text(),
            match r {
                Ok(nodes) => final(self).wf() && sparse_exprs(old(self).text(), old(self).cur())
                    == Ok::<(Seq<Ast>, PTok), ()>((asts_of(nodes@), final(self).cur())),
                Err(_) => sparse_exprs(old(self).text(), old(self).cur()) is Err,
            },
        decreases pm(old(self).text(), old(self).cur()), 4int,
    {
        let mut nodes: Vec<AstNode> = Vec::new();
        loop
            invariant
                self.wf(),
                self.text() == old(self).text(),
                pm(self.text(), self.cur()) <= pm(old(self).text(), old(self).cur()),
                match sparse_exprs(self.text(), self.cur()) {
                    Ok((rest, tf)) => sparse_exprs(old(self).text(), old(self).cur()) == Ok::<
                        (Seq<Ast>, PTok),
                        (),
                    >((asts_of(nodes@) + rest, tf)),
                    Err(_) => sparse_exprs(old(self).text(), old(self).cur()) is Err,
                },
            decreases pm(self.text(), self.cur()),
        {
            proof {
                self.lexer.lemma_cursor_bounds();
            }
            if self.lexer.eof() {
                proof {
                    assert(asts_of(nodes@) + Seq::<Ast>::empty() =~= asts_of(nodes@));
                }
                return Ok(nodes);
            }
            let ghost acc0 = asts_of(nodes@);
            match self.parse_expr() {
                Ok(node) => {
                    proof {
                        crate::ast::lemma_asts_of_push(nodes@, node);
                    }
                    nodes.push(node);
                    proof {
                        assert(asts_of(nodes@) =~= acc0 + seq![node@]);
                        assert forall|rest: Seq<Ast>| true implies (acc0 + (seq![node@] + rest))
                            =~= (asts_of(nodes@) + rest) by {}
                    }
                },
                Err(e) => {
                    return Err(e);
                },
            }
        }
    }
}

} // verus!
