//! General properties of the language, stated and proved once for all
//! inputs, over the specification semantics of the `semantics` module.

use vstd::prelude::*;
use crate::ast::{Ast, ast_src};
use crate::lexer::{Scan, slex, digits_end, name_end, quote_end};
use crate::parser::{PTok, lex_at, tok_ok, pm, dec_val, int_of_text, op_of_char, sparse_atom,
    sparse_expr, sparse_exprs, sparse_program};
use crate::text::{dec_rep, digit_char, int_repr, is_digit, is_ws, is_name_start, is_name_char};
use crate::binop::{s_binop, is_relational};
use crate::runtime::ErrorKind;
use crate::semantics::{Machine, Eval, EvalSeq, seval, seval_seq, sform, s_fold, s_chain,
    init_env};
use crate::token::TokenKind;
use crate::value::{Val, SpecialForm, op_char};

verus! {

/// A pure arithmetic expression: literals and operator characters,
/// combined by application — no names, no quotation, no strings.
pub open spec fn arith(a: Ast) -> bool
    decreases a,
{
    match a {
        Ast::Int(_) => true,
        Ast::Float(_) => true,
        Ast::Operator(_) => true,
        Ast::Expr(ns) => ns.len() > 0 && forall|i: int| 0 <= i < ns.len() ==> arith(#[trigger] ns[i]),
        _ => false,
    }
}

/// Whether a value could stand for a callable that touches the
/// interpreter's state: a native function or a special form.
pub open spec fn stateful(v: Val) -> bool {
    v is RustFn || v is RustMacro
}

/// An operator application never produces a callable.
proof fn lemma_binop_not_stateful(a: Val, b: Val, op: crate::ast::Op)
    ensures
        match s_binop(a, b, op) {
            Ok(v) => !stateful(v),
            Err(_) => true,
        },
{
}

/// A fold over operator applications produces a callable only if its
/// seed was one; with a pure seed it never does.
proof fn lemma_fold_not_stateful(acc: Val, rest: Seq<Val>, op: crate::ast::Op)
    requires
        !stateful(acc),
    ensures
        match s_fold(acc, rest, op) {
            Ok(v) => !stateful(v),
            Err(_) => true,
        },
    decreases rest,
{
    if rest.len() > 0 {
        lemma_binop_not_stateful(acc, rest[0], op);
        match s_binop(acc, rest[0], op) {
            Ok(v) => {
                lemma_fold_not_stateful(v, rest.drop_first(), op);
            },
            Err(_) => {},
        }
    }
}

/// A relational chain never produces a callable.
proof fn lemma_chain_not_stateful(args: Seq<Val>, op: crate::ast::Op)
    ensures
        match s_chain(args, op) {
            Ok(v) => !stateful(v),
            Err(_) => true,
        },
    decreases args,
{
    if args.len() >= 2 {
        lemma_chain_not_stateful(args.drop_first(), op);
    }
}

/// Evaluating a pure arithmetic expression leaves the interpreter's
/// state — environment, output, and input queue — exactly as it was, and
/// never yields a callable.
pub proof fn lemma_arith_preserves_state(m: Machine, a: Ast, f: nat)
    requires
        arith(a),
    ensures
        match seval(m, a, f) {
            Eval::Done(v, m1) => m1 == m && !stateful(v),
            Eval::Fail(_, m1) => m1 == m,
            Eval::Spin => true,
        },
    decreases f, a, 3int,
{
    match a {
        Ast::Expr(ns) => {
            assert(arith(ns[0]));
            lemma_arith_preserves_state(m, ns[0], f);
            match seval(m, ns[0], f) {
                Eval::Done(h, m1) => {
                    assert(m1 == m);
                    assert(!(h is RustMacro));
                    lemma_arith_seq_preserves_state(m1, ns.drop_first(), f);
                    match seval_seq(m1, ns.drop_first(), f) {
                        EvalSeq::Done(args, m2) => {
                            assert(m2 == m);
                            match h {
                                Val::Operator(op) => {
                                    if is_relational(op) {
                                        lemma_chain_not_stateful(args, op);
                                    } else if args.len() > 0 {
                                        lemma_arith_seq_values(m1, ns.drop_first(), f);
                                        lemma_fold_not_stateful(args[0], args.drop_first(), op);
                                    }
                                },
                                _ => {},
                            }
                        },
                        _ => {},
                    }
                },
                _ => {},
            }
        },
        _ => {},
    }
}

/// Evaluating a list of pure arithmetic expressions preserves the state,
/// and none of the values is a callable.
pub proof fn lemma_arith_seq_preserves_state(m: Machine, ns: Seq<Ast>, f: nat)
    requires
        forall|i: int| 0 <= i < ns.len() ==> arith(#[trigger] ns[i]),
    ensures
        match seval_seq(m, ns, f) {
            EvalSeq::Done(_, m1) => m1 == m,
            EvalSeq::Fail(_, m1) => m1 == m,
            EvalSeq::Spin => true,
        },
    decreases f, ns, 0int,
{
    if ns.len() > 0 {
        lemma_arith_preserves_state(m, ns[0], f);
        match seval(m, ns[0], f) {
            Eval::Done(v, m1) => {
                lemma_arith_seq_preserves_state(m1, ns.drop_first(), f);
            },
            _ => {},
        }
    }
}

/// The values of a list of pure arithmetic expressions contain no
/// callable.
pub proof fn lemma_arith_seq_values(m: Machine, ns: Seq<Ast>, f: nat)
    requires
        forall|i: int| 0 <= i < ns.len() ==> arith(#[trigger] ns[i]),
    ensures
        match seval_seq(m, ns, f) {
            EvalSeq::Done(vs, _) => forall|i: int| 0 <= i < vs.len() ==> !stateful(#[trigger] vs[i]),
            _ => true,
        },
    decreases f, ns, 1int,
{
    if ns.len() > 0 {
        lemma_arith_preserves_state(m, ns[0], f);
        match seval(m, ns[0], f) {
            Eval::Done(v, m1) => {
                lemma_arith_seq_values(m1, ns.drop_first(), f);
                match seval_seq(m1, ns.drop_first(), f) {
                    EvalSeq::Done(vs, _) => {
                        assert forall|i: int|
                            0 <= i < (seq![v] + vs).len() implies !stateful(
                            #[trigger] (seq![v] + vs)[i],
                        ) by {
                            if i > 0 {
                                assert((seq![v] + vs)[i] == vs[i - 1]);
                            }
                        }
                    },
                    _ => {},
                }
            },
            _ => {},
        }
    }
}

/// Evaluating a pure arithmetic expression twice, with nothing in
/// between, yields the identical outcome both times: the first
/// evaluation leaves the state unchanged, so the second runs from the
/// same state and — the semantics being a function of state, expression
/// and fuel — produces the same value.
pub proof fn lemma_arith_idempotent(m: Machine, a: Ast, f: nat, v: Val, m1: Machine)
    requires
        arith(a),
        seval(m, a, f) == Eval::Done(v, m1),
    ensures
        m1 == m,
        seval(m1, a, f) == Eval::Done(v, m1),
{
    lemma_arith_preserves_state(m, a, f);
}

/// After a successful `(set n e)` in a machine whose name `set` is still
/// bound to the assignment form, the name `n` evaluates to the value that
/// was bound, in the state the assignment left.
#[verifier::spinoff_prover]
pub proof fn lemma_set_then_get(m: Machine, n: Seq<char>, e: Ast, v: Val, m2: Machine, f: nat)
    requires
        m.env.contains_key("set"@),
        m.env["set"@] == Val::RustMacro(SpecialForm::Assign),
        seval(m, Ast::Expr(seq![Ast::Name("set"@), Ast::Name(n), e]), f) == Eval::Done(v, m2),
    ensures
        m2.env.contains_key(n),
        m2.env[n] == v,
        forall|g: nat| seval(m2, Ast::Name(n), g) == Eval::Done(v, m2),
{
    reveal_with_fuel(seval, 3);
    let ns = seq![Ast::Name("set"@), Ast::Name(n), e];
    assert(ns[0] == Ast::Name("set"@));
    assert(seval(m, ns[0], f) == Eval::Done(Val::RustMacro(SpecialForm::Assign), m));
    let args = ns.drop_first();
    assert(args =~= seq![Ast::Name(n), e]);
    assert(args[0] == Ast::Name(n));
    assert(args[1] == e);
    assert(seval(m, Ast::Expr(ns), f) == sform(m, SpecialForm::Assign, args, f));
    match seval(m, e, f) {
        Eval::Done(v1, m1) => {
            assert(m2 == (Machine { env: m1.env.insert(n, v1), ..m1 }));
            assert(v1 == v);
        },
        _ => {
            assert(false);
        },
    }
}

/// In a fresh interpreter's environment, any name other than the ten
/// initial bindings is unbound: evaluating it raises a `NameError` and
/// leaves the state untouched.
pub proof fn lemma_fresh_name_unbound(m: Machine, n: Seq<char>, f: nat)
    requires
        m.env == init_env(),
        n != "print"@ && n != "println"@ && n != "input"@ && n != "set"@ && n != "list"@,
        n != "block"@ && n != "if"@ && n != "while"@ && n != "true"@ && n != "false"@,
    ensures
        seval(m, Ast::Name(n), f) == Eval::Fail(ErrorKind::NameError, m),
{
    assert(!init_env().contains_key(n));
}

/// A `while` form whose condition does not evaluate to boolean true
/// yields `Null` in the state the condition evaluation left: nothing of
/// the body runs.
pub proof fn lemma_while_false_skips_body(
    m: Machine,
    ns: Seq<Ast>,
    v: Val,
    m1: Machine,
    f: nat,
)
    requires
        ns.len() >= 1,
        seval(m, ns[0], f) == Eval::Done(v, m1),
        v != Val::Bool(true),
    ensures
        sform(m, SpecialForm::While, ns, f) == Eval::Done(Val::Null, m1),
{
}


/// Every character of a decimal rendering is a digit, and there is at
/// least one.
proof fn lemma_dec_rep_digits(n: int)
    requires
        n >= 0,
    ensures
        dec_rep(n).len() >= 1,
        forall|j: int| 0 <= j < dec_rep(n).len() ==> is_digit(#[trigger] dec_rep(n)[j]),
    decreases n,
{
    if n < 10 {
        assert(dec_rep(n) == seq![digit_char(n)]);
        assert(is_digit(digit_char(n)));
    } else {
        lemma_dec_rep_digits(n / 10);
        assert(dec_rep(n) == dec_rep(n / 10).push(digit_char(n % 10)));
        assert(is_digit(digit_char(n % 10)));
        assert forall|j: int| 0 <= j < dec_rep(n).len() implies is_digit(
            #[trigger] dec_rep(n)[j],
        ) by {
            if j < dec_rep(n).len() - 1 {
                assert(dec_rep(n)[j] == dec_rep(n / 10)[j]);
            }
        }
    }
}

/// Reading back a decimal rendering gives the number it renders.
proof fn lemma_dec_val_dec_rep(n: int)
    requires
        n >= 0,
    ensures
        dec_val(dec_rep(n)) == n,
    decreases n,
{
    reveal_with_fuel(dec_val, 2);
    assert(dec_val(Seq::<char>::empty()) == 0);
    if n < 10 {
        assert(dec_rep(n) == seq![digit_char(n)]);
        assert(dec_rep(n).drop_last() =~= Seq::<char>::empty());
        assert(dec_rep(n).last() == digit_char(n));
        assert(digit_char(n) as u32 == 48 + n);
    } else {
        lemma_dec_val_dec_rep(n / 10);
        assert(dec_rep(n) == dec_rep(n / 10).push(digit_char(n % 10)));
        assert(dec_rep(n).drop_last() =~= dec_rep(n / 10));
        assert(dec_rep(n).last() == digit_char(n % 10));
        assert(digit_char(n % 10) as u32 == 48 + n % 10);
    }
}

/// A digit run that stops at a non-digit (or at the end) scans exactly to
/// its stop.
proof fn lemma_digits_run(src: Seq<char>, i: int, e: int)
    requires
        0 <= i <= e <= src.len(),
        forall|j: int| i <= j < e ==> is_digit(#[trigger] src[j]),
        e == src.len() || !is_digit(src[e]),
    ensures
        digits_end(src, i) == e,
    decreases e - i,
{
    if i < e {
        assert(is_digit(src[i]));
        lemma_digits_run(src, i + 1, e);
    }
}

/// The rendering of an integer lexes as one integer token covering it,
/// reads back as the same integer, and is followed by the end of input.
#[verifier::rlimit(80)]
#[verifier::spinoff_prover]
proof fn lemma_int_lexes(i: i64)
    ensures
        ({
            let rep = int_repr(i as int);
            let src = rep + seq!['\n'];
            let n = src.len() as int;
            &&& slex(src, 0) == Scan::Tok(TokenKind::Int, 0, n - 1, n - 1)
            &&& int_of_text(src.subrange(0, n - 1)) == Some(i)
            &&& slex(src, n - 1) == Scan::Tok(TokenKind::EOF, n, n, n)
        }),
{
    let rep = int_repr(i as int);
    let src = rep + seq!['\n'];
    let n = src.len() as int;
    assert(src[n - 1] == '\n');
    assert('\n' as u32 == 10);
    assert(!is_digit('\n'));
    assert(is_ws('\n'));
    if i >= 0 {
        lemma_dec_rep_digits(i as int);
        lemma_dec_val_dec_rep(i as int);
        assert(rep == dec_rep(i as int));
        assert forall|j: int| 0 <= j < n - 1 implies is_digit(#[trigger] src[j]) by {
            assert(src[j] == rep[j]);
        }
        assert(is_digit(src[0]));
        assert(!is_ws(src[0]));
        lemma_digits_run(src, 0, n - 1);
        assert(slex(src, 0) == Scan::Tok(TokenKind::Int, 0, n - 1, n - 1));
        let content = src.subrange(0, n - 1);
        assert(content =~= rep);
        assert(content.len() > 0 && is_digit(content[0]));
        assert('-' as u32 == 45 && '+' as u32 == 43);
        assert(content[0] != '-' && content[0] != '+');
        assert(int_of_text(content) == Some(i));
    } else {
        let m = -(i as int);
        lemma_dec_rep_digits(m);
        lemma_dec_val_dec_rep(m);
        assert(rep == seq!['-'] + dec_rep(m));
        assert(src[0] == '-');
        assert('-' as u32 == 45);
        assert(!is_ws('-') && !is_digit('-') && !is_name_start('-'));
        assert forall|j: int| 1 <= j < n - 1 implies is_digit(#[trigger] src[j]) by {
            assert(src[j] == rep[j]);
            assert(rep[j] == dec_rep(m)[j - 1]);
        }
        assert(is_digit(src[1]));
        lemma_digits_run(src, 1, n - 1);
        assert(slex(src, 0) == Scan::Tok(TokenKind::Int, 0, n - 1, n - 1));
        let content = src.subrange(0, n - 1);
        assert(content =~= rep);
        assert(content[0] == '-');
        assert(content.drop_first() =~= dec_rep(m));
        assert(int_of_text(content) == Some(i));
    }
    reveal_with_fuel(slex, 2);
    assert(slex(src, n - 1) == Scan::Tok(TokenKind::EOF, n, n, n));
}

/// Re-parsing the rendering of an integer literal gives the same tree:
/// the round trip through `to_source` and `to_ast`, proved for a program
/// of one integer atom (with the newline a read line carries).
#[verifier::rlimit(80)]
#[verifier::spinoff_prover]
pub proof fn lemma_int_round_trip(i: i64)
    ensures
        sparse_program(ast_src(Ast::Int(i)) + seq!['\n']) == Ok::<Seq<Ast>, ()>(
            seq![Ast::Int(i)],
        ),
{
    let rep = int_repr(i as int);
    let src = rep + seq!['\n'];
    let n = src.len() as int;
    assert(ast_src(Ast::Int(i)) == rep);
    lemma_int_lexes(i);
    let t0 = PTok { kind: TokenKind::Int, start: 0, end: n - 1, next: n - 1 };
    assert(lex_at(src, 0) == Ok::<PTok, int>(t0));
    assert(tok_ok(src, t0));
    let t2 = PTok { kind: TokenKind::EOF, start: n, end: n, next: n };
    assert(lex_at(src, n - 1) == Ok::<PTok, int>(t2));
    assert(src.subrange(t0.start, t0.end) =~= src.subrange(0, n - 1));
    assert(sparse_atom(src, t0) == Ok::<(Ast, PTok), ()>((Ast::Int(i), t2)));
    assert(sparse_expr(src, t0) == Ok::<(Ast, PTok), ()>((Ast::Int(i), t2)));
    assert(tok_ok(src, t2));
    assert(pm(src, t2) < pm(src, t0));
    reveal_with_fuel(sparse_exprs, 2);
    assert(sparse_exprs(src, t2) == Ok::<(Seq<Ast>, PTok), ()>((Seq::empty(), t2)));
    assert(seq![Ast::Int(i)] + Seq::<Ast>::empty() =~= seq![Ast::Int(i)]);
    assert(sparse_exprs(src, t0) == Ok::<(Seq<Ast>, PTok), ()>((seq![Ast::Int(i)], t2)));
}


/// A name run that stops at a non-name character (or at the end) scans
/// exactly to its stop.
proof fn lemma_name_run(src: Seq<char>, i: int, e: int)
    requires
        0 <= i <= e <= src.len(),
        forall|j: int| i <= j < e ==> is_name_char(#[trigger] src[j]),
        e == src.len() || !is_name_char(src[e]),
    ensures
        name_end(src, i) == e,
    decreases e - i,
{
    if i < e {
        assert(is_name_char(src[i]));
        lemma_name_run(src, i + 1, e);
    }
}

/// A program holding one atom, whose token ends one short of the end of
/// the source, parses to exactly that atom.
proof fn lemma_single_atom_program(src: Seq<char>, t0: PTok, a: Ast)
    requires
        lex_at(src, 0) == Ok::<PTok, int>(t0),
        tok_ok(src, t0),
        !(t0.kind is EOF),
        t0.next < src.len(),
        sparse_expr(src, t0) == Ok::<(Ast, PTok), ()>(
            (a, PTok { kind: TokenKind::EOF, start: src.len() as int, end: src.len() as int, next: src.len() as int }),
        ),
    ensures
        sparse_program(src) == Ok::<Seq<Ast>, ()>(seq![a]),
{
    let n = src.len() as int;
    let t2 = PTok { kind: TokenKind::EOF, start: n, end: n, next: n };
    assert(tok_ok(src, t2));
    assert(pm(src, t2) < pm(src, t0));
    reveal_with_fuel(sparse_exprs, 2);
    assert(sparse_exprs(src, t2) == Ok::<(Seq<Ast>, PTok), ()>((Seq::empty(), t2)));
    assert(seq![a] + Seq::<Ast>::empty() =~= seq![a]);
    assert(sparse_exprs(src, t0) == Ok::<(Seq<Ast>, PTok), ()>((seq![a], t2)));
}

/// Re-parsing the rendering of an operator gives the same tree.
#[verifier::rlimit(80)]
#[verifier::spinoff_prover]
pub proof fn lemma_operator_round_trip(op: crate::ast::Op)
    ensures
        sparse_program(ast_src(Ast::Operator(op)) + seq!['\n']) == Ok::<Seq<Ast>, ()>(
            seq![Ast::Operator(op)],
        ),
{
    let c = op_char(op);
    let src = ast_src(Ast::Operator(op)) + seq!['\n'];
    assert(src.len() == 2);
    assert(src[0] == c);
    assert(src[1] == '\n');
    assert('\n' as u32 == 10 && !is_digit('\n') && is_ws('\n'));
    assert('+' as u32 == 43 && '-' as u32 == 45 && '*' as u32 == 42 && '/' as u32 == 47);
    assert('=' as u32 == 61 && '>' as u32 == 62 && '<' as u32 == 60);
    assert(!is_ws(c) && !is_digit(c) && !is_name_start(c));
    assert(slex(src, 0) == Scan::Tok(TokenKind::Operator, 0, 1, 1));
    reveal_with_fuel(slex, 2);
    assert(slex(src, 1) == Scan::Tok(TokenKind::EOF, 2, 2, 2));
    let t0 = PTok { kind: TokenKind::Operator, start: 0, end: 1, next: 1 };
    assert(lex_at(src, 0) == Ok::<PTok, int>(t0));
    assert(tok_ok(src, t0));
    let t2 = PTok { kind: TokenKind::EOF, start: 2, end: 2, next: 2 };
    assert(op_of_char(op_char(op)) == op);
    assert(sparse_atom(src, t0) == Ok::<(Ast, PTok), ()>((Ast::Operator(op), t2)));
    assert(sparse_expr(src, t0) == Ok::<(Ast, PTok), ()>((Ast::Operator(op), t2)));
    lemma_single_atom_program(src, t0, Ast::Operator(op));
}

/// Re-parsing the rendering of a well-formed name — nonempty, opening
/// with a letter or underscore, continuing with letters, digits and
/// underscores, as every name the parser produces does — gives the same
/// tree.
#[verifier::rlimit(80)]
#[verifier::spinoff_prover]
pub proof fn lemma_name_round_trip(s: Seq<char>)
    requires
        s.len() >= 1,
        is_name_start(s[0]),
        forall|j: int| 0 <= j < s.len() ==> is_name_char(#[trigger] s[j]),
    ensures
        sparse_program(ast_src(Ast::Name(s)) + seq!['\n']) == Ok::<Seq<Ast>, ()>(
            seq![Ast::Name(s)],
        ),
{
    let src = ast_src(Ast::Name(s)) + seq!['\n'];
    let n = src.len() as int;
    assert(n == s.len() + 1);
    assert(src[n - 1] == '\n');
    assert('\n' as u32 == 10 && !is_name_char('\n') && is_ws('\n'));
    assert forall|j: int| 0 <= j < n - 1 implies is_name_char(#[trigger] src[j]) by {
        assert(src[j] == s[j]);
    }
    assert(src[0] == s[0]);
    assert(!is_ws(src[0]) && !is_digit(src[0]));
    lemma_name_run(src, 1, n - 1);
    assert(slex(src, 0) == Scan::Tok(TokenKind::Name, 0, n - 1, n - 1));
    reveal_with_fuel(slex, 2);
    assert(slex(src, n - 1) == Scan::Tok(TokenKind::EOF, n, n, n));
    let t0 = PTok { kind: TokenKind::Name, start: 0, end: n - 1, next: n - 1 };
    assert(lex_at(src, 0) == Ok::<PTok, int>(t0));
    assert(tok_ok(src, t0));
    let t2 = PTok { kind: TokenKind::EOF, start: n, end: n, next: n };
    assert(src.subrange(0, n - 1) =~= s);
    assert(sparse_atom(src, t0) == Ok::<(Ast, PTok), ()>((Ast::Name(s), t2)));
    assert(sparse_expr(src, t0) == Ok::<(Ast, PTok), ()>((Ast::Name(s), t2)));
    lemma_single_atom_program(src, t0, Ast::Name(s));
}

/// Re-parsing the rendering of a string literal that holds no quote —
/// as every string the parser produces does — gives the same tree.
#[verifier::rlimit(80)]
#[verifier::spinoff_prover]
pub proof fn lemma_str_round_trip(s: Seq<char>)
    requires
        forall|j: int| 0 <= j < s.len() ==> #[trigger] s[j] != '"',
    ensures
        sparse_program(ast_src(Ast::Str(s)) + seq!['\n']) == Ok::<Seq<Ast>, ()>(
            seq![Ast::Str(s)],
        ),
{
    let src = ast_src(Ast::Str(s)) + seq!['\n'];
    let n = src.len() as int;
    assert(n == s.len() + 3);
    assert(src[0] == '"');
    assert(src[n - 2] == '"');
    assert(src[n - 1] == '\n');
    assert('"' as u32 == 34 && '\n' as u32 == 10);
    assert(!is_ws('"') && !is_digit('"') && !is_name_start('"'));
    assert(is_ws('\n'));
    assert forall|j: int| 1 <= j < n - 2 implies #[trigger] src[j] != '"' by {
        assert(src[j] == s[j - 1]);
    }
    lemma_quote_run(src, 1, n - 2);
    assert(slex(src, 0) == Scan::Tok(TokenKind::Str, 1, n - 2, n - 1));
    reveal_with_fuel(slex, 2);
    assert(slex(src, n - 1) == Scan::Tok(TokenKind::EOF, n, n, n));
    let t0 = PTok { kind: TokenKind::Str, start: 1, end: n - 2, next: n - 1 };
    assert(lex_at(src, 0) == Ok::<PTok, int>(t0));
    assert(tok_ok(src, t0));
    let t2 = PTok { kind: TokenKind::EOF, start: n, end: n, next: n };
    assert(src.subrange(1, n - 2) =~= s);
    assert(sparse_atom(src, t0) == Ok::<(Ast, PTok), ()>((Ast::Str(s), t2)));
    assert(sparse_expr(src, t0) == Ok::<(Ast, PTok), ()>((Ast::Str(s), t2)));
    lemma_single_atom_program(src, t0, Ast::Str(s));
}

/// A quote search that stops at a quote scans exactly to it.
proof fn lemma_quote_run(src: Seq<char>, i: int, e: int)
    requires
        0 <= i <= e < src.len(),
        forall|j: int| i <= j < e ==> #[trigger] src[j] != '"',
        src[e] == '"',
    ensures
        quote_end(src, i) == e,
    decreases e - i,
{
    if i < e {
        lemma_quote_run(src, i + 1, e);
    }
}

} // verus!
