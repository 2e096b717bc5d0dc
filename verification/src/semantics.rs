//! The meaning of evaluation, as a fuel-indexed specification interpreter.
//!
//! `seval` gives the outcome of evaluating one node against a [`Machine`]:
//! the environment, the text written so far, and the queued input lines.
//! All recursion is structural except the `while` form, which consumes one
//! unit of fuel per iteration; `Spin` is the outcome of running out of
//! fuel, so a result other than `Spin` is the true outcome (larger fuel
//! gives the same answer: see the monotonicity lemmas).

use vstd::prelude::*;
use crate::ast::{Ast, Op};
use crate::binop::{s_binop, is_relational};
use crate::runtime::ErrorKind;
use crate::value::{Val, NativeFn, SpecialForm, joined};

verus! {

/// The interpreter's whole state, mathematically: the name bindings, the
/// output text accumulated so far, and the input lines not yet consumed.
pub struct Machine {
    pub env: Map<Seq<char>, Val>,
    pub out: Seq<char>,
    pub inputs: Seq<Seq<char>>,
}

/// The outcome of evaluating one node.
pub enum Eval {
    /// Evaluation finished with this value, leaving this state.
    Done(Val, Machine),
    /// Evaluation raised an error of this kind, leaving this state.
    Fail(ErrorKind, Machine),
    /// The fuel ran out inside a `while` form.
    Spin,
}

/// The outcome of evaluating a list of nodes left to right.
pub enum EvalSeq {
    Done(Seq<Val>, Machine),
    Fail(ErrorKind, Machine),
    Spin,
}

/// How a native function's returned values collapse into one result:
/// none is `Null`, one is itself, several are a list.
pub open spec fn collapse(vs: Seq<Val>) -> Val {
    if vs.len() == 0 {
        Val::Null
    } else if vs.len() == 1 {
        vs[0]
    } else {
        Val::List(vs)
    }
}

/// The value of a `block`: the last value, or `Null` if there was none.
pub open spec fn blockval(vs: Seq<Val>) -> Val {
    if vs.len() == 0 {
        Val::Null
    } else {
        vs.last()
    }
}

/// What a native function does: the values it returns and the state it
/// leaves.  `print` and `println` write their arguments' display forms,
/// space-separated; `input` writes its arguments as a prompt and takes the
/// next queued input line, or the empty string if none is queued.
pub open spec fn snative(m: Machine, f: NativeFn, args: Seq<Val>) -> (Seq<Val>, Machine) {
    match f {
        NativeFn::Print => (Seq::empty(), Machine { out: m.out + joined(args), ..m }),
        NativeFn::Println => (
            Seq::empty(),
            Machine { out: m.out + joined(args) + seq!['\n'], ..m },
        ),
        NativeFn::Input => if m.inputs.len() > 0 {
            (
                seq![Val::Str(m.inputs[0])],
                Machine { out: m.out + joined(args), inputs: m.inputs.drop_first(), ..m },
            )
        } else {
            (seq![Val::Str(Seq::empty())], Machine { out: m.out + joined(args), ..m })
        },
    }
}

/// The left fold of an arithmetic operator over the arguments after the
/// first.
pub open spec fn s_fold(acc: Val, rest: Seq<Val>, op: Op) -> Result<Val, ErrorKind>
    decreases rest,
{
    if rest.len() == 0 {
        Ok(acc)
    } else {
        match s_binop(acc, rest[0], op) {
            Ok(v) => s_fold(v, rest.drop_first(), op),
            Err(k) => Err(k),
        }
    }
}

/// The chained application of a relational operator: the conjunction of
/// the comparisons over each adjacent pair.  Fewer than two arguments
/// compare vacuously true.
pub open spec fn s_chain(args: Seq<Val>, op: Op) -> Result<Val, ErrorKind>
    decreases args,
{
    if args.len() < 2 {
        Ok(Val::Bool(true))
    } else {
        match s_binop(args[0], args[1], op) {
            Ok(v) => {
                let here = match v {
                    Val::Bool(b) => b,
                    _ => true,
                };
                match s_chain(args.drop_first(), op) {
                    Ok(Val::Bool(rest)) => Ok(Val::Bool(here && rest)),
                    r => r,
                }
            },
            Err(k) => Err(k),
        }
    }
}


/// A relational chain yields a boolean wherever it does not err.
pub proof fn lemma_s_chain_shape(args: Seq<Val>, op: Op)
    ensures
        match s_chain(args, op) {
            Ok(v) => v is Bool,
            Err(_) => true,
        },
    decreases args,
{
    if args.len() >= 2 {
        lemma_s_chain_shape(args.drop_first(), op);
    }
}

/// What an operator applied to evaluated arguments yields: the fold for
/// the arithmetic operators (at least one argument required), the chain
/// for the relational ones.
pub open spec fn s_call_op(op: Op, args: Seq<Val>) -> Result<Val, ErrorKind> {
    if is_relational(op) {
        s_chain(args, op)
    } else if args.len() == 0 {
        Err(ErrorKind::TypeError)
    } else {
        s_fold(args[0], args.drop_first(), op)
    }
}

/// The outcome of evaluating one node.
pub open spec fn seval(m: Machine, node: Ast, fuel: nat) -> Eval
    decreases fuel, node, 3int,
{
    match node {
        Ast::Int(i) => Eval::Done(Val::Int(i), m),
        Ast::Float(b) => Eval::Done(Val::Float(b), m),
        Ast::Str(s) => Eval::Done(Val::Str(s), m),
        Ast::Operator(op) => Eval::Done(Val::Operator(op), m),
        Ast::Symbol(s) => Eval::Done(Val::Symbol(s), m),
        Ast::Name(s) => if m.env.contains_key(s) {
            Eval::Done(m.env[s], m)
        } else {
            Eval::Fail(ErrorKind::NameError, m)
        },
        Ast::List(ns) => match seval_seq(m, ns, fuel) {
            EvalSeq::Done(vs, m1) => Eval::Done(Val::List(vs), m1),
            EvalSeq::Fail(k, m1) => Eval::Fail(k, m1),
            EvalSeq::Spin => Eval::Spin,
        },
        Ast::Expr(ns) => if ns.len() == 0 {
            Eval::Fail(ErrorKind::ValueError, m)
        } else {
            match seval(m, ns[0], fuel) {
                Eval::Done(h, m1) => match h {
                    Val::RustMacro(form) => sform(m1, form, ns.drop_first(), fuel),
                    _ => match seval_seq(m1, ns.drop_first(), fuel) {
                        EvalSeq::Done(args, m2) => match h {
                            Val::RustFn(f) => {
                                let (vs, m3) = snative(m2, f, args);
                                Eval::Done(collapse(vs), m3)
                            },
                            Val::Operator(op) => match s_call_op(op, args) {
                                Ok(v) => Eval::Done(v, m2),
                                Err(k) => Eval::Fail(k, m2),
                            },
                            _ => Eval::Fail(ErrorKind::TypeError, m2),
                        },
                        EvalSeq::Fail(k, m2) => Eval::Fail(k, m2),
                        EvalSeq::Spin => Eval::Spin,
                    },
                },
                Eval::Fail(k, m1) => Eval::Fail(k, m1),
                Eval::Spin => Eval::Spin,
            }
        },
    }
}

/// The outcome of evaluating each node left to right.
pub open spec fn seval_seq(m: Machine, ns: Seq<Ast>, fuel: nat) -> EvalSeq
    decreases fuel, ns, 0int,
{
    if ns.len() == 0 {
        EvalSeq::Done(Seq::empty(), m)
    } else {
        match seval(m, ns[0], fuel) {
            Eval::Done(v, m1) => match seval_seq(m1, ns.drop_first(), fuel) {
                EvalSeq::Done(vs, m2) => EvalSeq::Done(seq![v] + vs, m2),
                r => r,
            },
            Eval::Fail(k, m1) => EvalSeq::Fail(k, m1),
            Eval::Spin => EvalSeq::Spin,
        }
    }
}

/// The outcome of a special form applied to the raw argument nodes.
pub open spec fn sform(m: Machine, form: SpecialForm, args: Seq<Ast>, fuel: nat) -> Eval
    decreases fuel, args, 2int,
{
    match form {
        SpecialForm::Assign => if args.len() != 2 {
            Eval::Fail(ErrorKind::ValueError, m)
        } else {
            match args[0] {
                Ast::Name(name) => match seval(m, args[1], fuel) {
                    Eval::Done(v, m1) => Eval::Done(
                        v,
                        Machine { env: m1.env.insert(name, v), ..m1 },
                    ),
                    r => r,
                },
                _ => Eval::Fail(ErrorKind::ValueError, m),
            }
        },
        SpecialForm::ListForm => match seval_seq(m, args, fuel) {
            EvalSeq::Done(vs, m1) => Eval::Done(Val::List(vs), m1),
            EvalSeq::Fail(k, m1) => Eval::Fail(k, m1),
            EvalSeq::Spin => Eval::Spin,
        },
        SpecialForm::Block => match seval_seq(m, args, fuel) {
            EvalSeq::Done(vs, m1) => Eval::Done(blockval(vs), m1),
            EvalSeq::Fail(k, m1) => Eval::Fail(k, m1),
            EvalSeq::Spin => Eval::Spin,
        },
        SpecialForm::If => if args.len() != 2 && args.len() != 3 {
            Eval::Fail(ErrorKind::ValueError, m)
        } else {
            match seval(m, args[0], fuel) {
                Eval::Done(Val::Bool(true), m1) => seval(m1, args[1], fuel),
                Eval::Done(Val::Bool(false), m1) => if args.len() == 3 {
                    seval(m1, args[2], fuel)
                } else {
                    Eval::Done(Val::Null, m1)
                },
                Eval::Done(_, m1) => Eval::Fail(ErrorKind::TypeError, m1),
                r => r,
            }
        },
        SpecialForm::While => if args.len() < 1 {
            Eval::Fail(ErrorKind::ValueError, m)
        } else {
            swhile(m, args, Val::Null, fuel)
        },
    }
}

/// The outcome of the `while` form: as long as the first node evaluates to
/// boolean true, the whole node list (condition included) runs as a block;
/// the result is the last completed block's value, or the starting `prev`
/// (initially `Null`) if the loop never ran.
pub open spec fn swhile(m: Machine, ns: Seq<Ast>, prev: Val, fuel: nat) -> Eval
    decreases fuel, ns, 1int,
{
    if ns.len() == 0 {
        Eval::Done(prev, m)
    } else {
        match seval(m, ns[0], fuel) {
        Eval::Done(Val::Bool(true), m1) => match seval_seq(m1, ns, fuel) {
            EvalSeq::Done(vs, m2) => if fuel == 0 {
                Eval::Spin
            } else {
                swhile(m2, ns, blockval(vs), (fuel - 1) as nat)
            },
            EvalSeq::Fail(k, m2) => Eval::Fail(k, m2),
            EvalSeq::Spin => Eval::Spin,
        },
        Eval::Done(_, m1) => Eval::Done(prev, m1),
        Eval::Fail(k, m1) => Eval::Fail(k, m1),
        Eval::Spin => Eval::Spin,
        }
    }
}

/// The bindings a fresh interpreter starts with: the standard library, the
/// special forms, and the two boolean literals.
pub open spec fn init_env() -> Map<Seq<char>, Val> {
    Map::empty().insert("print"@, Val::RustFn(NativeFn::Print)).insert(
        "println"@,
        Val::RustFn(NativeFn::Println),
    ).insert("input"@, Val::RustFn(NativeFn::Input)).insert(
        "set"@,
        Val::RustMacro(SpecialForm::Assign),
    ).insert("list"@, Val::RustMacro(SpecialForm::ListForm)).insert(
        "block"@,
        Val::RustMacro(SpecialForm::Block),
    ).insert("if"@, Val::RustMacro(SpecialForm::If)).insert(
        "while"@,
        Val::RustMacro(SpecialForm::While),
    ).insert("true"@, Val::Bool(true)).insert("false"@, Val::Bool(false))
}

/// A settled outcome does not change when more fuel is available.
pub proof fn lemma_seval_mono(m: Machine, node: Ast, f: nat, g: nat)
    requires
        f <= g,
        !(seval(m, node, f) is Spin),
    ensures
        seval(m, node, g) == seval(m, node, f),
    decreases f, node, 3int,
{
    match node {
        Ast::List(ns) => {
            lemma_seval_seq_mono(m, ns, f, g);
        },
        Ast::Expr(ns) => {
            if ns.len() > 0 {
                lemma_seval_mono(m, ns[0], f, g);
                match seval(m, ns[0], f) {
                    Eval::Done(h, m1) => match h {
                        Val::RustMacro(form) => {
                            lemma_sform_mono(m1, form, ns.drop_first(), f, g);
                        },
                        _ => {
                            lemma_seval_seq_mono(m1, ns.drop_first(), f, g);
                        },
                    },
                    _ => {},
                }
            }
        },
        _ => {},
    }
}

/// A settled outcome of a node list does not change with more fuel.
pub proof fn lemma_seval_seq_mono(m: Machine, ns: Seq<Ast>, f: nat, g: nat)
    requires
        f <= g,
        !(seval_seq(m, ns, f) is Spin),
    ensures
        seval_seq(m, ns, g) == seval_seq(m, ns, f),
    decreases f, ns, 0int,
{
    if ns.len() > 0 {
        lemma_seval_mono(m, ns[0], f, g);
        match seval(m, ns[0], f) {
            Eval::Done(v, m1) => {
                lemma_seval_seq_mono(m1, ns.drop_first(), f, g);
            },
            _ => {},
        }
    }
}

/// A settled outcome of a special form does not change with more fuel.
pub proof fn lemma_sform_mono(m: Machine, form: SpecialForm, args: Seq<Ast>, f: nat, g: nat)
    requires
        f <= g,
        !(sform(m, form, args, f) is Spin),
    ensures
        sform(m, form, args, g) == sform(m, form, args, f),
    decreases f, args, 2int,
{
    match form {
        SpecialForm::Assign => {
            if args.len() == 2 {
                match args[0] {
                    Ast::Name(_) => {
                        lemma_seval_mono(m, args[1], f, g);
                    },
                    _ => {},
                }
            }
        },
        SpecialForm::ListForm => {
            lemma_seval_seq_mono(m, args, f, g);
        },
        SpecialForm::Block => {
            lemma_seval_seq_mono(m, args, f, g);
        },
        SpecialForm::If => {
            if args.len() == 2 || args.len() == 3 {
                lemma_seval_mono(m, args[0], f, g);
                match seval(m, args[0], f) {
                    Eval::Done(Val::Bool(true), m1) => {
                        lemma_seval_mono(m1, args[1], f, g);
                    },
                    Eval::Done(Val::Bool(false), m1) => {
                        if args.len() == 3 {
                            lemma_seval_mono(m1, args[2], f, g);
                        }
                    },
                    _ => {},
                }
            }
        },
        SpecialForm::While => {
            if args.len() >= 1 {
                lemma_swhile_mono(m, args, Val::Null, f, g);
            }
        },
    }
}

/// A settled outcome of the `while` form does not change with more fuel.
pub proof fn lemma_swhile_mono(m: Machine, ns: Seq<Ast>, prev: Val, f: nat, g: nat)
    requires
        f <= g,
        !(swhile(m, ns, prev, f) is Spin),
    ensures
        swhile(m, ns, prev, g) == swhile(m, ns, prev, f),
    decreases f, ns, 1int,
{
    if ns.len() > 0 {
        lemma_seval_mono(m, ns[0], f, g);
        match seval(m, ns[0], f) {
            Eval::Done(Val::Bool(true), m1) => {
                lemma_seval_seq_mono(m1, ns, f, g);
                match seval_seq(m1, ns, f) {
                    EvalSeq::Done(vs, m2) => {
                        lemma_swhile_mono(m2, ns, blockval(vs), (f - 1) as nat, (g - 1) as nat);
                    },
                    _ => {},
                }
            },
            _ => {},
        }
    }
}

} // verus!
