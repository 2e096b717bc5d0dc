//! The interpreter: one persistent environment, an output buffer, and a
//! queue of input lines, together with the evaluator over AST nodes.
//!
//! The interpreter performs no I/O itself.  `print` and `println` append
//! to the output buffer, which the embedder drains with
//! [`Interpreter::take_output`]; `input` consumes a line queued with
//! [`Interpreter::queue_input`] (an empty queue yields the empty string).

use vstd::prelude::*;
use vstd::string::*;
use crate::ast::{AstNode, Ast, Op, asts_of, lemma_asts_of};
use crate::env::{map_of, keys_unique, lemma_map_of, lemma_map_of_push, lemma_map_of_update};
use crate::runtime::{ErrorKind, RuntimeError};
use crate::semantics::{
    Machine,
    Eval,
    EvalSeq,
    collapse,
    blockval,
    snative,
    s_fold,
    s_chain,
    s_call_op,
    seval,
    seval_seq,
    sform,
    swhile,
    init_env,
    lemma_seval_mono,
    lemma_seval_seq_mono,
    lemma_sform_mono,
    lemma_swhile_mono,
};
use crate::binop::{s_binop, is_relational};
use crate::text::{push_char, push_dec};
use crate::value::{
    Val,
    Value,
    NativeFn,
    SpecialForm,
    vals_of,
    lemma_vals_of,
    lemma_vals_of_push,
    strs_of,
    lemma_strs_of,
    lemma_strs_of_push,
    push_joined,
    joined,
};

verus! {

/// The interpreter: a single flat environment seeded with the standard
/// library, plus the output buffer and the input queue.
pub struct Interpreter {
    frame: Vec<(String, Value)>,
    out: String,
    inputs: Vec<String>,
}

impl View for Interpreter {
    type V = Machine;

    closed spec fn view(&self) -> Machine {
        Machine { env: map_of(self.frame@), out: self.out@, inputs: strs_of(self.inputs@) }
    }
}

impl Interpreter {
    /// The internal invariant: no name is bound twice in the table.
    pub closed spec fn wf(&self) -> bool {
        keys_unique(self.frame@)
    }

    /// Creates a new interpreter, with the environment pre-populated with
    /// the standard library, the special forms, and `true`/`false`.
    pub fn new() -> (r: Self)
        ensures
            r.wf(),
            r@ == (Machine {
                env: init_env(),
                out: Seq::<char>::empty(),
                inputs: Seq::<Seq<char>>::empty(),
            }),
    {
        let mut frame: Vec<(String, Value)> = Vec::new();
        frame.push((String::from_str("print"), Value::RustFn(NativeFn::Print)));
        frame.push((String::from_str("println"), Value::RustFn(NativeFn::Println)));
        frame.push((String::from_str("input"), Value::RustFn(NativeFn::Input)));
        frame.push((String::from_str("set"), Value::RustMacro(SpecialForm::Assign)));
        frame.push((String::from_str("list"), Value::RustMacro(SpecialForm::ListForm)));
        frame.push((String::from_str("block"), Value::RustMacro(SpecialForm::Block)));
        frame.push((String::from_str("if"), Value::RustMacro(SpecialForm::If)));
        frame.push((String::from_str("while"), Value::RustMacro(SpecialForm::While)));
        frame.push((String::from_str("true"), Value::Bool(true)));
        frame.push((String::from_str("false"), Value::Bool(false)));
        let r = Interpreter { frame, out: String::new(), inputs: Vec::new() };
        proof {
            reveal_strlit("print");
            reveal_strlit("println");
            reveal_strlit("input");
            reveal_strlit("set");
            reveal_strlit("list");
            reveal_strlit("block");
            reveal_strlit("if");
            reveal_strlit("while");
            reveal_strlit("true");
            reveal_strlit("false");
            let e = r.frame@;
            assert(e.len() == 10);
            assert(e[0].0@ == "print"@);
            assert(e[1].0@ == "println"@);
            assert(e[2].0@ == "input"@);
            assert(e[3].0@ == "set"@);
            assert(e[4].0@ == "list"@);
            assert(e[5].0@ == "block"@);
            assert(e[6].0@ == "if"@);
            assert(e[7].0@ == "while"@);
            assert(e[8].0@ == "true"@);
            assert(e[9].0@ == "false"@);
            assert forall|p: int, q: int| 0 <= p < q < e.len() implies #[trigger] e[p].0@
                != #[trigger] e[q].0@ by {
                assert(e[p].0@.len() != e[q].0@.len() || e[p].0@[0] != e[q].0@[0] || e[p].0@[1]
                    != e[q].0@[1]);
            }
            assert(map_of(e) =~= init_env()) by {
                lemma_map_of_push(e.take(0), e[0]);
                lemma_map_of_push(e.take(1), e[1]);
                lemma_map_of_push(e.take(2), e[2]);
                lemma_map_of_push(e.take(3), e[3]);
                lemma_map_of_push(e.take(4), e[4]);
                lemma_map_of_push(e.take(5), e[5]);
                lemma_map_of_push(e.take(6), e[6]);
                lemma_map_of_push(e.take(7), e[7]);
                lemma_map_of_push(e.take(8), e[8]);
                lemma_map_of_push(e.take(9), e[9]);
                assert(e.take(0).push(e[0]) =~= e.take(1));
                assert(e.take(1).push(e[1]) =~= e.take(2));
                assert(e.take(2).push(e[2]) =~= e.take(3));
                assert(e.take(3).push(e[3]) =~= e.take(4));
                assert(e.take(4).push(e[4]) =~= e.take(5));
                assert(e.take(5).push(e[5]) =~= e.take(6));
                assert(e.take(6).push(e[6]) =~= e.take(7));
                assert(e.take(7).push(e[7]) =~= e.take(8));
                assert(e.take(8).push(e[8]) =~= e.take(9));
                assert(e.take(9).push(e[9]) =~= e);
                assert(map_of(e.take(0)) =~= Map::<Seq<char>, Val>::empty());
            }
            assert(r@.inputs =~= Seq::<Seq<char>>::empty());
            assert(r@ =~~= (Machine {
                env: init_env(),
                out: Seq::<char>::empty(),
                inputs: Seq::<Seq<char>>::empty(),
            }));
        }
        r
    }

    /// The value bound to `name`, or a `NameError` if the name is not
    /// bound.
    pub fn get_name(&self, name: &str) -> (r: Result<Value, RuntimeError>)
        requires
            self.wf(),
        ensures
            match r {
                Ok(v) => self@.env.contains_key(name@) && v@ == self@.env[name@],
                Err(e) => !self@.env.contains_key(name@) && e.kind == ErrorKind::NameError,
            },
    {
        proof {
            lemma_map_of(self.frame@);
        }
        let key = name.to_owned();
        let n = self.frame.len();
        let mut i: usize = 0;
        while i < n
            invariant
                self.wf(),
                n == self.frame@.len(),
                i <= n,
                key@ == name@,
                forall|j: int| 0 <= j < i ==> #[trigger] self.frame@[j].0@ != name@,
            decreases n - i,
        {
            if self.frame[i].0 == key {
                proof {
                    lemma_map_of(self.frame@);
                    assert forall|j: int|
                        i < j < self.frame@.len() implies #[trigger] self.frame@[j].0@
                        != self.frame@[i as int].0@ by {}
                }
                return Ok(self.frame[i].1.clone());
            }
            i += 1;
        }
        proof {
            if self@.env.contains_key(name@) {
                let j = choose|j: int|
                    0 <= j < self.frame@.len() && #[trigger] self.frame@[j].0@ == name@;
            }
        }
        let mut msg = name.to_owned();
        msg.append(" is not defined");
        Err(RuntimeError { kind: ErrorKind::NameError, msg })
    }

    /// Binds `name` to `value`, replacing any existing binding.
    pub fn set_name(&mut self, name: &str, value: Value)
        requires
            old(self).wf(),
        ensures
            final(self).wf(),
            final(self)@ == (Machine { env: old(self)@.env.insert(name@, value@), ..old(self)@ }),
    {
        let key = name.to_owned();
        let n = self.frame.len();
        let mut i: usize = 0;
        while i < n
            invariant
                self.wf(),
                self == old(self),
                n == self.frame@.len(),
                i <= n,
                key@ == name@,
                forall|j: int| 0 <= j < i ==> #[trigger] self.frame@[j].0@ != name@,
            decreases n - i,
        {
            if self.frame[i].0 == key {
                let ghost entries = self.frame@;
                self.frame[i] = (key, value);
                proof {
                    assert(self.frame@ =~= entries.update(i as int, self.frame@[i as int]));
                    assert forall|p: int, q: int|
                        0 <= p < q < self.frame@.len() implies #[trigger] self.frame@[p].0@
                        != #[trigger] self.frame@[q].0@ by {
                        assert(entries[p].0@ != entries[q].0@);
                        if p != i && q != i {
                            assert(self.frame@[p] == entries[p]);
                            assert(self.frame@[q] == entries[q]);
                        }
                    }
                    assert forall|j: int|
                        i < j < entries.len() implies #[trigger] entries[j].0@
                        != entries[i as int].0@ by {}
                    lemma_map_of_update(entries, i as int, self.frame@[i as int]);
                    assert(final(self)@ =~~= (Machine {
                        env: old(self)@.env.insert(name@, value@),
                        ..old(self)@
                    }));
                }
                return ;
            }
            i += 1;
        }
        let ghost entries = self.frame@;
        self.frame.push((key, value));
        proof {
            assert forall|p: int, q: int|
                0 <= p < q < self.frame@.len() implies #[trigger] self.frame@[p].0@
                != #[trigger] self.frame@[q].0@ by {
                if q < entries.len() {
                    assert(entries[p].0@ != entries[q].0@);
                } else {
                    assert(self.frame@[q].0@ == name@);
                    assert(self.frame@[p] == entries[p]);
                }
            }
            lemma_map_of_push(entries, self.frame@.last());
            assert(final(self)@ =~~= (Machine {
                env: old(self)@.env.insert(name@, value@),
                ..old(self)@
            }));
        }
    }

    /// Drains and returns everything the program has written so far.
    pub fn take_output(&mut self) -> (r: String)
        requires
            old(self).wf(),
        ensures
            final(self).wf(),
            r@ == old(self)@.out,
            final(self)@ == (Machine { out: Seq::<char>::empty(), ..old(self)@ }),
    {
        let mut out = String::new();
        core::mem::swap(&mut out, &mut self.out);
        out
    }

    /// Queues one line for the `input` native function to consume.
    pub fn queue_input(&mut self, line: String)
        requires
            old(self).wf(),
        ensures
            final(self).wf(),
            final(self)@ == (Machine {
                inputs: old(self)@.inputs.push(line@),
                ..old(self)@
            }),
    {
        proof {
            lemma_strs_of_push(self.inputs@, line);
        }
        self.inputs.push(line);
    }

    /// Calls a native function on already-evaluated arguments.  Its
    /// returned values collapse into one: none is `Null`, one is itself,
    /// several are a list.
    pub fn call_rustfn(&mut self, func: NativeFn, params: Vec<Value>) -> (r: Result<
        Value,
        RuntimeError,
    >)
        requires
            old(self).wf(),
        ensures
            final(self).wf(),
            ({
                let (vs, m2) = snative(old(self)@, func, vals_of(params@));
                r matches Ok(v) && v@ == collapse(vs) && final(self)@ == m2
            }),
    {
        match func {
            NativeFn::Print => {
                push_joined(&mut self.out, &params);
                proof {
                    assert(final(self)@ =~~= snative(old(self)@, func, vals_of(params@)).1);
                }
                Ok(Value::Null)
            },
            NativeFn::Println => {
                push_joined(&mut self.out, &params);
                push_char(&mut self.out, '\n');
                proof {
                    assert(self@.out =~= old(self)@.out + joined(vals_of(params@)) + seq!['\n']);
                    assert(final(self)@ =~~= snative(old(self)@, func, vals_of(params@)).1);
                }
                Ok(Value::Null)
            },
            NativeFn::Input => {
                push_joined(&mut self.out, &params);
                proof {
                    lemma_strs_of(self.inputs@);
                }
                if self.inputs.len() > 0 {
                    let line = self.inputs.remove(0);
                    proof {
                        lemma_strs_of(self.inputs@);
                        assert forall|j: int|
                            0 <= j < self.inputs@.len() implies strs_of(self.inputs@)[j]
                            == old(self)@.inputs.drop_first()[j] by {
                            assert(self.inputs@[j] == old(self).inputs@[j + 1]);
                            assert(strs_of(old(self).inputs@)[j + 1] == old(self).inputs@[j + 1]@);
                        }
                        assert(strs_of(self.inputs@) =~= old(self)@.inputs.drop_first());
                        assert(line@ == old(self)@.inputs[0]);
                        assert(final(self)@ =~~= snative(old(self)@, func, vals_of(params@)).1);
                    }
                    Ok(Value::Str(line))
                } else {
                    let empty = String::new();
                    proof {
                        assert(final(self)@ =~~= snative(old(self)@, func, vals_of(params@)).1);
                        assert(Value::Str(empty)@ == Val::Str(Seq::<char>::empty()));
                    }
                    Ok(Value::Str(empty))
                }
            },
        }
    }

    /// Applies an operator to evaluated operands: arithmetic operators as
    /// a left fold over the sequence, relational operators by chaining
    /// (see [`Interpreter::call_boolean_op`]).  An arithmetic operator
    /// with no operands is a `TypeError`.
    pub fn call_operator(&self, op: Op, operands: Vec<Value>) -> (r: Result<Value, RuntimeError>)
        ensures
            match s_call_op(op, vals_of(operands@)) {
                Ok(v) => r matches Ok(x) && x@ == v,
                Err(k) => r matches Err(e) && e.kind == k,
            },
    {
        let ghost views = vals_of(operands@);
        proof {
            lemma_vals_of(operands@);
        }
        let relational = match op {
            Op::Equal | Op::Greater | Op::Less => true,
            _ => false,
        };
        if relational {
            return self.call_boolean_op(op, operands);
        }
        if operands.len() == 0 {
            return Err(
                RuntimeError {
                    kind: ErrorKind::TypeError,
                    msg: String::from_str("expected at least 1 argument"),
                },
            );
        }
        let mut left = operands[0].clone();
        let mut i: usize = 1;
        proof {
            assert(views.skip(1) =~= views.drop_first());
        }
        while i < operands.len()
            invariant
                views == vals_of(operands@),
                views.len() == operands@.len(),
                forall|k: int| 0 <= k < operands@.len() ==> views[k] == #[trigger] operands@[k]@,
                1 <= i <= operands@.len(),
                !is_relational(op),
                s_fold(views[0], views.drop_first(), op) == s_fold(
                    left@,
                    views.skip(i as int),
                    op,
                ),
            decreases operands@.len() - i,
        {
            proof {
                assert(views.skip(i as int)[0] == views[i as int]);
                assert(views.skip(i as int).drop_first() =~= views.skip(i + 1));
            }
            match left.binary_op(&operands[i], &op) {
                Ok(v) => {
                    left = v;
                },
                Err(e) => {
                    proof {
                        assert(s_binop(left@, views[i as int], op) == Err::<Val, ErrorKind>(
                            e.kind,
                        ));
                        assert(s_fold(left@, views.skip(i as int), op) == Err::<Val, ErrorKind>(
                            e.kind,
                        ));
                        assert(s_call_op(op, views) == Err::<Val, ErrorKind>(e.kind));
                    }
                    return Err(e);
                },
            }
            i += 1;
        }
        proof {
            assert(views.skip(operands@.len() as int) =~= Seq::<Val>::empty());
        }
        Ok(left)
    }

    /// Applies a relational operator over a sliding window of width two:
    /// the result is the conjunction of each adjacent comparison, so
    /// `(< a b c)` means `a < b` and `b < c`.  Fewer than two operands
    /// compare vacuously true.
    pub fn call_boolean_op(&self, op: Op, operands: Vec<Value>) -> (r: Result<
        Value,
        RuntimeError,
    >)
        ensures
            match s_chain(vals_of(operands@), op) {
                Ok(v) => r matches Ok(x) && x@ == v,
                Err(k) => r matches Err(e) && e.kind == k,
            },
    {
        let ghost views = vals_of(operands@);
        proof {
            lemma_vals_of(operands@);
            assert(views.skip(0) =~= views);
            crate::semantics::lemma_s_chain_shape(views, op);
        }
        if operands.len() < 2 {
            return Ok(Value::Bool(true));
        }
        let mut res = true;
        let mut i: usize = 0;
        while i < operands.len() - 1
            invariant
                views == vals_of(operands@),
                views.len() == operands@.len(),
                forall|k: int| 0 <= k < operands@.len() ==> views[k] == #[trigger] operands@[k]@,
                0 <= i <= operands@.len(),
                operands@.len() >= 2,
                i < operands@.len(),
                match s_chain(views.skip(i as int), op) {
                    Ok(v) => v matches Val::Bool(b) && s_chain(views, op) == Ok::<
                        Val,
                        ErrorKind,
                    >(Val::Bool(res && b)),
                    Err(k) => s_chain(views, op) == Err::<Val, ErrorKind>(k),
                },
            decreases operands@.len() - i,
        {
            proof {
                assert(views.skip(i as int)[0] == views[i as int]);
                assert(views.skip(i as int)[1] == views[i + 1]);
                assert(views.skip(i as int).drop_first() =~= views.skip(i + 1));
                crate::semantics::lemma_s_chain_shape(views.skip(i + 1), op);
            }
            match operands[i].binary_op(&operands[i + 1], &op) {
                Ok(w) => {
                    if let Value::Bool(b) = w {
                        res = res && b;
                    }
                },
                Err(e) => {
                    return Err(e);
                },
            }
            i += 1;
        }
        proof {
            assert(views.skip(i as int).len() < 2);
        }
        Ok(Value::Bool(res))
    }
}

/// The outcome of one internal evaluation step: a value, a runtime error,
/// or exhaustion of the step budget.
enum Run {
    Done(Value),
    Fail(RuntimeError),
    Out,
}

/// The outcome of evaluating a run of nodes.
enum RunSeq {
    Done(Vec<Value>),
    Fail(RuntimeError),
    Out,
}

impl Interpreter {
    /// Evaluates the nodes of `ns` from index `start` on, left to right,
    /// collecting their values.
    fn eval_nodes(&mut self, ns: &Vec<AstNode>, start: usize, fuel: u64) -> (r: RunSeq)
        requires
            old(self).wf(),
            start <= ns@.len(),
        ensures
            final(self).wf(),
            match r {
                RunSeq::Done(vs) => exists|f: nat|
                    seval_seq(old(self)@, asts_of(ns@).skip(start as int), f) == EvalSeq::Done(
                        vals_of(vs@),
                        final(self)@,
                    ),
                RunSeq::Fail(e) => exists|f: nat|
                    seval_seq(old(self)@, asts_of(ns@).skip(start as int), f) == EvalSeq::Fail(
                        e.kind,
                        final(self)@,
                    ),
                RunSeq::Out => exists|f: nat|
                    seval_seq(old(self)@, asts_of(ns@).skip(start as int), f) is Spin,
            },
        decreases fuel, ns@.skip(start as int), 4int,
    {
        let ghost m0 = self@;
        let ghost asts = asts_of(ns@);
        proof {
            lemma_asts_of(ns@);
        }
        if start == ns.len() {
            proof {
                assert(asts.skip(start as int) =~= Seq::<Ast>::empty());
                assert(seval_seq(m0, asts.skip(start as int), 0) == EvalSeq::Done(
                    Seq::<Val>::empty(),
                    m0,
                ));
                assert(vals_of(Seq::<Value>::empty()) =~= Seq::<Val>::empty());
            }
            return RunSeq::Done(Vec::new());
        }
        proof {
            assert(asts.skip(start as int)[0] == ns@[start as int]@);
            assert(asts.skip(start as int).drop_first() =~= asts.skip(start + 1));
            assert(ns@.skip(start as int)[0] == ns@[start as int]);
            assert(ns@.skip(start as int).drop_first() =~= ns@.skip(start + 1));
            assert(decreases_to!(ns@.skip(start as int) => ns@.skip(start as int)[0]));
            assert(decreases_to!(ns@.skip(start as int) => ns@.skip(start as int).drop_first()));
        }
        let head = self.eval_fueled(&ns[start], fuel);
        let v = match head {
            Run::Done(v) => v,
            Run::Fail(e) => {
                proof {
                    let f = choose|f: nat|
                        (#[trigger] seval(m0, ns@[start as int]@, f)) == Eval::Fail(e.kind, self@);
                    assert(seval_seq(m0, asts.skip(start as int), f) == EvalSeq::Fail(
                        e.kind,
                        self@,
                    ));
                }
                return RunSeq::Fail(e);
            },
            Run::Out => {
                proof {
                    let f = choose|f: nat| (#[trigger] seval(m0, ns@[start as int]@, f)) is Spin;
                    assert(seval_seq(m0, asts.skip(start as int), f) is Spin);
                }
                return RunSeq::Out;
            },
        };
        let ghost m1 = self@;
        let ghost fv = choose|f: nat| (#[trigger] seval(m0, ns@[start as int]@, f)) == Eval::Done(v@, m1);
        let rest = self.eval_nodes(ns, start + 1, fuel);
        match rest {
            RunSeq::Done(mut vs) => {
                let ghost m2 = self@;
                let ghost fr = choose|f: nat|
                    (#[trigger] seval_seq(m1, asts.skip(start + 1), f)) == EvalSeq::Done(
                        vals_of(vs@),
                        m2,
                    );
                let ghost vsv = vals_of(vs@);
                let ghost pre = vs@;
                vs.insert(0, v);
                proof {
                    let fmax: nat = if fv >= fr {
                        fv
                    } else {
                        fr
                    };
                    lemma_seval_mono(m0, ns@[start as int]@, fv, fmax);
                    lemma_seval_seq_mono(m1, asts.skip(start + 1), fr, fmax);
                    lemma_vals_of(vs@);
                    lemma_vals_of(pre);
                    assert(vs@[0] == v);
                    assert forall|i: int| 0 <= i < vs@.len() implies vals_of(vs@)[i] == (
                    seq![v@] + vsv)[i] by {
                        if i > 0 {
                            assert(vs@[i] == pre[i - 1]);
                            assert(vals_of(pre)[i - 1] == pre[i - 1]@);
                        }
                    }
                    assert(vals_of(vs@) =~= seq![v@] + vsv);
                    assert(seval_seq(m0, asts.skip(start as int), fmax) == EvalSeq::Done(
                        vals_of(vs@),
                        m2,
                    ));
                }
                RunSeq::Done(vs)
            },
            RunSeq::Fail(e) => {
                proof {
                    let fr = choose|f: nat|
                        (#[trigger] seval_seq(m1, asts.skip(start + 1), f)) == EvalSeq::Fail(e.kind, self@);
                    let fmax: nat = if fv >= fr {
                        fv
                    } else {
                        fr
                    };
                    lemma_seval_mono(m0, ns@[start as int]@, fv, fmax);
                    lemma_seval_seq_mono(m1, asts.skip(start + 1), fr, fmax);
                    assert(seval_seq(m0, asts.skip(start as int), fmax) == EvalSeq::Fail(
                        e.kind,
                        self@,
                    ));
                }
                RunSeq::Fail(e)
            },
            RunSeq::Out => {
                proof {
                    let fr = choose|f: nat| (#[trigger] seval_seq(m1, asts.skip(start + 1), f)) is Spin;
                    if seval(m0, ns@[start as int]@, fr) is Spin {
                        assert(seval_seq(m0, asts.skip(start as int), fr) is Spin);
                    } else {
                        let fmax: nat = if fv >= fr {
                            fv
                        } else {
                            fr
                        };
                        lemma_seval_mono(m0, ns@[start as int]@, fv, fmax);
                        lemma_seval_mono(m0, ns@[start as int]@, fr, fmax);
                        assert(seval(m0, ns@[start as int]@, fr) == Eval::Done(v@, m1));
                        assert(seval_seq(m0, asts.skip(start as int), fr) is Spin);
                    }
                }
                RunSeq::Out
            },
        }
    }

    /// Evaluates the `while` form: `ns` is the whole expression, whose
    /// tail (condition included) runs as a block each iteration.
    fn eval_while(&mut self, ns: &Vec<AstNode>, fuel: u64) -> (r: Run)
        requires
            old(self).wf(),
            ns@.len() >= 2,
        ensures
            final(self).wf(),
            match r {
                Run::Done(v) => exists|f: nat|
                    swhile(old(self)@, asts_of(ns@).skip(1), Val::Null, f) == Eval::Done(
                        v@,
                        final(self)@,
                    ),
                Run::Fail(e) => exists|f: nat|
                    swhile(old(self)@, asts_of(ns@).skip(1), Val::Null, f) == Eval::Fail(
                        e.kind,
                        final(self)@,
                    ),
                Run::Out => exists|f: nat|
                    swhile(old(self)@, asts_of(ns@).skip(1), Val::Null, f) is Spin,
            },
        decreases fuel, ns@, 1int,
    {
        let ghost m0 = self@;
        let ghost args_v = asts_of(ns@).skip(1);
        proof {
            lemma_asts_of(ns@);
        }
        let mut value = Value::Null;
        let mut remaining: u64 = fuel;
        loop
            invariant
                self.wf(),
                ns@.len() >= 2,
                m0 == old(self)@,
                args_v == asts_of(ns@).skip(1),
                args_v.len() == ns@.len() - 1,
                args_v[0] == ns@[1]@,
                remaining <= fuel,
                remaining == fuel ==> self@ == m0 && value@ == Val::Null,
                remaining < fuel ==> (exists|g: nat| swhile(m0, args_v, Val::Null, g) is Spin),
                forall|f: nat|
                    !((#[trigger] swhile(self@, args_v, value@, f)) is Spin) ==> exists|g: nat|
                        swhile(m0, args_v, Val::Null, g) == swhile(self@, args_v, value@, f),
            decreases remaining,
        {
            let ghost mi = self@;
            let ghost vi = value@;
            let cond = self.eval_fueled(&ns[1], fuel);
            match cond {
                Run::Done(cv) => {
                    let ghost m1 = self@;
                    let ghost fc = choose|f: nat| (#[trigger] seval(mi, ns@[1]@, f)) == Eval::Done(cv@, m1);
                    let go = match cv {
                        Value::Bool(true) => true,
                        _ => false,
                    };
                    if !go {
                        proof {
                            assert(swhile(mi, args_v, vi, fc) == Eval::Done(vi, m1));
                        }
                        return Run::Done(value);
                    }
                    let blk = self.eval_nodes(ns, 1, fuel);
                    match blk {
                        RunSeq::Done(mut vs) => {
                            let ghost m2 = self@;
                            let ghost vsv = vals_of(vs@);
                            let ghost fb = choose|f: nat|
                                (#[trigger] seval_seq(m1, args_v, f)) == EvalSeq::Done(vsv, m2);
                            proof {
                                lemma_vals_of(vs@);
                            }
                            value = match vs.pop() {
                                Some(x) => x,
                                None => Value::Null,
                            };
                            proof {
                                assert(value@ == blockval(vsv));
                                // one completed round from the loop-entry
                                // state spins with no fuel at all
                                if !(seval(mi, args_v[0], 0) is Spin) {
                                    lemma_seval_mono(mi, args_v[0], 0, fc);
                                }
                                if seval(mi, args_v[0], 0) == Eval::Done(cv@, m1) {
                                    if !(seval_seq(m1, args_v, 0) is Spin) {
                                        lemma_seval_seq_mono(m1, args_v, 0, fb);
                                    }
                                }
                                assert(swhile(mi, args_v, vi, 0) is Spin);
                                if remaining == fuel {
                                    assert(swhile(m0, args_v, Val::Null, 0) is Spin);
                                }
                                // a settled later outcome lifts through
                                // this round to the loop-entry state
                                assert forall|f: nat|
                                    !((#[trigger] swhile(m2, args_v, value@, f))
                                        is Spin) implies exists|g: nat|
                                    swhile(m0, args_v, Val::Null, g) == swhile(
                                        m2,
                                        args_v,
                                        value@,
                                        f,
                                    ) by {
                                    let res = swhile(m2, args_v, value@, f);
                                    let f1: nat = if fc >= fb {
                                        fc
                                    } else {
                                        fb
                                    };
                                    let f2: nat = if f1 >= f {
                                        f1
                                    } else {
                                        f
                                    };
                                    let g0: nat = f2 + 1;
                                    lemma_seval_mono(mi, args_v[0], fc, g0);
                                    lemma_seval_seq_mono(m1, args_v, fb, g0);
                                    lemma_swhile_mono(m2, args_v, value@, f, (g0 - 1) as nat);
                                    assert(swhile(mi, args_v, vi, g0) == res);
                                }
                            }
                            if remaining == 0 {
                                return Run::Out;
                            }
                            remaining = remaining - 1;
                        },
                        RunSeq::Fail(e) => {
                            proof {
                                let fb = choose|f: nat|
                                    (#[trigger] seval_seq(m1, args_v, f)) == EvalSeq::Fail(e.kind, self@);
                                let fmax: nat = if fc >= fb {
                                    fc
                                } else {
                                    fb
                                };
                                lemma_seval_mono(mi, ns@[1]@, fc, fmax);
                                lemma_seval_seq_mono(m1, args_v, fb, fmax);
                                assert(swhile(mi, args_v, vi, fmax) == Eval::Fail(e.kind, self@));
                            }
                            return Run::Fail(e);
                        },
                        RunSeq::Out => {
                            proof {
                                let fb = choose|f: nat| (#[trigger] seval_seq(m1, args_v, f)) is Spin;
                                if seval(mi, args_v[0], fb) is Spin {
                                    assert(swhile(mi, args_v, vi, fb) is Spin);
                                } else {
                                    let fmax: nat = if fc >= fb {
                                        fc
                                    } else {
                                        fb
                                    };
                                    lemma_seval_mono(mi, args_v[0], fc, fmax);
                                    lemma_seval_mono(mi, args_v[0], fb, fmax);
                                    assert(seval(mi, args_v[0], fb) == Eval::Done(cv@, m1));
                                    assert(swhile(mi, args_v, vi, fb) is Spin);
                                }
                                if remaining == fuel {
                                    assert(exists|g: nat| swhile(m0, args_v, Val::Null, g) is Spin);
                                }
                            }
                            return Run::Out;
                        },
                    }
                },
                Run::Fail(e) => {
                    proof {
                        let fc = choose|f: nat| (#[trigger] seval(mi, ns@[1]@, f)) == Eval::Fail(e.kind, self@);
                        assert(swhile(mi, args_v, vi, fc) == Eval::Fail(e.kind, self@));
                    }
                    return Run::Fail(e);
                },
                Run::Out => {
                    proof {
                        let fc = choose|f: nat| (#[trigger] seval(mi, ns@[1]@, f)) is Spin;
                        assert(swhile(mi, args_v, vi, fc) is Spin);
                        if remaining == fuel {
                            assert(exists|g: nat| swhile(m0, args_v, Val::Null, g) is Spin);
                        }
                    }
                    return Run::Out;
                },
            }
        }
    }

    /// Applies a special form to the raw argument nodes (`ns` is the whole
    /// expression; its head already evaluated to the form).
    #[verifier::rlimit(80)]
    fn eval_form(&mut self, form: SpecialForm, ns: &Vec<AstNode>, fuel: u64) -> (r: Run)
        requires
            old(self).wf(),
            ns@.len() >= 1,
        ensures
            final(self).wf(),
            match r {
                Run::Done(v) => exists|f: nat|
                    sform(old(self)@, form, asts_of(ns@).skip(1), f) == Eval::Done(
                        v@,
                        final(self)@,
                    ),
                Run::Fail(e) => exists|f: nat|
                    sform(old(self)@, form, asts_of(ns@).skip(1), f) == Eval::Fail(
                        e.kind,
                        final(self)@,
                    ),
                Run::Out => exists|f: nat| sform(old(self)@, form, asts_of(ns@).skip(1), f) is Spin,
            },
        decreases fuel, ns@, 2int,
    {
        let ghost m0 = self@;
        let ghost args_v = asts_of(ns@).skip(1);
        proof {
            lemma_asts_of(ns@);
        }
        match form {
            SpecialForm::Assign => {
                if ns.len() != 3 {
                    let mut msg = String::from_str("expected 2 arguments, found ");
                    push_dec(&mut msg, (ns.len() - 1) as u64);
                    proof {
                        assert(sform(m0, form, args_v, 0) == Eval::Fail(ErrorKind::ValueError, m0));
                    }
                    return Run::Fail(RuntimeError { kind: ErrorKind::ValueError, msg });
                }
                proof {
                    assert(args_v[0] == ns@[1]@);
                    assert(args_v[1] == ns@[2]@);
                }
                match &ns[1] {
                    AstNode::Name(name) => {
                        let r = self.eval_fueled(&ns[2], fuel);
                        match r {
                            Run::Done(v) => {
                                let ghost m1 = self@;
                                let stored = v.clone();
                                self.set_name(name.as_str(), stored);
                                proof {
                                    let f = choose|f: nat|
                                        (#[trigger] seval(m0, ns@[2]@, f)) == Eval::Done(v@, m1);
                                    assert(sform(m0, form, args_v, f) == Eval::Done(
                                        v@,
                                        Machine { env: m1.env.insert(name@, v@), ..m1 },
                                    ));
                                    assert(self@ =~~= (Machine {
                                        env: m1.env.insert(name@, v@),
                                        ..m1
                                    }));
                                }
                                Run::Done(v)
                            },
                            Run::Fail(e) => {
                                proof {
                                    let f = choose|f: nat|
                                        (#[trigger] seval(m0, ns@[2]@, f)) == Eval::Fail(e.kind, self@);
                                    assert(sform(m0, form, args_v, f) == Eval::Fail(e.kind, self@));
                                }
                                Run::Fail(e)
                            },
                            Run::Out => {
                                proof {
                                    let f = choose|f: nat| (#[trigger] seval(m0, ns@[2]@, f)) is Spin;
                                    assert(sform(m0, form, args_v, f) is Spin);
                                }
                                Run::Out
                            },
                        }
                    },
                    _ => {
                        proof {
                            assert(sform(m0, form, args_v, 0) == Eval::Fail(
                                ErrorKind::ValueError,
                                m0,
                            ));
                        }
                        Run::Fail(
                            RuntimeError {
                                kind: ErrorKind::ValueError,
                                msg: String::from_str("first argument must be a name"),
                            },
                        )
                    },
                }
            },
            SpecialForm::ListForm => {
                let r = self.eval_nodes(ns, 1, fuel);
                match r {
                    RunSeq::Done(vs) => {
                        proof {
                            let f = choose|f: nat|
                                (#[trigger] seval_seq(m0, args_v, f)) == EvalSeq::Done(vals_of(vs@), self@);
                            assert(sform(m0, form, args_v, f) == Eval::Done(
                                Val::List(vals_of(vs@)),
                                self@,
                            ));
                        }
                        Run::Done(Value::List(vs))
                    },
                    RunSeq::Fail(e) => {
                        proof {
                            let f = choose|f: nat|
                                (#[trigger] seval_seq(m0, args_v, f)) == EvalSeq::Fail(e.kind, self@);
                            assert(sform(m0, form, args_v, f) == Eval::Fail(e.kind, self@));
                        }
                        Run::Fail(e)
                    },
                    RunSeq::Out => {
                        proof {
                            let f = choose|f: nat| (#[trigger] seval_seq(m0, args_v, f)) is Spin;
                            assert(sform(m0, form, args_v, f) is Spin);
                        }
                        Run::Out
                    },
                }
            },
            SpecialForm::Block => {
                let r = self.eval_nodes(ns, 1, fuel);
                match r {
                    RunSeq::Done(mut vs) => {
                        let ghost vsv = vals_of(vs@);
                        proof {
                            lemma_vals_of(vs@);
                        }
                        let v = match vs.pop() {
                            Some(x) => x,
                            None => Value::Null,
                        };
                        proof {
                            let f = choose|f: nat|
                                (#[trigger] seval_seq(m0, args_v, f)) == EvalSeq::Done(vsv, self@);
                            assert(v@ == blockval(vsv));
                            assert(sform(m0, form, args_v, f) == Eval::Done(blockval(vsv), self@));
                        }
                        Run::Done(v)
                    },
                    RunSeq::Fail(e) => {
                        proof {
                            let f = choose|f: nat|
                                (#[trigger] seval_seq(m0, args_v, f)) == EvalSeq::Fail(e.kind, self@);
                            assert(sform(m0, form, args_v, f) == Eval::Fail(e.kind, self@));
                        }
                        Run::Fail(e)
                    },
                    RunSeq::Out => {
                        proof {
                            let f = choose|f: nat| (#[trigger] seval_seq(m0, args_v, f)) is Spin;
                            assert(sform(m0, form, args_v, f) is Spin);
                        }
                        Run::Out
                    },
                }
            },
            SpecialForm::If => {
                if ns.len() != 3 && ns.len() != 4 {
                    proof {
                        assert(sform(m0, form, args_v, 0) == Eval::Fail(ErrorKind::ValueError, m0));
                    }
                    return Run::Fail(
                        RuntimeError {
                            kind: ErrorKind::ValueError,
                            msg: String::from_str("incorrect number of arguments"),
                        },
                    );
                }
                proof {
                    assert(args_v[0] == ns@[1]@);
                    assert(args_v[1] == ns@[2]@);
                    if ns@.len() == 4 {
                        assert(args_v[2] == ns@[3]@);
                    }
                }
                let cond = self.eval_fueled(&ns[1], fuel);
                match cond {
                    Run::Done(cv) => {
                        let ghost m1 = self@;
                        let ghost fc = choose|f: nat| (#[trigger] seval(m0, ns@[1]@, f)) == Eval::Done(cv@, m1);
                        match cv {
                            Value::Bool(true) => {
                                let r = self.eval_fueled(&ns[2], fuel);
                                match r {
                                    Run::Done(v) => {
                                        proof {
                                            let fb = choose|f: nat|
                                                (#[trigger] seval(m1, ns@[2]@, f)) == Eval::Done(v@, self@);
                                            let fmax: nat = if fc >= fb {
                                                fc
                                            } else {
                                                fb
                                            };
                                            lemma_seval_mono(m0, ns@[1]@, fc, fmax);
                                            lemma_seval_mono(m1, ns@[2]@, fb, fmax);
                                            assert(sform(m0, form, args_v, fmax) == Eval::Done(
                                                v@,
                                                self@,
                                            ));
                                        }
                                        Run::Done(v)
                                    },
                                    Run::Fail(e) => {
                                        proof {
                                            let fb = choose|f: nat|
                                                (#[trigger] seval(m1, ns@[2]@, f)) == Eval::Fail(e.kind, self@);
                                            let fmax: nat = if fc >= fb {
                                                fc
                                            } else {
                                                fb
                                            };
                                            lemma_seval_mono(m0, ns@[1]@, fc, fmax);
                                            lemma_seval_mono(m1, ns@[2]@, fb, fmax);
                                            assert(sform(m0, form, args_v, fmax) == Eval::Fail(
                                                e.kind,
                                                self@,
                                            ));
                                        }
                                        Run::Fail(e)
                                    },
                                    Run::Out => {
                                        proof {
                                            let fb = choose|f: nat| (#[trigger] seval(m1, ns@[2]@, f)) is Spin;
                                            if seval(m0, ns@[1]@, fb) is Spin {
                                                assert(sform(m0, form, args_v, fb) is Spin);
                                            } else {
                                                let fmax: nat = if fc >= fb {
                                                    fc
                                                } else {
                                                    fb
                                                };
                                                lemma_seval_mono(m0, ns@[1]@, fc, fmax);
                                                lemma_seval_mono(m0, ns@[1]@, fb, fmax);
                                                assert(sform(m0, form, args_v, fb) is Spin);
                                            }
                                        }
                                        Run::Out
                                    },
                                }
                            },
                            Value::Bool(false) => {
                                if ns.len() == 4 {
                                    let r = self.eval_fueled(&ns[3], fuel);
                                    match r {
                                        Run::Done(v) => {
                                            proof {
                                                let fb = choose|f: nat|
                                                    (#[trigger] seval(m1, ns@[3]@, f)) == Eval::Done(v@, self@);
                                                let fmax: nat = if fc >= fb {
                                                    fc
                                                } else {
                                                    fb
                                                };
                                                lemma_seval_mono(m0, ns@[1]@, fc, fmax);
                                                lemma_seval_mono(m1, ns@[3]@, fb, fmax);
                                                assert(sform(m0, form, args_v, fmax) == Eval::Done(
                                                    v@,
                                                    self@,
                                                ));
                                            }
                                            Run::Done(v)
                                        },
                                        Run::Fail(e) => {
                                            proof {
                                                let fb = choose|f: nat|
                                                    (#[trigger] seval(m1, ns@[3]@, f)) == Eval::Fail(
                                                        e.kind,
                                                        self@,
                                                    );
                                                let fmax: nat = if fc >= fb {
                                                    fc
                                                } else {
                                                    fb
                                                };
                                                lemma_seval_mono(m0, ns@[1]@, fc, fmax);
                                                lemma_seval_mono(m1, ns@[3]@, fb, fmax);
                                                assert(sform(m0, form, args_v, fmax) == Eval::Fail(
                                                    e.kind,
                                                    self@,
                                                ));
                                            }
                                            Run::Fail(e)
                                        },
                                        Run::Out => {
                                            proof {
                                                let fb = choose|f: nat|
                                                    (#[trigger] seval(m1, ns@[3]@, f)) is Spin;
                                                if seval(m0, ns@[1]@, fb) is Spin {
                                                    assert(sform(m0, form, args_v, fb) is Spin);
                                                } else {
                                                    let fmax: nat = if fc >= fb {
                                                        fc
                                                    } else {
                                                        fb
                                                    };
                                                    lemma_seval_mono(m0, ns@[1]@, fc, fmax);
                                                    lemma_seval_mono(m0, ns@[1]@, fb, fmax);
                                                    assert(sform(m0, form, args_v, fb) is Spin);
                                                }
                                            }
                                            Run::Out
                                        },
                                    }
                                } else {
                                    proof {
                                        assert(sform(m0, form, args_v, fc) == Eval::Done(
                                            Val::Null,
                                            m1,
                                        ));
                                    }
                                    Run::Done(Value::Null)
                                }
                            },
                            _ => {
                                proof {
                                    assert(sform(m0, form, args_v, fc) == Eval::Fail(
                                        ErrorKind::TypeError,
                                        m1,
                                    ));
                                }
                                Run::Fail(
                                    RuntimeError {
                                        kind: ErrorKind::TypeError,
                                        msg: String::from_str("expected a bool condition"),
                                    },
                                )
                            },
                        }
                    },
                    Run::Fail(e) => {
                        proof {
                            let fc = choose|f: nat|
                                (#[trigger] seval(m0, ns@[1]@, f)) == Eval::Fail(e.kind, self@);
                            assert(sform(m0, form, args_v, fc) == Eval::Fail(e.kind, self@));
                        }
                        Run::Fail(e)
                    },
                    Run::Out => {
                        proof {
                            let fc = choose|f: nat| (#[trigger] seval(m0, ns@[1]@, f)) is Spin;
                            assert(sform(m0, form, args_v, fc) is Spin);
                        }
                        Run::Out
                    },
                }
            },
            SpecialForm::While => {
                if ns.len() < 2 {
                    proof {
                        assert(sform(m0, form, args_v, 0) == Eval::Fail(ErrorKind::ValueError, m0));
                    }
                    return Run::Fail(
                        RuntimeError {
                            kind: ErrorKind::ValueError,
                            msg: String::from_str("not enough arguments"),
                        },
                    );
                }
                let r = self.eval_while(ns, fuel);
                proof {
                    match &r {
                        Run::Done(v) => {
                            let f = choose|f: nat|
                                (#[trigger] swhile(m0, args_v, Val::Null, f)) == Eval::Done(v@, self@);
                            assert(sform(m0, form, args_v, f) == Eval::Done(v@, self@));
                        },
                        Run::Fail(e) => {
                            let f = choose|f: nat|
                                (#[trigger] swhile(m0, args_v, Val::Null, f)) == Eval::Fail(e.kind, self@);
                            assert(sform(m0, form, args_v, f) == Eval::Fail(e.kind, self@));
                        },
                        Run::Out => {
                            let f = choose|f: nat| (#[trigger] swhile(m0, args_v, Val::Null, f)) is Spin;
                            assert(sform(m0, form, args_v, f) is Spin);
                        },
                    }
                }
                r
            },
        }
    }

    /// Evaluates one node with a step budget for `while` iterations.
    #[verifier::rlimit(100)]
    #[verifier::spinoff_prover]
    fn eval_fueled(&mut self, node: &AstNode, fuel: u64) -> (r: Run)
        requires
            old(self).wf(),
        ensures
            final(self).wf(),
            match r {
                Run::Done(v) => exists|f: nat|
                    seval(old(self)@, node@, f) == Eval::Done(v@, final(self)@),
                Run::Fail(e) => exists|f: nat|
                    seval(old(self)@, node@, f) == Eval::Fail(e.kind, final(self)@),
                Run::Out => exists|f: nat| seval(old(self)@, node@, f) is Spin,
            },
        decreases fuel, node, 3int,
    {
        let ghost m0 = self@;
        match node {
            AstNode::Int(i) => {
                proof {
                    assert(seval(m0, node@, 0) == Eval::Done(Val::Int(*i), m0));
                }
                Run::Done(Value::Int(*i))
            },
            AstNode::Float(b) => {
                proof {
                    assert(seval(m0, node@, 0) == Eval::Done(Val::Float(*b), m0));
                }
                Run::Done(Value::Float(*b))
            },
            AstNode::Str(s) => {
                let v = Value::Str(s.clone());
                proof {
                    assert(seval(m0, node@, 0) == Eval::Done(v@, m0));
                }
                Run::Done(v)
            },
            AstNode::Operator(op) => {
                proof {
                    assert(seval(m0, node@, 0) == Eval::Done(Val::Operator(*op), m0));
                }
                Run::Done(Value::Operator(*op))
            },
            AstNode::Symbol(s) => {
                let v = Value::Symbol(s.clone());
                proof {
                    assert(seval(m0, node@, 0) == Eval::Done(v@, m0));
                }
                Run::Done(v)
            },
            AstNode::Name(s) => {
                match self.get_name(s.as_str()) {
                    Ok(v) => {
                        proof {
                            assert(seval(m0, node@, 0) == Eval::Done(v@, m0));
                        }
                        Run::Done(v)
                    },
                    Err(e) => {
                        proof {
                            assert(seval(m0, node@, 0) == Eval::Fail(ErrorKind::NameError, m0));
                        }
                        Run::Fail(e)
                    },
                }
            },
            AstNode::List(ns) => {
                proof {
                    lemma_asts_of(ns@);
                    assert(asts_of(ns@).skip(0) =~= asts_of(ns@));
                    assert(ns@.skip(0) =~= ns@);
                }
                let r = self.eval_nodes(ns, 0, fuel);
                match r {
                    RunSeq::Done(vs) => {
                        proof {
                            let f = choose|f: nat|
                                (#[trigger] seval_seq(m0, asts_of(ns@), f)) == EvalSeq::Done(
                                    vals_of(vs@),
                                    self@,
                                );
                            assert(seval(m0, node@, f) == Eval::Done(
                                Val::List(vals_of(vs@)),
                                self@,
                            ));
                        }
                        Run::Done(Value::List(vs))
                    },
                    RunSeq::Fail(e) => {
                        proof {
                            let f = choose|f: nat|
                                (#[trigger] seval_seq(m0, asts_of(ns@), f)) == EvalSeq::Fail(e.kind, self@);
                            assert(seval(m0, node@, f) == Eval::Fail(e.kind, self@));
                        }
                        Run::Fail(e)
                    },
                    RunSeq::Out => {
                        proof {
                            let f = choose|f: nat| (#[trigger] seval_seq(m0, asts_of(ns@), f)) is Spin;
                            assert(seval(m0, node@, f) is Spin);
                        }
                        Run::Out
                    },
                }
            },
            AstNode::Expr(ns) => {
                let r = self.eval_expr(ns, fuel);
                proof {
                    assert(node@ == Ast::Expr(asts_of(ns@)));
                }
                r
            },
        }
    }

    /// Evaluates a compound expression: the head, then — unless the head
    /// is a special form, which receives the raw nodes — the arguments,
    /// and finally the call itself.
    #[verifier::rlimit(80)]
    fn eval_expr(&mut self, ns: &Vec<AstNode>, fuel: u64) -> (r: Run)
        requires
            old(self).wf(),
        ensures
            final(self).wf(),
            match r {
                Run::Done(v) => exists|f: nat|
                    seval(old(self)@, Ast::Expr(asts_of(ns@)), f) == Eval::Done(v@, final(self)@),
                Run::Fail(e) => exists|f: nat|
                    seval(old(self)@, Ast::Expr(asts_of(ns@)), f) == Eval::Fail(
                        e.kind,
                        final(self)@,
                    ),
                Run::Out => exists|f: nat| seval(old(self)@, Ast::Expr(asts_of(ns@)), f) is Spin,
            },
        decreases fuel, ns@, 4int,
    {
        let ghost whole = Ast::Expr(asts_of(ns@));
        let ghost m0 = self@;
        proof {
            lemma_asts_of(ns@);
        }
        let ghost asts = asts_of(ns@);
        if ns.len() == 0 {
            proof {
                assert(seval(m0, whole, 0) == Eval::Fail(ErrorKind::ValueError, m0));
            }
            return Run::Fail(
                RuntimeError {
                    kind: ErrorKind::ValueError,
                    msg: String::from_str("expression is empty"),
                },
            );
        }
        proof {
            assert(asts[0] == ns@[0]@);
            assert(asts.drop_first() =~= asts.skip(1));
        }
        let head = self.eval_fueled(&ns[0], fuel);
        let hv = match head {
            Run::Done(v) => v,
            Run::Fail(e) => {
                proof {
                    let f = choose|f: nat|
                        (#[trigger] seval(m0, ns@[0]@, f)) == Eval::Fail(e.kind, self@);
                    assert(seval(m0, whole, f) == Eval::Fail(e.kind, self@));
                }
                return Run::Fail(e);
            },
            Run::Out => {
                proof {
                    let f = choose|f: nat| (#[trigger] seval(m0, ns@[0]@, f)) is Spin;
                    assert(seval(m0, whole, f) is Spin);
                }
                return Run::Out;
            },
        };
        let ghost m1 = self@;
        let ghost fh = choose|f: nat| (#[trigger] seval(m0, ns@[0]@, f)) == Eval::Done(hv@, m1);
        if let Value::RustMacro(form) = hv {
            let r = self.eval_form(form, ns, fuel);
            proof {
                match &r {
                    Run::Done(v) => {
                        let f2 = choose|f: nat|
                            (#[trigger] sform(m1, form, asts.skip(1), f)) == Eval::Done(v@, self@);
                        let fmax: nat = if fh >= f2 {
                            fh
                        } else {
                            f2
                        };
                        lemma_seval_mono(m0, ns@[0]@, fh, fmax);
                        lemma_sform_mono(m1, form, asts.skip(1), f2, fmax);
                        assert(seval(m0, whole, fmax) == Eval::Done(v@, self@));
                    },
                    Run::Fail(e) => {
                        let f2 = choose|f: nat|
                            (#[trigger] sform(m1, form, asts.skip(1), f)) == Eval::Fail(e.kind, self@);
                        let fmax: nat = if fh >= f2 {
                            fh
                        } else {
                            f2
                        };
                        lemma_seval_mono(m0, ns@[0]@, fh, fmax);
                        lemma_sform_mono(m1, form, asts.skip(1), f2, fmax);
                        assert(seval(m0, whole, fmax) == Eval::Fail(e.kind, self@));
                    },
                    Run::Out => {
                        let f2 = choose|f: nat| (#[trigger] sform(m1, form, asts.skip(1), f)) is Spin;
                        if seval(m0, ns@[0]@, f2) is Spin {
                            assert(seval(m0, whole, f2) is Spin);
                        } else {
                            let fmax: nat = if fh >= f2 {
                                fh
                            } else {
                                f2
                            };
                            lemma_seval_mono(m0, ns@[0]@, fh, fmax);
                            lemma_seval_mono(m0, ns@[0]@, f2, fmax);
                            assert(seval(m0, ns@[0]@, f2) == Eval::Done(hv@, m1));
                            assert(seval(m0, whole, f2) is Spin);
                        }
                    },
                }
            }
            return r;
        }
        let args = match self.eval_nodes(ns, 1, fuel) {
            RunSeq::Done(vs) => vs,
            RunSeq::Fail(e) => {
                proof {
                    let f2 = choose|f: nat|
                        (#[trigger] seval_seq(m1, asts.skip(1), f)) == EvalSeq::Fail(e.kind, self@);
                    let fmax: nat = if fh >= f2 {
                        fh
                    } else {
                        f2
                    };
                    lemma_seval_mono(m0, ns@[0]@, fh, fmax);
                    lemma_seval_seq_mono(m1, asts.skip(1), f2, fmax);
                    assert(seval(m0, whole, fmax) == Eval::Fail(e.kind, self@));
                }
                return Run::Fail(e);
            },
            RunSeq::Out => {
                proof {
                    let f2 = choose|f: nat| (#[trigger] seval_seq(m1, asts.skip(1), f)) is Spin;
                    if seval(m0, ns@[0]@, f2) is Spin {
                        assert(seval(m0, whole, f2) is Spin);
                    } else {
                        let fmax: nat = if fh >= f2 {
                            fh
                        } else {
                            f2
                        };
                        lemma_seval_mono(m0, ns@[0]@, fh, fmax);
                        lemma_seval_mono(m0, ns@[0]@, f2, fmax);
                        assert(seval(m0, ns@[0]@, f2) == Eval::Done(hv@, m1));
                        assert(seval(m0, whole, f2) is Spin);
                    }
                }
                return Run::Out;
            },
        };
        let ghost m2 = self@;
        let ghost fa = choose|f: nat|
            (#[trigger] seval_seq(m1, asts.skip(1), f)) == EvalSeq::Done(vals_of(args@), m2);
        let ghost argsv = vals_of(args@);
        match hv {
            Value::RustFn(func) => {
                let res = self.call_rustfn(func, args);
                match res {
                    Ok(v) => {
                        proof {
                            let fmax: nat = if fh >= fa {
                                fh
                            } else {
                                fa
                            };
                            lemma_seval_mono(m0, ns@[0]@, fh, fmax);
                            lemma_seval_seq_mono(m1, asts.skip(1), fa, fmax);
                            assert(seval(m0, whole, fmax) == Eval::Done(v@, self@));
                        }
                        Run::Done(v)
                    },
                    Err(e) => {
                        proof {
                            assert(false);
                        }
                        Run::Fail(e)
                    },
                }
            },
            Value::Operator(op) => {
                let res = self.call_operator(op, args);
                proof {
                    let fmax: nat = if fh >= fa {
                        fh
                    } else {
                        fa
                    };
                    lemma_seval_mono(m0, ns@[0]@, fh, fmax);
                    lemma_seval_seq_mono(m1, asts.skip(1), fa, fmax);
                    assert(self@ == m2);
                    match s_call_op(op, argsv) {
                        Ok(v) => {
                            assert(seval(m0, whole, fmax) == Eval::Done(v, m2));
                        },
                        Err(k) => {
                            assert(seval(m0, whole, fmax) == Eval::Fail(k, m2));
                        },
                    }
                }
                match res {
                    Ok(v) => Run::Done(v),
                    Err(e) => Run::Fail(e),
                }
            },
            other => {
                let mut msg = other.type_label();
                msg.append(" is not callable");
                proof {
                    let fmax: nat = if fh >= fa {
                        fh
                    } else {
                        fa
                    };
                    lemma_seval_mono(m0, ns@[0]@, fh, fmax);
                    lemma_seval_seq_mono(m1, asts.skip(1), fa, fmax);
                    assert(seval(m0, whole, fmax) == Eval::Fail(ErrorKind::TypeError, m2));
                }
                Run::Fail(RuntimeError { kind: ErrorKind::TypeError, msg })
            },
        }
    }

    /// Evaluates one node against the persistent environment, giving the
    /// value it denotes or the error it raises.
    ///
    /// The one departure from the mathematical semantics: a `while` form
    /// is given a step budget of 2^64 iterations in all, and a program
    /// that exceeds it receives a `ValueError`.  No computation that
    /// finishes in a lifetime reaches the budget.
    pub fn eval(&mut self, node: &AstNode) -> (r: Result<Value, RuntimeError>)
        requires
            old(self).wf(),
        ensures
            final(self).wf(),
            match r {
                Ok(v) => exists|f: nat|
                    seval(old(self)@, node@, f) == Eval::Done(v@, final(self)@),
                Err(e) => (exists|f: nat|
                    seval(old(self)@, node@, f) == Eval::Fail(e.kind, final(self)@)) || (e.kind
                    == ErrorKind::ValueError && exists|f: nat| seval(old(self)@, node@, f) is Spin),
            },
    {
        match self.eval_fueled(node, u64::MAX) {
            Run::Done(v) => Ok(v),
            Run::Fail(e) => Err(e),
            Run::Out => Err(
                RuntimeError {
                    kind: ErrorKind::ValueError,
                    msg: String::from_str("evaluation exceeded the step budget"),
                },
            ),
        }
    }
}

} // verus!
