//! Runtime values: the dynamic value union the evaluator produces, its
//! mathematical view, and the `repr`/`display` renderings.

use vstd::prelude::*;
use vstd::string::*;
use crate::ast::Op;
use crate::float::float_repr;
use crate::text::{int_repr, push_int, push_char};

verus! {

/// The native functions of the standard library.  They receive evaluated
/// argument values; their effects go through the interpreter's output
/// buffer and input queue, so that the caller decides how to perform the
/// actual I/O.
#[derive(Debug, Clone, Copy, PartialEq, Eq, Structural)]
pub enum NativeFn {
    /// Writes its arguments' display forms, space-separated.
    Print,
    /// Like `Print`, with a trailing newline.
    Println,
    /// Writes a prompt, then takes one queued input line.
    Input,
}

/// The special forms ("macros").  A special form receives the raw,
/// unevaluated argument nodes and controls its own evaluation order.
#[derive(Debug, Clone, Copy, PartialEq, Eq, Structural)]
pub enum SpecialForm {
    /// `(set name expr)`: binds `name` to the value of `expr`.
    Assign,
    /// `(list expr...)`: evaluates every argument into a list.
    ListForm,
    /// `(block expr...)`: evaluates in order, returns the last value.
    Block,
    /// `(if cond then [else])`.
    If,
    /// `(while cond body...)`.
    While,
}

/// The mathematical shape of a [`Value`], used in specifications.
pub enum Val {
    Int(i64),
    Bool(bool),
    Float(u64),
    Str(Seq<char>),
    List(Seq<Val>),
    RustFn(NativeFn),
    RustMacro(SpecialForm),
    Operator(Op),
    Symbol(Seq<char>),
    Null,
}

/// A runtime value.  Floats are carried as IEEE-754 binary64 bit patterns
/// (see the `float` module).  `Symbol` is an unevaluated name, produced by
/// quoting.
#[derive(Debug)]
pub enum Value {
    Int(i64),
    Bool(bool),
    Float(u64),
    Str(String),
    List(Vec<Value>),
    RustFn(NativeFn),
    RustMacro(SpecialForm),
    Operator(Op),
    Symbol(String),
    Null,
}

/// The views of a sequence of values, in order.
pub open spec fn vals_of(vs: Seq<Value>) -> Seq<Val>
    decreases vs,
{
    if vs.len() == 0 {
        Seq::empty()
    } else {
        vals_of(vs.drop_last()).push(vs.last()@)
    }
}

impl View for Value {
    type V = Val;

    open spec fn view(&self) -> Val
        decreases self,
    {
        match self {
            Value::Int(i) => Val::Int(*i),
            Value::Bool(b) => Val::Bool(*b),
            Value::Float(f) => Val::Float(*f),
            Value::Str(s) => Val::Str(s@),
            Value::List(vs) => Val::List(vals_of(vs@)),
            Value::RustFn(f) => Val::RustFn(*f),
            Value::RustMacro(m) => Val::RustMacro(*m),
            Value::Operator(op) => Val::Operator(*op),
            Value::Symbol(s) => Val::Symbol(s@),
            Value::Null => Val::Null,
        }
    }
}

/// `vals_of` maps the view over the sequence element by element.
pub broadcast proof fn lemma_vals_of(vs: Seq<Value>)
    ensures
        (#[trigger] vals_of(vs)).len() == vs.len(),
        forall|i: int| 0 <= i < vs.len() ==> vals_of(vs)[i] == #[trigger] vs[i]@,
    decreases vs,
{
    if vs.len() > 0 {
        lemma_vals_of(vs.drop_last());
        assert(vals_of(vs) == vals_of(vs.drop_last()).push(vs.last()@));
        assert forall|i: int| 0 <= i < vs.len() implies vals_of(vs)[i] == vs[i]@ by {
            if i < vs.len() - 1 {
                assert(vals_of(vs)[i] == vals_of(vs.drop_last())[i]);
                assert(vs.drop_last()[i] == vs[i]);
            } else {
                assert(vals_of(vs)[i] == vs.last()@);
            }
        }
    }
}


/// Pushing a value onto a sequence pushes its view onto the views.
pub broadcast proof fn lemma_vals_of_push(vs: Seq<Value>, x: Value)
    ensures
        #[trigger] vals_of(vs.push(x)) == vals_of(vs).push(x@),
{
    assert(vs.push(x).drop_last() =~= vs);
    assert(vs.push(x).last() == x);
}

fn clone_values(vs: &Vec<Value>) -> (r: Vec<Value>)
    ensures
        r@.len() == vs@.len(),
        forall|i: int| 0 <= i < vs@.len() ==> r@[i]@ == #[trigger] vs@[i]@,
    decreases vs@,
{
    let mut out: Vec<Value> = Vec::new();
    let mut idx: usize = 0;
    while idx < vs.len()
        invariant
            idx <= vs@.len(),
            out@.len() == idx,
            forall|i: int| 0 <= i < idx ==> out@[i]@ == #[trigger] vs@[i]@,
        decreases vs@.len() - idx,
    {
        out.push(vs[idx].clone());
        idx += 1;
    }
    out
}

impl Clone for Value {
    /// A deep copy: the clone has the same view as the original.
    fn clone(&self) -> (r: Self)
        ensures
            r@ == self@,
        decreases self,
    {
        match self {
            Value::Int(i) => Value::Int(*i),
            Value::Bool(b) => Value::Bool(*b),
            Value::Float(f) => Value::Float(*f),
            Value::Str(s) => Value::Str(s.clone()),
            Value::List(vs) => {
                let cloned = clone_values(vs);
                proof {
                    lemma_vals_of(cloned@);
                    lemma_vals_of(vs@);
                    assert forall|i: int| 0 <= i < vs@.len() implies vals_of(cloned@)[i] == vals_of(
                        vs@,
                    )[i] by {
                        assert(cloned@[i]@ == vs@[i]@);
                    }
                    assert(vals_of(cloned@) =~= vals_of(vs@));
                }
                Value::List(cloned)
            },
            Value::RustFn(f) => Value::RustFn(*f),
            Value::RustMacro(m) => Value::RustMacro(*m),
            Value::Operator(op) => Value::Operator(*op),
            Value::Symbol(s) => Value::Symbol(s.clone()),
            Value::Null => Value::Null,
        }
    }
}

/// The name of a value's type, as the error messages use it.
pub open spec fn type_label_of(v: Val) -> Seq<char> {
    match v {
        Val::Int(_) => "int"@,
        Val::Bool(_) => "bool"@,
        Val::Float(_) => "float"@,
        Val::Str(_) => "str"@,
        Val::List(_) => "list"@,
        Val::RustFn(_) => "rustfn"@,
        Val::RustMacro(_) => "rustmacro"@,
        Val::Operator(_) => "operator"@,
        Val::Symbol(_) => "symbol"@,
        Val::Null => "null"@,
    }
}

/// The character an operator is written with.
pub open spec fn op_char(op: Op) -> char {
    match op {
        Op::Plus => '+',
        Op::Minus => '-',
        Op::Star => '*',
        Op::Slash => '/',
        Op::Equal => '=',
        Op::Greater => '>',
        Op::Less => '<',
    }
}

pub(crate) fn op_char_of(op: Op) -> (c: char)
    ensures
        c == op_char(op),
{
    match op {
        Op::Plus => '+',
        Op::Minus => '-',
        Op::Star => '*',
        Op::Slash => '/',
        Op::Equal => '=',
        Op::Greater => '>',
        Op::Less => '<',
    }
}

/// The escape of one character inside a quoted string rendering: the
/// quote, the backslash, and the three common control characters get a
/// backslash escape; every other character stands for itself.
pub open spec fn esc_char(c: char) -> Seq<char> {
    if c == '"' {
        seq!['\\', '"']
    } else if c == '\\' {
        seq!['\\', '\\']
    } else if c == '\n' {
        seq!['\\', 'n']
    } else if c == '\r' {
        seq!['\\', 'r']
    } else if c == '\t' {
        seq!['\\', 't']
    } else {
        seq![c]
    }
}

/// The escaped form of a whole string.
pub open spec fn esc_str(s: Seq<char>) -> Seq<char>
    decreases s,
{
    if s.len() == 0 {
        Seq::empty()
    } else {
        esc_str(s.drop_last()) + esc_char(s.last())
    }
}

/// The items of a list rendering, separated by `", "`.
pub open spec fn render_items(vs: Seq<Val>, quoted: bool) -> Seq<char>
    decreases vs, 1int,
{
    if vs.len() == 0 {
        Seq::empty()
    } else if vs.len() == 1 {
        render(vs[0], quoted)
    } else {
        render_items(vs.drop_last(), quoted) + seq![',', ' '] + render(vs.last(), quoted)
    }
}

/// The rendering of a value.  With `quoted` true this is the `repr` form,
/// where strings are quoted and escaped; with `quoted` false it is the
/// `display` form, where a string stands as its raw content.  The two
/// agree on every other variant.
pub open spec fn render(v: Val, quoted: bool) -> Seq<char>
    decreases v, 0int,
{
    match v {
        Val::Int(i) => int_repr(i as int),
        Val::Bool(b) => if b {
            "true"@
        } else {
            "false"@
        },
        Val::Float(f) => float_repr(f),
        Val::Str(s) => if quoted {
            seq!['"'] + esc_str(s) + seq!['"']
        } else {
            s
        },
        Val::List(vs) => seq!['['] + render_items(vs, quoted) + seq![']'],
        Val::RustFn(_) => "<Rust Function>"@,
        Val::RustMacro(_) => "<Rust Macro>"@,
        Val::Operator(op) => seq![op_char(op)],
        Val::Symbol(s) => "<Symbol "@ + s + seq!['>'],
        Val::Null => "null"@,
    }
}

fn push_escaped(out: &mut String, s: &String)
    ensures
        final(out)@ == old(out)@ + esc_str(s@),
{
    let n = s.as_str().unicode_len();
    let mut idx: usize = 0;
    while idx < n
        invariant
            idx <= n,
            n == s@.len(),
            out@ == old(out)@ + esc_str(s@.take(idx as int)),
        decreases n - idx,
    {
        let c = s.as_str().get_char(idx);
        if c == '"' {
            push_char(out, '\\');
            push_char(out, '"');
        } else if c == '\\' {
            push_char(out, '\\');
            push_char(out, '\\');
        } else if c == '\n' {
            push_char(out, '\\');
            push_char(out, 'n');
        } else if c == '\r' {
            push_char(out, '\\');
            push_char(out, 'r');
        } else if c == '\t' {
            push_char(out, '\\');
            push_char(out, 't');
        } else {
            push_char(out, c);
        }
        proof {
            assert(s@.take(idx + 1).drop_last() =~= s@.take(idx as int));
            assert(s@.take(idx + 1).last() == s@[idx as int]);
            assert(out@ =~= old(out)@ + esc_str(s@.take(idx + 1)));
        }
        idx += 1;
    }
    proof {
        assert(s@.take(n as int) =~= s@);
    }
}

/// Appends the renderings of the values, separated by `", "`, to `out`.
fn push_items(out: &mut String, vs: &Vec<Value>, quoted: bool)
    ensures
        final(out)@ == old(out)@ + render_items(vals_of(vs@), quoted),
    decreases vs@,
{
    let ghost views = vals_of(vs@);
    proof {
        lemma_vals_of(vs@);
    }
    let mut idx: usize = 0;
    while idx < vs.len()
        invariant
            idx <= vs@.len(),
            views == vals_of(vs@),
            views.len() == vs@.len(),
            forall|i: int| 0 <= i < vs@.len() ==> views[i] == #[trigger] vs@[i]@,
            out@ == old(out)@ + render_items(views.take(idx as int), quoted),
        decreases vs@.len() - idx,
    {
        if idx > 0 {
            push_char(out, ',');
            push_char(out, ' ');
        }
        push_rendering(out, &vs[idx], quoted);
        proof {
            assert(views.take(idx + 1).drop_last() =~= views.take(idx as int));
            assert(views.take(idx + 1).last() == views[idx as int]);
            if idx > 0 {
                assert(views.take(idx + 1).len() > 1);
            }
            assert(out@ =~= old(out)@ + render_items(views.take(idx + 1), quoted));
        }
        idx += 1;
    }
    proof {
        assert(views.take(vs@.len() as int) =~= views);
    }
}

/// Appends the rendering of `v` to `out`.
fn push_rendering(out: &mut String, v: &Value, quoted: bool)
    ensures
        final(out)@ == old(out)@ + render(v@, quoted),
    decreases v,
{
    match v {
        Value::Int(i) => {
            push_int(out, *i);
        },
        Value::Bool(b) => {
            if *b {
                out.append("true");
            } else {
                out.append("false");
            }
        },
        Value::Float(f) => {
            let s = crate::float::float_to_string(*f);
            out.append(s.as_str());
        },
        Value::Str(s) => {
            if quoted {
                push_char(out, '"');
                push_escaped(out, s);
                push_char(out, '"');
                proof {
                    assert(out@ =~= old(out)@ + render(v@, quoted));
                }
            } else {
                out.append(s.as_str());
            }
        },
        Value::List(vs) => {
            push_char(out, '[');
            push_items(out, vs, quoted);
            push_char(out, ']');
            proof {
                assert(out@ =~= old(out)@ + render(v@, quoted));
            }
        },
        Value::RustFn(_) => {
            out.append("<Rust Function>");
        },
        Value::RustMacro(_) => {
            out.append("<Rust Macro>");
        },
        Value::Operator(op) => {
            let c = op_char_of(*op);
            push_char(out, c);
        },
        Value::Symbol(s) => {
            out.append("<Symbol ");
            out.append(s.as_str());
            push_char(out, '>');
            proof {
                assert(out@ =~= old(out)@ + render(v@, quoted));
            }
        },
        Value::Null => {
            out.append("null");
        },
    }
}


/// The display forms of the values, space-separated: what `print` writes.
pub open spec fn joined(vs: Seq<Val>) -> Seq<char>
    decreases vs,
{
    if vs.len() == 0 {
        Seq::empty()
    } else if vs.len() == 1 {
        render(vs[0], false)
    } else {
        joined(vs.drop_last()) + seq![' '] + render(vs.last(), false)
    }
}

/// Appends the display forms of the values, space-separated, to `out`.
pub(crate) fn push_joined(out: &mut String, vs: &Vec<Value>)
    ensures
        final(out)@ == old(out)@ + joined(vals_of(vs@)),
{
    let ghost views = vals_of(vs@);
    proof {
        lemma_vals_of(vs@);
        assert(out@ =~= old(out)@ + joined(views.take(0)));
    }
    let mut idx: usize = 0;
    while idx < vs.len()
        invariant
            idx <= vs@.len(),
            views == vals_of(vs@),
            views.len() == vs@.len(),
            forall|i: int| 0 <= i < vs@.len() ==> views[i] == #[trigger] vs@[i]@,
            out@ == old(out)@ + joined(views.take(idx as int)),
        decreases vs@.len() - idx,
    {
        if idx > 0 {
            push_char(out, ' ');
        }
        push_rendering(out, &vs[idx], false);
        proof {
            assert(views.take(idx + 1).drop_last() =~= views.take(idx as int));
            assert(views.take(idx + 1).last() == views[idx as int]);
            if idx > 0 {
                assert(views.take(idx + 1).len() > 1);
            }
            assert(out@ =~= old(out)@ + joined(views.take(idx + 1)));
        }
        idx += 1;
    }
    proof {
        assert(views.take(vs@.len() as int) =~= views);
    }
}

/// The views of a sequence of strings, in order.
pub open spec fn strs_of(ss: Seq<String>) -> Seq<Seq<char>>
    decreases ss,
{
    if ss.len() == 0 {
        Seq::empty()
    } else {
        strs_of(ss.drop_last()).push(ss.last()@)
    }
}

/// `strs_of` maps the view over the sequence element by element.
pub broadcast proof fn lemma_strs_of(ss: Seq<String>)
    ensures
        (#[trigger] strs_of(ss)).len() == ss.len(),
        forall|i: int| 0 <= i < ss.len() ==> strs_of(ss)[i] == #[trigger] ss[i]@,
    decreases ss,
{
    if ss.len() > 0 {
        lemma_strs_of(ss.drop_last());
        assert(strs_of(ss) == strs_of(ss.drop_last()).push(ss.last()@));
        assert forall|i: int| 0 <= i < ss.len() implies strs_of(ss)[i] == ss[i]@ by {
            if i < ss.len() - 1 {
                assert(strs_of(ss)[i] == strs_of(ss.drop_last())[i]);
                assert(ss.drop_last()[i] == ss[i]);
            } else {
                assert(strs_of(ss)[i] == ss.last()@);
            }
        }
    }
}

/// Pushing a string onto a sequence pushes its view onto the views.
pub broadcast proof fn lemma_strs_of_push(ss: Seq<String>, x: String)
    ensures
        #[trigger] strs_of(ss.push(x)) == strs_of(ss).push(x@),
{
    assert(ss.push(x).drop_last() =~= ss);
    assert(ss.push(x).last() == x);
}

impl Value {

    /// The name of this value's type, used in error messages.
    pub fn type_label(&self) -> (r: String)
        ensures
            r@ == type_label_of(self@),
    {
        let r = match self {
            Value::Int(_) => String::from_str("int"),
            Value::Bool(_) => String::from_str("bool"),
            Value::Float(_) => String::from_str("float"),
            Value::Str(_) => String::from_str("str"),
            Value::List(_) => String::from_str("list"),
            Value::RustFn(_) => String::from_str("rustfn"),
            Value::RustMacro(_) => String::from_str("rustmacro"),
            Value::Operator(_) => String::from_str("operator"),
            Value::Symbol(_) => String::from_str("symbol"),
            Value::Null => String::from_str("null"),
        };
        r
    }

    /// The quoted ("debug") rendering of this value: strings are shown
    /// surrounded by quotes, with the escapes of [`esc_char`].
    pub fn repr(&self) -> (r: String)
        ensures
            r@ == render(self@, true),
    {
        let mut out = String::new();
        push_rendering(&mut out, self, true);
        proof {
            assert(out@ =~= render(self@, true));
        }
        out
    }

    /// The human-readable rendering of this value: a string stands as its
    /// raw content; every other variant renders as in [`Value::repr`].
    pub fn display(&self) -> (r: String)
        ensures
            r@ == render(self@, false),
    {
        let mut out = String::new();
        push_rendering(&mut out, self, false);
        proof {
            assert(out@ =~= render(self@, false));
        }
        out
    }
}

} // verus!
