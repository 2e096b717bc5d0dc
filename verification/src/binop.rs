//! The operator protocol: the per-type operation matrix, and the two-sided
//! ("primary, then reflected") dispatch that [`Value::binary_op`] performs.
//!
//! Integer arithmetic wraps around in two's complement, like the host's
//! release-mode integers.  Integer division truncates toward zero; division
//! by an integer zero is a `ValueError` (the one arithmetic fault this
//! library turns into an error rather than a machine fault).  Float
//! arithmetic follows IEEE-754 binary64 (see the `float` module) and never
//! errs: division by a float zero yields the IEEE infinity or NaN.

use vstd::prelude::*;
use vstd::string::*;
use vstd::math::abs;
use vstd::wrapping::i64_specs;
use crate::ast::Op;
use crate::float::{float_add, float_sub, float_mul, float_div, float_eq, float_gt, float_lt, float_of_int, add_floats, sub_floats, mul_floats, div_floats, eq_floats, gt_floats, lt_floats, int_to_float};
use crate::runtime::{ErrorKind, RuntimeError};
use crate::value::{Val, Value, vals_of, lemma_vals_of, lemma_vals_of_push, op_char_of};
use crate::text::push_char;

verus! {

/// Truncating 64-bit division: the quotient of the absolute values, given
/// the sign of the exact quotient, wrapped into `i64` (so that dividing the
/// smallest integer by minus one wraps, as the host's `wrapping_div` does).
pub open spec fn sdiv64(a: i64, b: i64) -> i64
    recommends
        b != 0,
{
    let q: int = (abs(a as int) / abs(b as int)) as int;
    if (a < 0) != (b < 0) {
        i64_specs::signed_crop(-q)
    } else {
        i64_specs::signed_crop(q)
    }
}

/// The numeric value of a boolean: 0 or 1.
pub open spec fn b2i(b: bool) -> i64 {
    if b {
        1
    } else {
        0
    }
}

/// What an operator yields on two integers.  Division by zero is the one
/// error; everything else is total, wrapping on overflow.
pub open spec fn sint_binop(a: i64, b: i64, op: Op) -> Result<Val, ErrorKind> {
    match op {
        Op::Plus => Ok(Val::Int(i64_specs::wrapping_add(a, b))),
        Op::Minus => Ok(Val::Int(i64_specs::wrapping_sub(a, b))),
        Op::Star => Ok(Val::Int(i64_specs::wrapping_mul(a, b))),
        Op::Slash => if b == 0 {
            Err(ErrorKind::ValueError)
        } else {
            Ok(Val::Int(sdiv64(a, b)))
        },
        Op::Equal => Ok(Val::Bool(a == b)),
        Op::Greater => Ok(Val::Bool(a > b)),
        Op::Less => Ok(Val::Bool(a < b)),
    }
}

/// What an operator yields on two floats (given as bit patterns): IEEE
/// arithmetic for the arithmetic operators, IEEE comparison for the rest.
pub open spec fn sfloat_binop(x: u64, y: u64, op: Op) -> Val {
    match op {
        Op::Plus => Val::Float(float_add(x, y)),
        Op::Minus => Val::Float(float_sub(x, y)),
        Op::Star => Val::Float(float_mul(x, y)),
        Op::Slash => Val::Float(float_div(x, y)),
        Op::Equal => Val::Bool(float_eq(x, y)),
        Op::Greater => Val::Bool(float_gt(x, y)),
        Op::Less => Val::Bool(float_lt(x, y)),
    }
}

/// `s` repeated `n` times (`n <= 0` gives the empty sequence).
pub open spec fn repeat_seq<T>(s: Seq<T>, n: int) -> Seq<T>
    decreases n,
{
    if n <= 0 {
        Seq::empty()
    } else {
        repeat_seq(s, n - 1) + s
    }
}

/// One-sided ("primary") equality, as each type implements it: the left
/// operand's type decides which right-hand types it compares with.  `None`
/// means the pairing is not comparable.  List elements are compared with
/// this same one-sided equality.
pub open spec fn el_eq(a: Val, b: Val) -> Option<bool>
    decreases a, 0int,
{
    match (a, b) {
        (Val::Int(x), Val::Int(y)) => Some(x == y),
        (Val::Bool(p), Val::Bool(q)) => Some(p == q),
        (Val::Bool(p), Val::Int(y)) => Some(b2i(p) == y),
        (Val::Bool(p), Val::Float(g)) => Some(float_eq(float_of_int(b2i(p) as int), g)),
        (Val::Float(f), Val::Int(y)) => Some(float_eq(f, float_of_int(y as int))),
        (Val::Float(f), Val::Float(g)) => Some(float_eq(f, g)),
        (Val::Str(s), Val::Str(t)) => Some(s == t),
        (Val::List(xs), Val::List(ys)) => Some(list_eq(xs, ys)),
        _ => None,
    }
}

/// Element-wise list equality: equal lengths, and every pair of elements
/// one-sided equal (a pair that does not compare counts as unequal).
pub open spec fn list_eq(xs: Seq<Val>, ys: Seq<Val>) -> bool
    decreases xs, 1int,
{
    if xs.len() != ys.len() {
        false
    } else if xs.len() == 0 {
        true
    } else {
        el_eq(xs[0], ys[0]) == Some(true) && list_eq(xs.drop_first(), ys.drop_first())
    }
}

/// The primary operation matrix: what the left operand's type makes of the
/// pairing, or `None` if it does not implement it.
pub open spec fn s_oneside(a: Val, b: Val, op: Op) -> Option<Result<Val, ErrorKind>> {
    match (a, b) {
        (Val::Int(x), Val::Int(y)) => Some(sint_binop(x, y, op)),
        (Val::Bool(p), Val::Bool(q)) => Some(sint_binop(b2i(p), b2i(q), op)),
        (Val::Bool(p), Val::Int(y)) => Some(sint_binop(b2i(p), y, op)),
        (Val::Bool(p), Val::Float(g)) => Some(
            Ok(sfloat_binop(float_of_int(b2i(p) as int), g, op)),
        ),
        (Val::Float(f), Val::Int(y)) => Some(Ok(sfloat_binop(f, float_of_int(y as int), op))),
        (Val::Float(f), Val::Float(g)) => Some(Ok(sfloat_binop(f, g, op))),
        (Val::Str(s), Val::Str(t)) => match op {
            Op::Plus => Some(Ok(Val::Str(s + t))),
            Op::Equal => Some(Ok(Val::Bool(s == t))),
            _ => None,
        },
        (Val::Str(s), Val::Int(n)) => match op {
            Op::Star => Some(Ok(Val::Str(repeat_seq(s, n as int)))),
            _ => None,
        },
        (Val::List(xs), Val::List(ys)) => match op {
            Op::Plus => Some(Ok(Val::List(xs + ys))),
            Op::Equal => Some(Ok(Val::Bool(list_eq(xs, ys)))),
            _ => None,
        },
        (Val::List(xs), Val::Int(n)) => match op {
            Op::Star => Some(Ok(Val::List(repeat_seq(xs, n as int)))),
            _ => None,
        },
        _ => None,
    }
}

/// The reflected arithmetic matrix: what the *right* operand's type makes
/// of `a op b` when the left operand's type declined the pairing.
pub open spec fn s_reflected(a: Val, b: Val, op: Op) -> Option<Result<Val, ErrorKind>> {
    match (b, a) {
        (Val::Bool(q), Val::Int(x)) => Some(sint_binop(x, b2i(q), op)),
        (Val::Bool(q), Val::Float(f)) => Some(Ok(sfloat_binop(f, float_of_int(b2i(q) as int), op))),
        (Val::Float(g), Val::Int(x)) => Some(Ok(sfloat_binop(float_of_int(x as int), g, op))),
        (Val::Str(s), Val::Int(n)) => match op {
            Op::Star => Some(Ok(Val::Str(repeat_seq(s, n as int)))),
            _ => None,
        },
        (Val::List(xs), Val::Int(n)) => match op {
            Op::Star => Some(Ok(Val::List(repeat_seq(xs, n as int)))),
            _ => None,
        },
        _ => None,
    }
}

/// The mirrored form of a relational operator: `>` and `<` swap, `=` is
/// its own mirror.
pub open spec fn flip(op: Op) -> Op {
    match op {
        Op::Greater => Op::Less,
        Op::Less => Op::Greater,
        _ => op,
    }
}

/// Whether an operator is relational (`=`, `>`, `<`) rather than
/// arithmetic.
pub open spec fn is_relational(op: Op) -> bool {
    op == Op::Equal || op == Op::Greater || op == Op::Less
}

/// The full two-sided protocol: the primary operation, then — if the left
/// type declines — the reflected operation (for a relational operator, the
/// mirrored comparison with the operands swapped); if both decline, a
/// `TypeError`.
pub open spec fn s_binop(a: Val, b: Val, op: Op) -> Result<Val, ErrorKind> {
    match s_oneside(a, b, op) {
        Some(r) => r,
        None => {
            let alt = if is_relational(op) {
                s_oneside(b, a, flip(op))
            } else {
                s_reflected(a, b, op)
            };
            match alt {
                Some(r) => r,
                None => Err(ErrorKind::TypeError),
            }
        },
    }
}

fn abs_u64(a: i64) -> (r: u64)
    ensures
        r == abs(a as int),
{
    if a >= 0 {
        a as u64
    } else {
        (-(a as i128)) as u64
    }
}

/// Truncating division, wrapping on the one overflowing case.
fn div_ints(a: i64, b: i64) -> (q: i64)
    requires
        b != 0,
    ensures
        q == sdiv64(a, b),
{
    let neg = (a < 0) != (b < 0);
    let ua = abs_u64(a);
    let ub = abs_u64(b);
    let q = ua / ub;
    if neg {
        if q == 0x8000000000000000u64 {
            i64::MIN
        } else {
            -(q as i64)
        }
    } else {
        if q == 0x8000000000000000u64 {
            i64::MIN
        } else {
            q as i64
        }
    }
}

fn int_binop(a: i64, b: i64, op: Op) -> (r: Result<Value, ErrorKind>)
    ensures
        match sint_binop(a, b, op) {
            Ok(v) => r matches Ok(rv) && rv@ == v,
            Err(k) => r == Err::<Value, ErrorKind>(k),
        },
{
    match op {
        Op::Plus => Ok(Value::Int(a.wrapping_add(b))),
        Op::Minus => Ok(Value::Int(a.wrapping_sub(b))),
        Op::Star => Ok(Value::Int(a.wrapping_mul(b))),
        Op::Slash => if b == 0 {
            Err(ErrorKind::ValueError)
        } else {
            Ok(Value::Int(div_ints(a, b)))
        },
        Op::Equal => Ok(Value::Bool(a == b)),
        Op::Greater => Ok(Value::Bool(a > b)),
        Op::Less => Ok(Value::Bool(a < b)),
    }
}

fn float_binop(x: u64, y: u64, op: Op) -> (r: Value)
    ensures
        r@ == sfloat_binop(x, y, op),
{
    match op {
        Op::Plus => Value::Float(add_floats(x, y)),
        Op::Minus => Value::Float(sub_floats(x, y)),
        Op::Star => Value::Float(mul_floats(x, y)),
        Op::Slash => Value::Float(div_floats(x, y)),
        Op::Equal => Value::Bool(eq_floats(x, y)),
        Op::Greater => Value::Bool(gt_floats(x, y)),
        Op::Less => Value::Bool(lt_floats(x, y)),
    }
}

fn eq_value_lists(xs: &Vec<Value>, ys: &Vec<Value>) -> (r: bool)
    ensures
        r == list_eq(vals_of(xs@), vals_of(ys@)),
    decreases xs@,
{
    proof {
        lemma_vals_of(xs@);
        lemma_vals_of(ys@);
    }
    if xs.len() != ys.len() {
        return false;
    }
    proof {
        assert(vals_of(xs@).skip(0) =~= vals_of(xs@));
        assert(vals_of(ys@).skip(0) =~= vals_of(ys@));
    }
    let mut idx: usize = 0;
    let mut ok = true;
    while idx < xs.len()
        invariant
            idx <= xs@.len(),
            xs@.len() == ys@.len(),
            vals_of(xs@).len() == xs@.len(),
            vals_of(ys@).len() == ys@.len(),
            forall|i: int| 0 <= i < xs@.len() ==> vals_of(xs@)[i] == #[trigger] xs@[i]@,
            forall|i: int| 0 <= i < ys@.len() ==> vals_of(ys@)[i] == #[trigger] ys@[i]@,
            !ok ==> !list_eq(vals_of(xs@), vals_of(ys@)),
            ok ==> (list_eq(vals_of(xs@), vals_of(ys@)) == list_eq(
                vals_of(xs@).skip(idx as int),
                vals_of(ys@).skip(idx as int),
            )),
        decreases xs@.len() - idx,
    {
        let e = eq_values(&xs[idx], &ys[idx]);
        let here = match e {
            Some(true) => true,
            _ => false,
        };
        proof {
            let sxs = vals_of(xs@).skip(idx as int);
            let sys = vals_of(ys@).skip(idx as int);
            assert(sxs[0] == vals_of(xs@)[idx as int]);
            assert(sys[0] == vals_of(ys@)[idx as int]);
            assert(sxs.drop_first() =~= vals_of(xs@).skip(idx + 1));
            assert(sys.drop_first() =~= vals_of(ys@).skip(idx + 1));
            assert(list_eq(sxs, sys) == (el_eq(sxs[0], sys[0]) == Some(true) && list_eq(
                sxs.drop_first(),
                sys.drop_first(),
            )));
        }
        ok = ok && here;
        idx += 1;
    }
    proof {
        if ok {
            assert(vals_of(xs@).skip(xs@.len() as int) =~= Seq::<Val>::empty());
            assert(vals_of(ys@).skip(ys@.len() as int) =~= Seq::<Val>::empty());
        }
    }
    ok
}

fn eq_values(a: &Value, b: &Value) -> (r: Option<bool>)
    ensures
        r == el_eq(a@, b@),
    decreases a,
{
    match (a, b) {
        (Value::Int(x), Value::Int(y)) => Some(*x == *y),
        (Value::Bool(p), Value::Bool(q)) => Some(*p == *q),
        (Value::Bool(p), Value::Int(y)) => Some((if *p { 1i64 } else { 0i64 }) == *y),
        (Value::Bool(p), Value::Float(g)) => {
            let x = int_to_float(if *p { 1 } else { 0 });
            Some(eq_floats(x, *g))
        },
        (Value::Float(f), Value::Int(y)) => {
            let x = int_to_float(*y);
            Some(eq_floats(*f, x))
        },
        (Value::Float(f), Value::Float(g)) => Some(eq_floats(*f, *g)),
        (Value::Str(s), Value::Str(t)) => Some(*s == *t),
        (Value::List(xs), Value::List(ys)) => Some(eq_value_lists(xs, ys)),
        _ => None,
    }
}


/// `s` repeated `n` times as a fresh string (`n <= 0` gives "").
fn repeat_string(s: &String, n: i64) -> (r: String)
    ensures
        r@ == repeat_seq(s@, n as int),
{
    let mut out = String::new();
    let mut i: i64 = 0;
    if n <= 0 {
        proof {
            assert(out@ =~= repeat_seq(s@, n as int));
        }
        return out;
    }
    while i < n
        invariant
            0 <= i <= n,
            out@ == repeat_seq(s@, i as int),
        decreases n - i,
    {
        out.append(s.as_str());
        i = i + 1;
    }
    out
}

/// The elements of `vs` cycled `n` whole times into a fresh vector.
fn repeat_values(vs: &Vec<Value>, n: i64) -> (r: Vec<Value>)
    ensures
        vals_of(r@) == repeat_seq(vals_of(vs@), n as int),
{
    let ghost views = vals_of(vs@);
    proof {
        lemma_vals_of(vs@);
    }
    let mut out: Vec<Value> = Vec::new();
    let mut i: i64 = 0;
    if n <= 0 {
        proof {
            assert(vals_of(out@) =~= repeat_seq(views, n as int));
        }
        return out;
    }
    while i < n
        invariant
            0 <= i <= n,
            views == vals_of(vs@),
            views.len() == vs@.len(),
            forall|k: int| 0 <= k < vs@.len() ==> views[k] == #[trigger] vs@[k]@,
            vals_of(out@) == repeat_seq(views, i as int),
        decreases n - i,
    {
        let mut j: usize = 0;
        while j < vs.len()
            invariant
                j <= vs@.len(),
                views == vals_of(vs@),
                views.len() == vs@.len(),
                forall|k: int| 0 <= k < vs@.len() ==> views[k] == #[trigger] vs@[k]@,
                vals_of(out@) == repeat_seq(views, i as int) + views.take(j as int),
            decreases vs@.len() - j,
        {
            let ghost pre = out@;
            out.push(vs[j].clone());
            proof {
                lemma_vals_of_push(pre, out@.last());
                assert(out@ =~= pre.push(out@.last()));
                assert(views.take(j + 1) =~= views.take(j as int).push(views[j as int]));
                assert(vals_of(out@) =~= repeat_seq(views, i as int) + views.take(j + 1));
            }
            j = j + 1;
        }
        proof {
            assert(views.take(vs@.len() as int) =~= views);
            assert(vals_of(out@) =~= repeat_seq(views, i + 1));
        }
        i = i + 1;
    }
    out
}

/// The concatenation of two strings.
fn concat_strings(a: &String, b: &String) -> (r: String)
    ensures
        r@ == a@ + b@,
{
    let r = a.clone();
    let r = r.concat(b.as_str());
    r
}

/// The concatenation of two value lists.
fn concat_values(a: &Vec<Value>, b: &Vec<Value>) -> (r: Vec<Value>)
    ensures
        vals_of(r@) == vals_of(a@) + vals_of(b@),
{
    proof {
        lemma_vals_of(a@);
        lemma_vals_of(b@);
    }
    let mut out: Vec<Value> = Vec::new();
    let mut j: usize = 0;
    while j < a.len()
        invariant
            j <= a@.len(),
            vals_of(a@).len() == a@.len(),
            forall|k: int| 0 <= k < a@.len() ==> vals_of(a@)[k] == #[trigger] a@[k]@,
            vals_of(out@) == vals_of(a@).take(j as int),
        decreases a@.len() - j,
    {
        let ghost pre = out@;
        out.push(a[j].clone());
        proof {
            lemma_vals_of_push(pre, out@.last());
            assert(out@ =~= pre.push(out@.last()));
            assert(vals_of(a@).take(j + 1) =~= vals_of(a@).take(j as int).push(vals_of(a@)[j as int]));
            assert(vals_of(out@) =~= vals_of(a@).take(j + 1));
        }
        j = j + 1;
    }
    proof {
        assert(vals_of(a@).take(a@.len() as int) =~= vals_of(a@));
    }
    let mut j: usize = 0;
    while j < b.len()
        invariant
            j <= b@.len(),
            vals_of(b@).len() == b@.len(),
            forall|k: int| 0 <= k < b@.len() ==> vals_of(b@)[k] == #[trigger] b@[k]@,
            vals_of(out@) == vals_of(a@) + vals_of(b@).take(j as int),
        decreases b@.len() - j,
    {
        let ghost pre = out@;
        out.push(b[j].clone());
        proof {
            lemma_vals_of_push(pre, out@.last());
            assert(out@ =~= pre.push(out@.last()));
            assert(vals_of(b@).take(j + 1) =~= vals_of(b@).take(j as int).push(vals_of(b@)[j as int]));
            assert(vals_of(out@) =~= vals_of(a@) + vals_of(b@).take(j + 1));
        }
        j = j + 1;
    }
    proof {
        assert(vals_of(b@).take(b@.len() as int) =~= vals_of(b@));
        assert(vals_of(out@) =~= vals_of(a@) + vals_of(b@));
    }
    out
}

/// Whether an executable outcome matches a specified one: same shape, and
/// the value's view or the error kind agree.
pub open spec fn outcome_matches(
    r: Option<Result<Value, ErrorKind>>,
    s: Option<Result<Val, ErrorKind>>,
) -> bool {
    match (r, s) {
        (None, None) => true,
        (Some(Ok(x)), Some(Ok(v))) => x@ == v,
        (Some(Err(k)), Some(Err(j))) => k == j,
        _ => false,
    }
}

/// The primary operation, as the left operand's type implements it.
fn apply_oneside(a: &Value, b: &Value, op: Op) -> (r: Option<Result<Value, ErrorKind>>)
    ensures
        outcome_matches(r, s_oneside(a@, b@, op)),
{
    match (a, b) {
        (Value::Int(x), Value::Int(y)) => Some(int_binop(*x, *y, op)),
        (Value::Bool(p), Value::Bool(q)) => Some(
            int_binop(if *p { 1 } else { 0 }, if *q { 1 } else { 0 }, op),
        ),
        (Value::Bool(p), Value::Int(y)) => Some(int_binop(if *p { 1 } else { 0 }, *y, op)),
        (Value::Bool(p), Value::Float(g)) => {
            let x = int_to_float(if *p { 1 } else { 0 });
            Some(Ok(float_binop(x, *g, op)))
        },
        (Value::Float(f), Value::Int(y)) => {
            let x = int_to_float(*y);
            Some(Ok(float_binop(*f, x, op)))
        },
        (Value::Float(f), Value::Float(g)) => Some(Ok(float_binop(*f, *g, op))),
        (Value::Str(s), Value::Str(t)) => match op {
            Op::Plus => Some(Ok(Value::Str(concat_strings(s, t)))),
            Op::Equal => Some(Ok(Value::Bool(*s == *t))),
            _ => None,
        },
        (Value::Str(s), Value::Int(n)) => match op {
            Op::Star => Some(Ok(Value::Str(repeat_string(s, *n)))),
            _ => None,
        },
        (Value::List(xs), Value::List(ys)) => match op {
            Op::Plus => Some(Ok(Value::List(concat_values(xs, ys)))),
            Op::Equal => Some(Ok(Value::Bool(eq_value_lists(xs, ys)))),
            _ => None,
        },
        (Value::List(xs), Value::Int(n)) => match op {
            Op::Star => Some(Ok(Value::List(repeat_values(xs, *n)))),
            _ => None,
        },
        _ => None,
    }
}

/// The reflected operation, as the right operand's type implements it.
fn apply_reflected(a: &Value, b: &Value, op: Op) -> (r: Option<Result<Value, ErrorKind>>)
    ensures
        outcome_matches(r, s_reflected(a@, b@, op)),
{
    match (b, a) {
        (Value::Bool(q), Value::Int(x)) => Some(int_binop(*x, if *q { 1 } else { 0 }, op)),
        (Value::Bool(q), Value::Float(f)) => {
            let y = int_to_float(if *q { 1 } else { 0 });
            Some(Ok(float_binop(*f, y, op)))
        },
        (Value::Float(g), Value::Int(x)) => {
            let y = int_to_float(*x);
            Some(Ok(float_binop(y, *g, op)))
        },
        (Value::Str(s), Value::Int(n)) => match op {
            Op::Star => Some(Ok(Value::Str(repeat_string(s, *n)))),
            _ => None,
        },
        (Value::List(xs), Value::Int(n)) => match op {
            Op::Star => Some(Ok(Value::List(repeat_values(xs, *n)))),
            _ => None,
        },
        _ => None,
    }
}

fn op_of_exec(op: Op) -> (r: Op)
    ensures
        r == flip(op),
{
    match op {
        Op::Greater => Op::Less,
        Op::Less => Op::Greater,
        _ => op,
    }
}

/// The message of the error a failed pairing raises: it names the operator
/// and both operand types.
fn mismatch_error(a: &Value, b: &Value, op: Op) -> (e: RuntimeError)
    ensures
        e.kind == ErrorKind::TypeError,
{
    let mut msg = String::from_str("operator ");
    let c = op_char_of(op);
    push_char(&mut msg, c);
    msg.append(" is not supported between ");
    let la = a.type_label();
    msg.append(la.as_str());
    msg.append(" and ");
    let lb = b.type_label();
    msg.append(lb.as_str());
    RuntimeError { kind: ErrorKind::TypeError, msg }
}

fn kind_error(kind: ErrorKind, text: &str) -> (e: RuntimeError)
    ensures
        e.kind == kind,
{
    RuntimeError { kind, msg: String::from_str(text) }
}

impl Value {
    /// The primary ("one-sided") application of an operator, as this
    /// value's type implements it: a `TypeError` where the pairing is not
    /// implemented, a `ValueError` for division by an integer zero.
    pub fn oneside_binary_op(&self, rhs: &Value, op: &Op) -> (r: Result<Value, RuntimeError>)
        ensures
            match s_oneside(self@, rhs@, *op) {
                Some(Ok(v)) => r matches Ok(x) && x@ == v,
                Some(Err(k)) => r matches Err(e) && e.kind == k,
                None => r matches Err(e) && e.kind == ErrorKind::TypeError,
            },
    {
        match apply_oneside(self, rhs, *op) {
            Some(Ok(v)) => Ok(v),
            Some(Err(k)) => Err(kind_error(k, "division by zero")),
            None => Err(mismatch_error(self, rhs, *op)),
        }
    }

    /// The full two-sided application of an operator: the primary
    /// operation, then the reflected one if the primary pairing is not
    /// implemented, and a `TypeError` naming both types if neither side
    /// implements it.
    pub fn binary_op(&self, rhs: &Value, op: &Op) -> (r: Result<Value, RuntimeError>)
        ensures
            match s_binop(self@, rhs@, *op) {
                Ok(v) => r matches Ok(x) && x@ == v,
                Err(k) => r matches Err(e) && e.kind == k,
            },
    {
        match apply_oneside(self, rhs, *op) {
            Some(Ok(v)) => Ok(v),
            Some(Err(k)) => Err(kind_error(k, "division by zero")),
            None => {
                let relational = match op {
                    Op::Equal | Op::Greater | Op::Less => true,
                    _ => false,
                };
                let alt = if relational {
                    let f = op_of_exec(*op);
                    apply_oneside(rhs, self, f)
                } else {
                    apply_reflected(self, rhs, *op)
                };
                match alt {
                    Some(Ok(v)) => Ok(v),
                    Some(Err(k)) => Err(kind_error(k, "division by zero")),
                    None => Err(mismatch_error(self, rhs, *op)),
                }
            },
        }
    }
}

} // verus!
