//! Truthiness, rendering and the binary operators on values.
use crate::environment::{
    Value, ValueView, duplicate_values, entries_view, entry_get, lemma_array_view,
    lemma_dict_view, values_view,
};
use crate::error::RuntimeError;
use crate::text::{chars_of, push_str, string_of};
use vstd::prelude::*;

verus! {

/// Whether a value counts as true in a condition.
pub open spec fn truthy(v: ValueView) -> bool {
    match v {
        ValueView::Number(n) => n != 0,
        ValueView::Str(s) => s.len() > 0,
        ValueView::Boolean(b) => b,
        ValueView::Function(_) => true,
        ValueView::Array(a) => a.len() > 0,
        ValueView::Dict(m) => m.len() > 0,
    }
}

/// The decimal digit character for `d < 10`.
pub open spec fn digit_char(d: nat) -> char {
    ((d + 48) as u8) as char
}

/// The decimal digits of `n`, most significant first, without leading zeros.
pub open spec fn decimal(n: nat) -> Seq<char>
    decreases n,
{
    if n < 10 {
        seq![digit_char(n)]
    } else {
        decimal(n / 10).push(digit_char(n % 10))
    }
}

/// The decimal form of an integer, with a leading `-` when negative.
pub open spec fn render_int(n: int) -> Seq<char> {
    if n < 0 {
        seq!['-'] + decimal((-n) as nat)
    } else {
        decimal(n as nat)
    }
}

/// The human-readable rendering of a value, as `print` writes it.
pub open spec fn render(v: ValueView) -> Seq<char>
    decreases v,
{
    match v {
        ValueView::Number(n) => render_int(n as int),
        ValueView::Str(s) => s,
        ValueView::Boolean(b) => if b {
            "true"@
        } else {
            "false"@
        },
        ValueView::Function(f) => "<function "@ + f.name + ">"@,
        ValueView::Array(a) => "["@ + render_list(a) + "]"@,
        ValueView::Dict(m) => "{"@ + render_entries(m) + "}"@,
    }
}

/// The renderings of the elements, separated by `, `.
pub open spec fn render_list(a: Seq<ValueView>) -> Seq<char>
    decreases a,
{
    if a.len() == 0 {
        Seq::empty()
    } else if a.len() == 1 {
        render(a[0])
    } else {
        render_list(a.subrange(0, a.len() - 1)) + ", "@ + render(a[a.len() - 1])
    }
}

/// The entries rendered as `key: value`, separated by `, `.
pub open spec fn render_entries(m: Seq<(Seq<char>, ValueView)>) -> Seq<char>
    decreases m,
{
    if m.len() == 0 {
        Seq::empty()
    } else if m.len() == 1 {
        m[0].0 + ": "@ + render(m[0].1)
    } else {
        render_entries(m.subrange(0, m.len() - 1)) + ", "@ + m[m.len() - 1].0 + ": "@ + render(
            m[m.len() - 1].1,
        )
    }
}

/// Structural equality: numbers, strings, booleans, arrays and maps compare by
/// content; a function equals nothing, and values of different kinds differ.
pub open spec fn values_equal(a: ValueView, b: ValueView) -> bool
    decreases a,
{
    match a {
        ValueView::Number(x) => b matches ValueView::Number(y) && x == y,
        ValueView::Str(x) => b matches ValueView::Str(y) && x == y,
        ValueView::Boolean(x) => b matches ValueView::Boolean(y) && x == y,
        ValueView::Function(_) => false,
        ValueView::Array(x) => match b {
            ValueView::Array(y) => x.len() == y.len() && forall|i: int|
                0 <= i < x.len() ==> values_equal(x[i], #[trigger] y[i]),
            _ => false,
        },
        ValueView::Dict(x) => match b {
            ValueView::Dict(y) => x.len() == y.len() && forall|i: int|
                0 <= i < x.len() ==> match entry_get(y, #[trigger] x[i].0) {
                    Some(w) => values_equal(x[i].1, w),
                    None => false,
                },
            _ => false,
        },
    }
}

/// The model of an operator's outcome.
pub open spec fn result_view(r: Result<Value, RuntimeError>) -> Result<ValueView, RuntimeError> {
    match r {
        Ok(v) => Ok(v@),
        Err(e) => Err(e),
    }
}

/// `+`: string concatenation when either side is a string (the other side
/// rendered), array concatenation, or checked integer addition.
pub open spec fn add_spec(l: ValueView, r: ValueView) -> Result<ValueView, RuntimeError> {
    match (l, r) {
        (ValueView::Str(s), _) => Ok(ValueView::Str(s + render(r))),
        (_, ValueView::Str(s)) => Ok(ValueView::Str(render(l) + s)),
        (ValueView::Array(a), ValueView::Array(b)) => Ok(ValueView::Array(a + b)),
        (ValueView::Number(a), ValueView::Number(b)) => match a.checked_add(b) {
            Some(c) => Ok(ValueView::Number(c)),
            None => Err(RuntimeError::Overflow),
        },
        _ => Err(RuntimeError::TypeMismatch),
    }
}

/// The two numbers of an arithmetic or ordering operator.
pub open spec fn numbers(l: ValueView, r: ValueView) -> Option<(i64, i64)> {
    match (l, r) {
        (ValueView::Number(a), ValueView::Number(b)) => Some((a, b)),
        _ => None,
    }
}

/// A checked integer result, or `Overflow`.
pub open spec fn checked(c: Option<i64>) -> Result<ValueView, RuntimeError> {
    match c {
        Some(n) => Ok(ValueView::Number(n)),
        None => Err(RuntimeError::Overflow),
    }
}

pub open spec fn subtract_spec(l: ValueView, r: ValueView) -> Result<ValueView, RuntimeError> {
    match numbers(l, r) {
        Some((a, b)) => checked(a.checked_sub(b)),
        None => Err(RuntimeError::TypeMismatch),
    }
}

pub open spec fn multiply_spec(l: ValueView, r: ValueView) -> Result<ValueView, RuntimeError> {
    match numbers(l, r) {
        Some((a, b)) => checked(a.checked_mul(b)),
        None => Err(RuntimeError::TypeMismatch),
    }
}

/// `/`: integer division rounding toward zero.
pub open spec fn divide_spec(l: ValueView, r: ValueView) -> Result<ValueView, RuntimeError> {
    match numbers(l, r) {
        Some((a, b)) => if b == 0 {
            Err(RuntimeError::DivisionByZero)
        } else {
            checked(a.checked_div(b))
        },
        None => Err(RuntimeError::TypeMismatch),
    }
}

/// An ordering operator: `op` decides on the two numbers.
pub open spec fn order_spec(l: ValueView, r: ValueView, op: spec_fn(i64, i64) -> bool) -> Result<
    ValueView,
    RuntimeError,
> {
    match numbers(l, r) {
        Some((a, b)) => Ok(ValueView::Boolean(op(a, b))),
        None => Err(RuntimeError::TypeMismatch),
    }
}

/// Whether a value counts as true in a condition.
pub fn is_truthy(value: &Value) -> (r: bool)
    ensures
        r == truthy(value@),
{
    proof {
        lemma_array_view(*value);
        lemma_dict_view(*value);
    }
    match value {
        Value::Number(n) => *n != 0,
        Value::String(s) => chars_of(s.as_str()).len() > 0,
        Value::Boolean(b) => *b,
        Value::Function(_) => true,
        Value::Array(a) => a.len() > 0,
        Value::Dict(m) => m.len() > 0,
    }
}

/// Appends the decimal digits of `n`.
fn push_decimal(out: &mut Vec<char>, n: u64)
    ensures
        final(out)@ == old(out)@ + decimal(n as nat),
    decreases n,
{
    if n >= 10 {
        push_decimal(out, n / 10);
    }
    let d = (n % 10) as u8;
    out.push((d + 48u8) as char);
    assert(final(out)@ =~= old(out)@ + decimal(n as nat));
}

/// Appends the decimal form of `n`.
fn push_int(out: &mut Vec<char>, n: i64)
    ensures
        final(out)@ == old(out)@ + render_int(n as int),
{
    if n < 0 {
        out.push('-');
        let m: u64 = (0i128 - (n as i128)) as u64;
        push_decimal(out, m);
        assert(final(out)@ =~= old(out)@ + render_int(n as int));
    } else {
        push_decimal(out, n as u64);
    }
}

/// Appends the rendering of a value.
fn render_into(out: &mut Vec<char>, value: &Value)
    ensures
        final(out)@ == old(out)@ + render(value@),
    decreases value, 1int,
{
    proof {
        lemma_array_view(*value);
        lemma_dict_view(*value);
    }
    match value {
        Value::Number(n) => push_int(out, *n),
        Value::String(s) => {
            push_str(out, s.as_str());
        },
        Value::Boolean(b) => {
            if *b {
                push_str(out, "true");
            } else {
                push_str(out, "false");
            }
        },
        Value::Function(f) => {
            push_str(out, "<function ");
            push_str(out, f.name.as_str());
            push_str(out, ">");
            assert(final(out)@ =~= old(out)@ + render(value@));
        },
        Value::Array(a) => {
            push_str(out, "[");
            render_values_into(out, a);
            push_str(out, "]");
            assert(final(out)@ =~= old(out)@ + render(value@));
        },
        Value::Dict(m) => {
            push_str(out, "{");
            render_entries_into(out, m);
            push_str(out, "}");
            assert(final(out)@ =~= old(out)@ + render(value@));
        },
    }
}

/// Appends the renderings of the elements, separated by `, `.
fn render_values_into(out: &mut Vec<char>, a: &Vec<Value>)
    ensures
        final(out)@ == old(out)@ + render_list(values_view(a@)),
    decreases a@, 0int,
{
    let ghost s = values_view(a@);
    let mut i: usize = 0;
    while i < a.len()
        invariant
            0 <= i <= a.len(),
            s == values_view(a@),
            out@ == old(out)@ + render_list(s.subrange(0, i as int)),
        decreases a.len() - i,
    {
        let ghost before = out@;
        if i > 0 {
            push_str(out, ", ");
        }
        render_into(out, &a[i]);
        i = i + 1;
        proof {
            let t = s.subrange(0, i as int);
            assert(t.subrange(0, i - 1) =~= s.subrange(0, i - 1));
            assert(t[i - 1] == a@[i - 1]@);
            if i == 1 {
                assert(render_list(s.subrange(0, 0)) =~= Seq::empty());
            }
            assert(out@ =~= old(out)@ + render_list(t));
        }
    }
    assert(s.subrange(0, a.len() as int) =~= s);
}

/// Appends the entries rendered as `key: value`, separated by `, `.
fn render_entries_into(out: &mut Vec<char>, m: &Vec<(String, Value)>)
    ensures
        final(out)@ == old(out)@ + render_entries(entries_view(m@)),
    decreases m@, 0int,
{
    let ghost s = entries_view(m@);
    let mut i: usize = 0;
    while i < m.len()
        invariant
            0 <= i <= m.len(),
            s == entries_view(m@),
            out@ == old(out)@ + render_entries(s.subrange(0, i as int)),
        decreases m.len() - i,
    {
        if i > 0 {
            push_str(out, ", ");
        }
        push_str(out, m[i].0.as_str());
        push_str(out, ": ");
        render_into(out, &m[i].1);
        i = i + 1;
        proof {
            let t = s.subrange(0, i as int);
            assert(t.subrange(0, i - 1) =~= s.subrange(0, i - 1));
            assert(t[i - 1] == (m@[i - 1].0@, m@[i - 1].1@));
            if i == 1 {
                assert(render_entries(s.subrange(0, 0)) =~= Seq::empty());
            }
            assert(out@ =~= old(out)@ + render_entries(t));
        }
    }
    assert(s.subrange(0, m.len() as int) =~= s);
}

/// The human-readable rendering of a value, as `print` writes it.
pub fn value_to_string(value: &Value) -> (r: String)
    ensures
        r@ == render(value@),
{
    let mut out: Vec<char> = Vec::new();
    render_into(&mut out, value);
    assert(out@ =~= render(value@));
    string_of(&out)
}

/// `+`: string concatenation when either side is a string (the other side
/// rendered), array concatenation, or checked integer addition.
pub fn add_values(left: &Value, right: &Value) -> (r: Result<Value, RuntimeError>)
    ensures
        result_view(r) == add_spec(left@, right@),
{
    proof {
        lemma_array_view(*left);
        lemma_array_view(*right);
    }
    if let Value::String(s) = left {
        let mut out = chars_of(s.as_str());
        render_into(&mut out, right);
        return Ok(Value::String(string_of(&out)));
    }
    if let Value::String(s) = right {
        let mut out: Vec<char> = Vec::new();
        render_into(&mut out, left);
        push_str(&mut out, s.as_str());
        return Ok(Value::String(string_of(&out)));
    }
    match (left, right) {
        (Value::Array(a), Value::Array(b)) => {
            let mut r = duplicate_values(a);
            let mut tail = duplicate_values(b);
            let ghost r0 = r@;
            let ghost t0 = tail@;
            r.append(&mut tail);
            let res = Value::Array(r);
            proof {
                lemma_array_view(res);
                assert(values_view(r@) =~= values_view(r0) + values_view(t0));
                assert(values_view(r@) =~= values_view(a@) + values_view(b@));
            }
            Ok(res)
        },
        (Value::Number(a), Value::Number(b)) => match a.checked_add(*b) {
            Some(c) => Ok(Value::Number(c)),
            None => Err(RuntimeError::Overflow),
        },
        _ => Err(RuntimeError::TypeMismatch),
    }
}

pub fn subtract_values(left: &Value, right: &Value) -> (r: Result<Value, RuntimeError>)
    ensures
        result_view(r) == subtract_spec(left@, right@),
{
    match (left, right) {
        (Value::Number(a), Value::Number(b)) => match a.checked_sub(*b) {
            Some(c) => Ok(Value::Number(c)),
            None => Err(RuntimeError::Overflow),
        },
        _ => Err(RuntimeError::TypeMismatch),
    }
}

pub fn multiply_values(left: &Value, right: &Value) -> (r: Result<Value, RuntimeError>)
    ensures
        result_view(r) == multiply_spec(left@, right@),
{
    match (left, right) {
        (Value::Number(a), Value::Number(b)) => match a.checked_mul(*b) {
            Some(c) => Ok(Value::Number(c)),
            None => Err(RuntimeError::Overflow),
        },
        _ => Err(RuntimeError::TypeMismatch),
    }
}

/// `/`: integer division rounding toward zero; division by zero is an error.
pub fn divide_values(left: &Value, right: &Value) -> (r: Result<Value, RuntimeError>)
    ensures
        result_view(r) == divide_spec(left@, right@),
{
    match (left, right) {
        (Value::Number(a), Value::Number(b)) => {
            if *b == 0 {
                Err(RuntimeError::DivisionByZero)
            } else {
                match a.checked_div(*b) {
                    Some(c) => Ok(Value::Number(c)),
                    None => Err(RuntimeError::Overflow),
                }
            }
        },
        _ => Err(RuntimeError::TypeMismatch),
    }
}

pub fn compare_greater(left: &Value, right: &Value) -> (r: Result<Value, RuntimeError>)
    ensures
        result_view(r) == order_spec(left@, right@, |a: i64, b: i64| a > b),
{
    match (left, right) {
        (Value::Number(a), Value::Number(b)) => Ok(Value::Boolean(*a > *b)),
        _ => Err(RuntimeError::TypeMismatch),
    }
}

pub fn compare_greater_equal(left: &Value, right: &Value) -> (r: Result<Value, RuntimeError>)
    ensures
        result_view(r) == order_spec(left@, right@, |a: i64, b: i64| a >= b),
{
    match (left, right) {
        (Value::Number(a), Value::Number(b)) => Ok(Value::Boolean(*a >= *b)),
        _ => Err(RuntimeError::TypeMismatch),
    }
}

pub fn compare_less(left: &Value, right: &Value) -> (r: Result<Value, RuntimeError>)
    ensures
        result_view(r) == order_spec(left@, right@, |a: i64, b: i64| a < b),
{
    match (left, right) {
        (Value::Number(a), Value::Number(b)) => Ok(Value::Boolean(*a < *b)),
        _ => Err(RuntimeError::TypeMismatch),
    }
}

pub fn compare_less_equal(left: &Value, right: &Value) -> (r: Result<Value, RuntimeError>)
    ensures
        result_view(r) == order_spec(left@, right@, |a: i64, b: i64| a <= b),
{
    match (left, right) {
        (Value::Number(a), Value::Number(b)) => Ok(Value::Boolean(*a <= *b)),
        _ => Err(RuntimeError::TypeMismatch),
    }
}

/// Structural equality of two values.
pub fn values_equal_exec(a: &Value, b: &Value) -> (r: bool)
    ensures
        r == values_equal(a@, b@),
    decreases a, 1int,
{
    proof {
        lemma_array_view(*a);
        lemma_array_view(*b);
        lemma_dict_view(*a);
        lemma_dict_view(*b);
    }
    match (a, b) {
        (Value::Number(x), Value::Number(y)) => *x == *y,
        (Value::String(x), Value::String(y)) => *x == *y,
        (Value::Boolean(x), Value::Boolean(y)) => *x == *y,
        (Value::Array(x), Value::Array(y)) => arrays_equal(x, y),
        (Value::Dict(x), Value::Dict(y)) => dicts_equal(x, y),
        _ => false,
    }
}

fn arrays_equal(x: &Vec<Value>, y: &Vec<Value>) -> (r: bool)
    ensures
        r == (x@.len() == y@.len() && forall|i: int|
            0 <= i < x@.len() ==> values_equal(
                #[trigger] values_view(x@)[i],
                values_view(y@)[i],
            )),
    decreases x@, 0int,
{
    if x.len() != y.len() {
        return false;
    }
    let mut i: usize = 0;
    while i < x.len()
        invariant
            0 <= i <= x.len(),
            x@.len() == y@.len(),
            forall|j: int|
                0 <= j < i ==> values_equal(#[trigger] values_view(x@)[j], values_view(y@)[j]),
        decreases x.len() - i,
    {
        if !values_equal_exec(&x[i], &y[i]) {
            assert(!values_equal(values_view(x@)[i as int], values_view(y@)[i as int]));
            return false;
        }
        i = i + 1;
    }
    true
}

fn dicts_equal(x: &Vec<(String, Value)>, y: &Vec<(String, Value)>) -> (r: bool)
    ensures
        r == (x@.len() == y@.len() && forall|i: int|
            0 <= i < x@.len() ==> match entry_get(
                entries_view(y@),
                #[trigger] entries_view(x@)[i].0,
            ) {
                Some(w) => values_equal(entries_view(x@)[i].1, w),
                None => false,
            }),
    decreases x@, 0int,
{
    if x.len() != y.len() {
        return false;
    }
    let mut i: usize = 0;
    while i < x.len()
        invariant
            0 <= i <= x.len(),
            x@.len() == y@.len(),
            forall|j: int|
                0 <= j < i ==> match entry_get(
                    entries_view(y@),
                    #[trigger] entries_view(x@)[j].0,
                ) {
                    Some(w) => values_equal(entries_view(x@)[j].1, w),
                    None => false,
                },
        decreases x.len() - i,
    {
        match crate::environment::find_entry(y, &x[i].0) {
            Some(k) => {
                proof {
                    crate::environment::lemma_key_index(entries_view(y@), x@[i as int].0@);
                }
                if !values_equal_exec(&x[i].1, &y[k].1) {
                    assert(entries_view(x@)[i as int].0 == x@[i as int].0@);
                    assert(entry_get(entries_view(y@), entries_view(x@)[i as int].0) == Some(
                        y@[k as int].1@,
                    ));
                    return false;
                }
            },
            None => {
                assert(entries_view(x@)[i as int].0 == x@[i as int].0@);
                assert(entry_get(entries_view(y@), entries_view(x@)[i as int].0) is None);
                return false;
            },
        }
        i = i + 1;
    }
    true
}

/// `==`: structural equality; functions and values of different kinds are
/// never equal.
pub fn compare_equal(left: &Value, right: &Value) -> (r: Value)
    ensures
        r@ == ValueView::Boolean(values_equal(left@, right@)),
{
    Value::Boolean(values_equal_exec(left, right))
}

/// `!=`: the negation of `==`.
pub fn compare_not_equal(left: &Value, right: &Value) -> (r: Value)
    ensures
        r@ == ValueView::Boolean(!values_equal(left@, right@)),
{
    Value::Boolean(!values_equal_exec(left, right))
}

} // verus!
