//! The meaning of programs: a big-step semantics over the models of values
//! and frames. Every step of evaluation spends one unit of `fuel`, a loop
//! iteration included; running out is the `BudgetExhausted` error. User
//! function calls nest at most `MAX_CALL_DEPTH` deep.
use crate::ast::{BinOp, Expr, LogicalOp, Stmt, UnaryOp};
use crate::environment::{
    FrameView, FunctionView, ValueView, assign_in, define_in, entry_get, entry_put, lookup,
    names_view,
};
use crate::error::RuntimeError;
use crate::operators::{
    add_spec, divide_spec, multiply_spec, order_spec, render, subtract_spec, truthy, values_equal,
};
use vstd::prelude::*;

verus! {

/// The deepest nesting of user function calls.
pub const MAX_CALL_DEPTH: u64 = 200;

/// The model of an interpreter: its frames and the lines printed so far.
pub struct State {
    pub frames: Seq<FrameView>,
    pub out: Seq<Seq<char>>,
}

/// How a statement finished: normally (`None`) or with a `return` carrying a
/// value that propagates to the enclosing call.
pub type Flow = Option<ValueView>;

/// The state with `frames` replaced.
pub open spec fn with_frames(st: State, frames: Seq<FrameView>) -> State {
    State { frames, out: st.out }
}

/// A new empty frame enclosed by `parent`, pushed at the end.
pub open spec fn push_frame(st: State, parent: nat) -> State {
    with_frames(st, st.frames.push(FrameView { bindings: Seq::empty(), parent: Some(parent) }))
}

/// The frames after an assignment that is made only when `name` is bound.
pub open spec fn write_back(frames: Seq<FrameView>, cur: nat, name: Seq<char>, v: ValueView) -> Seq<
    FrameView,
> {
    match assign_in(frames, cur as int, name, v) {
        Some(fs) => fs,
        None => frames,
    }
}

/// The result of a binary operator on two values.
pub open spec fn binary_spec(op: BinOp, l: ValueView, r: ValueView) -> Result<
    ValueView,
    RuntimeError,
> {
    match op {
        BinOp::Add => add_spec(l, r),
        BinOp::Subtract => subtract_spec(l, r),
        BinOp::Multiply => multiply_spec(l, r),
        BinOp::Divide => divide_spec(l, r),
        BinOp::Greater => order_spec(l, r, |a: i64, b: i64| a > b),
        BinOp::GreaterEqual => order_spec(l, r, |a: i64, b: i64| a >= b),
        BinOp::Less => order_spec(l, r, |a: i64, b: i64| a < b),
        BinOp::LessEqual => order_spec(l, r, |a: i64, b: i64| a <= b),
        BinOp::EqualEqual => Ok(ValueView::Boolean(values_equal(l, r))),
        BinOp::BangEqual => Ok(ValueView::Boolean(!values_equal(l, r))),
    }
}

/// `-` and `!` on a value.
pub open spec fn unary_spec(op: UnaryOp, v: ValueView) -> Result<ValueView, RuntimeError> {
    match op {
        UnaryOp::Negate => match v {
            ValueView::Number(n) => if n == i64::MIN {
                Err(RuntimeError::Overflow)
            } else {
                Ok(ValueView::Number((-n) as i64))
            },
            _ => Err(RuntimeError::TypeMismatch),
        },
        UnaryOp::Not => Ok(ValueView::Boolean(!truthy(v))),
    }
}

/// The intrinsic `len`: characters of a string, elements of an array,
/// entries of a map.
pub open spec fn len_spec(v: ValueView) -> Result<ValueView, RuntimeError> {
    match v {
        ValueView::Str(s) => Ok(ValueView::Number(s.len() as i64)),
        ValueView::Array(a) => Ok(ValueView::Number(a.len() as i64)),
        ValueView::Dict(m) => Ok(ValueView::Number(m.len() as i64)),
        _ => Err(RuntimeError::TypeMismatch),
    }
}

/// Reading `object[index]`: an array by an in-range number (a negative index
/// is out of range), a map by a string key, a missing key reading as 0.
pub open spec fn index_spec(object: ValueView, index: ValueView) -> Result<ValueView, RuntimeError> {
    match object {
        ValueView::Array(a) => match index {
            ValueView::Number(n) => if 0 <= n < a.len() {
                Ok(a[n as int])
            } else {
                Err(RuntimeError::IndexOutOfBounds { index: n })
            },
            _ => Err(RuntimeError::NotIndexable),
        },
        ValueView::Dict(m) => match index {
            ValueView::Str(k) => Ok(field_spec(m, k)),
            _ => Err(RuntimeError::NonStringKey),
        },
        _ => Err(RuntimeError::NotIndexable),
    }
}

/// The value of key `k` in a map, or 0 when it is missing.
pub open spec fn field_spec(m: Seq<(Seq<char>, ValueView)>, k: Seq<char>) -> ValueView {
    match entry_get(m, k) {
        Some(v) => v,
        None => ValueView::Number(0),
    }
}

/// The updated container of `object[index] = v`.
pub open spec fn index_store_spec(object: ValueView, index: ValueView, v: ValueView) -> Result<
    ValueView,
    RuntimeError,
> {
    match object {
        ValueView::Array(a) => match index {
            ValueView::Number(n) => if 0 <= n < a.len() {
                Ok(ValueView::Array(a.update(n as int, v)))
            } else {
                Err(RuntimeError::IndexOutOfBounds { index: n })
            },
            _ => Err(RuntimeError::NotIndexable),
        },
        ValueView::Dict(m) => match index {
            ValueView::Str(k) => Ok(ValueView::Dict(entry_put(m, k, v))),
            _ => Err(RuntimeError::NonStringKey),
        },
        _ => Err(RuntimeError::NotIndexable),
    }
}

/// The one-character strings of a string, in order.
pub open spec fn char_values(s: Seq<char>) -> Seq<ValueView> {
    Seq::new(s.len(), |i: int| ValueView::Str(seq![s[i]]))
}

/// The line that the intrinsic `print` writes: each value rendered and
/// followed by a space.
pub open spec fn print_line(vs: Seq<ValueView>) -> Seq<char>
    decreases vs.len(),
{
    if vs.len() == 0 {
        Seq::empty()
    } else {
        print_line(vs.drop_last()) + render(vs.last()) + " "@
    }
}

/// After writing a container back: when `object` is a bare variable, the
/// updated container is assigned to it; any other target is not persisted.
pub open spec fn store_back(st: State, cur: nat, object: Expr, container: ValueView) -> State {
    match object {
        Expr::Variable(name) => with_frames(st, write_back(st.frames, cur, name@, container)),
        _ => st,
    }
}

/// Evaluates an expression in frame `cur`.
pub open spec fn eval(st: State, cur: nat, e: Expr, fuel: nat, depth: nat) -> (State, Result<
    ValueView,
    RuntimeError,
>)
    decreases fuel, 0int,
{
    if fuel == 0 {
        (st, Err(RuntimeError::BudgetExhausted))
    } else {
        let f = (fuel - 1) as nat;
        match e {
            Expr::Number(n) => (st, Ok(ValueView::Number(n))),
            Expr::String(s) => (st, Ok(ValueView::Str(s@))),
            Expr::Boolean(b) => (st, Ok(ValueView::Boolean(b))),
            Expr::Variable(name) => match lookup(st.frames, cur as int, name@) {
                Some(v) => (st, Ok(v)),
                None => (st, Err(RuntimeError::UndefinedVariable)),
            },
            Expr::Assign(name, value) => {
                let (st1, r) = eval(st, cur, *value, f, depth);
                match r {
                    Ok(v) => match assign_in(st1.frames, cur as int, name@, v) {
                        Some(fs) => (with_frames(st1, fs), Ok(v)),
                        None => (st1, Err(RuntimeError::UndefinedVariable)),
                    },
                    Err(err) => (st1, Err(err)),
                }
            },
            Expr::Binary { left, operator, right } => {
                let (st1, r1) = eval(st, cur, *left, f, depth);
                match r1 {
                    Ok(l) => {
                        let (st2, r2) = eval(st1, cur, *right, f, depth);
                        match r2 {
                            Ok(r) => (st2, binary_spec(operator, l, r)),
                            Err(err) => (st2, Err(err)),
                        }
                    },
                    Err(err) => (st1, Err(err)),
                }
            },
            Expr::Logical { left, operator, right } => {
                let (st1, r1) = eval(st, cur, *left, f, depth);
                match r1 {
                    Ok(l) => match operator {
                        LogicalOp::And => if !truthy(l) {
                            (st1, Ok(ValueView::Boolean(false)))
                        } else {
                            eval(st1, cur, *right, f, depth)
                        },
                        LogicalOp::Or => if truthy(l) {
                            (st1, Ok(ValueView::Boolean(true)))
                        } else {
                            eval(st1, cur, *right, f, depth)
                        },
                    },
                    Err(err) => (st1, Err(err)),
                }
            },
            Expr::Unary { operator, right } => {
                let (st1, r1) = eval(st, cur, *right, f, depth);
                match r1 {
                    Ok(v) => (st1, unary_spec(operator, v)),
                    Err(err) => (st1, Err(err)),
                }
            },
            Expr::Call { callee, arguments } => {
                if (*callee matches Expr::Variable(name) && name@ == "print"@) {
                    let (st1, r) = eval_list(st, cur, arguments@, 0, Seq::empty(), f, depth);
                    match r {
                        Ok(vs) => (
                            State { frames: st1.frames, out: st1.out.push(print_line(vs)) },
                            Ok(ValueView::Number(0)),
                        ),
                        Err(err) => (st1, Err(err)),
                    }
                } else if (*callee matches Expr::Variable(name) && name@ == "len"@) {
                    if arguments@.len() != 1 {
                        (
                            st,
                            Err(
                                RuntimeError::ArityMismatch {
                                    expected: 1,
                                    found: arguments@.len() as usize,
                                },
                            ),
                        )
                    } else {
                        let (st1, r) = eval(st, cur, arguments@[0], f, depth);
                        match r {
                            Ok(v) => (st1, len_spec(v)),
                            Err(err) => (st1, Err(err)),
                        }
                    }
                } else {
                    let (st1, r) = eval(st, cur, *callee, f, depth);
                    match r {
                        Ok(ValueView::Function(func)) => if arguments@.len()
                            != func.params.len() {
                            (
                                st1,
                                Err(
                                    RuntimeError::ArityMismatch {
                                        expected: func.params.len() as usize,
                                        found: arguments@.len() as usize,
                                    },
                                ),
                            )
                        } else {
                            let (st2, r2) = eval_list(
                                st1,
                                cur,
                                arguments@,
                                0,
                                Seq::empty(),
                                f,
                                depth,
                            );
                            match r2 {
                                Ok(args) => call(st2, func, args, f, depth),
                                Err(err) => (st2, Err(err)),
                            }
                        },
                        Ok(_) => (st1, Err(RuntimeError::NotCallable)),
                        Err(err) => (st1, Err(err)),
                    }
                }
            },
            Expr::Array(elements) => {
                let (st1, r) = eval_list(st, cur, elements@, 0, Seq::empty(), f, depth);
                match r {
                    Ok(vs) => (st1, Ok(ValueView::Array(vs))),
                    Err(err) => (st1, Err(err)),
                }
            },
            Expr::Dict(pairs) => {
                let (st1, r) = eval_pairs(st, cur, pairs@, 0, Seq::empty(), f, depth);
                match r {
                    Ok(m) => (st1, Ok(ValueView::Dict(m))),
                    Err(err) => (st1, Err(err)),
                }
            },
            Expr::Index { object, index } => {
                let (st1, r1) = eval(st, cur, *object, f, depth);
                match r1 {
                    Ok(o) => {
                        let (st2, r2) = eval(st1, cur, *index, f, depth);
                        match r2 {
                            Ok(i) => (st2, index_spec(o, i)),
                            Err(err) => (st2, Err(err)),
                        }
                    },
                    Err(err) => (st1, Err(err)),
                }
            },
            Expr::IndexAssign { object, index, value } => {
                let (st1, r1) = eval(st, cur, *object, f, depth);
                match r1 {
                    Ok(o) => {
                        let (st2, r2) = eval(st1, cur, *index, f, depth);
                        match r2 {
                            Ok(i) => {
                                let (st3, r3) = eval(st2, cur, *value, f, depth);
                                match r3 {
                                    Ok(v) => match index_store_spec(o, i, v) {
                                        Ok(c) => (store_back(st3, cur, *object, c), Ok(v)),
                                        Err(err) => (st3, Err(err)),
                                    },
                                    Err(err) => (st3, Err(err)),
                                }
                            },
                            Err(err) => (st2, Err(err)),
                        }
                    },
                    Err(err) => (st1, Err(err)),
                }
            },
            Expr::Dot { object, field } => {
                let (st1, r1) = eval(st, cur, *object, f, depth);
                match r1 {
                    Ok(ValueView::Dict(m)) => (st1, Ok(field_spec(m, field@))),
                    Ok(_) => (st1, Err(RuntimeError::NotIndexable)),
                    Err(err) => (st1, Err(err)),
                }
            },
            Expr::DotAssign { object, field, value } => {
                let (st1, r1) = eval(st, cur, *object, f, depth);
                match r1 {
                    Ok(o) => {
                        let (st2, r2) = eval(st1, cur, *value, f, depth);
                        match r2 {
                            Ok(v) => match o {
                                ValueView::Dict(m) => (
                                    store_back(
                                        st2,
                                        cur,
                                        *object,
                                        ValueView::Dict(entry_put(m, field@, v)),
                                    ),
                                    Ok(v),
                                ),
                                _ => (st2, Err(RuntimeError::NotIndexable)),
                            },
                            Err(err) => (st2, Err(err)),
                        }
                    },
                    Err(err) => (st1, Err(err)),
                }
            },
        }
    }
}

/// Evaluates `es[i..]` left to right, appending the values to `acc`.
pub open spec fn eval_list(
    st: State,
    cur: nat,
    es: Seq<Expr>,
    i: int,
    acc: Seq<ValueView>,
    fuel: nat,
    depth: nat,
) -> (State, Result<Seq<ValueView>, RuntimeError>)
    decreases fuel, es.len() - i + 1,
{
    if i < 0 || i >= es.len() {
        (st, Ok(acc))
    } else {
        let (st1, r) = eval(st, cur, es[i], fuel, depth);
        match r {
            Ok(v) => eval_list(st1, cur, es, i + 1, acc.push(v), fuel, depth),
            Err(err) => (st1, Err(err)),
        }
    }
}

/// Evaluates the values of map-literal pairs `ps[i..]` left to right, binding
/// each key in `acc`; a later pair overwrites an earlier one with its key.
pub open spec fn eval_pairs(
    st: State,
    cur: nat,
    ps: Seq<(String, Expr)>,
    i: int,
    acc: Seq<(Seq<char>, ValueView)>,
    fuel: nat,
    depth: nat,
) -> (State, Result<Seq<(Seq<char>, ValueView)>, RuntimeError>)
    decreases fuel, ps.len() - i + 1,
{
    if i < 0 || i >= ps.len() {
        (st, Ok(acc))
    } else {
        let (st1, r) = eval(st, cur, ps[i].1, fuel, depth);
        match r {
            Ok(v) => eval_pairs(st1, cur, ps, i + 1, entry_put(acc, ps[i].0@, v), fuel, depth),
            Err(err) => (st1, Err(err)),
        }
    }
}

/// Calls a function value on evaluated arguments: a new frame enclosed by the
/// closure's frame binds the parameters, and the body runs there. The result
/// is the returned value, or 0 when the body completes.
pub open spec fn call(st: State, func: FunctionView, args: Seq<ValueView>, fuel: nat, depth: nat) -> (
    State,
    Result<ValueView, RuntimeError>,
)
    decreases fuel, 0int,
{
    if fuel == 0 {
        (st, Err(RuntimeError::BudgetExhausted))
    } else if depth >= MAX_CALL_DEPTH {
        (st, Err(RuntimeError::CallDepthExceeded))
    } else if func.closure >= st.frames.len() {
        (st, Err(RuntimeError::NotCallable))
    } else {
        let st1 = push_frame(st, func.closure);
        let frame = st.frames.len();
        let st2 = with_frames(st1, bind_params(st1.frames, frame, func.params, args, 0));
        let (st3, r) = exec_seq(st2, frame, func.body, 0, (fuel - 1) as nat, depth + 1);
        match r {
            Ok(Some(v)) => (st3, Ok(v)),
            Ok(None) => (st3, Ok(ValueView::Number(0))),
            Err(err) => (st3, Err(err)),
        }
    }
}

/// Binds `params[i..]` to `args[i..]` in frame `frame`.
pub open spec fn bind_params(
    frames: Seq<FrameView>,
    frame: nat,
    params: Seq<Seq<char>>,
    args: Seq<ValueView>,
    i: int,
) -> Seq<FrameView>
    decreases params.len() - i,
{
    if i < 0 || i >= params.len() || i >= args.len() {
        frames
    } else {
        bind_params(define_in(frames, frame as int, params[i], args[i]), frame, params, args, i + 1)
    }
}

/// Executes a statement in frame `cur`.
pub open spec fn exec(st: State, cur: nat, s: Stmt, fuel: nat, depth: nat) -> (State, Result<
    Flow,
    RuntimeError,
>)
    decreases fuel, 0int,
{
    if fuel == 0 {
        (st, Err(RuntimeError::BudgetExhausted))
    } else {
        let f = (fuel - 1) as nat;
        match s {
            Stmt::Expr(e) => {
                let (st1, r) = eval(st, cur, e, f, depth);
                match r {
                    Ok(_) => (st1, Ok(None)),
                    Err(err) => (st1, Err(err)),
                }
            },
            Stmt::Let { name, initializer } => match initializer {
                Some(e) => {
                    let (st1, r) = eval(st, cur, e, f, depth);
                    match r {
                        Ok(v) => (
                            with_frames(st1, define_in(st1.frames, cur as int, name@, v)),
                            Ok(None),
                        ),
                        Err(err) => (st1, Err(err)),
                    }
                },
                None => (
                    with_frames(st, define_in(st.frames, cur as int, name@, ValueView::Number(0))),
                    Ok(None),
                ),
            },
            Stmt::Print(e) => {
                let (st1, r) = eval(st, cur, e, f, depth);
                match r {
                    Ok(v) => (State { frames: st1.frames, out: st1.out.push(render(v)) }, Ok(None)),
                    Err(err) => (st1, Err(err)),
                }
            },
            Stmt::Block(ss) => exec_seq(push_frame(st, cur), st.frames.len(), ss@, 0, f, depth),
            Stmt::If { condition, then_branch, else_branch } => {
                let (st1, r) = eval(st, cur, condition, f, depth);
                match r {
                    Ok(c) => if truthy(c) {
                        exec(st1, cur, *then_branch, f, depth)
                    } else {
                        match else_branch {
                            Some(b) => exec(st1, cur, *b, f, depth),
                            None => (st1, Ok(None)),
                        }
                    },
                    Err(err) => (st1, Err(err)),
                }
            },
            Stmt::While { condition, body } => {
                let (st1, r) = eval(st, cur, condition, f, depth);
                match r {
                    Ok(c) => if truthy(c) {
                        let (st2, r2) = exec(st1, cur, *body, f, depth);
                        match r2 {
                            Ok(None) => exec(st2, cur, s, f, depth),
                            _ => (st2, r2),
                        }
                    } else {
                        (st1, Ok(None))
                    },
                    Err(err) => (st1, Err(err)),
                }
            },
            Stmt::For { variable, iterable, body } => {
                let (st1, r) = eval(st, cur, *iterable, f, depth);
                match r {
                    Ok(ValueView::Array(items)) => exec_for(
                        st1,
                        cur,
                        variable@,
                        items,
                        0,
                        *body,
                        f,
                        depth,
                    ),
                    Ok(ValueView::Str(text)) => exec_for(
                        st1,
                        cur,
                        variable@,
                        char_values(text),
                        0,
                        *body,
                        f,
                        depth,
                    ),
                    Ok(_) => (st1, Err(RuntimeError::NotIterable)),
                    Err(err) => (st1, Err(err)),
                }
            },
            Stmt::Function { name, params, body } => {
                let func = ValueView::Function(
                    FunctionView {
                        name: name@,
                        params: names_view(params@),
                        body: body@,
                        closure: cur,
                    },
                );
                (with_frames(st, define_in(st.frames, cur as int, name@, func)), Ok(None))
            },
            Stmt::Return { value } => match value {
                Some(e) => {
                    let (st1, r) = eval(st, cur, e, f, depth);
                    match r {
                        Ok(v) => (st1, Ok(Some(v))),
                        Err(err) => (st1, Err(err)),
                    }
                },
                None => (st, Ok(Some(ValueView::Number(0)))),
            },
        }
    }
}

/// Executes `ss[i..]` in order in frame `cur`, stopping at an error or a
/// `return`.
pub open spec fn exec_seq(st: State, cur: nat, ss: Seq<Stmt>, i: int, fuel: nat, depth: nat) -> (
    State,
    Result<Flow, RuntimeError>,
)
    decreases fuel, ss.len() - i + 1,
{
    if i < 0 || i >= ss.len() {
        (st, Ok(None))
    } else {
        let (st1, r) = exec(st, cur, ss[i], fuel, depth);
        match r {
            Ok(None) => exec_seq(st1, cur, ss, i + 1, fuel, depth),
            _ => (st1, r),
        }
    }
}

/// Runs `body` once for each of `items[i..]`, each time in a new frame
/// enclosed by `cur` that binds `variable` to the item.
pub open spec fn exec_for(
    st: State,
    cur: nat,
    variable: Seq<char>,
    items: Seq<ValueView>,
    i: int,
    body: Stmt,
    fuel: nat,
    depth: nat,
) -> (State, Result<Flow, RuntimeError>)
    decreases fuel, items.len() - i + 1,
{
    if i < 0 || i >= items.len() {
        (st, Ok(None))
    } else {
        let frame = st.frames.len();
        let st1 = push_frame(st, cur);
        let st2 = with_frames(st1, define_in(st1.frames, frame as int, variable, items[i]));
        let (st3, r) = exec(st2, frame, body, fuel, depth);
        match r {
            Ok(None) => exec_for(st3, cur, variable, items, i + 1, body, fuel, depth),
            _ => (st3, r),
        }
    }
}

/// The line written when a top-level `return` is ignored.
pub open spec fn ignored_return_line(v: ValueView) -> Seq<char> {
    "warning: top-level return value ignored: "@ + render(v)
}

/// Runs top-level statements `ss[i..]` in the global frame, each with the
/// whole `fuel`. A top-level `return` is reported on the output and the run
/// goes on; the first error ends the run.
pub open spec fn run_from(st: State, ss: Seq<Stmt>, i: int, fuel: nat) -> (State, Result<
    (),
    RuntimeError,
>)
    decreases ss.len() - i,
{
    if i < 0 || i >= ss.len() {
        (st, Ok(()))
    } else {
        let (st1, r) = exec(st, 0, ss[i], fuel, 0);
        match r {
            Ok(None) => run_from(st1, ss, i + 1, fuel),
            Ok(Some(v)) => run_from(
                State { frames: st1.frames, out: st1.out.push(ignored_return_line(v)) },
                ss,
                i + 1,
                fuel,
            ),
            Err(err) => (st1, Err(err)),
        }
    }
}

} // verus!
