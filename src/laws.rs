//! Properties of the language, proved over its semantics.
use crate::ast::{Expr, Stmt};
use crate::environment::{
    FrameView, FunctionView, ValueView, assign_in, define_in, entry_get, entry_put, frames_wf,
    key_index, lemma_define_wf, lemma_entry_put_unique, lemma_key_index, lemma_owner, lookup,
    owner,
};
use crate::error::RuntimeError;
use crate::operators::{divide_spec, render};
use crate::semantics::{
    State, bind_params, call, eval, eval_list, eval_pairs, exec, exec_for, exec_seq, field_spec,
    index_spec, push_frame, run_from, with_frames, write_back,
};
use crate::parser::{
    program, tag, T_AND, T_BANG, T_BANG_EQUAL, T_COLON, T_COMMA, T_DOT, T_ELSE, T_EOF, T_EQUALS, T_EQUAL_EQUAL, T_FALSE, T_FN, T_FOR, T_GREATER, T_GREATER_EQUAL, T_IF, T_IN, T_LEFT_BRACE, T_LEFT_BRACKET, T_LEFT_PAREN, T_LESS, T_LESS_EQUAL, T_LET, T_MINUS, T_OR, T_PLUS, T_PRINT, T_RETURN, T_RIGHT_BRACE, T_RIGHT_BRACKET, T_RIGHT_PAREN, T_SEMICOLON, T_SLASH, T_STAR, T_TRUE, T_WHILE,
};
use crate::scanner::{denotes, fixed_text, is_digit, is_ident_start, is_keyword, scanned};
use crate::tokens::{Token, TokenWithSpan};
use vstd::prelude::*;

verus! {

/// The states that evaluation works on: well-formed frames and a valid
/// current frame.
pub open spec fn valid(st: State, cur: nat) -> bool {
    frames_wf(st.frames) && cur < st.frames.len()
}

/// Whether `st2` is `st` after some evaluation: frames are only added, and
/// the frames stay well formed.
pub open spec fn grows(st: State, st2: State) -> bool {
    frames_wf(st2.frames) && st2.frames.len() >= st.frames.len()
}

pub proof fn lemma_push_frame_wf(st: State, parent: nat)
    requires
        frames_wf(st.frames),
        parent < st.frames.len(),
    ensures
        grows(st, push_frame(st, parent)),
        push_frame(st, parent).frames.len() == st.frames.len() + 1,
{
    let fs = push_frame(st, parent).frames;
    assert forall|f: int| 0 <= f < fs.len() implies crate::environment::keys_unique(
        #[trigger] fs[f].bindings,
    ) by {
        if f < st.frames.len() {
            assert(fs[f] == st.frames[f]);
        }
    }
    assert forall|f: int| 0 <= f < fs.len() implies ((#[trigger] fs[f]).parent matches Some(p)
        ==> p < f) by {
        if f < st.frames.len() {
            assert(fs[f] == st.frames[f]);
        }
    }
}

pub proof fn lemma_assign_in_wf(fs: Seq<FrameView>, cur: nat, name: Seq<char>, v: ValueView)
    requires
        frames_wf(fs),
        cur < fs.len(),
    ensures
        assign_in(fs, cur as int, name, v) matches Some(gs) ==> (frames_wf(gs) && gs.len()
            == fs.len()),
        frames_wf(write_back(fs, cur, name, v)),
        write_back(fs, cur, name, v).len() == fs.len(),
{
    lemma_owner(fs, cur as int, name);
    if let Some(d) = owner(fs, cur as int, name) {
        lemma_define_wf(fs, d as int, name, v);
    }
}

pub proof fn lemma_bind_params_wf(
    fs: Seq<FrameView>,
    frame: nat,
    params: Seq<Seq<char>>,
    args: Seq<ValueView>,
    i: int,
)
    requires
        frames_wf(fs),
        frame < fs.len(),
    ensures
        frames_wf(bind_params(fs, frame, params, args, i)),
        bind_params(fs, frame, params, args, i).len() == fs.len(),
    decreases params.len() - i,
{
    if 0 <= i < params.len() && i < args.len() {
        lemma_define_wf(fs, frame as int, params[i], args[i]);
        lemma_bind_params_wf(define_in(fs, frame as int, params[i], args[i]), frame, params, args, i + 1);
    }
}

/// Evaluation keeps frames well formed and never removes one.
pub proof fn lemma_eval_grows(st: State, cur: nat, e: Expr, fuel: nat, depth: nat)
    requires
        valid(st, cur),
    ensures
        grows(st, eval(st, cur, e, fuel, depth).0),
    decreases fuel, 0int,
{
    if fuel > 0 {
        let f = (fuel - 1) as nat;
        match e {
            Expr::Assign(name, value) => {
                lemma_eval_grows(st, cur, *value, f, depth);
                let (st1, r) = eval(st, cur, *value, f, depth);
                if let Ok(v) = r {
                    lemma_assign_in_wf(st1.frames, cur, name@, v);
                }
            },
            Expr::Binary { left, operator, right } => {
                lemma_eval_grows(st, cur, *left, f, depth);
                let (st1, r1) = eval(st, cur, *left, f, depth);
                if r1 is Ok {
                    lemma_eval_grows(st1, cur, *right, f, depth);
                }
            },
            Expr::Logical { left, operator, right } => {
                lemma_eval_grows(st, cur, *left, f, depth);
                let (st1, r1) = eval(st, cur, *left, f, depth);
                if r1 is Ok {
                    lemma_eval_grows(st1, cur, *right, f, depth);
                }
            },
            Expr::Unary { operator, right } => {
                lemma_eval_grows(st, cur, *right, f, depth);
            },
            Expr::Call { callee, arguments } => {
                lemma_eval_list_grows(st, cur, arguments@, 0, Seq::empty(), f, depth);
                if arguments@.len() == 1 {
                    lemma_eval_grows(st, cur, arguments@[0], f, depth);
                }
                lemma_eval_grows(st, cur, *callee, f, depth);
                let (st1, r) = eval(st, cur, *callee, f, depth);
                if let Ok(ValueView::Function(func)) = r {
                    lemma_eval_list_grows(st1, cur, arguments@, 0, Seq::empty(), f, depth);
                    let (st2, r2) = eval_list(st1, cur, arguments@, 0, Seq::empty(), f, depth);
                    if let Ok(args) = r2 {
                        lemma_call_grows(st2, func, args, f, depth);
                    }
                }
            },
            Expr::Array(elements) => {
                lemma_eval_list_grows(st, cur, elements@, 0, Seq::empty(), f, depth);
            },
            Expr::Dict(pairs) => {
                lemma_eval_pairs_grows(st, cur, pairs@, 0, Seq::empty(), f, depth);
            },
            Expr::Index { object, index } => {
                lemma_eval_grows(st, cur, *object, f, depth);
                let (st1, r1) = eval(st, cur, *object, f, depth);
                if r1 is Ok {
                    lemma_eval_grows(st1, cur, *index, f, depth);
                }
            },
            Expr::IndexAssign { object, index, value } => {
                lemma_eval_grows(st, cur, *object, f, depth);
                let (st1, r1) = eval(st, cur, *object, f, depth);
                if r1 is Ok {
                    lemma_eval_grows(st1, cur, *index, f, depth);
                    let (st2, r2) = eval(st1, cur, *index, f, depth);
                    if r2 is Ok {
                        lemma_eval_grows(st2, cur, *value, f, depth);
                        let (st3, r3) = eval(st2, cur, *value, f, depth);
                        if let Ok(v) = r3 {
                            if let Expr::Variable(name) = *object {
                                if let Ok(c) = crate::semantics::index_store_spec(
                                    r1->Ok_0,
                                    r2->Ok_0,
                                    v,
                                ) {
                                    lemma_assign_in_wf(st3.frames, cur, name@, c);
                                }
                            }
                        }
                    }
                }
            },
            Expr::Dot { object, field } => {
                lemma_eval_grows(st, cur, *object, f, depth);
            },
            Expr::DotAssign { object, field, value } => {
                lemma_eval_grows(st, cur, *object, f, depth);
                let (st1, r1) = eval(st, cur, *object, f, depth);
                if r1 is Ok {
                    lemma_eval_grows(st1, cur, *value, f, depth);
                    let (st2, r2) = eval(st1, cur, *value, f, depth);
                    if let Ok(v) = r2 {
                        if let (Expr::Variable(name), ValueView::Dict(m)) = (*object, r1->Ok_0) {
                            lemma_assign_in_wf(
                                st2.frames,
                                cur,
                                name@,
                                ValueView::Dict(entry_put(m, field@, v)),
                            );
                        }
                    }
                }
            },
            _ => {},
        }
    }
}

pub proof fn lemma_eval_list_grows(
    st: State,
    cur: nat,
    es: Seq<Expr>,
    i: int,
    acc: Seq<ValueView>,
    fuel: nat,
    depth: nat,
)
    requires
        valid(st, cur),
    ensures
        grows(st, eval_list(st, cur, es, i, acc, fuel, depth).0),
    decreases fuel, es.len() - i + 1,
{
    if 0 <= i < es.len() {
        lemma_eval_grows(st, cur, es[i], fuel, depth);
        let (st1, r) = eval(st, cur, es[i], fuel, depth);
        if let Ok(v) = r {
            lemma_eval_list_grows(st1, cur, es, i + 1, acc.push(v), fuel, depth);
        }
    }
}

pub proof fn lemma_eval_pairs_grows(
    st: State,
    cur: nat,
    ps: Seq<(String, Expr)>,
    i: int,
    acc: Seq<(Seq<char>, ValueView)>,
    fuel: nat,
    depth: nat,
)
    requires
        valid(st, cur),
    ensures
        grows(st, eval_pairs(st, cur, ps, i, acc, fuel, depth).0),
    decreases fuel, ps.len() - i + 1,
{
    if 0 <= i < ps.len() {
        lemma_eval_grows(st, cur, ps[i].1, fuel, depth);
        let (st1, r) = eval(st, cur, ps[i].1, fuel, depth);
        if let Ok(v) = r {
            lemma_eval_pairs_grows(st1, cur, ps, i + 1, entry_put(acc, ps[i].0@, v), fuel, depth);
        }
    }
}

pub proof fn lemma_call_grows(st: State, func: FunctionView, args: Seq<ValueView>, fuel: nat, depth: nat)
    requires
        frames_wf(st.frames),
    ensures
        grows(st, call(st, func, args, fuel, depth).0),
    decreases fuel, 0int,
{
    if fuel > 0 && depth < crate::semantics::MAX_CALL_DEPTH && func.closure < st.frames.len() {
        lemma_push_frame_wf(st, func.closure);
        let st1 = push_frame(st, func.closure);
        let frame = st.frames.len();
        lemma_bind_params_wf(st1.frames, frame, func.params, args, 0);
        let st2 = with_frames(st1, bind_params(st1.frames, frame, func.params, args, 0));
        lemma_exec_seq_grows(st2, frame, func.body, 0, (fuel - 1) as nat, depth + 1);
    }
}

/// Execution keeps frames well formed and never removes one.
pub proof fn lemma_exec_grows(st: State, cur: nat, s: Stmt, fuel: nat, depth: nat)
    requires
        valid(st, cur),
    ensures
        grows(st, exec(st, cur, s, fuel, depth).0),
    decreases fuel, 0int,
{
    if fuel > 0 {
        let f = (fuel - 1) as nat;
        match s {
            Stmt::Expr(e) => {
                lemma_eval_grows(st, cur, e, f, depth);
            },
            Stmt::Let { name, initializer } => {
                match initializer {
                    Some(e) => {
                        lemma_eval_grows(st, cur, e, f, depth);
                        let (st1, r) = eval(st, cur, e, f, depth);
                        if let Ok(v) = r {
                            lemma_define_wf(st1.frames, cur as int, name@, v);
                        }
                    },
                    None => {
                        lemma_define_wf(st.frames, cur as int, name@, ValueView::Number(0));
                    },
                }
            },
            Stmt::Print(e) => {
                lemma_eval_grows(st, cur, e, f, depth);
            },
            Stmt::Block(ss) => {
                lemma_push_frame_wf(st, cur);
                lemma_exec_seq_grows(push_frame(st, cur), st.frames.len(), ss@, 0, f, depth);
            },
            Stmt::If { condition, then_branch, else_branch } => {
                lemma_eval_grows(st, cur, condition, f, depth);
                let (st1, r) = eval(st, cur, condition, f, depth);
                if r is Ok {
                    lemma_exec_grows(st1, cur, *then_branch, f, depth);
                    if let Some(b) = else_branch {
                        lemma_exec_grows(st1, cur, *b, f, depth);
                    }
                }
            },
            Stmt::While { condition, body } => {
                lemma_eval_grows(st, cur, condition, f, depth);
                let (st1, r) = eval(st, cur, condition, f, depth);
                if r is Ok {
                    lemma_exec_grows(st1, cur, *body, f, depth);
                    let (st2, r2) = exec(st1, cur, *body, f, depth);
                    lemma_exec_grows(st2, cur, s, f, depth);
                }
            },
            Stmt::For { variable, iterable, body } => {
                lemma_eval_grows(st, cur, *iterable, f, depth);
                let (st1, r) = eval(st, cur, *iterable, f, depth);
                if let Ok(ValueView::Array(items)) = r {
                    lemma_exec_for_grows(st1, cur, variable@, items, 0, *body, f, depth);
                }
                if let Ok(ValueView::Str(text)) = r {
                    lemma_exec_for_grows(
                        st1,
                        cur,
                        variable@,
                        crate::semantics::char_values(text),
                        0,
                        *body,
                        f,
                        depth,
                    );
                }
            },
            Stmt::Function { name, params, body } => {
                let func = ValueView::Function(
                    FunctionView {
                        name: name@,
                        params: crate::environment::names_view(params@),
                        body: body@,
                        closure: cur,
                    },
                );
                lemma_define_wf(st.frames, cur as int, name@, func);
            },
            Stmt::Return { value } => {
                if let Some(e) = value {
                    lemma_eval_grows(st, cur, e, f, depth);
                }
            },
        }
    }
}

pub proof fn lemma_exec_seq_grows(st: State, cur: nat, ss: Seq<Stmt>, i: int, fuel: nat, depth: nat)
    requires
        valid(st, cur),
    ensures
        grows(st, exec_seq(st, cur, ss, i, fuel, depth).0),
    decreases fuel, ss.len() - i + 1,
{
    if 0 <= i < ss.len() {
        lemma_exec_grows(st, cur, ss[i], fuel, depth);
        let (st1, r) = exec(st, cur, ss[i], fuel, depth);
        lemma_exec_seq_grows(st1, cur, ss, i + 1, fuel, depth);
    }
}

pub proof fn lemma_exec_for_grows(
    st: State,
    cur: nat,
    variable: Seq<char>,
    items: Seq<ValueView>,
    i: int,
    body: Stmt,
    fuel: nat,
    depth: nat,
)
    requires
        valid(st, cur),
    ensures
        grows(st, exec_for(st, cur, variable, items, i, body, fuel, depth).0),
    decreases fuel, items.len() - i + 1,
{
    if 0 <= i < items.len() {
        let frame = st.frames.len();
        lemma_push_frame_wf(st, cur);
        let st1 = push_frame(st, cur);
        lemma_define_wf(st1.frames, frame as int, variable, items[i]);
        let st2 = with_frames(st1, define_in(st1.frames, frame as int, variable, items[i]));
        lemma_exec_grows(st2, frame, body, fuel, depth);
        let (st3, r) = exec(st2, frame, body, fuel, depth);
        lemma_exec_for_grows(st3, cur, variable, items, i + 1, body, fuel, depth);
    }
}

/// A name just bound in a frame reads back as the bound value there.
pub proof fn lemma_define_then_lookup(fs: Seq<FrameView>, f: nat, name: Seq<char>, v: ValueView)
    requires
        frames_wf(fs),
        f < fs.len(),
    ensures
        lookup(define_in(fs, f as int, name, v), f as int, name) == Some(v),
{
    lemma_entry_put_unique(fs[f as int].bindings, name, v);
    let gs = define_in(fs, f as int, name, v);
    lemma_key_index(gs[f as int].bindings, name);
}

/// Lookups from frame `cur` depend only on frames `0..=cur`.
pub proof fn lemma_lookup_prefix(fs: Seq<FrameView>, gs: Seq<FrameView>, cur: int, name: Seq<char>)
    requires
        frames_wf(fs),
        0 <= cur < fs.len(),
        cur < gs.len(),
        forall|i: int| 0 <= i <= cur ==> gs[i] == fs[i],
    ensures
        owner(gs, cur, name) == owner(fs, cur, name),
        lookup(gs, cur, name) == lookup(fs, cur, name),
    decreases cur,
{
    assert(gs[cur] == fs[cur]);
    if key_index(fs[cur].bindings, name) < 0 {
        if let Some(p) = fs[cur].parent {
            if p < cur {
                lemma_lookup_prefix(fs, gs, p as int, name);
            }
        }
    }
    lemma_owner(fs, cur, name);
    if let Some(d) = owner(fs, cur, name) {
        assert(gs[d as int] == fs[d as int]);
    }
}

/// `let name = e;` followed by a read of `name` in the same scope yields the
/// value that `e` evaluated to in that scope.
pub proof fn lemma_let_then_read(
    st: State,
    cur: nat,
    name: String,
    e: Expr,
    fuel: nat,
    read_fuel: nat,
    depth: nat,
)
    requires
        valid(st, cur),
        fuel > 0,
        read_fuel > 0,
    ensures
        ({
            let (st1, r) = eval(st, cur, e, (fuel - 1) as nat, depth);
            let (after, done) = exec(
                st,
                cur,
                Stmt::Let { name, initializer: Some(e) },
                fuel,
                depth,
            );
            r is Ok ==> (done == Ok::<Option<ValueView>, RuntimeError>(None) && eval(
                after,
                cur,
                Expr::Variable(name),
                read_fuel,
                depth,
            ) == (after, Ok::<ValueView, RuntimeError>(r->Ok_0)))
        }),
{
    lemma_eval_grows(st, cur, e, (fuel - 1) as nat, depth);
    let (st1, r) = eval(st, cur, e, (fuel - 1) as nat, depth);
    if let Ok(v) = r {
        lemma_define_then_lookup(st1.frames, cur, name@, v);
    }
}

/// Shadowing: binding a name in the frame of an inner block, entered from
/// `cur`, changes no lookup made from `cur` once the block is left.
pub proof fn lemma_inner_let_invisible(
    st: State,
    cur: nat,
    name: String,
    v: ValueView,
    other: Seq<char>,
)
    requires
        valid(st, cur),
    ensures
        ({
            let inner = st.frames.len();
            let fs = push_frame(st, cur).frames;
            lookup(define_in(fs, inner as int, name@, v), cur as int, other) == lookup(
                st.frames,
                cur as int,
                other,
            )
        }),
{
    let inner = st.frames.len();
    let fs = push_frame(st, cur).frames;
    let gs = define_in(fs, inner as int, name@, v);
    assert forall|i: int| 0 <= i <= cur implies gs[i] == st.frames[i] by {
        assert(fs[i] == st.frames[i]);
    }
    lemma_lookup_prefix(st.frames, gs, cur as int, other);
}

/// A block holding only `let name = n;` (a number literal) leaves every
/// lookup from the enclosing scope as it was.
pub proof fn lemma_block_let_leaves_outer(
    st: State,
    cur: nat,
    block: Stmt,
    fuel: nat,
    depth: nat,
    other: Seq<char>,
)
    requires
        valid(st, cur),
        fuel >= 3,
        block matches Stmt::Block(ss) && ss@.len() == 1 && ss@[0] matches Stmt::Let {
            name,
            initializer: Some(Expr::Number(_)),
        },
    ensures
        exec(st, cur, block, fuel, depth).1 == Ok::<Option<ValueView>, RuntimeError>(None),
        lookup(exec(st, cur, block, fuel, depth).0.frames, cur as int, other) == lookup(
            st.frames,
            cur as int,
            other,
        ),
{
    if let Stmt::Block(ss) = block {
        if let Stmt::Let { name, initializer } = ss@[0] {
            if let Some(Expr::Number(n)) = initializer {
                let inner = st.frames.len();
                let st1 = push_frame(st, cur);
                let f = (fuel - 1) as nat;
                assert(eval(st1, inner, Expr::Number(n), (f - 1) as nat, depth) == (
                    st1,
                    Ok::<ValueView, RuntimeError>(ValueView::Number(n)),
                ));
                let (st2, r2) = exec(st1, inner, ss@[0], f, depth);
                assert(st2 == with_frames(
                    st1,
                    define_in(st1.frames, inner as int, name@, ValueView::Number(n)),
                ));
                assert(exec_seq(st2, inner, ss@, 1, f, depth) == (
                    st2,
                    Ok::<Option<ValueView>, RuntimeError>(None),
                ));
                assert(exec_seq(st1, inner, ss@, 0, f, depth) == (
                    st2,
                    Ok::<Option<ValueView>, RuntimeError>(None),
                ));
                lemma_inner_let_invisible(st, cur, name, ValueView::Number(n), other);
            }
        }
    }
}

/// A `for` loop over an empty sequence of items does nothing.
pub proof fn lemma_for_empty(st: State, cur: nat, variable: Seq<char>, body: Stmt, fuel: nat, depth: nat)
    ensures
        exec_for(st, cur, variable, Seq::empty(), 0, body, fuel, depth) == (
            st,
            Ok::<Option<ValueView>, RuntimeError>(None),
        ),
{
}

/// The renderings of items, one line each.
pub open spec fn rendered_lines(items: Seq<ValueView>) -> Seq<Seq<char>> {
    Seq::new(items.len(), |i: int| render(items[i]))
}

/// A `for` loop whose body prints the loop variable visits the items in
/// order, each exactly once: it prints one line per item, in order.
pub proof fn lemma_for_visits_in_order(
    st: State,
    cur: nat,
    variable: String,
    items: Seq<ValueView>,
    i: int,
    fuel: nat,
    depth: nat,
)
    requires
        valid(st, cur),
        fuel >= 2,
        0 <= i <= items.len(),
    ensures
        ({
            let (st2, r) = exec_for(
                st,
                cur,
                variable@,
                items,
                i,
                Stmt::Print(Expr::Variable(variable)),
                fuel,
                depth,
            );
            r == Ok::<Option<ValueView>, RuntimeError>(None) && st2.out == st.out + rendered_lines(
                items.subrange(i, items.len() as int),
            )
        }),
    decreases items.len() - i,
{
    let body = Stmt::Print(Expr::Variable(variable));
    if i < items.len() {
        let frame = st.frames.len();
        lemma_push_frame_wf(st, cur);
        let st1 = push_frame(st, cur);
        lemma_define_wf(st1.frames, frame as int, variable@, items[i]);
        lemma_define_then_lookup(st1.frames, frame, variable@, items[i]);
        let st2 = with_frames(st1, define_in(st1.frames, frame as int, variable@, items[i]));
        assert(eval(st2, frame, Expr::Variable(variable), (fuel - 1) as nat, depth) == (
            st2,
            Ok::<ValueView, RuntimeError>(items[i]),
        ));
        let (st3, r) = exec(st2, frame, body, fuel, depth);
        assert(st3 == State { frames: st2.frames, out: st2.out.push(render(items[i])) });
        assert(st2.out == st.out);
        assert(valid(st3, cur));
        lemma_for_visits_in_order(st3, cur, variable, items, i + 1, fuel, depth);
        assert(rendered_lines(items.subrange(i, items.len() as int)) =~= seq![render(items[i])]
            + rendered_lines(items.subrange(i + 1, items.len() as int)));
        assert(st.out.push(render(items[i])) + rendered_lines(
            items.subrange(i + 1, items.len() as int),
        ) =~= st.out + rendered_lines(items.subrange(i, items.len() as int)));
    } else {
        assert(rendered_lines(items.subrange(i, items.len() as int)) =~= Seq::empty());
        assert(st.out + Seq::<Seq<char>>::empty() =~= st.out);
    }
}

/// Reading a missing key of a map, by index or as a field, gives 0 and no
/// error.
pub proof fn lemma_missing_key_reads_zero(m: Seq<(Seq<char>, ValueView)>, k: Seq<char>)
    requires
        entry_get(m, k) is None,
    ensures
        index_spec(ValueView::Dict(m), ValueView::Str(k)) == Ok::<ValueView, RuntimeError>(
            ValueView::Number(0),
        ),
        field_spec(m, k) == ValueView::Number(0),
{
}

/// Division by zero and an out-of-bounds array index are runtime errors.
pub proof fn lemma_operator_errors(a: i64, items: Seq<ValueView>, n: i64)
    ensures
        divide_spec(ValueView::Number(a), ValueView::Number(0)) == Err::<ValueView, RuntimeError>(
            RuntimeError::DivisionByZero,
        ),
        (n < 0 || n >= items.len()) ==> index_spec(ValueView::Array(items), ValueView::Number(n))
            == Err::<ValueView, RuntimeError>(RuntimeError::IndexOutOfBounds { index: n }),
{
}

/// Whether a callee names one of the intrinsics `print` and `len`.
pub open spec fn is_intrinsic(callee: Expr) -> bool {
    callee matches Expr::Variable(name) && (name@ == "print"@ || name@ == "len"@)
}

/// Calling a value that is not a function is a runtime error (for any
/// callee other than the intrinsics).
pub proof fn lemma_call_non_function(
    st: State,
    cur: nat,
    callee: Box<Expr>,
    arguments: Vec<Expr>,
    fuel: nat,
    depth: nat,
)
    requires
        fuel > 0,
        !is_intrinsic(*callee),
        eval(st, cur, *callee, (fuel - 1) as nat, depth).1 is Ok,
        !(eval(st, cur, *callee, (fuel - 1) as nat, depth).1->Ok_0 is Function),
    ensures
        eval(st, cur, Expr::Call { callee, arguments }, fuel, depth) == (
            eval(st, cur, *callee, (fuel - 1) as nat, depth).0,
            Err::<ValueView, RuntimeError>(RuntimeError::NotCallable),
        ),
{
}

/// A runtime error ends the run: the statements after the failing one are
/// not executed, and the error is the run's result.
pub proof fn lemma_error_ends_run(st: State, ss: Seq<Stmt>, i: int, fuel: nat)
    requires
        0 <= i < ss.len(),
        exec(st, 0, ss[i], fuel, 0).1 is Err,
    ensures
        run_from(st, ss, i, fuel) == (
            exec(st, 0, ss[i], fuel, 0).0,
            Err::<(), RuntimeError>(exec(st, 0, ss[i], fuel, 0).1->Err_0),
        ),
{
}

/// Two tokens of the same kind whose payloads hold the same content.
pub open spec fn same_token(a: Token, b: Token) -> bool {
    match (a, b) {
        (Token::Number(x), Token::Number(y)) => x == y,
        (Token::StringLiteral(x), Token::StringLiteral(y)) => x@ == y@,
        (Token::Identifier(x), Token::Identifier(y)) => x@ == y@,
        _ => tag(a) == tag(b),
    }
}

/// The kind of the keyword or symbol token whose text is `text`.
pub open spec fn kind_of_text(text: Seq<char>) -> u8 {
    if text.len() == 1 && text[0] == '+' {
        T_PLUS
    } else if text.len() == 1 && text[0] == '-' {
        T_MINUS
    } else if text.len() == 1 && text[0] == '*' {
        T_STAR
    } else if text.len() == 1 && text[0] == '/' {
        T_SLASH
    } else if text.len() == 1 && text[0] == '(' {
        T_LEFT_PAREN
    } else if text.len() == 1 && text[0] == ')' {
        T_RIGHT_PAREN
    } else if text.len() == 1 && text[0] == '[' {
        T_LEFT_BRACKET
    } else if text.len() == 1 && text[0] == ']' {
        T_RIGHT_BRACKET
    } else if text.len() == 1 && text[0] == '=' {
        T_EQUALS
    } else if text.len() == 1 && text[0] == ';' {
        T_SEMICOLON
    } else if text.len() == 1 && text[0] == ':' {
        T_COLON
    } else if text.len() == 1 && text[0] == ',' {
        T_COMMA
    } else if text.len() == 1 && text[0] == '.' {
        T_DOT
    } else if text.len() == 1 && text[0] == '{' {
        T_LEFT_BRACE
    } else if text.len() == 1 && text[0] == '}' {
        T_RIGHT_BRACE
    } else if text.len() == 1 && text[0] == '>' {
        T_GREATER
    } else if text.len() == 2 && text[0] == '>' && text[1] == '=' {
        T_GREATER_EQUAL
    } else if text.len() == 1 && text[0] == '<' {
        T_LESS
    } else if text.len() == 2 && text[0] == '<' && text[1] == '=' {
        T_LESS_EQUAL
    } else if text.len() == 2 && text[0] == '=' && text[1] == '=' {
        T_EQUAL_EQUAL
    } else if text.len() == 2 && text[0] == '!' && text[1] == '=' {
        T_BANG_EQUAL
    } else if text.len() == 1 && text[0] == '!' {
        T_BANG
    } else if text.len() == 3 && text[0] == 'l' && text[1] == 'e' && text[2] == 't' {
        T_LET
    } else if text.len() == 5 && text[0] == 'p' && text[1] == 'r' && text[2] == 'i' && text[3] == 'n' && text[4] == 't' {
        T_PRINT
    } else if text.len() == 2 && text[0] == 'i' && text[1] == 'f' {
        T_IF
    } else if text.len() == 4 && text[0] == 'e' && text[1] == 'l' && text[2] == 's' && text[3] == 'e' {
        T_ELSE
    } else if text.len() == 5 && text[0] == 'w' && text[1] == 'h' && text[2] == 'i' && text[3] == 'l' && text[4] == 'e' {
        T_WHILE
    } else if text.len() == 4 && text[0] == 't' && text[1] == 'r' && text[2] == 'u' && text[3] == 'e' {
        T_TRUE
    } else if text.len() == 5 && text[0] == 'f' && text[1] == 'a' && text[2] == 'l' && text[3] == 's' && text[4] == 'e' {
        T_FALSE
    } else if text.len() == 3 && text[0] == 'a' && text[1] == 'n' && text[2] == 'd' {
        T_AND
    } else if text.len() == 2 && text[0] == 'o' && text[1] == 'r' {
        T_OR
    } else if text.len() == 2 && text[0] == 'f' && text[1] == 'n' {
        T_FN
    } else if text.len() == 6 && text[0] == 'r' && text[1] == 'e' && text[2] == 't' && text[3] == 'u' && text[4] == 'r' && text[5] == 'n' {
        T_RETURN
    } else if text.len() == 3 && text[0] == 'f' && text[1] == 'o' && text[2] == 'r' {
        T_FOR
    } else if text.len() == 2 && text[0] == 'i' && text[1] == 'n' {
        T_IN
    } else {
        T_EOF
    }
}

/// A keyword or symbol text names exactly its token's kind; it is a
/// keyword, or starts with neither a letter, a digit nor a quote.
pub proof fn lemma_fixed_text(a: Token)
    requires
        fixed_text(a) is Some,
    ensures
        kind_of_text(fixed_text(a)->Some_0) == tag(a),
        is_keyword(fixed_text(a)->Some_0) || ({
            let c = fixed_text(a)->Some_0[0];
            !is_ident_start(c) && !is_digit(c) && c != '"'
        }),
{
    match a {
        Token::Number(_) => {},
        Token::Plus => {},
        Token::Minus => {},
        Token::StringLiteral(_) => {},
        Token::Star => {},
        Token::Slash => {},
        Token::LeftParen => {},
        Token::RightParen => {},
        Token::LeftBracket => {},
        Token::RightBracket => {},
        Token::EOF => {},
        Token::Identifier(_) => {},
        Token::Equals => {},
        Token::Semicolon => {},
        Token::Colon => {},
        Token::Comma => {},
        Token::Dot => {},
        Token::LeftBrace => {},
        Token::RightBrace => {},
        Token::Greater => {},
        Token::GreaterEqual => {},
        Token::Less => {},
        Token::LessEqual => {},
        Token::EqualEqual => {},
        Token::BangEqual => {},
        Token::Bang => {},
        Token::Let => {},
        Token::Print => {},
        Token::If => {},
        Token::Else => {},
        Token::While => {},
        Token::True => {},
        Token::False => {},
        Token::And => {},
        Token::Or => {},
        Token::Fn => {},
        Token::Return => {},
        Token::For => {},
        Token::In => {},
    }
}

/// A lexeme's text determines its token.
pub proof fn lemma_denotes_unique(a: Token, b: Token, text: Seq<char>)
    requires
        denotes(a, text),
        denotes(b, text),
    ensures
        same_token(a, b),
{
    if fixed_text(a) is Some {
        lemma_fixed_text(a);
    }
    if fixed_text(b) is Some {
        lemma_fixed_text(b);
    }
}

/// Scanning is repeatable: two scans of the same text from the same position
/// agree on every span, and their tokens are the same.
pub proof fn lemma_scan_repeatable(
    src: Seq<char>,
    from: int,
    t1: Seq<TokenWithSpan>,
    t2: Seq<TokenWithSpan>,
)
    requires
        scanned(src, from, t1),
        scanned(src, from, t2),
    ensures
        t1.len() == t2.len(),
        forall|i: int| 0 <= i < t1.len() ==> (#[trigger] t1[i]).span == t2[i].span,
        forall|i: int| 0 <= i < t1.len() ==> same_token(#[trigger] t1[i].token, t2[i].token),
{
    assert forall|i: int| 0 <= i < t1.len() implies same_token(#[trigger] t1[i].token, t2[i].token) by {
        if i < t1.len() - 1 {
            let sp = t1[i].span;
            lemma_denotes_unique(t1[i].token, t2[i].token, src.subrange(sp.0 as int, sp.1 as int));
        }
    }
}

/// Parsing is repeatable: the same tokens give the same program, or the same
/// errors.
pub proof fn lemma_parse_repeatable(ts1: Seq<Token>, ts2: Seq<Token>, from: int)
    requires
        ts1 == ts2,
    ensures
        program(ts1, from, Seq::empty(), Seq::empty()) == program(ts2, from, Seq::empty(), Seq::empty()),
{
}

/// Frames `fs` and `gs` agree on everything a lookup of `name` reads.
pub open spec fn agree_on(fs: Seq<FrameView>, gs: Seq<FrameView>, name: Seq<char>) -> bool {
    &&& fs.len() == gs.len()
    &&& forall|j: int|
        0 <= j < fs.len() ==> {
            &&& (#[trigger] gs[j]).parent == fs[j].parent
            &&& key_index(gs[j].bindings, name) == key_index(fs[j].bindings, name)
            &&& entry_get(gs[j].bindings, name) == entry_get(fs[j].bindings, name)
        }
}

/// Lookups of `name` depend only on what the frames hold for `name`.
pub proof fn lemma_lookup_agree(fs: Seq<FrameView>, gs: Seq<FrameView>, cur: int, name: Seq<char>)
    requires
        agree_on(fs, gs, name),
    ensures
        owner(gs, cur, name) == owner(fs, cur, name),
        lookup(gs, cur, name) == lookup(fs, cur, name),
    decreases cur,
{
    if 0 <= cur < fs.len() {
        assert(gs[cur].parent == fs[cur].parent);
        if key_index(fs[cur].bindings, name) < 0 {
            if let Some(p) = fs[cur].parent {
                if p < cur {
                    lemma_lookup_agree(fs, gs, p as int, name);
                }
            }
        }
        if let Some(d) = owner(fs, cur, name) {
            if 0 <= d < fs.len() {
                assert(gs[d as int].parent == fs[d as int].parent);
            }
        }
    }
}

/// Binding `k` in a map leaves what it holds for any other key.
pub proof fn lemma_entry_put_other(
    m: Seq<(Seq<char>, ValueView)>,
    k: Seq<char>,
    v: ValueView,
    other: Seq<char>,
)
    requires
        k != other,
    ensures
        key_index(entry_put(m, k, v), other) == key_index(m, other),
        entry_get(entry_put(m, k, v), other) == entry_get(m, other),
{
    let r = entry_put(m, k, v);
    lemma_key_index(m, k);
    lemma_key_index(m, other);
    lemma_key_index(r, other);
    let i = key_index(m, other);
    let j = key_index(r, other);
    let ik = key_index(m, k);
    assert(forall|t: int| 0 <= t < m.len() ==> (#[trigger] r[t]).0 == m[t].0 || (t == ik && r[t].0
        == k));
    assert(r.len() >= m.len());
    if i >= 0 {
        assert(r[i].0 == other);
        assert(j <= i);
        if j < i {
            assert(r[j].0 == m[j].0);
        }
        assert(r[i] == m[i]);
    } else {
        if j >= 0 {
            if j < m.len() {
                assert(r[j].0 == m[j].0);
            } else {
                assert(r[j].0 == k);
            }
        }
    }
}

/// Defining `name` in one frame leaves what every frame holds for any other
/// name, except possibly whether `f` binds it when `name` was new there.
pub proof fn lemma_define_other(
    fs: Seq<FrameView>,
    f: int,
    name: Seq<char>,
    v: ValueView,
    other: Seq<char>,
)
    requires
        0 <= f < fs.len(),
        name != other,
    ensures
        agree_on(fs, define_in(fs, f, name, v), other),
{
    lemma_entry_put_other(fs[f].bindings, name, v, other);
    let gs = define_in(fs, f, name, v);
    assert forall|j: int| 0 <= j < fs.len() implies {
        &&& (#[trigger] gs[j]).parent == fs[j].parent
        &&& key_index(gs[j].bindings, other) == key_index(fs[j].bindings, other)
        &&& entry_get(gs[j].bindings, other) == entry_get(fs[j].bindings, other)
    } by {
        if j != f {
            assert(gs[j] == fs[j]);
        } else {
            lemma_key_index(fs[f].bindings, other);
            lemma_key_index(gs[f].bindings, other);
            lemma_key_index(fs[f].bindings, name);
        }
    }
}

/// Assignment copies values: assigning to `name` leaves the value read
/// through every other name unchanged.
pub proof fn lemma_assign_leaves_other_names(
    fs: Seq<FrameView>,
    cur: nat,
    name: Seq<char>,
    v: ValueView,
    other: Seq<char>,
)
    requires
        frames_wf(fs),
        cur < fs.len(),
        other != name,
    ensures
        assign_in(fs, cur as int, name, v) matches Some(gs) ==> lookup(gs, cur as int, other)
            == lookup(fs, cur as int, other),
{
    lemma_owner(fs, cur as int, name);
    if let Some(d) = owner(fs, cur as int, name) {
        lemma_define_other(fs, d as int, name, v, other);
        lemma_lookup_agree(fs, define_in(fs, d as int, name, v), cur as int, other);
    }
}

/// Binding parameters other than `name` changes nothing a lookup of `name`
/// reads, but whether the call frame binds it, which stays as it was.
pub proof fn lemma_bind_params_other(
    fs: Seq<FrameView>,
    frame: nat,
    params: Seq<Seq<char>>,
    args: Seq<ValueView>,
    i: int,
    name: Seq<char>,
)
    requires
        frame < fs.len(),
        !params.contains(name),
    ensures
        agree_on(fs, bind_params(fs, frame, params, args, i), name),
    decreases params.len() - i,
{
    if 0 <= i < params.len() && i < args.len() {
        assert(params[i] != name);
        let gs = define_in(fs, frame as int, params[i], args[i]);
        lemma_define_other(fs, frame as int, params[i], args[i], name);
        lemma_bind_params_other(gs, frame, params, args, i + 1, name);
        let hs = bind_params(gs, frame, params, args, i + 1);
        assert forall|j: int| 0 <= j < fs.len() implies {
            &&& (#[trigger] hs[j]).parent == fs[j].parent
            &&& key_index(hs[j].bindings, name) == key_index(fs[j].bindings, name)
            &&& entry_get(hs[j].bindings, name) == entry_get(fs[j].bindings, name)
        } by {
            assert(hs[j].parent == gs[j].parent);
            assert(gs[j].parent == fs[j].parent);
        }
    }
}

/// Closures capture their defining scope by reference: inside a call, a name
/// that is not a parameter reads as it reads, at the time of the call, in
/// the frame the function was declared in.
pub proof fn lemma_call_reads_closure_scope(
    st: State,
    func: FunctionView,
    args: Seq<ValueView>,
    name: Seq<char>,
)
    requires
        frames_wf(st.frames),
        func.closure < st.frames.len(),
        !func.params.contains(name),
    ensures
        ({
            let frame = st.frames.len();
            let fs1 = push_frame(st, func.closure).frames;
            lookup(bind_params(fs1, frame, func.params, args, 0), frame as int, name) == lookup(
                st.frames,
                func.closure as int,
                name,
            )
        }),
{
    let frame = st.frames.len();
    lemma_push_frame_wf(st, func.closure);
    let fs1 = push_frame(st, func.closure).frames;
    lemma_bind_params_other(fs1, frame, func.params, args, 0, name);
    let gs = bind_params(fs1, frame, func.params, args, 0);
    lemma_lookup_agree(fs1, gs, frame as int, name);
    lemma_key_index(fs1[frame as int].bindings, name);
    assert(owner(fs1, frame as int, name) == owner(fs1, func.closure as int, name));
    assert forall|i: int| 0 <= i <= func.closure implies fs1[i] == st.frames[i] by {}
    lemma_lookup_prefix(st.frames, fs1, func.closure as int, name);
}

} // verus!
