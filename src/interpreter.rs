//! The tree-walking evaluator, proved to follow the semantics of
//! `crate::semantics`.
use crate::ast::{BinOp, Expr, LogicalOp, Program, Stmt, UnaryOp};
use crate::environment::{
    Environment, Function, Value, ValueView, entries_view, find_entry, lemma_array_view,
    lemma_dict_view, lemma_key_index, put_entry, values_view,
};
use crate::error::RuntimeError;
use crate::operators::{
    add_values, compare_equal, compare_greater, compare_greater_equal, compare_less,
    compare_less_equal, compare_not_equal, divide_values, is_truthy, multiply_values,
    result_view, subtract_values, value_to_string,
};
use crate::semantics::{
    MAX_CALL_DEPTH, State, bind_params, call, char_values, eval, eval_list, eval_pairs, exec,
    exec_for, exec_seq, print_line,
};
use crate::text::{chars_of, push_str, str_eq, string_of};
use vstd::prelude::*;

verus! {

/// The model of a statement's outcome.
pub open spec fn flow_view(r: Result<Option<Value>, RuntimeError>) -> Result<
    Option<ValueView>,
    RuntimeError,
> {
    match r {
        Ok(Some(v)) => Ok(Some(v@)),
        Ok(None) => Ok(None),
        Err(e) => Err(e),
    }
}

/// The model of a list of values or an error.
pub open spec fn list_view(r: Result<Vec<Value>, RuntimeError>) -> Result<
    Seq<ValueView>,
    RuntimeError,
> {
    match r {
        Ok(vs) => Ok(values_view(vs@)),
        Err(e) => Err(e),
    }
}

/// An interpreter: the frames of one run (frame 0 is the global scope) and
/// the lines printed so far.
pub struct Interpreter {
    env: Environment,
    output: Vec<String>,
}

impl View for Interpreter {
    type V = State;

    closed spec fn view(&self) -> State {
        State {
            frames: self.env@,
            out: Seq::new(self.output@.len(), |i: int| self.output@[i]@),
        }
    }
}

impl Interpreter {
    pub open spec fn wf(&self) -> bool {
        crate::environment::frames_wf(self@.frames) && self@.frames.len() > 0
    }

    /// An interpreter with an empty global frame and no output.
    pub fn new() -> (r: Interpreter)
        ensures
            r.wf(),
            r@ == (State {
                frames: seq![
                    crate::environment::FrameView { bindings: Seq::empty(), parent: None },
                ],
                out: Seq::empty(),
            }),
    {
        let r = Interpreter { env: Environment::new(), output: Vec::new() };
        assert(r@.out =~= Seq::empty());
        r
    }

    /// The lines printed so far.
    pub fn output(&self) -> (r: &Vec<String>)
        ensures
            r@.len() == self@.out.len(),
            forall|i: int| 0 <= i < r@.len() ==> (#[trigger] r@[i])@ == self@.out[i],
    {
        &self.output
    }

    /// Runs a program's top-level statements in the global frame, each with
    /// `fuel` evaluation steps. Printed lines are appended to the output; a
    /// top-level `return` adds a warning line and the run goes on; the first
    /// runtime error ends the run and is returned.
    pub fn interpret(&mut self, program: &Program, fuel: u64) -> (r: Result<(), RuntimeError>)
        requires
            old(self).wf(),
        ensures
            final(self).wf(),
            crate::semantics::run_from(old(self)@, program.statements@, 0, fuel as nat) == (
                final(self)@,
                r,
            ),
    {
        let ghost st0 = self@;
        let ss = &program.statements;
        let mut i: usize = 0;
        while i < ss.len()
            invariant
                st0 == old(self)@,
                ss@ == program.statements@,
                self.wf(),
                0 <= i <= ss.len(),
                crate::semantics::run_from(st0, ss@, 0, fuel as nat)
                    == crate::semantics::run_from(self@, ss@, i as int, fuel as nat),
            decreases ss.len() - i,
        {
            let ghost before = self@;
            let r = match self.execute(0, &ss[i], fuel, 0) {
                Ok(r) => r,
                Err(e) => {
                    assert(crate::semantics::run_from(before, ss@, i as int, fuel as nat) == (
                        self@,
                        Err::<(), RuntimeError>(e),
                    ));
                    return Err(e);
                },
            };
            match r {
                Some(v) => {
                    let mut line: Vec<char> = Vec::new();
                    push_str(&mut line, "warning: top-level return value ignored: ");
                    let text = value_to_string(&v);
                    push_str(&mut line, text.as_str());
                    self.print_line(string_of(&line));
                },
                None => {},
            }
            i = i + 1;
        }
        Ok(())
    }

    fn print_line(&mut self, line: String)
        ensures
            final(self).env == old(self).env,
            final(self)@ == (State { frames: old(self)@.frames, out: old(self)@.out.push(line@) }),
    {
        self.output.push(line);
        assert(self@.out =~= old(self)@.out.push(line@));
    }

    /// Evaluates an expression in frame `cur`.
    pub fn evaluate(&mut self, cur: usize, e: &Expr, fuel: u64, depth: u64) -> (r: Result<
        Value,
        RuntimeError,
    >)
        requires
            old(self).wf(),
            cur < old(self)@.frames.len(),
        ensures
            final(self).wf(),
            final(self)@.frames.len() >= old(self)@.frames.len(),
            eval(old(self)@, cur as nat, *e, fuel as nat, depth as nat) == (
                final(self)@,
                result_view(r),
            ),
        decreases fuel, 2int,
    {
        if fuel == 0 {
            return Err(RuntimeError::BudgetExhausted);
        }
        let f = fuel - 1;
        match e {
            Expr::Number(n) => Ok(Value::Number(*n)),
            Expr::String(s) => Ok(Value::String(s.clone())),
            Expr::Boolean(b) => Ok(Value::Boolean(*b)),
            Expr::Variable(name) => match self.env.get(cur, name) {
                Some(v) => Ok(v),
                None => Err(RuntimeError::UndefinedVariable),
            },
            Expr::Assign(name, value) => {
                let v = self.evaluate(cur, value, f, depth)?;
                let w = v.duplicate();
                if self.env.assign(cur, name, v) {
                    Ok(w)
                } else {
                    Err(RuntimeError::UndefinedVariable)
                }
            },
            Expr::Binary { .. } => self.evaluate_binary(cur, e, fuel, depth),
            Expr::Logical { left, operator, right } => {
                let l = self.evaluate(cur, left, f, depth)?;
                match operator {
                    LogicalOp::And => {
                        if !is_truthy(&l) {
                            Ok(Value::Boolean(false))
                        } else {
                            self.evaluate(cur, right, f, depth)
                        }
                    },
                    LogicalOp::Or => {
                        if is_truthy(&l) {
                            Ok(Value::Boolean(true))
                        } else {
                            self.evaluate(cur, right, f, depth)
                        }
                    },
                }
            },
            Expr::Unary { operator, right } => {
                let v = self.evaluate(cur, right, f, depth)?;
                match operator {
                    UnaryOp::Negate => match v {
                        Value::Number(n) => {
                            if n == i64::MIN {
                                Err(RuntimeError::Overflow)
                            } else {
                                Ok(Value::Number(-n))
                            }
                        },
                        _ => Err(RuntimeError::TypeMismatch),
                    },
                    UnaryOp::Not => Ok(Value::Boolean(!is_truthy(&v))),
                }
            },
            Expr::Call { .. } => self.evaluate_call(cur, e, fuel, depth),
            Expr::Array(elements) => {
                let vs = self.evaluate_list(cur, elements, f, depth)?;
                let res = Value::Array(vs);
                proof {
                    lemma_array_view(res);
                }
                Ok(res)
            },
            Expr::Dict(pairs) => {
                let m = self.evaluate_pairs(cur, pairs, f, depth)?;
                let res = Value::Dict(m);
                proof {
                    lemma_dict_view(res);
                }
                Ok(res)
            },
            Expr::Index { object, index } => {
                let o = self.evaluate(cur, object, f, depth)?;
                let i = self.evaluate(cur, index, f, depth)?;
                index_value(&o, &i)
            },
            Expr::IndexAssign { .. } => self.evaluate_index_assign(cur, e, fuel, depth),
            Expr::Dot { object, field } => {
                let o = self.evaluate(cur, object, f, depth)?;
                proof {
                    lemma_dict_view(o);
                }
                match o {
                    Value::Dict(m) => Ok(field_value(&m, field)),
                    _ => Err(RuntimeError::NotIndexable),
                }
            },
            Expr::DotAssign { .. } => self.evaluate_dot_assign(cur, e, fuel, depth),
        }
    }

    fn evaluate_binary(&mut self, cur: usize, e: &Expr, fuel: u64, depth: u64) -> (r: Result<
        Value,
        RuntimeError,
    >)
        requires
            old(self).wf(),
            cur < old(self)@.frames.len(),
            fuel > 0,
            e is Binary,
        ensures
            final(self).wf(),
            final(self)@.frames.len() >= old(self)@.frames.len(),
            eval(old(self)@, cur as nat, *e, fuel as nat, depth as nat) == (
                final(self)@,
                result_view(r),
            ),
        decreases fuel, 1int,
    {
        let f = fuel - 1;
        match e {
            Expr::Binary { left, operator, right } => {
                let l = self.evaluate(cur, left, f, depth)?;
                let r = self.evaluate(cur, right, f, depth)?;
                match operator {
                    BinOp::Add => add_values(&l, &r),
                    BinOp::Subtract => subtract_values(&l, &r),
                    BinOp::Multiply => multiply_values(&l, &r),
                    BinOp::Divide => divide_values(&l, &r),
                    BinOp::Greater => compare_greater(&l, &r),
                    BinOp::GreaterEqual => compare_greater_equal(&l, &r),
                    BinOp::Less => compare_less(&l, &r),
                    BinOp::LessEqual => compare_less_equal(&l, &r),
                    BinOp::EqualEqual => Ok(compare_equal(&l, &r)),
                    BinOp::BangEqual => Ok(compare_not_equal(&l, &r)),
                }
            },
            _ => Err(RuntimeError::TypeMismatch),
        }
    }

    /// Evaluates `es` left to right.
    fn evaluate_list(&mut self, cur: usize, es: &Vec<Expr>, fuel: u64, depth: u64) -> (r: Result<
        Vec<Value>,
        RuntimeError,
    >)
        requires
            old(self).wf(),
            cur < old(self)@.frames.len(),
        ensures
            final(self).wf(),
            final(self)@.frames.len() >= old(self)@.frames.len(),
            eval_list(old(self)@, cur as nat, es@, 0, Seq::empty(), fuel as nat, depth as nat) == (
                final(self)@,
                list_view(r),
            ),
        decreases fuel, es@.len() + 3,
    {
        let ghost st0 = self@;
        let mut acc: Vec<Value> = Vec::new();
        let mut i: usize = 0;
        assert(values_view(acc@) =~= Seq::empty());
        while i < es.len()
            invariant
                st0 == old(self)@,
                self.wf(),
                cur < self@.frames.len(),
                self@.frames.len() >= st0.frames.len(),
                0 <= i <= es.len(),
                eval_list(st0, cur as nat, es@, 0, Seq::empty(), fuel as nat, depth as nat)
                    == eval_list(
                    self@,
                    cur as nat,
                    es@,
                    i as int,
                    values_view(acc@),
                    fuel as nat,
                    depth as nat,
                ),
            decreases es.len() - i,
        {
            let v = self.evaluate(cur, &es[i], fuel, depth)?;
            let ghost a0 = acc@;
            acc.push(v);
            assert(values_view(acc@) =~= values_view(a0).push(v@));
            i = i + 1;
        }
        Ok(acc)
    }

    /// Evaluates the values of a map literal left to right.
    fn evaluate_pairs(
        &mut self,
        cur: usize,
        ps: &Vec<(String, Expr)>,
        fuel: u64,
        depth: u64,
    ) -> (r: Result<Vec<(String, Value)>, RuntimeError>)
        requires
            old(self).wf(),
            cur < old(self)@.frames.len(),
        ensures
            final(self).wf(),
            final(self)@.frames.len() >= old(self)@.frames.len(),
            eval_pairs(old(self)@, cur as nat, ps@, 0, Seq::empty(), fuel as nat, depth as nat)
                == (final(self)@, match r {
                Ok(m) => Ok(entries_view(m@)),
                Err(e) => Err(e),
            }),
        decreases fuel, ps@.len() + 3,
    {
        let ghost st0 = self@;
        let mut acc: Vec<(String, Value)> = Vec::new();
        let mut i: usize = 0;
        assert(entries_view(acc@) =~= Seq::empty());
        while i < ps.len()
            invariant
                st0 == old(self)@,
                self.wf(),
                cur < self@.frames.len(),
                self@.frames.len() >= st0.frames.len(),
                0 <= i <= ps.len(),
                eval_pairs(st0, cur as nat, ps@, 0, Seq::empty(), fuel as nat, depth as nat)
                    == eval_pairs(
                    self@,
                    cur as nat,
                    ps@,
                    i as int,
                    entries_view(acc@),
                    fuel as nat,
                    depth as nat,
                ),
            decreases ps.len() - i,
        {
            let v = self.evaluate(cur, &ps[i].1, fuel, depth)?;
            put_entry(&mut acc, ps[i].0.clone(), v);
            i = i + 1;
        }
        Ok(acc)
    }

    fn evaluate_call(&mut self, cur: usize, e: &Expr, fuel: u64, depth: u64) -> (r: Result<
        Value,
        RuntimeError,
    >)
        requires
            old(self).wf(),
            cur < old(self)@.frames.len(),
            fuel > 0,
            e is Call,
        ensures
            final(self).wf(),
            final(self)@.frames.len() >= old(self)@.frames.len(),
            eval(old(self)@, cur as nat, *e, fuel as nat, depth as nat) == (
                final(self)@,
                result_view(r),
            ),
        decreases fuel, 1int,
    {
        let f = fuel - 1;
        match e {
            Expr::Call { callee, arguments } => {
                let intrinsic: u8 = match &**callee {
                    Expr::Variable(name) => {
                        if str_eq(name.as_str(), "print") {
                            1
                        } else if str_eq(name.as_str(), "len") {
                            2
                        } else {
                            0
                        }
                    },
                    _ => 0,
                };
                if intrinsic == 1 {
                    let vs = self.evaluate_list(cur, arguments, f, depth)?;
                    let mut line: Vec<char> = Vec::new();
                    let mut i: usize = 0;
                    while i < vs.len()
                        invariant
                            0 <= i <= vs.len(),
                            line@ == print_line(values_view(vs@).subrange(0, i as int)),
                        decreases vs.len() - i,
                    {
                        let s = value_to_string(&vs[i]);
                        push_str(&mut line, s.as_str());
                        push_str(&mut line, " ");
                        i = i + 1;
                        proof {
                            let t = values_view(vs@).subrange(0, i as int);
                            assert(t.drop_last() =~= values_view(vs@).subrange(0, i - 1));
                        }
                    }
                    assert(values_view(vs@).subrange(0, vs.len() as int) =~= values_view(vs@));
                    self.print_line(string_of(&line));
                    Ok(Value::Number(0))
                } else if intrinsic == 2 {
                    if arguments.len() != 1 {
                        return Err(
                            RuntimeError::ArityMismatch { expected: 1, found: arguments.len() },
                        );
                    }
                    let v = self.evaluate(cur, &arguments[0], f, depth)?;
                    proof {
                        lemma_array_view(v);
                        lemma_dict_view(v);
                    }
                    match v {
                        Value::String(s) => Ok(Value::Number(chars_of(s.as_str()).len() as i64)),
                        Value::Array(a) => Ok(Value::Number(a.len() as i64)),
                        Value::Dict(m) => Ok(Value::Number(m.len() as i64)),
                        _ => Err(RuntimeError::TypeMismatch),
                    }
                } else {
                    let c = self.evaluate(cur, callee, f, depth)?;
                    match c {
                        Value::Function(func) => {
                            if arguments.len() != func.params.len() {
                                return Err(
                                    RuntimeError::ArityMismatch {
                                        expected: func.params.len(),
                                        found: arguments.len(),
                                    },
                                );
                            }
                            let args = self.evaluate_list(cur, arguments, f, depth)?;
                            self.call_user_function(&func, &args, f, depth)
                        },
                        _ => Err(RuntimeError::NotCallable),
                    }
                }
            },
            _ => Err(RuntimeError::TypeMismatch),
        }
    }

    /// Calls a function value on evaluated arguments.
    fn call_user_function(&mut self, func: &Function, args: &Vec<Value>, fuel: u64, depth: u64) -> (r:
        Result<Value, RuntimeError>)
        requires
            old(self).wf(),
        ensures
            final(self).wf(),
            final(self)@.frames.len() >= old(self)@.frames.len(),
            call(old(self)@, func@, values_view(args@), fuel as nat, depth as nat) == (
                final(self)@,
                result_view(r),
            ),
        decreases fuel, 1int,
    {
        if fuel == 0 {
            return Err(RuntimeError::BudgetExhausted);
        }
        if depth >= MAX_CALL_DEPTH {
            return Err(RuntimeError::CallDepthExceeded);
        }
        if func.closure >= self.env.len() {
            return Err(RuntimeError::NotCallable);
        }
        let ghost st0 = self@;
        let frame = self.env.new_enclosed(func.closure);
        assert(self@ == crate::semantics::push_frame(st0, func.closure as nat));
        let ghost fs1 = self@.frames;
        let params: &Vec<String> = &func.params;
        let mut i: usize = 0;
        while i < params.len() && i < args.len()
            invariant
                self.wf(),
                frame < self@.frames.len(),
                self@.frames.len() == fs1.len(),
                self@.out == st0.out,
                0 <= i <= params.len(),
                params@ == func.params@,
                bind_params(fs1, frame as nat, func@.params, values_view(args@), 0) == bind_params(
                    self@.frames,
                    frame as nat,
                    func@.params,
                    values_view(args@),
                    i as int,
                ),
            decreases params.len() - i,
        {
            self.env.define(frame, params[i].clone(), args[i].duplicate());
            i = i + 1;
        }
        let body: &Vec<Stmt> = &func.body;
        let r = self.execute_seq(frame, body, fuel - 1, depth + 1)?;
        match r {
            Some(v) => Ok(v),
            None => Ok(Value::Number(0)),
        }
    }

    fn evaluate_index_assign(&mut self, cur: usize, e: &Expr, fuel: u64, depth: u64) -> (r: Result<
        Value,
        RuntimeError,
    >)
        requires
            old(self).wf(),
            cur < old(self)@.frames.len(),
            fuel > 0,
            e is IndexAssign,
        ensures
            final(self).wf(),
            final(self)@.frames.len() >= old(self)@.frames.len(),
            eval(old(self)@, cur as nat, *e, fuel as nat, depth as nat) == (
                final(self)@,
                result_view(r),
            ),
        decreases fuel, 1int,
    {
        let f = fuel - 1;
        match e {
            Expr::IndexAssign { object, index, value } => {
                let o = self.evaluate(cur, object, f, depth)?;
                let i = self.evaluate(cur, index, f, depth)?;
                let v = self.evaluate(cur, value, f, depth)?;
                let c = store_index(o, &i, v.duplicate())?;
                self.store_back(cur, object, c);
                Ok(v)
            },
            _ => Err(RuntimeError::TypeMismatch),
        }
    }

    fn evaluate_dot_assign(&mut self, cur: usize, e: &Expr, fuel: u64, depth: u64) -> (r: Result<
        Value,
        RuntimeError,
    >)
        requires
            old(self).wf(),
            cur < old(self)@.frames.len(),
            fuel > 0,
            e is DotAssign,
        ensures
            final(self).wf(),
            final(self)@.frames.len() >= old(self)@.frames.len(),
            eval(old(self)@, cur as nat, *e, fuel as nat, depth as nat) == (
                final(self)@,
                result_view(r),
            ),
        decreases fuel, 1int,
    {
        let f = fuel - 1;
        match e {
            Expr::DotAssign { object, field, value } => {
                let o = self.evaluate(cur, object, f, depth)?;
                let v = self.evaluate(cur, value, f, depth)?;
                proof {
                    lemma_dict_view(o);
                }
                match o {
                    Value::Dict(mut m) => {
                        put_entry(&mut m, field.clone(), v.duplicate());
                        let c = Value::Dict(m);
                        proof {
                            lemma_dict_view(c);
                        }
                        self.store_back(cur, object, c);
                        Ok(v)
                    },
                    _ => Err(RuntimeError::NotIndexable),
                }
            },
            _ => Err(RuntimeError::TypeMismatch),
        }
    }

    /// Writes an updated container back into `object` when it is a bare
    /// variable.
    fn store_back(&mut self, cur: usize, object: &Expr, c: Value)
        requires
            old(self).wf(),
            cur < old(self)@.frames.len(),
        ensures
            final(self).wf(),
            final(self)@.frames.len() == old(self)@.frames.len(),
            final(self)@ == crate::semantics::store_back(old(self)@, cur as nat, *object, c@),
    {
        match object {
            Expr::Variable(name) => {
                self.env.assign(cur, name, c);
            },
            _ => {},
        }
    }

    /// Executes a statement in frame `cur`; `Ok(Some(v))` is a `return` of `v`
    /// propagating outward.
    pub fn execute(&mut self, cur: usize, s: &Stmt, fuel: u64, depth: u64) -> (r: Result<
        Option<Value>,
        RuntimeError,
    >)
        requires
            old(self).wf(),
            cur < old(self)@.frames.len(),
        ensures
            final(self).wf(),
            final(self)@.frames.len() >= old(self)@.frames.len(),
            exec(old(self)@, cur as nat, *s, fuel as nat, depth as nat) == (
                final(self)@,
                flow_view(r),
            ),
        decreases fuel, 2int,
    {
        if fuel == 0 {
            return Err(RuntimeError::BudgetExhausted);
        }
        let f = fuel - 1;
        match s {
            Stmt::Expr(e) => {
                self.evaluate(cur, e, f, depth)?;
                Ok(None)
            },
            Stmt::Let { name, initializer } => {
                let v = match initializer {
                    Some(e) => self.evaluate(cur, e, f, depth)?,
                    None => Value::Number(0),
                };
                self.env.define(cur, name.clone(), v);
                Ok(None)
            },
            Stmt::Print(e) => {
                let v = self.evaluate(cur, e, f, depth)?;
                self.print_line(value_to_string(&v));
                Ok(None)
            },
            Stmt::Block(ss) => {
                let frame = self.env.new_enclosed(cur);
                self.execute_seq(frame, ss, f, depth)
            },
            Stmt::If { condition, then_branch, else_branch } => {
                let c = self.evaluate(cur, condition, f, depth)?;
                if is_truthy(&c) {
                    self.execute(cur, then_branch, f, depth)
                } else {
                    match else_branch {
                        Some(b) => self.execute(cur, b, f, depth),
                        None => Ok(None),
                    }
                }
            },
            Stmt::While { .. } => self.execute_while(cur, s, fuel, depth),
            Stmt::For { .. } => self.execute_for(cur, s, fuel, depth),
            Stmt::Function { name, params, body } => {
                let func = Function {
                    name: name.clone(),
                    params: params.clone(),
                    body: body.clone(),
                    closure: cur,
                };
                self.env.define(cur, name.clone(), Value::Function(func));
                Ok(None)
            },
            Stmt::Return { value } => match value {
                Some(e) => {
                    let v = self.evaluate(cur, e, f, depth)?;
                    Ok(Some(v))
                },
                None => Ok(Some(Value::Number(0))),
            },
        }
    }

    fn execute_while(&mut self, cur: usize, s: &Stmt, fuel: u64, depth: u64) -> (r: Result<
        Option<Value>,
        RuntimeError,
    >)
        requires
            old(self).wf(),
            cur < old(self)@.frames.len(),
            fuel > 0,
            s is While,
        ensures
            final(self).wf(),
            final(self)@.frames.len() >= old(self)@.frames.len(),
            exec(old(self)@, cur as nat, *s, fuel as nat, depth as nat) == (
                final(self)@,
                flow_view(r),
            ),
        decreases fuel, 1int,
    {
        match s {
            Stmt::While { condition, body } => {
                let ghost st0 = self@;
                let mut fl: u64 = fuel;
                loop
                    invariant
                        st0 == old(self)@,
                        self.wf(),
                        cur < self@.frames.len(),
                        self@.frames.len() >= st0.frames.len(),
                        fl <= fuel,
                        *s == (Stmt::While { condition: *condition, body: *body }),
                        exec(st0, cur as nat, *s, fuel as nat, depth as nat) == exec(
                            self@,
                            cur as nat,
                            *s,
                            fl as nat,
                            depth as nat,
                        ),
                    decreases fl,
                {
                    if fl == 0 {
                        return Err(RuntimeError::BudgetExhausted);
                    }
                    let c = self.evaluate(cur, condition, fl - 1, depth)?;
                    if !is_truthy(&c) {
                        return Ok(None);
                    }
                    let r = self.execute(cur, body, fl - 1, depth)?;
                    if r.is_some() {
                        return Ok(r);
                    }
                    fl = fl - 1;
                }
            },
            _ => Err(RuntimeError::TypeMismatch),
        }
    }

    fn execute_for(&mut self, cur: usize, s: &Stmt, fuel: u64, depth: u64) -> (r: Result<
        Option<Value>,
        RuntimeError,
    >)
        requires
            old(self).wf(),
            cur < old(self)@.frames.len(),
            fuel > 0,
            s is For,
        ensures
            final(self).wf(),
            final(self)@.frames.len() >= old(self)@.frames.len(),
            exec(old(self)@, cur as nat, *s, fuel as nat, depth as nat) == (
                final(self)@,
                flow_view(r),
            ),
        decreases fuel, 1int,
    {
        let f = fuel - 1;
        match s {
            Stmt::For { variable, iterable, body } => {
                let it = self.evaluate(cur, iterable, f, depth)?;
                proof {
                    lemma_array_view(it);
                }
                match it {
                    Value::Array(items) => self.execute_items(cur, variable, &items, body, f, depth),
                    Value::String(text) => {
                        let cs = chars_of(text.as_str());
                        let mut items: Vec<Value> = Vec::new();
                        let mut i: usize = 0;
                        while i < cs.len()
                            invariant
                                0 <= i <= cs.len(),
                                items@.len() == i,
                                forall|j: int|
                                    0 <= j < i ==> (#[trigger] items@[j])@ == ValueView::Str(
                                        seq![cs@[j]],
                                    ),
                            decreases cs.len() - i,
                        {
                            let one = vec![cs[i]];
                            assert(one@ =~= seq![cs@[i as int]]);
                            items.push(Value::String(string_of(&one)));
                            i = i + 1;
                        }
                        assert(values_view(items@) =~= char_values(text@));
                        self.execute_items(cur, variable, &items, body, f, depth)
                    },
                    _ => Err(RuntimeError::NotIterable),
                }
            },
            _ => Err(RuntimeError::TypeMismatch),
        }
    }

    /// Runs `body` once per item, each time in a new frame enclosed by `cur`
    /// that binds `variable` to the item.
    fn execute_items(
        &mut self,
        cur: usize,
        variable: &String,
        items: &Vec<Value>,
        body: &Stmt,
        fuel: u64,
        depth: u64,
    ) -> (r: Result<Option<Value>, RuntimeError>)
        requires
            old(self).wf(),
            cur < old(self)@.frames.len(),
        ensures
            final(self).wf(),
            final(self)@.frames.len() >= old(self)@.frames.len(),
            exec_for(
                old(self)@,
                cur as nat,
                variable@,
                values_view(items@),
                0,
                *body,
                fuel as nat,
                depth as nat,
            ) == (final(self)@, flow_view(r)),
        decreases fuel, items@.len() + 3,
    {
        let ghost st0 = self@;
        let mut i: usize = 0;
        while i < items.len()
            invariant
                st0 == old(self)@,
                self.wf(),
                cur < self@.frames.len(),
                self@.frames.len() >= st0.frames.len(),
                0 <= i <= items.len(),
                exec_for(
                    st0,
                    cur as nat,
                    variable@,
                    values_view(items@),
                    0,
                    *body,
                    fuel as nat,
                    depth as nat,
                ) == exec_for(
                    self@,
                    cur as nat,
                    variable@,
                    values_view(items@),
                    i as int,
                    *body,
                    fuel as nat,
                    depth as nat,
                ),
            decreases items.len() - i,
        {
            let frame = self.env.new_enclosed(cur);
            self.env.define(frame, variable.clone(), items[i].duplicate());
            let r = self.execute(frame, body, fuel, depth)?;
            if r.is_some() {
                return Ok(r);
            }
            i = i + 1;
        }
        Ok(None)
    }

    /// Executes `ss` in order in frame `cur`, stopping at an error or a
    /// `return`.
    fn execute_seq(&mut self, cur: usize, ss: &Vec<Stmt>, fuel: u64, depth: u64) -> (r: Result<
        Option<Value>,
        RuntimeError,
    >)
        requires
            old(self).wf(),
            cur < old(self)@.frames.len(),
        ensures
            final(self).wf(),
            final(self)@.frames.len() >= old(self)@.frames.len(),
            exec_seq(old(self)@, cur as nat, ss@, 0, fuel as nat, depth as nat) == (
                final(self)@,
                flow_view(r),
            ),
        decreases fuel, ss@.len() + 3,
    {
        let ghost st0 = self@;
        let mut i: usize = 0;
        while i < ss.len()
            invariant
                st0 == old(self)@,
                self.wf(),
                cur < self@.frames.len(),
                self@.frames.len() >= st0.frames.len(),
                0 <= i <= ss.len(),
                exec_seq(st0, cur as nat, ss@, 0, fuel as nat, depth as nat) == exec_seq(
                    self@,
                    cur as nat,
                    ss@,
                    i as int,
                    fuel as nat,
                    depth as nat,
                ),
            decreases ss.len() - i,
        {
            let r = self.execute(cur, &ss[i], fuel, depth)?;
            if r.is_some() {
                return Ok(r);
            }
            i = i + 1;
        }
        Ok(None)
    }
}

/// Reads `object[index]`.
fn index_value(object: &Value, index: &Value) -> (r: Result<Value, RuntimeError>)
    ensures
        result_view(r) == crate::semantics::index_spec(object@, index@),
{
    proof {
        lemma_array_view(*object);
        lemma_dict_view(*object);
    }
    match object {
        Value::Array(a) => match index {
            Value::Number(n) => {
                if 0 <= *n && (*n as u64) < (a.len() as u64) {
                    Ok(a[*n as usize].duplicate())
                } else {
                    Err(RuntimeError::IndexOutOfBounds { index: *n })
                }
            },
            _ => Err(RuntimeError::NotIndexable),
        },
        Value::Dict(m) => match index {
            Value::String(k) => Ok(field_value(m, k)),
            _ => Err(RuntimeError::NonStringKey),
        },
        _ => Err(RuntimeError::NotIndexable),
    }
}

/// The value of key `k` in a map, or 0 when it is missing.
fn field_value(m: &Vec<(String, Value)>, k: &String) -> (r: Value)
    ensures
        r@ == crate::semantics::field_spec(entries_view(m@), k@),
{
    match find_entry(m, k) {
        Some(i) => {
            proof {
                lemma_key_index(entries_view(m@), k@);
            }
            m[i].1.duplicate()
        },
        None => Value::Number(0),
    }
}

/// The container of `object[index] = v`, updated.
fn store_index(object: Value, index: &Value, v: Value) -> (r: Result<Value, RuntimeError>)
    ensures
        result_view(r) == crate::semantics::index_store_spec(object@, index@, v@),
{
    proof {
        lemma_array_view(object);
        lemma_dict_view(object);
    }
    match object {
        Value::Array(mut a) => match index {
            Value::Number(n) => {
                if 0 <= *n && (*n as u64) < (a.len() as u64) {
                    let ghost a0 = a@;
                    let ghost vv = v@;
                    a.set(*n as usize, v);
                    let res = Value::Array(a);
                    proof {
                        lemma_array_view(res);
                        assert(values_view(a@) =~= values_view(a0).update(*n as int, vv));
                    }
                    Ok(res)
                } else {
                    Err(RuntimeError::IndexOutOfBounds { index: *n })
                }
            },
            _ => Err(RuntimeError::NotIndexable),
        },
        Value::Dict(mut m) => match index {
            Value::String(k) => {
                put_entry(&mut m, k.clone(), v);
                let res = Value::Dict(m);
                proof {
                    lemma_dict_view(res);
                }
                Ok(res)
            },
            _ => Err(RuntimeError::NonStringKey),
        },
        _ => Err(RuntimeError::NotIndexable),
    }
}

} // verus!
