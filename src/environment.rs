//! Runtime values and the environment: an arena of scope frames addressed by
//! index, each frame holding its own bindings and the index of its parent.
use crate::ast::Stmt;
use std::rc::Rc;
use vstd::prelude::*;

verus! {

/// A runtime value. Arrays and maps are held by content: copying a value
/// copies them.
#[derive(Debug)]
pub enum Value {
    Number(i64),
    String(String),
    Boolean(bool),
    Function(Function),
    Array(Vec<Value>),
    /// Entries in insertion order; a well-formed map has no repeated key.
    Dict(Vec<(String, Value)>),
}

/// A function value: its declaration and the frame it closes over.
#[derive(Debug, Clone)]
pub struct Function {
    pub name: String,
    pub params: Rc<Vec<String>>,
    pub body: Rc<Vec<Stmt>>,
    pub closure: usize,
}

/// The mathematical model of a function value.
pub struct FunctionView {
    pub name: Seq<char>,
    pub params: Seq<Seq<char>>,
    pub body: Seq<Stmt>,
    pub closure: nat,
}

/// The mathematical model of a value.
pub enum ValueView {
    Number(i64),
    Str(Seq<char>),
    Boolean(bool),
    Function(FunctionView),
    Array(Seq<ValueView>),
    Dict(Seq<(Seq<char>, ValueView)>),
}

/// The names of a parameter list.
pub open spec fn names_view(params: Seq<String>) -> Seq<Seq<char>> {
    Seq::new(params.len(), |i: int| params[i]@)
}

impl View for Function {
    type V = FunctionView;

    open spec fn view(&self) -> FunctionView {
        FunctionView {
            name: self.name@,
            params: names_view(self.params@),
            body: self.body@,
            closure: self.closure as nat,
        }
    }
}

/// The model of a value, by structural recursion.
pub open spec fn value_view(v: Value) -> ValueView
    decreases v,
{
    match v {
        Value::Number(n) => ValueView::Number(n),
        Value::String(s) => ValueView::Str(s@),
        Value::Boolean(b) => ValueView::Boolean(b),
        Value::Function(f) => ValueView::Function(f@),
        Value::Array(a) => ValueView::Array(
            Seq::new(
                a@.len(),
                |i: int|
                    if 0 <= i < a@.len() {
                        value_view(a@[i])
                    } else {
                        ValueView::Number(0)
                    },
            ),
        ),
        Value::Dict(m) => ValueView::Dict(
            Seq::new(
                m@.len(),
                |i: int|
                    if 0 <= i < m@.len() {
                        (m@[i].0@, value_view(m@[i].1))
                    } else {
                        (Seq::empty(), ValueView::Number(0))
                    },
            ),
        ),
    }
}

impl View for Value {
    type V = ValueView;

    open spec fn view(&self) -> ValueView {
        value_view(*self)
    }
}

/// The model of a sequence of values.
pub open spec fn values_view(s: Seq<Value>) -> Seq<ValueView> {
    Seq::new(s.len(), |i: int| s[i]@)
}

/// The model of a sequence of named bindings (a map's entries or a frame).
pub open spec fn entries_view(s: Seq<(String, Value)>) -> Seq<(Seq<char>, ValueView)> {
    Seq::new(s.len(), |i: int| (s[i].0@, s[i].1@))
}

/// The index of the first entry at or after `i` whose key is `k`, or -1.
pub open spec fn key_index_from(m: Seq<(Seq<char>, ValueView)>, k: Seq<char>, i: int) -> int
    decreases m.len() - i,
{
    if i < 0 || i >= m.len() {
        -1
    } else if m[i].0 == k {
        i
    } else {
        key_index_from(m, k, i + 1)
    }
}

/// The index of the entry whose key is `k`, or -1 when there is none.
pub open spec fn key_index(m: Seq<(Seq<char>, ValueView)>, k: Seq<char>) -> int {
    key_index_from(m, k, 0)
}

/// The value bound to `k`, if any.
pub open spec fn entry_get(m: Seq<(Seq<char>, ValueView)>, k: Seq<char>) -> Option<ValueView> {
    let i = key_index(m, k);
    if i >= 0 {
        Some(m[i].1)
    } else {
        None
    }
}

/// `m` with `k` bound to `v`: the entry for `k` is overwritten in place, or a
/// new entry is appended.
pub open spec fn entry_put(m: Seq<(Seq<char>, ValueView)>, k: Seq<char>, v: ValueView) -> Seq<
    (Seq<char>, ValueView),
> {
    let i = key_index(m, k);
    if i >= 0 {
        m.update(i, (k, v))
    } else {
        m.push((k, v))
    }
}

/// No key occurs twice.
pub open spec fn keys_unique(m: Seq<(Seq<char>, ValueView)>) -> bool {
    forall|i: int, j: int| 0 <= i < j < m.len() ==> m[i].0 != m[j].0
}

pub proof fn lemma_key_index_from(m: Seq<(Seq<char>, ValueView)>, k: Seq<char>, i: int)
    requires
        0 <= i <= m.len(),
    ensures
        ({
            let r = key_index_from(m, k, i);
            (r == -1 && forall|j: int| i <= j < m.len() ==> m[j].0 != k) || (i <= r < m.len()
                && m[r].0 == k && forall|j: int| i <= j < r ==> m[j].0 != k)
        }),
    decreases m.len() - i,
{
    if i < m.len() && m[i].0 != k {
        lemma_key_index_from(m, k, i + 1);
    }
}

/// What `key_index` returns, stated directly.
pub proof fn lemma_key_index(m: Seq<(Seq<char>, ValueView)>, k: Seq<char>)
    ensures
        ({
            let r = key_index(m, k);
            (r == -1 && forall|j: int| 0 <= j < m.len() ==> m[j].0 != k) || (0 <= r < m.len()
                && m[r].0 == k && forall|j: int| 0 <= j < r ==> m[j].0 != k)
        }),
{
    lemma_key_index_from(m, k, 0);
}

/// Entry insertion keeps keys unique.
pub proof fn lemma_entry_put_unique(m: Seq<(Seq<char>, ValueView)>, k: Seq<char>, v: ValueView)
    requires
        keys_unique(m),
    ensures
        keys_unique(entry_put(m, k, v)),
        entry_get(entry_put(m, k, v), k) == Some(v),
{
    lemma_key_index(m, k);
    let r = entry_put(m, k, v);
    lemma_key_index(r, k);
    let i = key_index(m, k);
    if i >= 0 {
        assert(r[i].0 == k);
    } else {
        assert(r[m.len() as int].0 == k);
    }
}

/// The model of an array value is the model of its elements.
pub proof fn lemma_array_view(v: Value)
    ensures
        v matches Value::Array(a) ==> v@ == ValueView::Array(values_view(a@)),
{
    if let Value::Array(a) = v {
        let y = v@->Array_0;
        assert(y =~= values_view(a@));
    }
}

/// The model of a map value is the model of its entries.
pub proof fn lemma_dict_view(v: Value)
    ensures
        v matches Value::Dict(m) ==> v@ == ValueView::Dict(entries_view(m@)),
{
    if let Value::Dict(m) = v {
        let y = v@->Dict_0;
        assert(y =~= entries_view(m@));
    }
}

impl Function {
    /// A copy of this function value.
    pub fn duplicate(&self) -> (r: Function)
        ensures
            r == *self,
    {
        Function {
            name: self.name.clone(),
            params: self.params.clone(),
            body: self.body.clone(),
            closure: self.closure,
        }
    }
}

/// Copies the elements of an array.
pub fn duplicate_values(a: &Vec<Value>) -> (r: Vec<Value>)
    ensures
        values_view(r@) == values_view(a@),
    decreases a@, 0int,
{
    let mut r: Vec<Value> = Vec::new();
    let mut i: usize = 0;
    while i < a.len()
        invariant
            0 <= i <= a.len(),
            r@.len() == i,
            forall|j: int| 0 <= j < i ==> (#[trigger] r@[j])@ == a@[j]@,
        decreases a.len() - i,
    {
        let v = a[i].duplicate();
        r.push(v);
        i = i + 1;
    }
    assert(values_view(r@) =~= values_view(a@));
    r
}

/// Copies the entries of a map.
pub fn duplicate_entries(m: &Vec<(String, Value)>) -> (r: Vec<(String, Value)>)
    ensures
        entries_view(r@) == entries_view(m@),
    decreases m@, 0int,
{
    let mut r: Vec<(String, Value)> = Vec::new();
    let mut i: usize = 0;
    while i < m.len()
        invariant
            0 <= i <= m.len(),
            r@.len() == i,
            forall|j: int| 0 <= j < i ==> (#[trigger] r@[j]).0@ == m@[j].0@ && r@[j].1@ == m@[j].1@,
        decreases m.len() - i,
    {
        let k = m[i].0.clone();
        let v = m[i].1.duplicate();
        r.push((k, v));
        i = i + 1;
    }
    assert(entries_view(r@) =~= entries_view(m@));
    r
}

impl Value {
    /// A copy of this value, arrays and maps included.
    pub fn duplicate(&self) -> (r: Value)
        ensures
            r@ == self@,
        decreases self, 1int,
    {
        match self {
            Value::Number(n) => Value::Number(*n),
            Value::String(s) => Value::String(s.clone()),
            Value::Boolean(b) => Value::Boolean(*b),
            Value::Function(f) => Value::Function(f.duplicate()),
            Value::Array(a) => {
                let r = duplicate_values(a);
                let res = Value::Array(r);
                proof {
                    lemma_array_view(res);
                    lemma_array_view(*self);
                }
                res
            },
            Value::Dict(m) => {
                let r = duplicate_entries(m);
                let res = Value::Dict(r);
                proof {
                    lemma_dict_view(res);
                    lemma_dict_view(*self);
                }
                res
            },
        }
    }
}

} // verus!

verus! {

/// Finds the entry whose key is `name`.
pub fn find_entry(entries: &Vec<(String, Value)>, name: &String) -> (r: Option<usize>)
    ensures
        match r {
            Some(i) => i < entries@.len() && i as int == key_index(entries_view(entries@), name@),
            None => key_index(entries_view(entries@), name@) == -1,
        },
{
    let ghost m = entries_view(entries@);
    let mut i: usize = 0;
    while i < entries.len()
        invariant
            0 <= i <= entries.len(),
            m == entries_view(entries@),
            key_index(m, name@) == key_index_from(m, name@, i as int),
        decreases entries.len() - i,
    {
        if entries[i].0 == *name {
            return Some(i);
        }
        i = i + 1;
    }
    None
}

/// Binds `name` to `value`: overwrites the entry for `name` in place, or
/// appends a new one.
pub fn put_entry(entries: &mut Vec<(String, Value)>, name: String, value: Value)
    ensures
        entries_view(final(entries)@) == entry_put(entries_view(old(entries)@), name@, value@),
{
    let ghost m = entries_view(entries@);
    let ghost k = name@;
    let ghost v = value@;
    match find_entry(entries, &name) {
        Some(i) => {
            entries.set(i, (name, value));
            assert(entries_view(entries@) =~= m.update(i as int, (k, v)));
        },
        None => {
            entries.push((name, value));
            assert(entries_view(entries@) =~= m.push((k, v)));
        },
    }
}

/// One scope frame: its bindings and the index of its enclosing frame.
pub struct Frame {
    pub bindings: Vec<(String, Value)>,
    pub parent: Option<usize>,
}

/// The model of a frame.
pub struct FrameView {
    pub bindings: Seq<(Seq<char>, ValueView)>,
    pub parent: Option<nat>,
}

impl View for Frame {
    type V = FrameView;

    open spec fn view(&self) -> FrameView {
        FrameView {
            bindings: entries_view(self.bindings@),
            parent: match self.parent {
                Some(p) => Some(p as nat),
                None => None,
            },
        }
    }
}

/// Frames form a forest whose parents come first, and no frame binds a name
/// twice.
pub open spec fn frames_wf(fs: Seq<FrameView>) -> bool {
    &&& forall|f: int|
        0 <= f < fs.len() ==> ((#[trigger] fs[f]).parent matches Some(p) ==> p < f)
    &&& forall|f: int| 0 <= f < fs.len() ==> keys_unique(#[trigger] fs[f].bindings)
}

/// The frame, at `f` or outward from it, that binds `name`.
pub open spec fn owner(fs: Seq<FrameView>, f: int, name: Seq<char>) -> Option<nat>
    decreases f,
{
    if f < 0 || f >= fs.len() {
        None
    } else if key_index(fs[f].bindings, name) >= 0 {
        Some(f as nat)
    } else {
        match fs[f].parent {
            Some(p) => if p < f {
                owner(fs, p as int, name)
            } else {
                None
            },
            None => None,
        }
    }
}

/// The value of `name` as seen from frame `f`.
pub open spec fn lookup(fs: Seq<FrameView>, f: int, name: Seq<char>) -> Option<ValueView> {
    match owner(fs, f, name) {
        Some(d) => entry_get(fs[d as int].bindings, name),
        None => None,
    }
}

/// The frames after binding `name` to `v` in frame `f` itself.
pub open spec fn define_in(fs: Seq<FrameView>, f: int, name: Seq<char>, v: ValueView) -> Seq<
    FrameView,
> {
    fs.update(f, FrameView { bindings: entry_put(fs[f].bindings, name, v), parent: fs[f].parent })
}

/// The frames after assigning `v` to `name` as seen from frame `f`, or `None`
/// when no frame there binds `name`.
pub open spec fn assign_in(fs: Seq<FrameView>, f: int, name: Seq<char>, v: ValueView) -> Option<
    Seq<FrameView>,
> {
    match owner(fs, f, name) {
        Some(d) => Some(define_in(fs, d as int, name, v)),
        None => None,
    }
}

/// The model of an optional value.
pub open spec fn option_view(o: Option<Value>) -> Option<ValueView> {
    match o {
        Some(v) => Some(v@),
        None => None,
    }
}

pub proof fn lemma_owner(fs: Seq<FrameView>, f: int, name: Seq<char>)
    requires
        frames_wf(fs),
    ensures
        owner(fs, f, name) matches Some(d) ==> (d <= f && key_index(fs[d as int].bindings, name)
            >= 0),
    decreases f,
{
    if 0 <= f < fs.len() && key_index(fs[f].bindings, name) < 0 {
        if let Some(p) = fs[f].parent {
            lemma_owner(fs, p as int, name);
        }
    }
}

pub proof fn lemma_define_wf(fs: Seq<FrameView>, f: int, name: Seq<char>, v: ValueView)
    requires
        frames_wf(fs),
        0 <= f < fs.len(),
    ensures
        frames_wf(define_in(fs, f, name, v)),
        define_in(fs, f, name, v).len() == fs.len(),
{
    lemma_entry_put_unique(fs[f].bindings, name, v);
    let r = define_in(fs, f, name, v);
    assert forall|g: int| 0 <= g < r.len() implies keys_unique(#[trigger] r[g].bindings) by {
        if g != f {
            assert(r[g] == fs[g]);
        }
    }
}

/// The scope frames of one run, addressed by index; frame 0 is the global
/// scope. Frames are never removed, so a closure may keep the index of the
/// frame it was declared in.
pub struct Environment {
    frames: Vec<Frame>,
}

impl View for Environment {
    type V = Seq<FrameView>;

    closed spec fn view(&self) -> Seq<FrameView> {
        Seq::new(self.frames@.len(), |i: int| self.frames@[i]@)
    }
}

impl Environment {
    pub open spec fn wf(&self) -> bool {
        frames_wf(self@)
    }

    /// An environment holding only an empty global frame.
    pub fn new() -> (r: Environment)
        ensures
            r.wf(),
            r@ == seq![FrameView { bindings: Seq::empty(), parent: None }],
    {
        let mut frames: Vec<Frame> = Vec::new();
        frames.push(Frame { bindings: Vec::new(), parent: None });
        let r = Environment { frames };
        assert(entries_view(Seq::<(String, Value)>::empty()) =~= Seq::empty());
        assert(r@ =~= seq![FrameView { bindings: Seq::empty(), parent: None }]);
        r
    }

    /// The number of frames.
    pub fn len(&self) -> (r: usize)
        ensures
            r == self@.len(),
    {
        self.frames.len()
    }

    /// Adds an empty frame enclosed by `enclosing` and returns its index.
    pub fn new_enclosed(&mut self, enclosing: usize) -> (r: usize)
        requires
            old(self).wf(),
            enclosing < old(self)@.len(),
        ensures
            final(self).wf(),
            r == old(self)@.len(),
            final(self)@ == old(self)@.push(
                FrameView { bindings: Seq::empty(), parent: Some(enclosing as nat) },
            ),
    {
        let r = self.frames.len();
        self.frames.push(Frame { bindings: Vec::new(), parent: Some(enclosing) });
        assert(entries_view(Seq::<(String, Value)>::empty()) =~= Seq::empty());
        assert(self@ =~= old(self)@.push(
            FrameView { bindings: Seq::empty(), parent: Some(enclosing as nat) },
        ));
        r
    }

    /// Binds `name` to `value` in frame `frame` itself.
    pub fn define(&mut self, frame: usize, name: String, value: Value)
        requires
            old(self).wf(),
            frame < old(self)@.len(),
        ensures
            final(self).wf(),
            final(self)@ == define_in(old(self)@, frame as int, name@, value@),
    {
        let ghost k = name@;
        let ghost v = value@;
        let fr = &mut self.frames[frame];
        put_entry(&mut fr.bindings, name, value);
        proof {
            lemma_define_wf(old(self)@, frame as int, k, v);
            assert(self@ =~= define_in(old(self)@, frame as int, k, v));
        }
    }

    /// The frame, at `frame` or outward from it, that binds `name`.
    fn owner_of(&self, frame: usize, name: &String) -> (r: Option<(usize, usize)>)
        requires
            self.wf(),
            frame < self@.len(),
        ensures
            match r {
                Some((d, i)) => owner(self@, frame as int, name@) == Some(d as nat) && d
                    < self@.len() && i as int == key_index(self@[d as int].bindings, name@),
                None => owner(self@, frame as int, name@) is None,
            },
    {
        let mut f: usize = frame;
        loop
            invariant
                self.wf(),
                f < self@.len(),
                owner(self@, frame as int, name@) == owner(self@, f as int, name@),
            decreases f,
        {
            match find_entry(&self.frames[f].bindings, name) {
                Some(i) => {
                    return Some((f, i));
                },
                None => {
                    match self.frames[f].parent {
                        Some(p) => {
                            assert(self@[f as int].parent == Some(p as nat));
                            f = p;
                        },
                        None => {
                            return None;
                        },
                    }
                },
            }
        }
    }

    /// A copy of the value of `name` as seen from frame `frame`.
    pub fn get(&self, frame: usize, name: &String) -> (r: Option<Value>)
        requires
            self.wf(),
            frame < self@.len(),
        ensures
            option_view(r) == lookup(self@, frame as int, name@),
    {
        match self.owner_of(frame, name) {
            Some((d, i)) => {
                proof {
                    lemma_owner(self@, frame as int, name@);
                    lemma_key_index(self@[d as int].bindings, name@);
                }
                Some(self.frames[d].bindings[i].1.duplicate())
            },
            None => None,
        }
    }

    /// Assigns `value` to `name` in the nearest frame, from `frame` outward,
    /// that binds it; returns false, changing nothing, when none does.
    pub fn assign(&mut self, frame: usize, name: &String, value: Value) -> (r: bool)
        requires
            old(self).wf(),
            frame < old(self)@.len(),
        ensures
            final(self).wf(),
            final(self)@.len() == old(self)@.len(),
            r == assign_in(old(self)@, frame as int, name@, value@) is Some,
            final(self)@ == match assign_in(old(self)@, frame as int, name@, value@) {
                Some(fs) => fs,
                None => old(self)@,
            },
    {
        match self.owner_of(frame, name) {
            Some((d, _)) => {
                proof {
                    lemma_owner(self@, frame as int, name@);
                }
                self.define(d, name.clone(), value);
                true
            },
            None => false,
        }
    }

    /// The length of the array bound to `name`, when `name` is bound to an
    /// array.
    pub fn get_array_length(&self, frame: usize, name: &String) -> (r: Option<usize>)
        requires
            self.wf(),
            frame < self@.len(),
        ensures
            r == match lookup(self@, frame as int, name@) {
                Some(ValueView::Array(s)) => Some(s.len() as usize),
                _ => None,
            },
    {
        match self.get(frame, name) {
            Some(Value::Array(a)) => {
                proof {
                    lemma_array_view(Value::Array(a));
                }
                Some(a.len())
            },
            _ => None,
        }
    }
}

} // verus!
