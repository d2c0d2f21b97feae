use vstd::prelude::*;

use crate::machine::{
    advance, below, replace_top, binary_model, branch_model, fetch, find_func, find_key, int_arith, int_compare, jump, run_op,
    set_entry, step_model, text_of, with_vals, Call, EventModel, Fault, FloatOp, HostCallModel,
    Machine, Status,
};
use crate::numeric::{i64_text, parse_i64, usize_text};
use crate::parser::{defs_model, ops_model};
use crate::stack::Stack;
use crate::text::{chars_of, string_of};
use crate::value::{Op, OpModel, Val, ValModel};

verus! {

/// What the host is asked to do before the machine goes on; see [`HostCallModel`].
pub enum HostCall {
    Sys(String),
    Float(FloatOp, String, String),
    FloatToInt(String),
    IntToFloat(i64),
    ParseFloat(String),
    FloatText(String),
}

impl View for HostCall {
    type V = HostCallModel;

    open spec fn view(&self) -> HostCallModel {
        match self {
            HostCall::Sys(k) => HostCallModel::Sys(k@),
            HostCall::Float(op, a, b) => HostCallModel::Float(*op, a@, b@),
            HostCall::FloatToInt(t) => HostCallModel::FloatToInt(t@),
            HostCall::IntToFloat(i) => HostCallModel::IntToFloat(*i),
            HostCall::ParseFloat(s) => HostCallModel::ParseFloat(s@),
            HostCall::FloatText(t) => HostCallModel::FloatText(t@),
        }
    }
}

/// What one step of the machine ends with.
pub enum Event {
    /// The machine can take its next step.
    Continue,
    /// The outermost frame has returned.
    Halt,
    /// The host has work to do first.
    Host(HostCall),
}

impl View for Event {
    type V = EventModel;

    open spec fn view(&self) -> EventModel {
        match self {
            Event::Continue => EventModel::Continue,
            Event::Halt => EventModel::Halt,
            Event::Host(h) => EventModel::Host(h@),
        }
    }
}

pub open spec fn vals_model(v: Seq<Val>) -> Seq<ValModel> {
    v.map_values(|x: Val| x@)
}

pub open spec fn entries_model(e: Seq<(String, Val)>) -> Seq<(Seq<char>, ValModel)> {
    e.map_values(|x: (String, Val)| (x.0@, x.1@))
}

proof fn lemma_vals_empty(s: Seq<Val>)
    requires
        s.len() == 0,
    ensures
        vals_model(s) == Seq::<ValModel>::empty(),
{
    assert(vals_model(s) =~= Seq::<ValModel>::empty());
}

proof fn lemma_vals_push(s: Seq<Val>, v: Val)
    ensures
        vals_model(s.push(v)) == vals_model(s).push(v@),
{
    assert(vals_model(s.push(v)) =~= vals_model(s).push(v@));
}

proof fn lemma_vals_update(s: Seq<Val>, i: int, v: Val)
    requires
        0 <= i < s.len(),
    ensures
        vals_model(s.update(i, v)) == vals_model(s).update(i, v@),
{
    assert(vals_model(s.update(i, v)) =~= vals_model(s).update(i, v@));
}

proof fn lemma_entries_empty(s: Seq<(String, Val)>)
    requires
        s.len() == 0,
    ensures
        entries_model(s) == Seq::<(Seq<char>, ValModel)>::empty(),
{
    assert(entries_model(s) =~= Seq::<(Seq<char>, ValModel)>::empty());
}

proof fn lemma_entries_push(s: Seq<(String, Val)>, k: String, v: Val)
    ensures
        entries_model(s.push((k, v))) == entries_model(s).push((k@, v@)),
{
    assert(entries_model(s.push((k, v))) =~= entries_model(s).push((k@, v@)));
}

proof fn lemma_entries_update(s: Seq<(String, Val)>, i: int, k: String, v: Val)
    requires
        0 <= i < s.len(),
    ensures
        entries_model(s.update(i, (k, v))) == entries_model(s).update(i, (k@, v@)),
{
    assert(entries_model(s.update(i, (k, v))) =~= entries_model(s).update(i, (k@, v@)));
}

/// The outcome of a step as the model states it; after a fault the state does
/// not matter.
pub open spec fn outcome(m: Machine, r: Result<Event, Fault>) -> Result<
    (Machine, EventModel),
    Fault,
> {
    match r {
        Ok(e) => Ok((m, e@)),
        Err(f) => Err(f),
    }
}

/// The machine: the function registry, the names of the host functions, the
/// three stacks, and the arenas that vector and map handles index.
pub struct VM {
    sys: Vec<String>,
    funcs: Vec<(String, Vec<Op>)>,
    status: Status,
    scopes: Stack<Vec<Val>>,
    calls: Stack<Call>,
    vals: Stack<Val>,
    vecs: Vec<Vec<Val>>,
    maps: Vec<Vec<(String, Val)>>,
}

impl View for VM {
    type V = Machine;

    closed spec fn view(&self) -> Machine {
        Machine {
            status: self.status,
            calls: self.calls@,
            scopes: self.scopes@.map_values(|s: Vec<Val>| vals_model(s@)),
            vals: vals_model(self.vals@),
            vecs: self.vecs@.map_values(|v: Vec<Val>| vals_model(v@)),
            maps: self.maps@.map_values(|e: Vec<(String, Val)>| entries_model(e@)),
            funcs: defs_model(self.funcs@),
            sys: self.sys@.map_values(|s: String| s@),
        }
    }
}

/// `a OP b` on integers, for an arithmetic `op`.
fn int_arith_of(op: FloatOp, a: i64, b: i64) -> (r: Result<i64, Fault>)
    requires
        op == FloatOp::Add || op == FloatOp::Sub || op == FloatOp::Mul || op == FloatOp::Div,
    ensures
        r == int_arith(op, a, b),
{
    let v = match op {
        FloatOp::Add => a.checked_add(b),
        FloatOp::Sub => a.checked_sub(b),
        FloatOp::Mul => a.checked_mul(b),
        _ => a.checked_div(b),
    };
    match v {
        Some(v) => Ok(v),
        None => Err(Fault::Arithmetic),
    }
}

fn int_compare_of(op: FloatOp, a: i64, b: i64) -> (r: bool)
    ensures
        r == int_compare(op, a, b),
{
    match op {
        FloatOp::Gt => a > b,
        FloatOp::Gte => a >= b,
        FloatOp::Lt => a < b,
        _ => a <= b,
    }
}

/// The canonical text of a value that is not a float.
fn text_of_val(v: &Val) -> (r: String)
    requires
        !(v is Float),
    ensures
        r@ == text_of(v@),
{
    let chars: Vec<char> = match v {
        Val::Nil => vec!['n', 'o', 'n', 'e'],
        Val::Bool(b) => if *b {
            vec!['t', 'r', 'u', 'e']
        } else {
            vec!['f', 'a', 'l', 's', 'e']
        },
        Val::Int(i) => i64_text(*i),
        Val::Str(s) => {
            return s.clone();
        },
        Val::Float(t) => {
            return t.clone();
        },
        Val::Vec(h) => tagged(&['v', 'e', 'c', '@'], *h),
        Val::Dict(h) => tagged(&['m', 'a', 'p', '@'], *h),
        Val::Func(h) => tagged(&['f', 'u', 'n', 'c', '@'], *h),
    };
    string_of(&chars)
}

/// `tag` followed by `h` in decimal.
fn tagged(tag: &[char], h: usize) -> (r: Vec<char>)
    ensures
        r@ == tag@ + crate::numeric::nat_text(h as nat),
{
    let digits = usize_text(h);
    let mut r: Vec<char> = Vec::new();
    let mut i: usize = 0;
    while i < tag.len()
        invariant
            i <= tag@.len(),
            r@ == tag@.take(i as int),
        decreases tag@.len() - i,
    {
        r.push(tag[i]);
        i = i + 1;
        assert(r@ =~= tag@.take(i as int));
    }
    let mut k: usize = 0;
    while k < digits.len()
        invariant
            k <= digits@.len(),
            r@ == tag@ + digits@.take(k as int),
        decreases digits@.len() - k,
    {
        r.push(digits[k]);
        k = k + 1;
        assert(r@ =~= tag@ + digits@.take(k as int));
    }
    assert(digits@.take(k as int) =~= digits@);
    assert(tag@.take(tag@.len() as int) =~= tag@);
    r
}

/// The index of the first entry that holds `key`.
fn find_key_in(entries: &Vec<(String, Val)>, key: &String) -> (r: Option<usize>)
    ensures
        match find_key(entries_model(entries@), key@) {
            Some(i) => (r matches Some(j) && j as nat == i),
            None => r is None,
        },
        r matches Some(j) ==> j < entries@.len(),
{
    let ghost e = entries_model(entries@);
    let mut i: usize = 0;
    while i < entries.len()
        invariant
            i <= entries@.len(),
            e == entries_model(entries@),
            forall|j: int| 0 <= j < i ==> (#[trigger] e[j]).0 != key@,
        decreases entries@.len() - i,
    {
        if entries[i].0 == *key {
            assert(e[i as int].0 == key@);
            return Some(i);
        }
        i = i + 1;
    }
    None
}

impl VM {
    /// A machine whose host offers the functions named in `sys`, with an empty
    /// registry, no frame and one empty scope.
    pub fn new(sys: Vec<String>) -> (r: VM)
        ensures
            r@.status == Status::Run,
            r@.calls.len() == 0,
            r@.scopes == seq![Seq::<ValModel>::empty()],
            r@.vals.len() == 0,
            r@.vecs.len() == 0,
            r@.maps.len() == 0,
            r@.funcs.len() == 0,
            r@.sys == sys@.map_values(|s: String| s@),
    {
        let mut scopes: Vec<Vec<Val>> = Vec::new();
        let first: Vec<Val> = Vec::new();
        proof {
            lemma_vals_empty(first@);
        }
        scopes.push(first);
        let r = VM {
            sys,
            funcs: Vec::new(),
            status: Status::Run,
            scopes: Stack::from_vec(scopes),
            calls: Stack::new(),
            vals: Stack::new(),
            vecs: Vec::new(),
            maps: Vec::new(),
        };
        assert(r@.scopes =~= seq![Seq::<ValModel>::empty()]);
        r
    }

    /// Replaces the registry; a name defined twice resolves to its last
    /// definition, as if each definition were inserted into a map in turn.
    pub fn set_funcs(&mut self, funcs: Vec<(String, Vec<Op>)>)
        ensures
            final(self)@ == (Machine { funcs: defs_model(funcs@), ..old(self)@ }),
    {
        self.funcs = funcs;
    }

    /// Pops the top value.
    pub fn pop_val(&mut self) -> (r: Option<Val>)
        ensures
            old(self)@.vals.len() == 0 ==> r is None && final(self)@ == old(self)@,
            old(self)@.vals.len() > 0 ==> (r matches Some(v) && v@ == old(self)@.vals.last()
                && final(self)@ == with_vals(old(self)@, old(self)@.vals.drop_last())),
    {
        let r = self.vals.pop();
        proof {
            if r is Some {
                assert(self.vals@ == old(self).vals@.drop_last());
                assert(vals_model(self.vals@) =~= vals_model(old(self).vals@).drop_last());
                assert(self@.vals =~= old(self)@.vals.drop_last());
            }
        }
        r
    }

    /// Pushes a value.
    pub fn push_val(&mut self, v: Val)
        ensures
            final(self)@ == with_vals(old(self)@, old(self)@.vals.push(v@)),
    {
        self.vals.push(v);
        assert(self@.vals =~= old(self)@.vals.push(v@));
    }

    /// Whether the machine has stopped.
    pub fn status(&self) -> (r: Status)
        ensures
            r == self@.status,
    {
        self.status
    }

    /// The values on the operand stack, bottom first.
    pub fn vals(&self) -> (r: &Stack<Val>)
        ensures
            vals_model(r@) == self@.vals,
    {
        &self.vals
    }

    /// The contents of the vector that handle `h` refers to.
    pub fn vec_items(&self, h: usize) -> (r: Option<&Vec<Val>>)
        ensures
            h < self@.vecs.len() ==> (r matches Some(v) && vals_model(v@) == self@.vecs[h as int]),
            h >= self@.vecs.len() ==> r is None,
    {
        if h < self.vecs.len() {
            Some(&self.vecs[h])
        } else {
            None
        }
    }

    /// The function registered under `name` (its last definition).
    fn find_func_of(&self, name: &String) -> (r: Option<usize>)
        ensures
            match find_func(self@.funcs, name@) {
                Some(i) => r matches Some(j) && j as nat == i,
                None => r is None,
            },
    {
        let ghost fs = self@.funcs;
        let mut i: usize = self.funcs.len();
        while i > 0
            invariant
                i <= self.funcs@.len(),
                fs == self@.funcs,
                forall|j: int| i <= j < fs.len() ==> (#[trigger] fs[j]).0 != name@,
            decreases i,
        {
            if self.funcs[i - 1].0 == *name {
                assert(fs[i - 1].0 == name@);
                return Some(i - 1);
            }
            i = i - 1;
        }
        None
    }

    /// Pushes a frame for the function registered under `func_name`.
    pub fn start(&mut self, func_name: &String) -> (r: Result<(), Fault>)
        ensures
            match find_func(old(self)@.funcs, func_name@) {
                Some(i) => r is Ok && final(self)@ == (Machine {
                    calls: old(self)@.calls.push(Call { func: i as usize, pc: 0 }),
                    ..old(self)@
                }),
                None => r == Err::<(), Fault>(Fault::Lookup),
            },
    {
        match self.find_func_of(func_name) {
            Some(i) => {
                self.calls.push(Call { func: i, pc: 0 });
                Ok(())
            },
            None => Err(Fault::Lookup),
        }
    }

    /// `GetConst`: pushes the function registered under `key`.
    pub fn op_get_func(&mut self, key: &String) -> (r: Result<Event, Fault>)
        ensures
            outcome(final(self)@, r) == run_op(old(self)@, OpModel::GetConst(key@)),
    {
        proof {
            reveal(run_op);
        }
        match self.find_func_of(key) {
            Some(i) => {
                self.push_val(Val::Func(i));
                Ok(Event::Continue)
            },
            None => Err(Fault::Lookup),
        }
    }

    /// `GetLit`: pushes the literal.
    pub fn op_get_const(&mut self, val: Val) -> (r: Result<Event, Fault>)
        ensures
            outcome(final(self)@, r) == run_op(old(self)@, OpModel::GetLit(val@)),
    {
        proof {
            reveal(run_op);
        }
        self.push_val(val);
        Ok(Event::Continue)
    }

    pub fn op_new_scope(&mut self) -> (r: Result<Event, Fault>)
        ensures
            outcome(final(self)@, r) == run_op(old(self)@, OpModel::NewScope),
    {
        proof {
            reveal(run_op);
        }
        let scope: Vec<Val> = Vec::new();
        proof {
            lemma_vals_empty(scope@);
        }
        self.scopes.push(scope);
        assert(self@.scopes =~= old(self)@.scopes.push(Seq::empty()));
        Ok(Event::Continue)
    }

    pub fn op_end_scope(&mut self) -> (r: Result<Event, Fault>)
        ensures
            outcome(final(self)@, r) == run_op(old(self)@, OpModel::EndScope),
    {
        proof {
            reveal(run_op);
        }
        match self.scopes.pop() {
            Some(_) => {
                assert(self@.scopes =~= old(self)@.scopes.drop_last());
                Ok(Event::Continue)
            },
            None => Err(Fault::Lookup),
        }
    }

    pub fn op_new_var(&mut self) -> (r: Result<Event, Fault>)
        ensures
            outcome(final(self)@, r) == run_op(old(self)@, OpModel::NewVar),
    {
        proof {
            reveal(run_op);
        }
        let ghost m = self@;
        let v = match self.pop_val() {
            Some(v) => v,
            None => {
                return Err(Fault::Type);
            },
        };
        match self.scopes.peek_last_mut() {
            Some(scope) => {
                proof {
                    lemma_vals_push(scope@, v);
                }
                scope.push(v);
            },
            None => {
                return Err(Fault::Lookup);
            },
        }
        proof {
            let s = m.scopes.len() - 1;
            assert(self@.scopes =~= m.scopes.update(s, m.scopes[s].push(below(m, 0))));
        }
        Ok(Event::Continue)
    }

    pub fn op_set_var(&mut self, offset: usize, index: usize) -> (r: Result<Event, Fault>)
        ensures
            outcome(final(self)@, r) == run_op(
                old(self)@,
                OpModel::SetVar(offset as nat, index as nat),
            ),
    {
        proof {
            reveal(run_op);
        }
        let ghost m = self@;
        let v = match self.pop_val() {
            Some(v) => v,
            None => {
                return Err(Fault::Type);
            },
        };
        let n = self.scopes.len();
        if offset >= n {
            return Err(Fault::Lookup);
        }
        match self.scopes.peek_mut(n - 1 - offset) {
            Some(scope) => {
                if index >= scope.len() {
                    return Err(Fault::Lookup);
                }
                proof {
                    lemma_vals_update(scope@, index as int, v);
                }
                scope.set(index, v);
            },
            None => {
                return Err(Fault::Lookup);
            },
        }
        proof {
            let s = m.scopes.len() - 1 - offset;
            assert(self@.scopes =~= m.scopes.update(s, m.scopes[s].update(index as int, below(m, 0))));
        }
        Ok(Event::Continue)
    }

    pub fn op_get_var(&mut self, offset: usize, index: usize) -> (r: Result<Event, Fault>)
        ensures
            outcome(final(self)@, r) == run_op(
                old(self)@,
                OpModel::GetVar(offset as nat, index as nat),
            ),
    {
        proof {
            reveal(run_op);
        }
        let n = self.scopes.len();
        if offset >= n {
            return Err(Fault::Lookup);
        }
        let v = match self.scopes.peek_mut(n - 1 - offset) {
            Some(scope) => {
                if index >= scope.len() {
                    return Err(Fault::Lookup);
                }
                scope[index].copy()
            },
            None => {
                return Err(Fault::Lookup);
            },
        };
        proof {
            assert(self@.scopes =~= old(self)@.scopes);
        }
        self.push_val(v);
        Ok(Event::Continue)
    }

    /// `CallSys`: hands the call to the host when it offers a function of that name.
    pub fn op_call_api(&mut self, key: String) -> (r: Result<Event, Fault>)
        ensures
            outcome(final(self)@, r) == run_op(old(self)@, OpModel::CallSys(key@)),
    {
        let ghost names = self@.sys;
        let mut i: usize = 0;
        while i < self.sys.len()
            invariant
                i <= self.sys@.len(),
                names == self@.sys,
                forall|j: int| 0 <= j < i ==> names[j] != key@,
            decreases self.sys@.len() - i,
        {
            if self.sys[i] == key {
                assert(names[i as int] == key@);
                proof {
                    reveal(run_op);
                }
                return Ok(Event::Host(HostCall::Sys(key)));
            }
            i = i + 1;
        }
        proof {
            reveal(run_op);
        }
        Err(Fault::Lookup)
    }

    pub fn op_call_func(&mut self) -> (r: Result<Event, Fault>)
        ensures
            outcome(final(self)@, r) == run_op(old(self)@, OpModel::CallFunc),
    {
        proof {
            reveal(run_op);
        }
        match self.pop_val() {
            Some(Val::Func(h)) => {
                if h < self.funcs.len() {
                    self.calls.push(Call { func: h, pc: 0 });
                    Ok(Event::Continue)
                } else {
                    Err(Fault::Lookup)
                }
            },
            _ => Err(Fault::Type),
        }
    }

    pub fn op_return_call(&mut self) -> (r: Result<Event, Fault>)
        ensures
            outcome(final(self)@, r) == run_op(old(self)@, OpModel::ReturnCall),
    {
        proof {
            reveal(run_op);
        }
        match self.calls.pop() {
            Some(_) => {
                if self.calls.len() == 0 {
                    self.status = Status::End;
                    Ok(Event::Halt)
                } else {
                    Ok(Event::Continue)
                }
            },
            None => Err(Fault::Lookup),
        }
    }

    /// Sets the top frame's next opcode.
    fn set_pc(&mut self, target: usize)
        requires
            old(self)@.calls.len() > 0,
        ensures
            final(self)@ == jump(old(self)@, target as nat),
    {
        match self.calls.peek_last_mut() {
            Some(c) => {
                c.pc = target;
            },
            None => {},
        }
        assert(self@.calls =~= jump(old(self)@, target as nat).calls);
    }

    pub fn op_goto(&mut self, index: usize) -> (r: Result<Event, Fault>)
        ensures
            outcome(final(self)@, r) == run_op(old(self)@, OpModel::GoTo(index as nat)),
    {
        proof {
            reveal(run_op);
        }
        if self.calls.len() == 0 {
            return Err(Fault::Lookup);
        }
        self.set_pc(index);
        Ok(Event::Continue)
    }

    fn branch(&mut self, index: usize, when: bool) -> (r: Result<Event, Fault>)
        ensures
            outcome(final(self)@, r) == branch_model(old(self)@, index as nat, when),
    {
        match self.pop_val() {
            Some(Val::Bool(b)) => {
                if b == when {
                    if self.calls.len() == 0 {
                        return Err(Fault::Lookup);
                    }
                    self.set_pc(index);
                }
                Ok(Event::Continue)
            },
            _ => Err(Fault::Type),
        }
    }

    pub fn op_if_true_goto(&mut self, index: usize) -> (r: Result<Event, Fault>)
        ensures
            outcome(final(self)@, r) == run_op(old(self)@, OpModel::IfTrueGoTo(index as nat)),
    {
        proof {
            reveal(run_op);
        }
        self.branch(index, true)
    }

    pub fn op_if_false_goto(&mut self, index: usize) -> (r: Result<Event, Fault>)
        ensures
            outcome(final(self)@, r) == run_op(old(self)@, OpModel::IfFalseGoTo(index as nat)),
    {
        proof {
            reveal(run_op);
        }
        self.branch(index, false)
    }

    /// Arithmetic and comparison on the two top values.
    fn binary(&mut self, op: FloatOp) -> (r: Result<Event, Fault>)
        requires
            op != FloatOp::Eq,
        ensures
            outcome(final(self)@, r) == binary_model(old(self)@, op),
    {
        let ghost m = self@;
        let a = self.pop_val();
        let b = self.pop_val();
        proof {
            if m.vals.len() >= 2 {
                assert(m.vals.drop_last().drop_last() =~= m.vals.take(m.vals.len() - 2));
            }
        }
        match (a, b) {
            (Some(Val::Int(x)), Some(Val::Int(y))) => {
                if op == FloatOp::Add || op == FloatOp::Sub || op == FloatOp::Mul || op
                    == FloatOp::Div {
                    match int_arith_of(op, x, y) {
                        Ok(v) => {
                            self.push_val(Val::Int(v));
                            Ok(Event::Continue)
                        },
                        Err(f) => Err(f),
                    }
                } else {
                    self.push_val(Val::Bool(int_compare_of(op, x, y)));
                    Ok(Event::Continue)
                }
            },
            (Some(Val::Float(x)), Some(Val::Float(y))) => Ok(Event::Host(HostCall::Float(op, x, y))),
            _ => Err(Fault::Type),
        }
    }

    pub fn op_gte(&mut self) -> (r: Result<Event, Fault>)
        ensures
            outcome(final(self)@, r) == run_op(old(self)@, OpModel::Gte),
    {
        proof {
            reveal(run_op);
        }
        self.binary(FloatOp::Gte)
    }

    pub fn op_lte(&mut self) -> (r: Result<Event, Fault>)
        ensures
            outcome(final(self)@, r) == run_op(old(self)@, OpModel::Lte),
    {
        proof {
            reveal(run_op);
        }
        self.binary(FloatOp::Lte)
    }

    pub fn op_gt(&mut self) -> (r: Result<Event, Fault>)
        ensures
            outcome(final(self)@, r) == run_op(old(self)@, OpModel::Gt),
    {
        proof {
            reveal(run_op);
        }
        self.binary(FloatOp::Gt)
    }

    pub fn op_lt(&mut self) -> (r: Result<Event, Fault>)
        ensures
            outcome(final(self)@, r) == run_op(old(self)@, OpModel::Lt),
    {
        proof {
            reveal(run_op);
        }
        self.binary(FloatOp::Lt)
    }

    pub fn op_add(&mut self) -> (r: Result<Event, Fault>)
        ensures
            outcome(final(self)@, r) == run_op(old(self)@, OpModel::Add),
    {
        proof {
            reveal(run_op);
        }
        self.binary(FloatOp::Add)
    }

    pub fn op_sub(&mut self) -> (r: Result<Event, Fault>)
        ensures
            outcome(final(self)@, r) == run_op(old(self)@, OpModel::Sub),
    {
        proof {
            reveal(run_op);
        }
        self.binary(FloatOp::Sub)
    }

    pub fn op_mul(&mut self) -> (r: Result<Event, Fault>)
        ensures
            outcome(final(self)@, r) == run_op(old(self)@, OpModel::Mul),
    {
        proof {
            reveal(run_op);
        }
        self.binary(FloatOp::Mul)
    }

    /// `Div`: pops `a` (the top) then `b`, pushes `a / b` truncated toward zero,
    /// and fails with an arithmetic error when `b` is zero. The order follows
    /// the rule that `a` is the first value popped, so `1, 0, Div` gives `0`.
    pub fn op_div(&mut self) -> (r: Result<Event, Fault>)
        ensures
            outcome(final(self)@, r) == run_op(old(self)@, OpModel::Div),
    {
        proof {
            reveal(run_op);
        }
        self.binary(FloatOp::Div)
    }

    pub fn op_eq(&mut self) -> (r: Result<Event, Fault>)
        ensures
            outcome(final(self)@, r) == run_op(old(self)@, OpModel::Eq),
    {
        proof {
            reveal(run_op);
        }
        let ghost m = self@;
        let a = self.pop_val();
        let b = self.pop_val();
        proof {
            if m.vals.len() >= 2 {
                assert(m.vals.drop_last().drop_last() =~= m.vals.take(m.vals.len() - 2));
            }
        }
        let (a, b) = match (a, b) {
            (Some(a), Some(b)) => (a, b),
            _ => {
                return Err(Fault::Type);
            },
        };
        let e = match (a, b) {
            (Val::Float(x), Val::Float(y)) => {
                return Ok(Event::Host(HostCall::Float(FloatOp::Eq, x, y)));
            },
            (Val::Nil, Val::Nil) => true,
            (Val::Nil, _) => false,
            (_, Val::Nil) => false,
            (Val::Bool(x), Val::Bool(y)) => x == y,
            (Val::Int(x), Val::Int(y)) => x == y,
            (Val::Str(x), Val::Str(y)) => x == y,
            (Val::Vec(x), Val::Vec(y)) => x == y,
            (Val::Dict(x), Val::Dict(y)) => x == y,
            (Val::Func(x), Val::Func(y)) => x == y,
            _ => {
                return Err(Fault::Type);
            },
        };
        self.push_val(Val::Bool(e));
        Ok(Event::Continue)
    }

    pub fn op_not(&mut self) -> (r: Result<Event, Fault>)
        ensures
            outcome(final(self)@, r) == run_op(old(self)@, OpModel::Not),
    {
        proof {
            reveal(run_op);
        }
        let ghost m = self@;
        match self.pop_val() {
            Some(Val::Bool(b)) => {
                assert(m.vals.drop_last() =~= m.vals.take(m.vals.len() - 1));
                self.push_val(Val::Bool(!b));
                Ok(Event::Continue)
            },
            _ => Err(Fault::Type),
        }
    }

    pub fn op_concat(&mut self) -> (r: Result<Event, Fault>)
        ensures
            outcome(final(self)@, r) == run_op(old(self)@, OpModel::Concat),
    {
        proof {
            reveal(run_op);
        }
        let ghost m = self@;
        let a = self.pop_val();
        let b = self.pop_val();
        proof {
            if m.vals.len() >= 2 {
                assert(m.vals.drop_last().drop_last() =~= m.vals.take(m.vals.len() - 2));
            }
        }
        match (a, b) {
            (Some(Val::Str(x)), Some(Val::Str(y))) => {
                let mut s = x;
                s.append(y.as_str());
                self.push_val(Val::Str(s));
                Ok(Event::Continue)
            },
            _ => Err(Fault::Type),
        }
    }

    pub fn op_to_int(&mut self) -> (r: Result<Event, Fault>)
        ensures
            outcome(final(self)@, r) == run_op(old(self)@, OpModel::ToInt),
    {
        proof {
            reveal(run_op);
        }
        let ghost m = self@;
        match self.pop_val() {
            Some(Val::Float(t)) => Ok(Event::Host(HostCall::FloatToInt(t))),
            Some(Val::Str(s)) => {
                assert(m.vals.drop_last() =~= m.vals.take(m.vals.len() - 1));
                let chars = chars_of(s.as_str());
                match parse_i64(chars.as_slice()) {
                    Some(v) => {
                        self.push_val(Val::Int(v));
                        Ok(Event::Continue)
                    },
                    None => Err(Fault::Arithmetic),
                }
            },
            _ => Err(Fault::Type),
        }
    }

    pub fn op_to_float(&mut self) -> (r: Result<Event, Fault>)
        ensures
            outcome(final(self)@, r) == run_op(old(self)@, OpModel::ToFloat),
    {
        proof {
            reveal(run_op);
        }
        match self.pop_val() {
            Some(Val::Int(i)) => Ok(Event::Host(HostCall::IntToFloat(i))),
            Some(Val::Str(s)) => Ok(Event::Host(HostCall::ParseFloat(s))),
            _ => Err(Fault::Type),
        }
    }

    pub fn op_to_string(&mut self) -> (r: Result<Event, Fault>)
        ensures
            outcome(final(self)@, r) == run_op(old(self)@, OpModel::ToString),
    {
        proof {
            reveal(run_op);
        }
        let ghost m = self@;
        match self.pop_val() {
            Some(Val::Float(t)) => Ok(Event::Host(HostCall::FloatText(t))),
            Some(v) => {
                assert(m.vals.drop_last() =~= m.vals.take(m.vals.len() - 1));
                let s = text_of_val(&v);
                self.push_val(Val::Str(s));
                Ok(Event::Continue)
            },
            None => Err(Fault::Type),
        }
    }

    pub fn op_new_vec(&mut self) -> (r: Result<Event, Fault>)
        ensures
            outcome(final(self)@, r) == run_op(old(self)@, OpModel::NewVec),
    {
        proof {
            reveal(run_op);
        }
        let h = self.vecs.len();
        let items: Vec<Val> = Vec::new();
        proof {
            lemma_vals_empty(items@);
        }
        self.vecs.push(items);
        self.push_val(Val::Vec(h));
        assert(self@.vecs =~= old(self)@.vecs.push(Seq::empty()));
        Ok(Event::Continue)
    }

    pub fn op_push_to_vec(&mut self) -> (r: Result<Event, Fault>)
        ensures
            outcome(final(self)@, r) == run_op(old(self)@, OpModel::PushToVec),
    {
        proof {
            reveal(run_op);
        }
        let ghost m = self@;
        let a = self.pop_val();
        let b = self.pop_val();
        proof {
            if m.vals.len() >= 2 {
                assert(m.vals.drop_last().drop_last() =~= m.vals.take(m.vals.len() - 2));
            }
        }
        match (a, b) {
            (Some(Val::Vec(h)), Some(v)) => {
                if h >= self.vecs.len() {
                    return Err(Fault::Lookup);
                }
                proof {
                    lemma_vals_push(self.vecs@[h as int]@, v);
                }
                self.vecs[h].push(v);
                assert(self@.vecs =~= m.vecs.update(h as int, m.vecs[h as int].push(below(m, 1))));
                Ok(Event::Continue)
            },
            _ => Err(Fault::Type),
        }
    }

    pub fn op_get_vec_val(&mut self) -> (r: Result<Event, Fault>)
        ensures
            outcome(final(self)@, r) == run_op(old(self)@, OpModel::GetVecVal),
    {
        proof {
            reveal(run_op);
        }
        let ghost m = self@;
        let a = self.pop_val();
        let b = self.pop_val();
        proof {
            if m.vals.len() >= 2 {
                assert(m.vals.drop_last().drop_last() =~= m.vals.take(m.vals.len() - 2));
            }
        }
        match (a, b) {
            (Some(Val::Vec(h)), Some(Val::Int(i))) => {
                if h >= self.vecs.len() || i < 0 || i as u64 >= self.vecs[h].len() as u64 {
                    return Err(Fault::Lookup);
                }
                let v = self.vecs[h][i as usize].copy();
                self.push_val(v);
                Ok(Event::Continue)
            },
            _ => Err(Fault::Type),
        }
    }

    pub fn op_set_vec_val(&mut self) -> (r: Result<Event, Fault>)
        ensures
            outcome(final(self)@, r) == run_op(old(self)@, OpModel::SetVecVal),
    {
        proof {
            reveal(run_op);
        }
        let ghost m = self@;
        let a = self.pop_val();
        let b = self.pop_val();
        let c = self.pop_val();
        proof {
            if m.vals.len() >= 3 {
                assert(m.vals.drop_last().drop_last().drop_last() =~= m.vals.take(
                    m.vals.len() - 3,
                ));
            }
        }
        match (a, b, c) {
            (Some(Val::Vec(h)), Some(Val::Int(i)), Some(v)) => {
                if h >= self.vecs.len() || i < 0 || i as u64 >= self.vecs[h].len() as u64 {
                    return Err(Fault::Lookup);
                }
                proof {
                    lemma_vals_update(self.vecs@[h as int]@, i as int, v);
                }
                self.vecs[h].set(i as usize, v);
                assert(self@.vecs =~= m.vecs.update(
                    h as int,
                    m.vecs[h as int].update(i as int, below(m, 2)),
                ));
                Ok(Event::Continue)
            },
            _ => Err(Fault::Type),
        }
    }

    pub fn op_new_map(&mut self) -> (r: Result<Event, Fault>)
        ensures
            outcome(final(self)@, r) == run_op(old(self)@, OpModel::NewMap),
    {
        proof {
            reveal(run_op);
        }
        let h = self.maps.len();
        let entries: Vec<(String, Val)> = Vec::new();
        proof {
            lemma_entries_empty(entries@);
        }
        self.maps.push(entries);
        self.push_val(Val::Dict(h));
        assert(self@.maps =~= old(self)@.maps.push(Seq::empty()));
        Ok(Event::Continue)
    }

    pub fn op_get_map_val(&mut self) -> (r: Result<Event, Fault>)
        ensures
            outcome(final(self)@, r) == run_op(old(self)@, OpModel::GetMapVal),
    {
        proof {
            reveal(run_op);
        }
        let ghost m = self@;
        let a = self.pop_val();
        let b = self.pop_val();
        proof {
            if m.vals.len() >= 2 {
                assert(m.vals.drop_last().drop_last() =~= m.vals.take(m.vals.len() - 2));
            }
        }
        match (a, b) {
            (Some(Val::Dict(h)), Some(Val::Str(k))) => {
                if h >= self.maps.len() {
                    return Err(Fault::Lookup);
                }
                match self.map_lookup(h, &k) {
                    Some(v) => {
                        self.push_val(v);
                        Ok(Event::Continue)
                    },
                    None => Err(Fault::Lookup),
                }
            },
            _ => Err(Fault::Type),
        }
    }

    pub fn op_set_map_val(&mut self) -> (r: Result<Event, Fault>)
        ensures
            outcome(final(self)@, r) == run_op(old(self)@, OpModel::SetMapVal),
    {
        proof {
            reveal(run_op);
        }
        let ghost m = self@;
        let a = self.pop_val();
        let b = self.pop_val();
        let c = self.pop_val();
        proof {
            if m.vals.len() >= 3 {
                assert(m.vals.drop_last().drop_last().drop_last() =~= m.vals.take(
                    m.vals.len() - 3,
                ));
            }
        }
        match (a, b, c) {
            (Some(Val::Dict(h)), Some(Val::Str(k)), Some(v)) => {
                if h >= self.maps.len() {
                    return Err(Fault::Lookup);
                }
                self.map_store(h, k, v);
                Ok(Event::Continue)
            },
            _ => Err(Fault::Type),
        }
    }

    /// The value bound to `k` in the map that handle `h` refers to.
    fn map_lookup(&self, h: usize, k: &String) -> (r: Option<Val>)
        requires
            h < self@.maps.len(),
        ensures
            match find_key(self@.maps[h as int], k@) {
                Some(i) => (r matches Some(v) && v@ == self@.maps[h as int][i as int].1),
                None => r is None,
            },
    {
        assert(self@.maps[h as int] == entries_model(self.maps@[h as int]@));
        match find_key_in(&self.maps[h], k) {
            Some(i) => {
                assert(self@.maps[h as int][i as int] == (
                    self.maps@[h as int]@[i as int].0@,
                    self.maps@[h as int]@[i as int].1@,
                ));
                Some(self.maps[h][i].1.copy())
            },
            None => None,
        }
    }

    /// Binds `k` to `v` in the map that handle `h` refers to.
    fn map_store(&mut self, h: usize, k: String, v: Val)
        requires
            h < old(self)@.maps.len(),
        ensures
            final(self)@ == (Machine {
                maps: old(self)@.maps.update(
                    h as int,
                    set_entry(old(self)@.maps[h as int], k@, v@),
                ),
                ..old(self)@
            }),
    {
        let ghost e = old(self)@.maps[h as int];
        assert(e == entries_model(self.maps@[h as int]@));
        match find_key_in(&self.maps[h], &k) {
            Some(i) => {
                proof {
                    lemma_entries_update(self.maps@[h as int]@, i as int, k, v);
                }
                self.maps[h].set(i, (k, v));
            },
            None => {
                proof {
                    lemma_entries_push(self.maps@[h as int]@, k, v);
                }
                self.maps[h].push((k, v));
            },
        }
        assert(self@.maps =~= old(self)@.maps.update(h as int, set_entry(e, k@, v@)));
    }

    /// Fetches the top frame's opcode and moves the frame past it.
    pub fn fetch_next(&mut self) -> (r: Option<Op>)
        ensures
            match fetch(old(self)@) {
                Some(op) => (r matches Some(o) && o@ == op && final(self)@ == advance(old(self)@)),
                None => r is None,
            },
    {
        let c = match self.calls.peek_last() {
            Some(c) => *c,
            None => {
                return None;
            },
        };
        if c.func >= self.funcs.len() || c.pc >= self.funcs[c.func].1.len() {
            return None;
        }
        assert(self@.funcs[c.func as int].1[c.pc as int] == self.funcs@[c.func as int].1@[c.pc as int]@);
        let op = self.funcs[c.func].1[c.pc].copy();
        self.set_pc(c.pc + 1);
        Some(op)
    }
}

} // verus!
