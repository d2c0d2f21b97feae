use vstd::prelude::*;

use crate::numeric::{int_of, int_text, nat_text};
use crate::value::{OpModel, ValModel};

verus! {

/// Whether the machine is still running.
#[derive(PartialEq, Eq, Structural, Clone, Copy, Debug)]
pub enum Status {
    Run,
    End,
}

/// One frame of the call stack: a function of the registry and the index of
/// its next opcode.
#[derive(PartialEq, Eq, Structural, Clone, Copy, Debug)]
pub struct Call {
    pub func: usize,
    pub pc: usize,
}

/// The kinds of fatal failure at run time; a parse error is the kind found
/// at load time.
#[derive(PartialEq, Eq, Structural, Clone, Copy, Debug)]
pub enum Fault {
    /// An opcode popped values of the wrong variants, or too few values.
    Type,
    /// A missing registry entry, host function, map key, vector index,
    /// variable slot, scope, frame or opcode.
    Lookup,
    /// Integer division by zero or overflow, or a text that is not a number.
    Arithmetic,
}

/// An operation on two floats, which the host performs.
#[derive(PartialEq, Eq, Structural, Clone, Copy, Debug)]
pub enum FloatOp {
    Add,
    Sub,
    Mul,
    Div,
    Gt,
    Gte,
    Lt,
    Lte,
    Eq,
}

/// What the host is asked to do before the machine goes on. Floats are
/// carried as decimal text.
pub enum HostCallModel {
    /// Run the host function registered under this name.
    Sys(Seq<char>),
    /// Push the float (for arithmetic) or the `Bool` (for comparisons) `a OP b`.
    Float(FloatOp, Seq<char>, Seq<char>),
    /// Push the `Int` that the float's floor casts to.
    FloatToInt(Seq<char>),
    /// Push the integer as a float.
    IntToFloat(i64),
    /// Push the float that the text denotes, or fail with an arithmetic error.
    ParseFloat(Seq<char>),
    /// Push the float's canonical text as a string.
    FloatText(Seq<char>),
}

/// What one step of the machine ends with.
pub enum EventModel {
    Continue,
    Halt,
    Host(HostCallModel),
}

/// The whole state of the machine.
pub struct Machine {
    pub status: Status,
    pub calls: Seq<Call>,
    pub scopes: Seq<Seq<ValModel>>,
    pub vals: Seq<ValModel>,
    pub vecs: Seq<Seq<ValModel>>,
    pub maps: Seq<Seq<(Seq<char>, ValModel)>>,
    pub funcs: Seq<(Seq<char>, Seq<OpModel>)>,
    pub sys: Seq<Seq<char>>,
}

/// The function registered under `name`: its last definition, since a later
/// definition of a name replaces an earlier one.
pub open spec fn find_func(funcs: Seq<(Seq<char>, Seq<OpModel>)>, name: Seq<char>) -> Option<nat> {
    if exists|i: int| 0 <= i < funcs.len() && (#[trigger] funcs[i]).0 == name {
        let i = choose|i: int|
            0 <= i < funcs.len() && (#[trigger] funcs[i]).0 == name && forall|j: int|
                i < j < funcs.len() ==> (#[trigger] funcs[j]).0 != name;
        Some(i as nat)
    } else {
        None
    }
}

/// The entry of a map's entry list that holds `key`.
pub open spec fn find_key(entries: Seq<(Seq<char>, ValModel)>, key: Seq<char>) -> Option<nat> {
    if exists|i: int| 0 <= i < entries.len() && (#[trigger] entries[i]).0 == key {
        let i = choose|i: int|
            0 <= i < entries.len() && (#[trigger] entries[i]).0 == key && forall|j: int|
                0 <= j < i ==> (#[trigger] entries[j]).0 != key;
        Some(i as nat)
    } else {
        None
    }
}

/// The entries after `key` is bound to `v`: its entry is overwritten, or a new
/// one is added at the end.
pub open spec fn set_entry(entries: Seq<(Seq<char>, ValModel)>, key: Seq<char>, v: ValModel) -> Seq<
    (Seq<char>, ValModel),
> {
    match find_key(entries, key) {
        Some(i) => entries.update(i as int, (key, v)),
        None => entries.push((key, v)),
    }
}

/// The opcode that the top frame points at.
pub open spec fn fetch(m: Machine) -> Option<OpModel> {
    if m.calls.len() == 0 {
        None
    } else {
        let c = m.calls.last();
        if c.func < m.funcs.len() && c.pc < m.funcs[c.func as int].1.len() {
            Some(m.funcs[c.func as int].1[c.pc as int])
        } else {
            None
        }
    }
}

/// `m` with the top frame moved past its current opcode.
pub open spec fn advance(m: Machine) -> Machine {
    let c = m.calls.last();
    Machine { calls: m.calls.update(m.calls.len() - 1, Call { func: c.func, pc: (c.pc + 1) as usize }), ..m }
}

pub open spec fn go_on(m: Machine) -> Result<(Machine, EventModel), Fault> {
    Ok((m, EventModel::Continue))
}

pub open spec fn with_vals(m: Machine, vals: Seq<ValModel>) -> Machine {
    Machine { vals, ..m }
}

/// `m` with its `n` top values popped and `v` pushed.
pub open spec fn replace_top(m: Machine, n: int, v: ValModel) -> Machine {
    with_vals(m, m.vals.take(m.vals.len() - n).push(v))
}

/// The value `k` places below the top (0 is the top).
pub open spec fn below(m: Machine, k: int) -> ValModel {
    m.vals[m.vals.len() - 1 - k]
}

/// `m` with its `n` top values popped.
pub open spec fn popped(m: Machine, n: int) -> Machine {
    with_vals(m, m.vals.take(m.vals.len() - n))
}

pub open spec fn in_i64(v: int) -> bool {
    i64::MIN <= v <= i64::MAX
}

/// Integer division that truncates toward zero.
pub open spec fn div_trunc(a: int, b: int) -> int {
    let q = (if a < 0 { -a } else { a }) / (if b < 0 { -b } else { b });
    if (a < 0) == (b < 0) {
        q
    } else {
        -q
    }
}

/// `a OP b` on integers, for an arithmetic `op`, where `a` is the value popped
/// first (the top) and `b` the one popped second. So `Div` divides the top by
/// the value below it: after `GetLit(Int 1), GetLit(Int 0), Div` it computes
/// `0 / 1`, and the divisor is zero only when the value below the top is.
pub open spec fn int_arith(op: FloatOp, a: i64, b: i64) -> Result<i64, Fault> {
    let v: int = match op {
        FloatOp::Add => a + b,
        FloatOp::Sub => a - b,
        FloatOp::Mul => a * b,
        _ => div_trunc(a as int, b as int),
    };
    if op == FloatOp::Div && b == 0 {
        Err(Fault::Arithmetic)
    } else if in_i64(v) {
        Ok(v as i64)
    } else {
        Err(Fault::Arithmetic)
    }
}

/// `a OP b` on integers, for a comparison `op`.
pub open spec fn int_compare(op: FloatOp, a: i64, b: i64) -> bool {
    match op {
        FloatOp::Gt => a > b,
        FloatOp::Gte => a >= b,
        FloatOp::Lt => a < b,
        _ => a <= b,
    }
}

/// Arithmetic and comparison opcodes: `a` is the top value, `b` the one below.
pub open spec fn binary_model(m: Machine, op: FloatOp) -> Result<(Machine, EventModel), Fault> {
    if m.vals.len() < 2 {
        Err(Fault::Type)
    } else {
        match (below(m, 0), below(m, 1)) {
            (ValModel::Int(a), ValModel::Int(b)) => if op == FloatOp::Add || op == FloatOp::Sub
                || op == FloatOp::Mul || op == FloatOp::Div {
                match int_arith(op, a, b) {
                    Ok(v) => go_on(replace_top(m, 2, ValModel::Int(v))),
                    Err(f) => Err(f),
                }
            } else {
                go_on(replace_top(m, 2, ValModel::Bool(int_compare(op, a, b))))
            },
            (ValModel::Float(a), ValModel::Float(b)) => Ok(
                (popped(m, 2), EventModel::Host(HostCallModel::Float(op, a, b))),
            ),
            _ => Err(Fault::Type),
        }
    }
}

/// `a == b`, where `None` means the two values cannot be compared here.
pub open spec fn equal_model(a: ValModel, b: ValModel) -> Option<bool> {
    match (a, b) {
        (ValModel::Nil, ValModel::Nil) => Some(true),
        (ValModel::Nil, _) => Some(false),
        (_, ValModel::Nil) => Some(false),
        (ValModel::Bool(x), ValModel::Bool(y)) => Some(x == y),
        (ValModel::Int(x), ValModel::Int(y)) => Some(x == y),
        (ValModel::Str(x), ValModel::Str(y)) => Some(x == y),
        (ValModel::Vec(x), ValModel::Vec(y)) => Some(x == y),
        (ValModel::Dict(x), ValModel::Dict(y)) => Some(x == y),
        (ValModel::Func(x), ValModel::Func(y)) => Some(x == y),
        _ => None,
    }
}

pub open spec fn eq_model(m: Machine) -> Result<(Machine, EventModel), Fault> {
    if m.vals.len() < 2 {
        Err(Fault::Type)
    } else {
        match (below(m, 0), below(m, 1)) {
            (ValModel::Float(a), ValModel::Float(b)) => Ok(
                (popped(m, 2), EventModel::Host(HostCallModel::Float(FloatOp::Eq, a, b))),
            ),
            (a, b) => match equal_model(a, b) {
                Some(e) => go_on(replace_top(m, 2, ValModel::Bool(e))),
                None => Err(Fault::Type),
            },
        }
    }
}

/// The canonical text of a value that is not a float.
pub open spec fn text_of(v: ValModel) -> Seq<char> {
    match v {
        ValModel::Nil => seq!['n', 'o', 'n', 'e'],
        ValModel::Bool(b) => if b {
            seq!['t', 'r', 'u', 'e']
        } else {
            seq!['f', 'a', 'l', 's', 'e']
        },
        ValModel::Int(i) => int_text(i as int),
        ValModel::Float(t) => t,
        ValModel::Str(s) => s,
        ValModel::Vec(h) => seq!['v', 'e', 'c', '@'] + nat_text(h),
        ValModel::Dict(h) => seq!['m', 'a', 'p', '@'] + nat_text(h),
        ValModel::Func(h) => seq!['f', 'u', 'n', 'c', '@'] + nat_text(h),
    }
}

/// The slot `(offset, index)` names, as (scope, position), if it exists.
pub open spec fn slot(m: Machine, offset: nat, index: nat) -> Option<(int, int)> {
    if offset < m.scopes.len() && index < m.scopes[m.scopes.len() - 1 - offset].len() {
        Some((m.scopes.len() - 1 - offset, index as int))
    } else {
        None
    }
}

/// Pops a `Bool` and jumps to `target` when it equals `when`.
pub open spec fn branch_model(m: Machine, target: nat, when: bool) -> Result<
    (Machine, EventModel),
    Fault,
> {
    if m.vals.len() == 0 {
        Err(Fault::Type)
    } else {
        match below(m, 0) {
            ValModel::Bool(b) => if b == when {
                if m.calls.len() == 0 {
                    Err(Fault::Lookup)
                } else {
                    go_on(jump(popped(m, 1), target))
                }
            } else {
                go_on(popped(m, 1))
            },
            _ => Err(Fault::Type),
        }
    }
}

/// `m` with the top frame's next opcode set to `target`.
pub open spec fn jump(m: Machine, target: nat) -> Machine {
    let c = m.calls.last();
    Machine { calls: m.calls.update(m.calls.len() - 1, Call { func: c.func, pc: target as usize }), ..m }
}

/// What running `op` does to `m`, whose top frame has already moved past it.
#[verifier::opaque]
pub open spec fn run_op(m: Machine, op: OpModel) -> Result<(Machine, EventModel), Fault> {
    match op {
        OpModel::GetConst(k) => match find_func(m.funcs, k) {
            Some(i) => go_on(with_vals(m, m.vals.push(ValModel::Func(i)))),
            None => Err(Fault::Lookup),
        },
        OpModel::GetLit(v) => go_on(with_vals(m, m.vals.push(v))),
        OpModel::NewScope => go_on(Machine { scopes: m.scopes.push(Seq::empty()), ..m }),
        OpModel::EndScope => if m.scopes.len() == 0 {
            Err(Fault::Lookup)
        } else {
            go_on(Machine { scopes: m.scopes.drop_last(), ..m })
        },
        OpModel::NewVar => if m.vals.len() == 0 {
            Err(Fault::Type)
        } else if m.scopes.len() == 0 {
            Err(Fault::Lookup)
        } else {
            let s = m.scopes.len() - 1;
            go_on(
                Machine {
                    scopes: m.scopes.update(s, m.scopes[s].push(below(m, 0))),
                    ..popped(m, 1)
                },
            )
        },
        OpModel::SetVar(o, i) => if m.vals.len() == 0 {
            Err(Fault::Type)
        } else {
            match slot(m, o, i) {
                Some((s, j)) => go_on(
                    Machine {
                        scopes: m.scopes.update(s, m.scopes[s].update(j, below(m, 0))),
                        ..popped(m, 1)
                    },
                ),
                None => Err(Fault::Lookup),
            }
        },
        OpModel::GetVar(o, i) => match slot(m, o, i) {
            Some((s, j)) => go_on(with_vals(m, m.vals.push(m.scopes[s][j]))),
            None => Err(Fault::Lookup),
        },
        OpModel::CallSys(k) => if m.sys.contains(k) {
            Ok((m, EventModel::Host(HostCallModel::Sys(k))))
        } else {
            Err(Fault::Lookup)
        },
        OpModel::CallFunc => if m.vals.len() == 0 {
            Err(Fault::Type)
        } else {
            match below(m, 0) {
                ValModel::Func(h) => if h < m.funcs.len() {
                    go_on(
                        Machine {
                            calls: m.calls.push(Call { func: h as usize, pc: 0 }),
                            ..popped(m, 1)
                        },
                    )
                } else {
                    Err(Fault::Lookup)
                },
                _ => Err(Fault::Type),
            }
        },
        OpModel::ReturnCall => if m.calls.len() == 0 {
            Err(Fault::Lookup)
        } else if m.calls.len() == 1 {
            Ok((Machine { calls: m.calls.drop_last(), status: Status::End, ..m }, EventModel::Halt))
        } else {
            go_on(Machine { calls: m.calls.drop_last(), ..m })
        },
        OpModel::GoTo(t) => if m.calls.len() == 0 {
            Err(Fault::Lookup)
        } else {
            go_on(jump(m, t))
        },
        OpModel::IfTrueGoTo(t) => branch_model(m, t, true),
        OpModel::IfFalseGoTo(t) => branch_model(m, t, false),
        OpModel::Gte => binary_model(m, FloatOp::Gte),
        OpModel::Lte => binary_model(m, FloatOp::Lte),
        OpModel::Gt => binary_model(m, FloatOp::Gt),
        OpModel::Lt => binary_model(m, FloatOp::Lt),
        OpModel::Eq => eq_model(m),
        OpModel::Not => if m.vals.len() == 0 {
            Err(Fault::Type)
        } else {
            match below(m, 0) {
                ValModel::Bool(b) => go_on(replace_top(m, 1, ValModel::Bool(!b))),
                _ => Err(Fault::Type),
            }
        },
        OpModel::Add => binary_model(m, FloatOp::Add),
        OpModel::Sub => binary_model(m, FloatOp::Sub),
        OpModel::Mul => binary_model(m, FloatOp::Mul),
        OpModel::Div => binary_model(m, FloatOp::Div),
        OpModel::Concat => if m.vals.len() < 2 {
            Err(Fault::Type)
        } else {
            match (below(m, 0), below(m, 1)) {
                (ValModel::Str(a), ValModel::Str(b)) => go_on(
                    replace_top(m, 2, ValModel::Str(a + b)),
                ),
                _ => Err(Fault::Type),
            }
        },
        OpModel::ToInt => if m.vals.len() == 0 {
            Err(Fault::Type)
        } else {
            match below(m, 0) {
                ValModel::Float(t) => Ok(
                    (popped(m, 1), EventModel::Host(HostCallModel::FloatToInt(t))),
                ),
                ValModel::Str(s) => match int_of(s) {
                    Some(v) => if in_i64(v) {
                        go_on(replace_top(m, 1, ValModel::Int(v as i64)))
                    } else {
                        Err(Fault::Arithmetic)
                    },
                    None => Err(Fault::Arithmetic),
                },
                _ => Err(Fault::Type),
            }
        },
        OpModel::ToFloat => if m.vals.len() == 0 {
            Err(Fault::Type)
        } else {
            match below(m, 0) {
                ValModel::Int(i) => Ok(
                    (popped(m, 1), EventModel::Host(HostCallModel::IntToFloat(i))),
                ),
                ValModel::Str(s) => Ok(
                    (popped(m, 1), EventModel::Host(HostCallModel::ParseFloat(s))),
                ),
                _ => Err(Fault::Type),
            }
        },
        OpModel::ToString => if m.vals.len() == 0 {
            Err(Fault::Type)
        } else {
            match below(m, 0) {
                ValModel::Float(t) => Ok(
                    (popped(m, 1), EventModel::Host(HostCallModel::FloatText(t))),
                ),
                v => go_on(replace_top(m, 1, ValModel::Str(text_of(v)))),
            }
        },
        OpModel::NewVec => go_on(
            Machine {
                vals: m.vals.push(ValModel::Vec(m.vecs.len())),
                vecs: m.vecs.push(Seq::empty()),
                ..m
            },
        ),
        OpModel::PushToVec => if m.vals.len() < 2 {
            Err(Fault::Type)
        } else {
            match below(m, 0) {
                ValModel::Vec(h) => if h < m.vecs.len() {
                    go_on(
                        Machine {
                            vecs: m.vecs.update(h as int, m.vecs[h as int].push(below(m, 1))),
                            ..popped(m, 2)
                        },
                    )
                } else {
                    Err(Fault::Lookup)
                },
                _ => Err(Fault::Type),
            }
        },
        OpModel::GetVecVal => if m.vals.len() < 2 {
            Err(Fault::Type)
        } else {
            match (below(m, 0), below(m, 1)) {
                (ValModel::Vec(h), ValModel::Int(i)) => if h < m.vecs.len() && 0 <= i
                    < m.vecs[h as int].len() {
                    go_on(replace_top(m, 2, m.vecs[h as int][i as int]))
                } else {
                    Err(Fault::Lookup)
                },
                _ => Err(Fault::Type),
            }
        },
        OpModel::SetVecVal => if m.vals.len() < 3 {
            Err(Fault::Type)
        } else {
            match (below(m, 0), below(m, 1)) {
                (ValModel::Vec(h), ValModel::Int(i)) => if h < m.vecs.len() && 0 <= i
                    < m.vecs[h as int].len() {
                    go_on(
                        Machine {
                            vecs: m.vecs.update(
                                h as int,
                                m.vecs[h as int].update(i as int, below(m, 2)),
                            ),
                            ..popped(m, 3)
                        },
                    )
                } else {
                    Err(Fault::Lookup)
                },
                _ => Err(Fault::Type),
            }
        },
        OpModel::NewMap => go_on(
            Machine {
                vals: m.vals.push(ValModel::Dict(m.maps.len())),
                maps: m.maps.push(Seq::empty()),
                ..m
            },
        ),
        OpModel::GetMapVal => if m.vals.len() < 2 {
            Err(Fault::Type)
        } else {
            match (below(m, 0), below(m, 1)) {
                (ValModel::Dict(h), ValModel::Str(k)) => if h < m.maps.len() {
                    match find_key(m.maps[h as int], k) {
                        Some(i) => go_on(replace_top(m, 2, m.maps[h as int][i as int].1)),
                        None => Err(Fault::Lookup),
                    }
                } else {
                    Err(Fault::Lookup)
                },
                _ => Err(Fault::Type),
            }
        },
        OpModel::SetMapVal => if m.vals.len() < 3 {
            Err(Fault::Type)
        } else {
            match (below(m, 0), below(m, 1)) {
                (ValModel::Dict(h), ValModel::Str(k)) => if h < m.maps.len() {
                    go_on(
                        Machine {
                            maps: m.maps.update(
                                h as int,
                                set_entry(m.maps[h as int], k, below(m, 2)),
                            ),
                            ..popped(m, 3)
                        },
                    )
                } else {
                    Err(Fault::Lookup)
                },
                _ => Err(Fault::Type),
            }
        },
    }
}

/// One step of the machine: fetch the top frame's opcode, move past it, run it.
pub open spec fn step_model(m: Machine) -> Result<(Machine, EventModel), Fault> {
    if m.status == Status::End {
        Ok((m, EventModel::Halt))
    } else {
        match fetch(m) {
            None => Err(Fault::Lookup),
            Some(op) => run_op(advance(m), op),
        }
    }
}

/// Up to `budget` steps from `m`, stopping at the first step that does not end
/// with `Continue`.
pub open spec fn run_model(m: Machine, budget: nat) -> Result<(Machine, EventModel), Fault>
    decreases budget,
{
    if budget == 0 {
        Ok((m, EventModel::Continue))
    } else {
        match step_model(m) {
            Ok((next, EventModel::Continue)) => run_model(next, (budget - 1) as nat),
            other => other,
        }
    }
}

} // verus!
