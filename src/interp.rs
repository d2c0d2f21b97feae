use vstd::prelude::*;

use crate::machine::{run_model, run_op, step_model, EventModel, Fault, Status};
use crate::value::Op;
use crate::vm::{outcome, Event, VM};

verus! {

impl VM {
    /// Runs one opcode; the top frame has already moved past it.
    pub fn run_op(&mut self, op: Op) -> (r: Result<Event, Fault>)
        ensures
            outcome(final(self)@, r) == run_op(old(self)@, op@),
    {
        match op {
            Op::GetConst(key) => self.op_get_func(&key),
            Op::GetLit(val) => self.op_get_const(val),
            Op::NewScope => self.op_new_scope(),
            Op::EndScope => self.op_end_scope(),
            Op::NewVar => self.op_new_var(),
            Op::SetVar(offset, index) => self.op_set_var(offset, index),
            Op::GetVar(offset, index) => self.op_get_var(offset, index),
            Op::CallSys(key) => self.op_call_api(key),
            Op::CallFunc => self.op_call_func(),
            Op::ReturnCall => self.op_return_call(),
            Op::GoTo(index) => self.op_goto(index),
            Op::IfTrueGoTo(index) => self.op_if_true_goto(index),
            Op::IfFalseGoTo(index) => self.op_if_false_goto(index),
            _ => self.run_computing_op(op),
        }
    }

    /// Runs an opcode that computes on values.
    fn run_computing_op(&mut self, op: Op) -> (r: Result<Event, Fault>)
        requires
            !(op is GetConst || op is GetLit || op is NewScope || op is EndScope || op is NewVar
                || op is SetVar || op is GetVar || op is CallSys || op is CallFunc
                || op is ReturnCall || op is GoTo || op is IfTrueGoTo || op is IfFalseGoTo),
        ensures
            outcome(final(self)@, r) == run_op(old(self)@, op@),
    {
        match op {
            Op::Gte => self.op_gte(),
            Op::Lte => self.op_lte(),
            Op::Gt => self.op_gt(),
            Op::Lt => self.op_lt(),
            Op::Eq => self.op_eq(),
            Op::Not => self.op_not(),
            Op::Add => self.op_add(),
            Op::Sub => self.op_sub(),
            Op::Mul => self.op_mul(),
            Op::Div => self.op_div(),
            Op::Concat => self.op_concat(),
            _ => self.run_container_op(op),
        }
    }

    /// Runs a casting, vector or map opcode.
    fn run_container_op(&mut self, op: Op) -> (r: Result<Event, Fault>)
        requires
            op is ToInt || op is ToFloat || op is ToString || op is NewVec || op is PushToVec
                || op is GetVecVal || op is SetVecVal || op is NewMap || op is GetMapVal
                || op is SetMapVal,
        ensures
            outcome(final(self)@, r) == run_op(old(self)@, op@),
    {
        match op {
            Op::ToInt => self.op_to_int(),
            Op::ToFloat => self.op_to_float(),
            Op::ToString => self.op_to_string(),
            Op::NewVec => self.op_new_vec(),
            Op::PushToVec => self.op_push_to_vec(),
            Op::GetVecVal => self.op_get_vec_val(),
            Op::SetVecVal => self.op_set_vec_val(),
            Op::NewMap => self.op_new_map(),
            Op::GetMapVal => self.op_get_map_val(),
            _ => self.op_set_map_val(),
        }
    }

    /// One step: fetch the top frame's opcode, move past it, run it.
    pub fn step(&mut self) -> (r: Result<Event, Fault>)
        ensures
            outcome(final(self)@, r) == step_model(old(self)@),
    {
        if self.status() == Status::End {
            return Ok(Event::Halt);
        }
        match self.fetch_next() {
            Some(op) => self.run_op(op),
            None => Err(Fault::Lookup),
        }
    }
}

impl VM {
    /// Steps until a step ends with something other than `Continue`, or
    /// `budget` steps have been taken.
    pub fn run(&mut self, budget: u64) -> (r: Result<Event, Fault>)
        ensures
            outcome(final(self)@, r) == run_model(old(self)@, budget as nat),
    {
        let mut left = budget;
        while left > 0
            invariant
                run_model(old(self)@, budget as nat) == run_model(self@, left as nat),
            decreases left,
        {
            match self.step() {
                Ok(Event::Continue) => {},
                other => {
                    return other;
                },
            }
            left = left - 1;
        }
        Ok(Event::Continue)
    }
}

} // verus!
