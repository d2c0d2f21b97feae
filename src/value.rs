use vstd::prelude::*;

verus! {

/// A runtime value.
///
/// Vec, Dict (a map from strings to values) and Func are handles: indices into the machine's vector arena,
/// map arena and function registry. Copying a handle copies the index, so every
/// copy refers to the same container, and handles compare by identity.
///
/// A float is carried as the decimal text that denotes it; this library never
/// computes with it and hands every operation on floats to the host.
pub enum Val {
    Nil,
    Bool(bool),
    Int(i64),
    Float(String),
    Str(String),
    Vec(usize),
    Dict(usize),
    Func(usize),
}

/// What a [`Val`] denotes: strings become character sequences.
pub enum ValModel {
    Nil,
    Bool(bool),
    Int(i64),
    Float(Seq<char>),
    Str(Seq<char>),
    Vec(nat),
    Dict(nat),
    Func(nat),
}

impl View for Val {
    type V = ValModel;

    open spec fn view(&self) -> ValModel {
        match self {
            Val::Nil => ValModel::Nil,
            Val::Bool(b) => ValModel::Bool(*b),
            Val::Int(i) => ValModel::Int(*i),
            Val::Float(t) => ValModel::Float(t@),
            Val::Str(s) => ValModel::Str(s@),
            Val::Vec(h) => ValModel::Vec(*h as nat),
            Val::Dict(h) => ValModel::Dict(*h as nat),
            Val::Func(h) => ValModel::Func(*h as nat),
        }
    }
}

impl Val {
    /// A copy of this value; for a handle, another reference to the same container.
    pub fn copy(&self) -> (r: Val)
        ensures
            r == *self,
    {
        match self {
            Val::Nil => Val::Nil,
            Val::Bool(b) => Val::Bool(*b),
            Val::Int(i) => Val::Int(*i),
            Val::Float(t) => Val::Float(t.clone()),
            Val::Str(s) => Val::Str(s.clone()),
            Val::Vec(h) => Val::Vec(*h),
            Val::Dict(h) => Val::Dict(*h),
            Val::Func(h) => Val::Func(*h),
        }
    }
}

/// One instruction of the machine.
pub enum Op {
    // Values
    GetConst(String),
    GetLit(Val),
    // Scopes
    NewScope,
    EndScope,
    // Variables
    NewVar,
    SetVar(usize, usize),
    GetVar(usize, usize),
    // Calling
    CallSys(String),
    CallFunc,
    ReturnCall,
    // Jumping
    GoTo(usize),
    IfTrueGoTo(usize),
    IfFalseGoTo(usize),
    // Comparison
    Gte,
    Lte,
    Gt,
    Lt,
    Eq,
    Not,
    // Arithmetic
    Add,
    Sub,
    Mul,
    Div,
    // Strings
    Concat,
    // Casting
    ToInt,
    ToFloat,
    ToString,
    // Vecs
    NewVec,
    PushToVec,
    GetVecVal,
    SetVecVal,
    // Maps
    NewMap,
    GetMapVal,
    SetMapVal,
}

/// What an [`Op`] denotes: its string operands become character sequences.
pub enum OpModel {
    GetConst(Seq<char>),
    GetLit(ValModel),
    NewScope,
    EndScope,
    NewVar,
    SetVar(nat, nat),
    GetVar(nat, nat),
    CallSys(Seq<char>),
    CallFunc,
    ReturnCall,
    GoTo(nat),
    IfTrueGoTo(nat),
    IfFalseGoTo(nat),
    Gte,
    Lte,
    Gt,
    Lt,
    Eq,
    Not,
    Add,
    Sub,
    Mul,
    Div,
    Concat,
    ToInt,
    ToFloat,
    ToString,
    NewVec,
    PushToVec,
    GetVecVal,
    SetVecVal,
    NewMap,
    GetMapVal,
    SetMapVal,
}

impl View for Op {
    type V = OpModel;

    open spec fn view(&self) -> OpModel {
        match self {
            Op::GetConst(k) => OpModel::GetConst(k@),
            Op::GetLit(v) => OpModel::GetLit(v@),
            Op::NewScope => OpModel::NewScope,
            Op::EndScope => OpModel::EndScope,
            Op::NewVar => OpModel::NewVar,
            Op::SetVar(o, i) => OpModel::SetVar(*o as nat, *i as nat),
            Op::GetVar(o, i) => OpModel::GetVar(*o as nat, *i as nat),
            Op::CallSys(k) => OpModel::CallSys(k@),
            Op::CallFunc => OpModel::CallFunc,
            Op::ReturnCall => OpModel::ReturnCall,
            Op::GoTo(i) => OpModel::GoTo(*i as nat),
            Op::IfTrueGoTo(i) => OpModel::IfTrueGoTo(*i as nat),
            Op::IfFalseGoTo(i) => OpModel::IfFalseGoTo(*i as nat),
            Op::Gte => OpModel::Gte,
            Op::Lte => OpModel::Lte,
            Op::Gt => OpModel::Gt,
            Op::Lt => OpModel::Lt,
            Op::Eq => OpModel::Eq,
            Op::Not => OpModel::Not,
            Op::Add => OpModel::Add,
            Op::Sub => OpModel::Sub,
            Op::Mul => OpModel::Mul,
            Op::Div => OpModel::Div,
            Op::Concat => OpModel::Concat,
            Op::ToInt => OpModel::ToInt,
            Op::ToFloat => OpModel::ToFloat,
            Op::ToString => OpModel::ToString,
            Op::NewVec => OpModel::NewVec,
            Op::PushToVec => OpModel::PushToVec,
            Op::GetVecVal => OpModel::GetVecVal,
            Op::SetVecVal => OpModel::SetVecVal,
            Op::NewMap => OpModel::NewMap,
            Op::GetMapVal => OpModel::GetMapVal,
            Op::SetMapVal => OpModel::SetMapVal,
        }
    }
}

impl Op {
    pub fn copy(&self) -> (r: Op)
        ensures
            r == *self,
    {
        match self {
            Op::GetConst(k) => Op::GetConst(k.clone()),
            Op::GetLit(v) => Op::GetLit(v.copy()),
            Op::NewScope => Op::NewScope,
            Op::EndScope => Op::EndScope,
            Op::NewVar => Op::NewVar,
            Op::SetVar(o, i) => Op::SetVar(*o, *i),
            Op::GetVar(o, i) => Op::GetVar(*o, *i),
            Op::CallSys(k) => Op::CallSys(k.clone()),
            Op::CallFunc => Op::CallFunc,
            Op::ReturnCall => Op::ReturnCall,
            Op::GoTo(i) => Op::GoTo(*i),
            Op::IfTrueGoTo(i) => Op::IfTrueGoTo(*i),
            Op::IfFalseGoTo(i) => Op::IfFalseGoTo(*i),
            Op::Gte => Op::Gte,
            Op::Lte => Op::Lte,
            Op::Gt => Op::Gt,
            Op::Lt => Op::Lt,
            Op::Eq => Op::Eq,
            Op::Not => Op::Not,
            Op::Add => Op::Add,
            Op::Sub => Op::Sub,
            Op::Mul => Op::Mul,
            Op::Div => Op::Div,
            Op::Concat => Op::Concat,
            Op::ToInt => Op::ToInt,
            Op::ToFloat => Op::ToFloat,
            Op::ToString => Op::ToString,
            Op::NewVec => Op::NewVec,
            Op::PushToVec => Op::PushToVec,
            Op::GetVecVal => Op::GetVecVal,
            Op::SetVecVal => Op::SetVecVal,
            Op::NewMap => Op::NewMap,
            Op::GetMapVal => Op::GetMapVal,
            Op::SetMapVal => Op::SetMapVal,
        }
    }
}

} // verus!
