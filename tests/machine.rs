use stackvm::machine::{Fault, FloatOp, Status};
use stackvm::value::{Op, Val};
use stackvm::vm::{Event, HostCall, VM};

fn machine(funcs: Vec<(&str, Vec<Op>)>, sys: Vec<&str>) -> VM {
    let mut vm = VM::new(sys.into_iter().map(|s| s.to_string()).collect());
    vm.set_funcs(funcs.into_iter().map(|(n, b)| (n.to_string(), b)).collect());
    vm
}

fn run_main(body: Vec<Op>) -> (VM, Result<Event, Fault>) {
    let mut vm = machine(vec![("main", body)], vec![]);
    vm.start(&"main".to_string()).unwrap();
    let r = vm.run(10_000);
    (vm, r)
}

fn lit_int(i: i64) -> Op {
    Op::GetLit(Val::Int(i))
}

fn text(s: &str) -> Op {
    Op::GetLit(Val::Str(s.to_string()))
}

fn only_value(vm: &mut VM) -> Val {
    assert_eq!(vm.vals().len(), 1);
    vm.pop_val().unwrap()
}

#[test]
fn arithmetic_scenario() {
    let (mut vm, r) = run_main(vec![lit_int(3), lit_int(4), Op::Add, Op::ReturnCall]);
    assert!(matches!(r, Ok(Event::Halt)));
    assert_eq!(vm.status(), Status::End);
    assert!(matches!(only_value(&mut vm), Val::Int(7)));
}

#[test]
fn branching_scenario() {
    let body = vec![
        lit_int(10),
        lit_int(5),
        Op::Lt,
        Op::IfFalseGoTo(6),
        text("small"),
        Op::GoTo(7),
        text("big"),
        Op::ReturnCall,
    ];
    let (mut vm, r) = run_main(body);
    assert!(matches!(r, Ok(Event::Halt)));
    match only_value(&mut vm) {
        Val::Str(s) => assert_eq!(s, "small"),
        _ => panic!("expected a string"),
    }
}

#[test]
fn loop_scenario() {
    // Sums i for i = 1..=3 in the slots (0,0) and (0,1). `Gt` computes
    // top > next, so the loop test pushes 3 first to ask whether i > 3.
    let body = vec![
        Op::NewScope,
        lit_int(1),
        Op::NewVar,
        lit_int(0),
        Op::NewVar,
        lit_int(3),
        Op::GetVar(0, 0),
        Op::Gt,
        Op::IfTrueGoTo(18),
        Op::GetVar(0, 1),
        Op::GetVar(0, 0),
        Op::Add,
        Op::SetVar(0, 1),
        Op::GetVar(0, 0),
        lit_int(1),
        Op::Add,
        Op::SetVar(0, 0),
        Op::GoTo(5),
        Op::GetVar(0, 1),
        Op::EndScope,
        Op::ReturnCall,
    ];
    let (mut vm, r) = run_main(body);
    assert!(matches!(r, Ok(Event::Halt)));
    assert!(matches!(only_value(&mut vm), Val::Int(6)));
}

#[test]
fn first_class_call_scenario() {
    let mut vm = machine(
        vec![
            ("main", vec![lit_int(21), Op::GetConst("double".to_string()), Op::CallFunc, Op::ReturnCall]),
            ("double", vec![lit_int(2), Op::Mul, Op::ReturnCall]),
        ],
        vec![],
    );
    vm.start(&"main".to_string()).unwrap();
    assert!(matches!(vm.run(1000), Ok(Event::Halt)));
    assert!(matches!(only_value(&mut vm), Val::Int(42)));
}

#[test]
fn aliased_vec_scenario() {
    let body = vec![
        Op::NewVec,
        Op::NewVar,
        lit_int(99),
        Op::GetVar(0, 0),
        Op::PushToVec,
        Op::GetVar(0, 0),
        Op::ReturnCall,
    ];
    let (mut vm, r) = run_main(body);
    assert!(matches!(r, Ok(Event::Halt)));
    match only_value(&mut vm) {
        Val::Vec(h) => {
            let items = vm.vec_items(h).unwrap();
            assert_eq!(items.len(), 1);
            assert!(matches!(items[0], Val::Int(99)));
        }
        _ => panic!("expected a vec handle"),
    }
}

#[test]
fn map_round_trip_scenario() {
    let body = vec![
        Op::NewMap,
        Op::NewVar,
        text("hi"),
        text("k"),
        Op::GetVar(0, 0),
        Op::SetMapVal,
        text("k"),
        Op::GetVar(0, 0),
        Op::GetMapVal,
        Op::ReturnCall,
    ];
    let (mut vm, r) = run_main(body);
    assert!(matches!(r, Ok(Event::Halt)));
    match only_value(&mut vm) {
        Val::Str(s) => assert_eq!(s, "hi"),
        _ => panic!("expected a string"),
    }
}

#[test]
fn add_on_bool_is_type_error() {
    let (_, r) = run_main(vec![Op::GetLit(Val::Bool(true)), Op::Add]);
    assert!(matches!(r, Err(Fault::Type)));
}

#[test]
fn division_by_zero_is_arithmetic_error() {
    // The divisor is the value below the top: 1 / 0.
    let (_, r) = run_main(vec![lit_int(0), lit_int(1), Op::Div]);
    assert!(matches!(r, Err(Fault::Arithmetic)));
}

#[test]
fn division_takes_top_as_dividend() {
    // With 1 pushed before 0 the top is 0, so the quotient is 0 / 1.
    let (mut vm, r) = run_main(vec![lit_int(1), lit_int(0), Op::Div, Op::ReturnCall]);
    assert!(matches!(r, Ok(Event::Halt)));
    assert!(matches!(only_value(&mut vm), Val::Int(0)));
}

#[test]
fn division_truncates_toward_zero() {
    let (mut vm, _) = run_main(vec![lit_int(2), lit_int(-7), Op::Div, Op::ReturnCall]);
    assert!(matches!(only_value(&mut vm), Val::Int(-3)));
}

#[test]
fn missing_const_is_lookup_error() {
    let (_, r) = run_main(vec![Op::GetConst("missing".to_string())]);
    assert!(matches!(r, Err(Fault::Lookup)));
}

#[test]
fn subtraction_is_top_minus_next() {
    let (mut vm, _) = run_main(vec![lit_int(10), lit_int(3), Op::Sub, Op::ReturnCall]);
    assert!(matches!(only_value(&mut vm), Val::Int(-7)));
}

#[test]
fn overflow_is_arithmetic_error() {
    let (_, r) = run_main(vec![lit_int(1), lit_int(i64::MAX), Op::Add]);
    assert!(matches!(r, Err(Fault::Arithmetic)));
}

#[test]
fn concat_puts_top_first() {
    let (mut vm, _) = run_main(vec![text("b"), text("a"), Op::Concat, Op::ReturnCall]);
    match only_value(&mut vm) {
        Val::Str(s) => assert_eq!(s, "ab"),
        _ => panic!("expected a string"),
    }
}

#[test]
fn to_string_forms() {
    let cases: Vec<(Op, &str)> = vec![
        (Op::GetLit(Val::Nil), "none"),
        (Op::GetLit(Val::Bool(false)), "false"),
        (lit_int(-120), "-120"),
        (lit_int(0), "0"),
        (text("x y"), "x y"),
    ];
    for (lit, want) in cases {
        let (mut vm, _) = run_main(vec![lit, Op::ToString, Op::ReturnCall]);
        match only_value(&mut vm) {
            Val::Str(s) => assert_eq!(s, want),
            _ => panic!("expected a string"),
        }
    }
    let (mut vm, _) = run_main(vec![Op::NewVec, Op::ToString, Op::ReturnCall]);
    match only_value(&mut vm) {
        Val::Str(s) => assert_eq!(s, "vec@0"),
        _ => panic!("expected a string"),
    }
}

#[test]
fn to_int_parses_signed_decimal() {
    let (mut vm, _) = run_main(vec![text("-42"), Op::ToInt, Op::ReturnCall]);
    assert!(matches!(only_value(&mut vm), Val::Int(-42)));
    let (_, r) = run_main(vec![text("4x"), Op::ToInt]);
    assert!(matches!(r, Err(Fault::Arithmetic)));
    let (_, r) = run_main(vec![text("9223372036854775808"), Op::ToInt]);
    assert!(matches!(r, Err(Fault::Arithmetic)));
}

#[test]
fn equality_rules() {
    let (mut vm, _) = run_main(vec![Op::GetLit(Val::Nil), lit_int(1), Op::Eq, Op::ReturnCall]);
    assert!(matches!(only_value(&mut vm), Val::Bool(false)));
    let (mut vm, _) = run_main(vec![text("a"), text("a"), Op::Eq, Op::ReturnCall]);
    assert!(matches!(only_value(&mut vm), Val::Bool(true)));
    let (mut vm, _) = run_main(vec![Op::NewVec, Op::NewVec, Op::Eq, Op::ReturnCall]);
    assert!(matches!(only_value(&mut vm), Val::Bool(false)));
    let (_, r) = run_main(vec![lit_int(1), text("1"), Op::Eq]);
    assert!(matches!(r, Err(Fault::Type)));
}

#[test]
fn not_and_branch_need_bool() {
    let (mut vm, _) = run_main(vec![Op::GetLit(Val::Bool(true)), Op::Not, Op::ReturnCall]);
    assert!(matches!(only_value(&mut vm), Val::Bool(false)));
    let (_, r) = run_main(vec![lit_int(1), Op::Not]);
    assert!(matches!(r, Err(Fault::Type)));
    let (_, r) = run_main(vec![lit_int(1), Op::IfTrueGoTo(0)]);
    assert!(matches!(r, Err(Fault::Type)));
}

#[test]
fn vec_and_map_failures() {
    let (_, r) = run_main(vec![lit_int(0), Op::NewVec, Op::GetVecVal]);
    assert!(matches!(r, Err(Fault::Lookup)));
    let (_, r) = run_main(vec![text("k"), Op::NewMap, Op::GetMapVal]);
    assert!(matches!(r, Err(Fault::Lookup)));
    let (_, r) = run_main(vec![lit_int(1), Op::NewMap, Op::GetMapVal]);
    assert!(matches!(r, Err(Fault::Type)));
}

#[test]
fn set_vec_val_overwrites() {
    let body = vec![
        Op::NewVec,
        Op::NewVar,
        lit_int(5),
        Op::GetVar(0, 0),
        Op::PushToVec,
        lit_int(8),
        lit_int(0),
        Op::GetVar(0, 0),
        Op::SetVecVal,
        lit_int(0),
        Op::GetVar(0, 0),
        Op::GetVecVal,
        Op::ReturnCall,
    ];
    let (mut vm, r) = run_main(body);
    assert!(matches!(r, Ok(Event::Halt)));
    assert!(matches!(only_value(&mut vm), Val::Int(8)));
}

#[test]
fn variable_out_of_range_is_lookup_error() {
    let (_, r) = run_main(vec![Op::GetVar(0, 0)]);
    assert!(matches!(r, Err(Fault::Lookup)));
    let (_, r) = run_main(vec![Op::GetVar(3, 0)]);
    assert!(matches!(r, Err(Fault::Lookup)));
}

#[test]
fn missing_return_is_lookup_error() {
    let (_, r) = run_main(vec![lit_int(1)]);
    assert!(matches!(r, Err(Fault::Lookup)));
}

#[test]
fn host_calls_are_handed_out() {
    let mut vm = machine(vec![("main", vec![text("hi"), Op::CallSys("io/print".to_string()), Op::ReturnCall])], vec!["io/print"]);
    vm.start(&"main".to_string()).unwrap();
    match vm.run(100) {
        Ok(Event::Host(HostCall::Sys(name))) => assert_eq!(name, "io/print"),
        _ => panic!("expected a host call"),
    }
    assert!(matches!(vm.run(100), Ok(Event::Halt)));
    let (_, r) = run_main(vec![Op::CallSys("nope".to_string())]);
    assert!(matches!(r, Err(Fault::Lookup)));
}

#[test]
fn float_operations_go_to_host() {
    let body = vec![
        Op::GetLit(Val::Float("1.5".to_string())),
        Op::GetLit(Val::Float("2".to_string())),
        Op::Add,
        Op::ReturnCall,
    ];
    let (vm, r) = run_main(body);
    match r {
        Ok(Event::Host(HostCall::Float(FloatOp::Add, a, b))) => {
            assert_eq!(a, "2");
            assert_eq!(b, "1.5");
        }
        _ => panic!("expected a float job"),
    }
    assert_eq!(vm.vals().len(), 0);
}

#[test]
fn return_only_function_keeps_its_argument() {
    let mut vm = machine(vec![("n", vec![Op::ReturnCall])], vec![]);
    vm.push_val(Val::Int(5));
    vm.start(&"n".to_string()).unwrap();
    assert!(matches!(vm.step(), Ok(Event::Halt)));
    assert_eq!(vm.status(), Status::End);
    assert!(matches!(only_value(&mut vm), Val::Int(5)));
}

#[test]
fn stepping_keeps_frame_and_scope_depth() {
    let mut vm = machine(vec![("main", vec![lit_int(1), lit_int(2), Op::Add, Op::ReturnCall])], vec![]);
    vm.start(&"main".to_string()).unwrap();
    for _ in 0..3 {
        assert!(matches!(vm.step(), Ok(Event::Continue)));
        assert_eq!(vm.status(), Status::Run);
    }
    assert!(matches!(vm.step(), Ok(Event::Halt)));
}

#[test]
fn start_needs_registered_entry() {
    let mut vm = machine(vec![], vec![]);
    assert!(matches!(vm.start(&"main".to_string()), Err(Fault::Lookup)));
}

#[test]
fn later_definition_of_a_name_replaces_earlier() {
    let mut vm = machine(
        vec![("main", vec![lit_int(1), Op::ReturnCall]), ("main", vec![lit_int(2), Op::ReturnCall])],
        vec![],
    );
    vm.start(&"main".to_string()).unwrap();
    assert!(matches!(vm.run(100), Ok(Event::Halt)));
    assert!(matches!(only_value(&mut vm), Val::Int(2)));
}

#[test]
fn map_key_is_overwritten_not_duplicated() {
    let body = vec![
        Op::NewMap,
        Op::NewVar,
        text("one"),
        text("k"),
        Op::GetVar(0, 0),
        Op::SetMapVal,
        text("two"),
        text("k"),
        Op::GetVar(0, 0),
        Op::SetMapVal,
        text("k"),
        Op::GetVar(0, 0),
        Op::GetMapVal,
        Op::ReturnCall,
    ];
    let (mut vm, r) = run_main(body);
    assert!(matches!(r, Ok(Event::Halt)));
    match only_value(&mut vm) {
        Val::Str(s) => assert_eq!(s, "two"),
        _ => panic!("expected a string"),
    }
}
