//! Virtual machine behavior: arithmetic evaluation through the
//! step/push_result protocol, IEEE-754 division semantics, and the
//! independence of consecutive interactive runs.
use lox_vm::compiler::Compiler;
use lox_vm::machine::{InterpretResult, StepEvent, VirtualMachine};
use lox_vm::op_code::{Chunk, OpCode};

/// Drives the machine to completion, computing each requested
/// floating-point operation on the 64-bit patterns the machine hands out.
fn drive(vm: &mut VirtualMachine) -> f64 {
    loop {
        assert!(vm.has_chunk() && !vm.is_finished() && !vm.is_pending());
        match vm.step() {
            StepEvent::Constant(text) => {
                let v: f64 = std::str::from_utf8(&text).unwrap().parse().unwrap();
                vm.push_result(v.to_bits());
            }
            StepEvent::Negate(a) => {
                vm.push_result((-f64::from_bits(a)).to_bits());
            }
            StepEvent::Binary(op, a, b) => {
                let x = f64::from_bits(a);
                let y = f64::from_bits(b);
                let r = match op {
                    OpCode::Add => x + y,
                    OpCode::Subtract => x - y,
                    OpCode::Multiply => x * y,
                    OpCode::Divide => x / y,
                    _ => unreachable!(),
                };
                vm.push_result(r.to_bits());
            }
            StepEvent::Finished(v) => {
                return f64::from_bits(v);
            }
        }
    }
}

fn eval(vm: &mut VirtualMachine, src: &str) -> f64 {
    let mut chunk = Chunk::new();
    let mut compiler = Compiler {};
    let (res, diags) = compiler.compile(src, &mut chunk);
    assert_eq!(res, InterpretResult::OK, "compile failed: {diags:?}");
    assert!(vm.load(chunk));
    drive(vm)
}

#[test]
fn evaluation_respects_precedence() {
    let mut vm = VirtualMachine::new();
    assert_eq!(eval(&mut vm, "1 + 2 * 3"), 7.0);
    assert_eq!(eval(&mut vm, "(1 + 2) * 3"), 9.0);
    assert_eq!(eval(&mut vm, "-2 + 3"), 1.0);
    assert_eq!(eval(&mut vm, "8 / 2 / 2"), 2.0);
}

#[test]
fn evaluation_exact_values() {
    let mut vm = VirtualMachine::new();
    assert_eq!(eval(&mut vm, "2.5 * 4"), 10.0);
    assert_eq!(eval(&mut vm, "1 - 2 - 3"), -4.0);
    assert_eq!(eval(&mut vm, "10 / 4"), 2.5);
    assert_eq!(eval(&mut vm, "--5"), 5.0);
    assert_eq!(eval(&mut vm, "0.1 + 0.2"), 0.1f64 + 0.2f64);
}

#[test]
fn single_literal_and_deep_nesting() {
    let mut vm = VirtualMachine::new();
    assert_eq!(eval(&mut vm, "42"), 42.0);
    assert_eq!(eval(&mut vm, "((((1))))"), 1.0);
    assert_eq!(eval(&mut vm, "-(3 - 5) * ((2))"), 4.0);
}

#[test]
fn division_by_zero_follows_ieee_semantics() {
    let mut vm = VirtualMachine::new();
    assert_eq!(eval(&mut vm, "1 / 0"), f64::INFINITY);
    assert_eq!(eval(&mut vm, "-1 / 0"), f64::NEG_INFINITY);
    assert!(eval(&mut vm, "0 / 0").is_nan());
}

#[test]
fn interactive_lines_are_independent() {
    let mut vm = VirtualMachine::new();
    let a = eval(&mut vm, "1 + 1");
    assert_eq!(a, 2.0);
    assert!(vm.stack.is_empty(), "stack must be empty after a run");
    let b = eval(&mut vm, "2 * 3");
    assert_eq!(b, 6.0);
    assert!(vm.stack.is_empty(), "stack must be empty after a run");
    // the second result does not depend on the first run having happened
    let mut fresh = VirtualMachine::new();
    assert_eq!(eval(&mut fresh, "2 * 3"), b);
}

#[test]
fn interpret_compiles_and_prepares_the_machine() {
    let mut vm = VirtualMachine::new();
    let (res, diags) = vm.interpret("3 * (2 + 2)");
    assert_eq!(res, InterpretResult::OK);
    assert!(diags.is_empty());
    assert_eq!(drive(&mut vm), 12.0);
    // a failing input reports its diagnostic and leaves the machine alone
    let (res2, diags2) = vm.interpret("1 +");
    assert_eq!(res2, InterpretResult::CompileErr);
    assert_eq!(diags2.len(), 1);
    assert_eq!(diags2[0].message, b"Expect expression".to_vec());
    assert!(vm.stack.is_empty());
    assert_eq!(vm.interpret("6 / 4").0, InterpretResult::OK);
    assert_eq!(drive(&mut vm), 1.5);
}

#[test]
fn compile_error_leaves_machine_unused() {
    let mut vm = VirtualMachine::new();
    assert_eq!(eval(&mut vm, "4 * 10"), 40.0);
    let mut chunk = Chunk::new();
    let mut compiler = Compiler {};
    let (res, diags) = compiler.compile("(1 + 2", &mut chunk);
    assert_eq!(res, InterpretResult::CompileErr);
    assert_eq!(diags.len(), 1);
    // the failed compile's chunk is never loaded; the machine still works
    assert_eq!(eval(&mut vm, "5 - 1"), 4.0);
}

#[test]
fn machine_refuses_unrunnable_chunks() {
    let mut vm = VirtualMachine::new();
    // no trailing Return
    let mut c1 = Chunk::new();
    c1.add_instr(OpCode::Constant(0), 1);
    assert!(!vm.load(c1));
    // Add with one operand would underflow
    let mut c2 = Chunk::new();
    c2.add_instr(OpCode::Add, 1);
    c2.add_instr(OpCode::Return, 1);
    assert!(!vm.load(c2));
    // an empty chunk is not runnable
    assert!(!vm.load(Chunk::new()));
}

#[test]
fn constants_are_echoed_in_source_spelling() {
    let mut chunk = Chunk::new();
    let mut compiler = Compiler {};
    let (res, _) = compiler.compile("1.50 + 2", &mut chunk);
    assert_eq!(res, InterpretResult::OK);
    let mut vm = VirtualMachine::new();
    assert!(vm.load(chunk));
    match vm.step() {
        StepEvent::Constant(text) => assert_eq!(text, b"1.50".to_vec()),
        _ => panic!("expected a constant request"),
    }
}
