use rox::chunk::Chunk;
use rox::value::{Value, TRUE_VAL, FALSE_VAL};
use rox::vm::{Vm, InterpretResult};

const RETURN: u8 = 0;
const CONSTANT: u8 = 1;
const NEGATE: u8 = 2;
const ADD: u8 = 3;
const SUBTRACT: u8 = 4;
const MULTIPLY: u8 = 5;
const DIVIDE: u8 = 6;
const MODULO: u8 = 7;
const GREATER: u8 = 8;
const GREATER_EQUAL: u8 = 9;
const LESS: u8 = 10;
const LESS_EQUAL: u8 = 11;
const EQUAL: u8 = 12;
const NOT_EQUAL: u8 = 13;

fn chunk_of(code: &[u8], consts: &[u64]) -> Chunk {
    let mut c = Chunk::new(code.len(), consts.len());
    for &v in consts {
        c.push_constant(Value(v));
    }
    for &b in code {
        c.push_code(b, 1);
    }
    c
}

fn run_binary(op: u8, a: f64, b: f64) -> Value {
    let c = chunk_of(
        &[CONSTANT, 0, CONSTANT, 1, op, RETURN],
        &[a.to_bits(), b.to_bits()],
    );
    let mut vm = Vm::new(c);
    let r = vm.run();
    assert!(matches!(r, InterpretResult::InterpretOK));
    vm.result().expect("a result value")
}

#[test]
fn arithmetic_matches_hardware_doubles() {
    let pairs: [(f64, f64); 6] =
        [(1.5, 2.25), (-3.0, 7.0), (0.1, 0.2), (1e300, 1e300), (5.0, 3.0), (-5.5, 3.25)];
    for &(a, b) in pairs.iter() {
        assert_eq!(run_binary(ADD, a, b).bits(), (a + b).to_bits());
        assert_eq!(run_binary(SUBTRACT, a, b).bits(), (a - b).to_bits());
        assert_eq!(run_binary(MULTIPLY, a, b).bits(), (a * b).to_bits());
        assert_eq!(run_binary(DIVIDE, a, b).bits(), (a / b).to_bits());
        assert_eq!(run_binary(MODULO, a, b).bits(), (a % b).to_bits());
    }
}

#[test]
fn division_by_zero_gives_infinity() {
    assert_eq!(run_binary(DIVIDE, 1.0, 0.0).bits(), f64::INFINITY.to_bits());
    assert_eq!(run_binary(DIVIDE, -1.0, 0.0).bits(), f64::NEG_INFINITY.to_bits());
    // 0/0 is a NaN (payload details may differ from one divider to another).
    assert!(f64::from_bits(run_binary(DIVIDE, 0.0, 0.0).bits()).is_nan());
}

#[test]
fn comparisons_follow_ieee_order() {
    let nan = f64::NAN;
    let samples: [(f64, f64); 9] = [
        (1.0, 2.0),
        (2.0, 1.0),
        (1.0, 1.0),
        (-1.0, 1.0),
        (-2.0, -1.0),
        (0.0, -0.0),
        (f64::NEG_INFINITY, f64::INFINITY),
        (nan, 1.0),
        (1.0, nan),
    ];
    for &(a, b) in samples.iter() {
        let expect = |cond: bool| if cond { TRUE_VAL } else { FALSE_VAL };
        assert_eq!(run_binary(LESS, a, b).bits(), expect(a < b), "{} < {}", a, b);
        assert_eq!(run_binary(LESS_EQUAL, a, b).bits(), expect(a <= b), "{} <= {}", a, b);
        assert_eq!(run_binary(GREATER, a, b).bits(), expect(a > b), "{} > {}", a, b);
        assert_eq!(run_binary(GREATER_EQUAL, a, b).bits(), expect(a >= b), "{} >= {}", a, b);
    }
}

#[test]
fn equality_is_bitwise_and_type_agnostic() {
    // Numbers.
    assert_eq!(run_binary(EQUAL, 1.5, 1.5).bits(), TRUE_VAL);
    assert_eq!(run_binary(EQUAL, 1.5, 2.5).bits(), FALSE_VAL);
    assert_eq!(run_binary(NOT_EQUAL, 1.5, 2.5).bits(), TRUE_VAL);
    // A boolean against a number: false, never a type error.
    let c = chunk_of(&[CONSTANT, 0, CONSTANT, 1, EQUAL, RETURN], &[TRUE_VAL, 1.0f64.to_bits()]);
    let mut vm = Vm::new(c);
    assert!(matches!(vm.run(), InterpretResult::InterpretOK));
    assert_eq!(vm.result().unwrap().bits(), FALSE_VAL);
}

#[test]
fn negate_flips_the_sign() {
    let c = chunk_of(&[CONSTANT, 0, NEGATE, RETURN], &[2.5f64.to_bits()]);
    let mut vm = Vm::new(c);
    assert!(matches!(vm.run(), InterpretResult::InterpretOK));
    assert_eq!(vm.result().unwrap().bits(), (-2.5f64).to_bits());
}

#[test]
fn negate_on_non_number_is_a_runtime_error() {
    let c = chunk_of(&[CONSTANT, 0, NEGATE, RETURN], &[TRUE_VAL]);
    let mut vm = Vm::new(c);
    let r = vm.run();
    match r {
        InterpretResult::InterpretRuntimeError(msg) => {
            assert_eq!(msg, "Operand must be a number.")
        },
        _ => panic!("expected a runtime error"),
    }
}

#[test]
fn arithmetic_on_non_numbers_is_a_runtime_error() {
    let c = chunk_of(&[CONSTANT, 0, CONSTANT, 1, ADD, RETURN], &[TRUE_VAL, 1.0f64.to_bits()]);
    let mut vm = Vm::new(c);
    match vm.run() {
        InterpretResult::InterpretRuntimeError(msg) => {
            assert_eq!(msg, "Operands must be numbers.")
        },
        _ => panic!("expected a runtime error"),
    }
}

#[test]
fn stack_underflow_is_a_runtime_error() {
    let c = chunk_of(&[ADD, RETURN], &[]);
    let mut vm = Vm::new(c);
    match vm.run() {
        InterpretResult::InterpretRuntimeError(msg) => {
            assert_eq!(msg, "No value to perform operation on.")
        },
        _ => panic!("expected a runtime error"),
    }
}

#[test]
fn return_on_empty_stack_reports_no_value() {
    let c = chunk_of(&[RETURN], &[]);
    let mut vm = Vm::new(c);
    assert!(matches!(vm.run(), InterpretResult::InterpretOK));
    assert!(vm.result().is_none());
}

#[test]
fn unknown_opcode_is_fatal() {
    let c = chunk_of(&[99, RETURN], &[]);
    let mut vm = Vm::new(c);
    match vm.run() {
        InterpretResult::InterpretError(msg) => assert_eq!(msg, "Invalid OpCode"),
        _ => panic!("expected a corrupt-chunk error"),
    }
}

#[test]
fn running_off_the_end_is_fatal() {
    let c = chunk_of(&[CONSTANT, 0], &[1.0f64.to_bits()]);
    let mut vm = Vm::new(c);
    assert!(matches!(vm.run(), InterpretResult::InterpretError(_)));
}

#[test]
fn bad_constant_index_is_fatal() {
    let c = chunk_of(&[CONSTANT, 5, RETURN], &[1.0f64.to_bits()]);
    let mut vm = Vm::new(c);
    assert!(matches!(vm.run(), InterpretResult::InterpretError(_)));
}

#[test]
fn change_chunk_rebinds_and_clears() {
    let c1 = chunk_of(&[CONSTANT, 0, RETURN], &[1.0f64.to_bits()]);
    let mut vm = Vm::new(c1);
    assert!(matches!(vm.run(), InterpretResult::InterpretOK));
    assert_eq!(vm.result().unwrap().bits(), 1.0f64.to_bits());
    let c2 = chunk_of(&[CONSTANT, 0, RETURN], &[2.0f64.to_bits()]);
    vm.change_chunk(c2);
    assert!(vm.result().is_none());
    assert!(matches!(vm.run(), InterpretResult::InterpretOK));
    assert_eq!(vm.result().unwrap().bits(), 2.0f64.to_bits());
}

#[test]
fn interpret_runs_a_whole_source() {
    assert!(matches!(Vm::interpret("1 + 2".to_string()), InterpretResult::InterpretOK));
    assert!(matches!(Vm::interpret("(1 + 2".to_string()), InterpretResult::InterpretError(_)));
    assert!(matches!(
        Vm::interpret("true + 1".to_string()),
        InterpretResult::InterpretRuntimeError(_)
    ));
}
