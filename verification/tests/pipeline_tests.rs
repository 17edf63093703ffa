use rox::compiler::Parser;
use rox::debug::{disassemble_chunk, opcode_name};
use rox::value::{Value, ValueType, TRUE_VAL, FALSE_VAL};
use rox::vm::{InterpretResult, Vm};

fn run_source(src: &str) -> (InterpretResult, Option<Value>) {
    let mut p = Parser::new(src);
    let ok = p.compile();
    assert!(ok, "compilation failed for {:?}: {:?}", src, p.errors);
    let mut vm = Vm::new(p.into_chunk());
    let r = vm.run();
    let v = vm.result();
    (r, v)
}

fn eval_number(src: &str) -> f64 {
    let (r, v) = run_source(src);
    assert!(matches!(r, InterpretResult::InterpretOK), "run failed for {:?}", src);
    let v = v.expect("a result value");
    assert!(v.is(ValueType::Number), "expected a number from {:?}", src);
    f64::from_bits(v.bits())
}

fn eval_bits(src: &str) -> u64 {
    let (r, v) = run_source(src);
    assert!(matches!(r, InterpretResult::InterpretOK), "run failed for {:?}", src);
    v.expect("a result value").bits()
}

fn compile_errors(src: &str) -> Vec<(&'static str, usize)> {
    let mut p = Parser::new(src);
    let ok = p.compile();
    assert!(!ok, "expected compilation of {:?} to fail", src);
    p.errors.iter().map(|e| (e.message, e.line)).collect()
}

#[test]
fn example_scenarios() {
    // The compiled-then-executed results of the reference inputs.
    let r = eval_number("1.2 + 3.4 / 5.6");
    assert_eq!(r, 1.2 + 3.4 / 5.6);
    assert!((r - 1.8071428571428572).abs() < 1e-15);
    assert_eq!(eval_number("(1 + 2) * 3"), 9.0);
    assert_eq!(eval_number("10 % 3"), 1.0);
    assert_eq!(eval_bits("1 < 2"), TRUE_VAL);
    assert_eq!(eval_bits("nil == false"), FALSE_VAL);
    let mut p = Parser::new("(1 + 2");
    assert!(!p.compile(), "a missing paren must fail to compile");
}

#[test]
fn precedence_and_associativity() {
    // Factors bind tighter than terms; both associate to the left.
    assert_eq!(eval_number("2 + 3 * 4"), 14.0);
    assert_eq!(eval_number("2 * 3 + 4"), 10.0);
    assert_eq!(eval_number("10 - 2 - 3"), 5.0);
    assert_eq!(eval_number("100 / 10 / 2"), 5.0);
    assert_eq!(eval_number("2 * 3 % 4"), 2.0);
    assert_eq!(eval_number("20 % 7 % 4"), 2.0);
    assert_eq!(eval_number("(2 + 3) * (4 - 1)"), 15.0);
    assert_eq!(eval_number("-2 + 3"), 1.0);
    assert_eq!(eval_number("-(2 + 3)"), -5.0);
    // Unary minus binds tighter than any binary operator.
    assert_eq!(eval_number("-2 * 3"), -6.0);
    assert_eq!(eval_number("-2 - 3"), -5.0);
    // Comparison operators chain to the left across the same tier.
    assert_eq!(eval_bits("1 < 2 == true"), TRUE_VAL);
    assert_eq!(eval_bits("1 > 2 != true"), TRUE_VAL);
    // Comparisons bind looser than terms.
    assert_eq!(eval_bits("1 + 2 < 4"), TRUE_VAL);
    assert_eq!(eval_bits("1 + 2 <= 3"), TRUE_VAL);
    assert_eq!(eval_bits("2 > 3"), FALSE_VAL);
    assert_eq!(eval_bits("3 >= 3"), TRUE_VAL);
    assert_eq!(eval_bits("1 + 1 == 2"), TRUE_VAL);
    assert_eq!(eval_bits("1 != 1"), FALSE_VAL);
}

#[test]
fn numeric_pipeline_matches_direct_evaluation() {
    // For whole numeric expressions the pipeline result is bit-for-bit the
    // doubles' own answer.
    let cases: [(&str, f64); 6] = [
        ("0.1 + 0.2", 0.1 + 0.2),
        ("1 / 3", 1.0 / 3.0),
        ("2.5 * 0.1 - 7", 2.5 * 0.1 - 7.0),
        ("123.456 * 789.012", 123.456 * 789.012),
        ("5.5 % 2.5", 5.5 % 2.5),
        ("0 - 0.0", 0.0 - 0.0),
    ];
    for &(src, expect) in cases.iter() {
        assert_eq!(eval_bits(src), expect.to_bits(), "mismatch for {:?}", src);
    }
}

#[test]
fn double_negation_is_bit_exact() {
    assert_eq!(eval_bits("-(-2.5)"), 2.5f64.to_bits());
    assert_eq!(eval_bits("--2.5"), 2.5f64.to_bits());
    assert_eq!(eval_bits("-(-(0 - 0.5))"), (-0.5f64).to_bits());
    assert_eq!(eval_bits("-0"), (-0.0f64).to_bits());
}

#[test]
fn cross_type_equality_is_false_not_an_error() {
    assert_eq!(eval_bits("true == 1"), FALSE_VAL);
    assert_eq!(eval_bits("true != 1"), TRUE_VAL);
    assert_eq!(eval_bits("nil == false"), FALSE_VAL);
    assert_eq!(eval_bits("nil == nil"), TRUE_VAL);
    assert_eq!(eval_bits("true == true"), TRUE_VAL);
    assert_eq!(eval_bits("false == true"), FALSE_VAL);
}

#[test]
fn constant_pool_ceiling() {
    // 256 distinct literals fit.
    let mut ok_src = String::from("0");
    for i in 1..256 {
        ok_src += &format!(" + {}", i);
    }
    let mut p = Parser::new(&ok_src);
    assert!(p.compile());
    assert_eq!(p.chunk.constants().len(), 256);

    // A 257th literal must be rejected, not truncated.
    let mut bad_src = String::from("0");
    for i in 1..257 {
        bad_src += &format!(" + {}", i);
    }
    let errs = compile_errors(&bad_src);
    assert_eq!(errs[0].0, "Too many constants in one chunk.");
}

#[test]
fn compile_error_cases() {
    assert_eq!(compile_errors("(1 + 2")[0].0, "Expected ')'");
    assert_eq!(compile_errors("")[0].0, "Expected expression, but found end of input.");
    assert_eq!(compile_errors("+ 1")[0].0, "Expected expression.");
    assert_eq!(compile_errors("!true")[0].0, "Unary '!' is not supported.");
    assert_eq!(compile_errors("\"text\"")[0].0, "Expected expression.");
    // A scanner error surfaces as a compile diagnostic with its line.
    let errs = compile_errors("1 +\n@");
    assert_eq!(errs[0], ("Unrecognized character", 2));
}

#[test]
fn panic_mode_reports_one_diagnostic() {
    // Both operands are missing, but only the first error is reported.
    let errs = compile_errors("+ +");
    assert_eq!(errs.len(), 1);
}

#[test]
fn runtime_type_errors_through_the_pipeline() {
    let (r, _) = run_source("true + 1");
    assert!(matches!(r, InterpretResult::InterpretRuntimeError(_)));
    let (r, _) = run_source("-nil");
    assert!(matches!(r, InterpretResult::InterpretRuntimeError(_)));
    let (r, _) = run_source("1 < true");
    assert!(matches!(r, InterpretResult::InterpretRuntimeError(_)));
}

#[test]
fn disassembly_tiles_the_code_exactly() {
    let mut p = Parser::new("1 +\n2 * 3");
    assert!(p.compile());
    let chunk = p.into_chunk();
    let entries = disassemble_chunk(&chunk);
    // CONSTANT CONSTANT CONSTANT MULTIPLY ADD RETURN.
    assert_eq!(entries.len(), 6);
    let mut expected_offset = 0;
    for e in entries.iter() {
        assert_eq!(e.offset, expected_offset, "no gaps and no overlaps");
        assert!(opcode_name(e.opcode).is_some());
        expected_offset += if e.operand.is_some() { 2 } else { 1 };
    }
    assert_eq!(expected_offset, chunk.code().len());
    // Line numbers never decrease across offsets.
    for w in entries.windows(2) {
        assert!(w[0].line <= w[1].line);
    }
    assert_eq!(entries[0].line, 1);
    assert_eq!(entries[5].line, 2);
}

#[test]
fn disassembly_reports_unknown_opcodes() {
    let mut c = rox::chunk::Chunk::new(3, 0);
    c.push_code(2, 1);
    c.push_code(99, 1);
    c.push_code(0, 1);
    let entries = disassemble_chunk(&c);
    assert_eq!(entries.len(), 3);
    assert_eq!(entries[1].opcode, 99);
    assert!(opcode_name(99).is_none());
    assert_eq!(opcode_name(0).unwrap(), "RETURN");
    assert_eq!(opcode_name(1).unwrap(), "CONSTANT");
}

#[test]
fn compiled_chunk_layout() {
    let mut p = Parser::new("(1 + 2) * 3");
    assert!(p.compile());
    let chunk = p.into_chunk();
    assert_eq!(
        chunk.code(),
        &vec![1u8, 0, 1, 1, 3, 1, 2, 5, 0],
        "constant loads, add, multiply, return"
    );
    let consts: Vec<f64> = chunk.constants().iter().map(|v| f64::from_bits(v.bits())).collect();
    assert_eq!(consts, vec![1.0, 2.0, 3.0]);
    assert_eq!(chunk.lines().len(), chunk.code().len());
}

#[test]
fn literals_true_false_nil_compile_to_constants() {
    assert_eq!(eval_bits("true"), TRUE_VAL);
    assert_eq!(eval_bits("false"), FALSE_VAL);
    assert_eq!(eval_bits("nil"), rox::value::NIL_VAL);
}

#[test]
fn comparisons_against_hardware_doubles() {
    let cases: [(&str, bool); 6] = [
        ("1.5 < 1.5000001", 1.5 < 1.5000001),
        ("-0.0 < 0.0", -0.0 < 0.0),
        ("-0.0 <= 0.0", -0.0 <= 0.0),
        ("-2 > -1", -2.0 > -1.0),
        ("1 / 0 > 1e308", true),
        ("0 - 1 / 0 < 0", true),
    ];
    for &(src, expect) in cases.iter() {
        let want = if expect { TRUE_VAL } else { FALSE_VAL };
        assert_eq!(eval_bits(src), want, "mismatch for {:?}", src);
    }
}
