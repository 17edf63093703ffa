use vstd::prelude::*;
use crate::chunk::{
    OP_RETURN, OP_CONSTANT, OP_NEGATE, OP_ADD, OP_SUBTRACT, OP_MULTIPLY, OP_DIVIDE, OP_MODULO,
    OP_GREATER, OP_GREATER_EQUAL, OP_LESS, OP_LESS_EQUAL, OP_EQUAL, OP_NOT_EQUAL,
};
use crate::value::{is_number_bits, bool_bits, negate_bits};
use crate::numeric::{num_add, num_sub, num_mul, num_div, num_rem, spec_num_lt, spec_num_le};

verus! {

// ---------------------------------------------------------------------------
// The mathematical model of the pipeline: expressions, their direct
// evaluation, what it means for a byte sequence to implement an expression,
// and a step-for-step model of the machine's run loop.  The compiler
// produces a ghost expression for the code it emits, the machine is proved
// to follow `run_spec`, and the lemmas below tie the two together.
// ---------------------------------------------------------------------------
/// The binary operators of the expression grammar.
pub enum BinOp {
    Add,
    Subtract,
    Multiply,
    Divide,
    Modulo,
    Greater,
    GreaterEqual,
    Less,
    LessEqual,
    Equal,
    NotEqual,
}

/// An expression over literal values (already encoded as 64-bit words).
pub enum Ast {
    Lit(u64),
    Neg(Box<Ast>),
    Bin(BinOp, Box<Ast>, Box<Ast>),
}

/// Direct evaluation either yields an encoded value or faults on a numeric
/// operator applied to a non-number.
pub enum EvalOutcome {
    Val(u64),
    TypeErr,
}

pub open spec fn op_byte(op: BinOp) -> u8 {
    match op {
        BinOp::Add => OP_ADD,
        BinOp::Subtract => OP_SUBTRACT,
        BinOp::Multiply => OP_MULTIPLY,
        BinOp::Divide => OP_DIVIDE,
        BinOp::Modulo => OP_MODULO,
        BinOp::Greater => OP_GREATER,
        BinOp::GreaterEqual => OP_GREATER_EQUAL,
        BinOp::Less => OP_LESS,
        BinOp::LessEqual => OP_LESS_EQUAL,
        BinOp::Equal => OP_EQUAL,
        BinOp::NotEqual => OP_NOT_EQUAL,
    }
}

pub open spec fn is_binary_op(op: u8) -> bool {
    OP_ADD <= op <= OP_NOT_EQUAL
}

/// The effect of one binary instruction on its two operands: equality is
/// type-agnostic (equality of encodings, so distinct tags never compare
/// equal); every other operator demands two numbers.
pub open spec fn apply_op(op: u8, a: u64, b: u64) -> EvalOutcome {
    if op == OP_EQUAL {
        EvalOutcome::Val(bool_bits(a == b))
    } else if op == OP_NOT_EQUAL {
        EvalOutcome::Val(bool_bits(a != b))
    } else if is_number_bits(a) && is_number_bits(b) {
        if op == OP_ADD {
            EvalOutcome::Val(num_add(a, b))
        } else if op == OP_SUBTRACT {
            EvalOutcome::Val(num_sub(a, b))
        } else if op == OP_MULTIPLY {
            EvalOutcome::Val(num_mul(a, b))
        } else if op == OP_DIVIDE {
            EvalOutcome::Val(num_div(a, b))
        } else if op == OP_MODULO {
            EvalOutcome::Val(num_rem(a, b))
        } else if op == OP_GREATER {
            EvalOutcome::Val(bool_bits(spec_num_lt(b, a)))
        } else if op == OP_GREATER_EQUAL {
            EvalOutcome::Val(bool_bits(spec_num_le(b, a)))
        } else if op == OP_LESS {
            EvalOutcome::Val(bool_bits(spec_num_lt(a, b)))
        } else {
            EvalOutcome::Val(bool_bits(spec_num_le(a, b)))
        }
    } else {
        EvalOutcome::TypeErr
    }
}

/// Direct evaluation of an expression with standard left-to-right operand
/// order: the left operand is evaluated before the right one, and a fault
/// in either propagates.
pub open spec fn eval(e: Ast) -> EvalOutcome
    decreases e,
{
    match e {
        Ast::Lit(b) => EvalOutcome::Val(b),
        Ast::Neg(a) => match eval(*a) {
            EvalOutcome::Val(v) => if is_number_bits(v) {
                EvalOutcome::Val(negate_bits(v))
            } else {
                EvalOutcome::TypeErr
            },
            EvalOutcome::TypeErr => EvalOutcome::TypeErr,
        },
        Ast::Bin(op, a, b) => match eval(*a) {
            EvalOutcome::Val(va) => match eval(*b) {
                EvalOutcome::Val(vb) => apply_op(op_byte(op), va, vb),
                EvalOutcome::TypeErr => EvalOutcome::TypeErr,
            },
            EvalOutcome::TypeErr => EvalOutcome::TypeErr,
        },
    }
}

/// `code` is exactly the postfix translation of `e` against the constant
/// pool `consts`: a literal is a two-byte constant load, and an operator
/// follows the code of its operands.
pub open spec fn implements(code: Seq<u8>, consts: Seq<u64>, e: Ast) -> bool
    decreases e,
{
    match e {
        Ast::Lit(b) => {
            &&& code.len() == 2
            &&& code[0] == OP_CONSTANT
            &&& (code[1] as int) < consts.len()
            &&& consts[code[1] as int] == b
        },
        Ast::Neg(a) => {
            &&& code.len() >= 1
            &&& code.last() == OP_NEGATE
            &&& implements(code.take(code.len() - 1), consts, *a)
        },
        Ast::Bin(op, a, b) => {
            &&& code.len() >= 1
            &&& code.last() == op_byte(op)
            &&& exists|m: int|
                0 <= m <= code.len() - 1 && implements(#[trigger] code.subrange(0, m), consts, *a)
                    && implements(code.subrange(m, code.len() - 1), consts, *b)
        },
    }
}

/// A whole chunk implements `e`: the code of `e` followed by a return.
pub open spec fn chunk_implements(code: Seq<u8>, consts: Seq<u64>, e: Ast) -> bool {
    &&& code.len() >= 1
    &&& code.last() == OP_RETURN
    &&& implements(code.take(code.len() - 1), consts, e)
}

/// How a run can end: a result (or none, when the stack was empty at the
/// return), a corrupt chunk (bad opcode, truncated operand, bad pool index,
/// running off the end), or a runtime fault.
pub enum Fault {
    Underflow,
    TypeMismatch,
}

pub enum RunOutcome {
    Done(Option<u64>),
    Corrupt,
    Fault(Fault),
}

/// The fetch-decode-execute loop as a function of the machine state.  Every
/// instruction's operand count and stack effect is exact: this is the
/// contract the executable machine is proved to follow.
pub open spec fn run_spec(code: Seq<u8>, consts: Seq<u64>, ip: int, stack: Seq<u64>) -> RunOutcome
    decreases code.len() - ip,
{
    if ip < 0 || ip >= code.len() {
        RunOutcome::Corrupt
    } else {
        let op = code[ip];
        if op == OP_RETURN {
            if stack.len() > 0 {
                RunOutcome::Done(Some(stack.last()))
            } else {
                RunOutcome::Done(None)
            }
        } else if op == OP_CONSTANT {
            if ip + 1 < code.len() && (code[ip + 1] as int) < consts.len() {
                run_spec(code, consts, ip + 2, stack.push(consts[code[ip + 1] as int]))
            } else {
                RunOutcome::Corrupt
            }
        } else if op == OP_NEGATE {
            if stack.len() == 0 {
                RunOutcome::Fault(Fault::Underflow)
            } else if !is_number_bits(stack.last()) {
                RunOutcome::Fault(Fault::TypeMismatch)
            } else {
                run_spec(code, consts, ip + 1, stack.drop_last().push(negate_bits(stack.last())))
            }
        } else if is_binary_op(op) {
            if stack.len() < 2 {
                RunOutcome::Fault(Fault::Underflow)
            } else {
                let b = stack.last();
                let a = stack[stack.len() - 2];
                match apply_op(op, a, b) {
                    EvalOutcome::Val(v) => run_spec(
                        code,
                        consts,
                        ip + 1,
                        stack.take(stack.len() - 2).push(v),
                    ),
                    EvalOutcome::TypeErr => RunOutcome::Fault(Fault::TypeMismatch),
                }
            }
        } else {
            RunOutcome::Corrupt
        }
    }
}

/// Growing the constant pool preserves every translation: the code indexes
/// the pool by position, and positions already used do not move.
pub proof fn lemma_implements_monotone(code: Seq<u8>, consts1: Seq<u64>, consts2: Seq<u64>, e: Ast)
    requires
        implements(code, consts1, e),
        consts1.len() <= consts2.len(),
        consts2.subrange(0, consts1.len() as int) == consts1,
    ensures
        implements(code, consts2, e),
    decreases e,
{
    match e {
        Ast::Lit(b) => {
            assert(consts2[code[1] as int] == consts2.subrange(0, consts1.len() as int)[code[1] as int]);
        },
        Ast::Neg(a) => {
            lemma_implements_monotone(code.take(code.len() - 1), consts1, consts2, *a);
        },
        Ast::Bin(op, a, b) => {
            let m = choose|m: int|
                0 <= m <= code.len() - 1 && implements(#[trigger] code.subrange(0, m), consts1, *a)
                    && implements(code.subrange(m, code.len() - 1), consts1, *b);
            lemma_implements_monotone(code.subrange(0, m), consts1, consts2, *a);
            lemma_implements_monotone(code.subrange(m, code.len() - 1), consts1, consts2, *b);
        },
    }
}

/// Executing the translation of `e` from any starting stack behaves as the
/// direct evaluation of `e`: on a value it continues after the code of `e`
/// with that value pushed, and on a type fault the run faults.
pub proof fn lemma_exec_implements(
    code: Seq<u8>,
    consts: Seq<u64>,
    ip: int,
    j: int,
    stack: Seq<u64>,
    e: Ast,
)
    requires
        0 <= ip <= j <= code.len(),
        implements(code.subrange(ip, j), consts, e),
    ensures
        match eval(e) {
            EvalOutcome::Val(v) => run_spec(code, consts, ip, stack) == run_spec(
                code,
                consts,
                j,
                stack.push(v),
            ),
            EvalOutcome::TypeErr => run_spec(code, consts, ip, stack) == RunOutcome::Fault(
                Fault::TypeMismatch,
            ),
        },
    decreases e,
{
    let sub = code.subrange(ip, j);
    match e {
        Ast::Lit(b) => {
            assert(j == ip + 2);
            assert(code[ip] == OP_CONSTANT);
            assert(code[ip + 1] == sub[1]);
        },
        Ast::Neg(a) => {
            assert(sub.take(sub.len() - 1) =~= code.subrange(ip, j - 1));
            lemma_exec_implements(code, consts, ip, j - 1, stack, *a);
            assert(code[j - 1] == sub.last());
            match eval(*a) {
                EvalOutcome::Val(v) => {
                    if is_number_bits(v) {
                        assert(stack.push(v).drop_last() =~= stack);
                        assert(run_spec(code, consts, j - 1, stack.push(v)) == run_spec(
                            code,
                            consts,
                            j,
                            stack.push(negate_bits(v)),
                        ));
                    }
                },
                EvalOutcome::TypeErr => {},
            }
        },
        Ast::Bin(op, a, b) => {
            let m = choose|m: int|
                0 <= m <= sub.len() - 1 && implements(#[trigger] sub.subrange(0, m), consts, *a)
                    && implements(sub.subrange(m, sub.len() - 1), consts, *b);
            assert(sub.subrange(0, m) =~= code.subrange(ip, ip + m));
            assert(sub.subrange(m, sub.len() - 1) =~= code.subrange(ip + m, j - 1));
            lemma_exec_implements(code, consts, ip, ip + m, stack, *a);
            assert(code[j - 1] == sub.last());
            match eval(*a) {
                EvalOutcome::Val(va) => {
                    lemma_exec_implements(code, consts, ip + m, j - 1, stack.push(va), *b);
                    match eval(*b) {
                        EvalOutcome::Val(vb) => {
                            let stack2 = stack.push(va).push(vb);
                            assert(stack2.last() == vb);
                            assert(stack2[stack2.len() - 2] == va);
                            assert(stack2.take(stack2.len() - 2) =~= stack);
                            assert(is_binary_op(op_byte(op)));
                            assert(op_byte(op) != OP_RETURN && op_byte(op) != OP_CONSTANT
                                && op_byte(op) != OP_NEGATE);
                            match apply_op(op_byte(op), va, vb) {
                                EvalOutcome::Val(v) => {
                                    assert(run_spec(code, consts, j - 1, stack2) == run_spec(
                                        code,
                                        consts,
                                        j,
                                        stack.push(v),
                                    ));
                                },
                                EvalOutcome::TypeErr => {},
                            }
                        },
                        EvalOutcome::TypeErr => {},
                    }
                },
                EvalOutcome::TypeErr => {},
            }
        },
    }
}

/// The compiled-then-executed result equals direct evaluation: a chunk that
/// implements `e` runs from an empty stack to exactly the value of `e`, or
/// to a type fault exactly when the evaluation of `e` faults.  It never
/// reports a corrupt chunk and never underflows the stack.
pub proof fn lemma_compiled_chunk_runs(code: Seq<u8>, consts: Seq<u64>, e: Ast)
    requires
        chunk_implements(code, consts, e),
    ensures
        run_spec(code, consts, 0, Seq::empty()) == match eval(e) {
            EvalOutcome::Val(v) => RunOutcome::Done(Some(v)),
            EvalOutcome::TypeErr => RunOutcome::Fault(Fault::TypeMismatch),
        },
{
    let n = code.len() as int;
    assert(code.take(n - 1) =~= code.subrange(0, n - 1));
    lemma_exec_implements(code, consts, 0, n - 1, Seq::empty(), e);
    match eval(e) {
        EvalOutcome::Val(v) => {
            assert(run_spec(code, consts, n - 1, Seq::empty().push(v)) == RunOutcome::Done(Some(v)));
        },
        EvalOutcome::TypeErr => {},
    }
}

/// Negation is involutive through evaluation: for an expression whose value
/// is a (finite or not) number, evaluating its double negation gives the
/// same encoded value bit for bit.
pub proof fn lemma_double_negation(e: Ast)
    requires
        match eval(e) {
            EvalOutcome::Val(v) => is_number_bits(v),
            EvalOutcome::TypeErr => false,
        },
    ensures
        eval(Ast::Neg(Box::new(Ast::Neg(Box::new(e))))) == eval(e),
{
    let v = eval(e)->Val_0;
    crate::value::lemma_negate_involutive(v);
    let inner = Ast::Neg(Box::new(e));
    assert(eval(inner) == EvalOutcome::Val(negate_bits(v)));
    assert(eval(Ast::Neg(Box::new(inner))) == EvalOutcome::Val(negate_bits(negate_bits(v))));
}

} // verus!
