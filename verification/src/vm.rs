use vstd::prelude::*;
use crate::chunk::{
    Chunk, OP_RETURN, OP_CONSTANT, OP_NEGATE, OP_ADD, OP_SUBTRACT, OP_MULTIPLY, OP_DIVIDE,
    OP_MODULO, OP_GREATER, OP_GREATER_EQUAL, OP_LESS, OP_LESS_EQUAL, OP_EQUAL, OP_NOT_EQUAL,
};
use crate::value::{Value, QNAN, SIGN_BIT, TRUE_VAL, FALSE_VAL};
use crate::numeric::{add_bits, sub_bits, mul_bits, div_bits, rem_bits, num_lt, num_le};
use crate::model::{run_spec, RunOutcome, EvalOutcome, Ast, apply_op, eval, chunk_implements,
    lemma_compiled_chunk_runs};
use crate::compiler::{Parser, ParseOutcome, parse_program};

verus! {

/// The operand-stack machine: a chunk, an instruction pointer into its
/// code, the operand stack, and the value reported by the last return.
pub struct Vm {
    pub chunk: Chunk,
    pub ip: usize,
    pub stack: Vec<Value>,
    pub result: Option<Value>,
}

/// How a run ended: normally, on a corrupt chunk, or on a runtime fault.
pub enum InterpretResult {
    InterpretOK,
    InterpretError(&'static str),
    InterpretRuntimeError(&'static str),
}

/// The executable outcome agrees with the modelled one: normal completion
/// reports exactly the value the model returns, a corrupt chunk becomes
/// `InterpretError`, and a runtime fault becomes `InterpretRuntimeError`.
pub open spec fn outcome_matches(r: InterpretResult, result: Option<Value>, o: RunOutcome) -> bool {
    match o {
        RunOutcome::Done(v) => r is InterpretOK && (match v {
            Some(b) => result == Some(Value(b)),
            None => result is None,
        }),
        RunOutcome::Corrupt => r is InterpretError,
        RunOutcome::Fault(_) => r is InterpretRuntimeError,
    }
}

impl Vm {
    /// The operand stack as raw encodings, bottom first.
    pub open spec fn stack_bits(self) -> Seq<u64> {
        self.stack@.map(|i: int, v: Value| v.0)
    }

    pub open spec fn wf(self) -> bool {
        self.chunk.wf()
    }

    pub fn new(chunk: Chunk) -> (vm: Vm)
        requires
            chunk.wf(),
        ensures
            vm.wf(),
            vm.chunk == chunk,
            vm.ip == 0,
            vm.stack@ == Seq::<Value>::empty(),
            vm.result is None,
    {
        Vm { chunk, ip: 0, stack: Vec::with_capacity(256), result: None }
    }

    /// Rebind the machine to a new chunk: the instruction pointer, the
    /// stack and the reported result start over.
    pub fn change_chunk(&mut self, chunk: Chunk)
        requires
            chunk.wf(),
        ensures
            final(self).wf(),
            final(self).chunk == chunk,
            final(self).ip == 0,
            final(self).stack@ == Seq::<Value>::empty(),
            final(self).result is None,
    {
        self.chunk = chunk;
        self.ip = 0;
        self.stack.clear();
        self.result = None;
    }

    /// The value reported by the last completed run, if any.
    pub fn result(&self) -> (r: Option<Value>)
        ensures
            r == self.result,
    {
        self.result
    }

    /// Compile the text and, on success, run the compiled chunk on a fresh
    /// machine.  A successfully compiled chunk is never corrupt: the run
    /// either completes normally or stops on a runtime fault, exactly as
    /// the direct evaluation of the compiled expression says.  And for any
    /// source that the grammar parses, the whole pipeline is pinned down:
    /// the run reports exactly what direct evaluation of the parsed
    /// expression gives.
    pub fn interpret(file: String) -> (r: InterpretResult)
        requires
            vstd::utf8::encode_utf8(file@).len() < usize::MAX,
        ensures
            !(r is InterpretError) ==> exists|code: Seq<u8>, consts: Seq<u64>, e: Ast|
                chunk_implements(code, consts, e) && (match eval(e) {
                    EvalOutcome::Val(v) => r is InterpretOK,
                    EvalOutcome::TypeErr => r is InterpretRuntimeError,
                }),
            match parse_program(vstd::utf8::encode_utf8(file@)) {
                ParseOutcome::Parsed(e, p2, l2, n2) => match eval(e) {
                    EvalOutcome::Val(v) => r is InterpretOK,
                    EvalOutcome::TypeErr => r is InterpretRuntimeError,
                },
                _ => true,
            },
    {
        let s = file.as_str();
        let mut parser = Parser::new(s);
        let success = parser.compile();
        if !success {
            return InterpretResult::InterpretError("Error");
        }
        let ghost e = choose|e: Ast|
            chunk_implements(parser.chunk.code@, parser.chunk.const_bits(), e);
        let chunk = parser.into_chunk();
        let mut vm = Vm::new(chunk);
        proof {
            lemma_compiled_chunk_runs(vm.chunk.code@, vm.chunk.const_bits(), e);
            assert(vm.stack_bits() =~= Seq::<u64>::empty());
        }
        let r = vm.run();
        proof {
            match eval(e) {
                EvalOutcome::Val(v) => {
                    assert(r is InterpretOK);
                },
                EvalOutcome::TypeErr => {
                    assert(r is InterpretRuntimeError);
                },
            }
            match parse_program(vstd::utf8::encode_utf8(file@)) {
                ParseOutcome::Parsed(pe, p2, l2, n2) => {
                    lemma_compiled_chunk_runs(vm.chunk.code@, vm.chunk.const_bits(), pe);
                },
                _ => {},
            }
        }
        r
    }

    /// The fetch-decode-execute loop.  It follows `run_spec` exactly from
    /// the machine's current state; the chunk is read-only throughout.
    pub fn run(&mut self) -> (r: InterpretResult)
        requires
            old(self).wf(),
        ensures
            final(self).wf(),
            final(self).chunk == old(self).chunk,
            outcome_matches(
                r,
                final(self).result,
                run_spec(
                    old(self).chunk.code@,
                    old(self).chunk.const_bits(),
                    old(self).ip as int,
                    old(self).stack_bits(),
                ),
            ),
    {
        let ghost chunk0 = self.chunk;
        let ghost code0 = self.chunk.code@;
        let ghost consts0 = self.chunk.const_bits();
        let ghost o = run_spec(code0, consts0, self.ip as int, self.stack_bits());
        #[verifier::loop_isolation(false)]
        loop
            invariant
                self.wf(),
                self.chunk == chunk0,
                run_spec(code0, consts0, self.ip as int, self.stack_bits()) == o,
            decreases code0.len() - self.ip,
        {
            let ghost pre_ip = self.ip as int;
            let ghost pre_stack = self.stack_bits();
            let ip = self.ip;
            let code_len = self.chunk.code.len();
            if ip >= code_len {
                return InterpretResult::InterpretError("Instruction pointer out of bounds");
            }
            let op = self.chunk.code[ip];
            if op == OP_RETURN {
                if self.stack.len() > 0 {
                    let v = self.stack.pop().unwrap();
                    proof {
                        assert(v.0 == pre_stack.last());
                    }
                    self.result = Some(v);
                } else {
                    self.result = None;
                }
                return InterpretResult::InterpretOK;
            } else if op == OP_CONSTANT {
                if ip + 1 >= code_len {
                    return InterpretResult::InterpretError("Missing constant operand");
                }
                let idx = self.chunk.code[ip + 1] as usize;
                if idx >= self.chunk.constants.len() {
                    return InterpretResult::InterpretError("Invalid constant index");
                }
                let c = self.chunk.constants[idx];
                self.stack.push(c);
                self.ip = ip + 2;
                proof {
                    assert(c.0 == consts0[idx as int]);
                    assert(self.stack_bits() =~= pre_stack.push(c.0));
                }
            } else if op == OP_NEGATE {
                if self.stack.len() == 0 {
                    return InterpretResult::InterpretRuntimeError(
                        "No value to perform operation on.",
                    );
                }
                let v = self.stack.pop().unwrap();
                if v.0 & QNAN == QNAN {
                    return InterpretResult::InterpretRuntimeError("Operand must be a number.");
                }
                self.stack.push(Value(v.0 ^ SIGN_BIT));
                self.ip = ip + 1;
                proof {
                    assert(v.0 == pre_stack.last());
                    assert(self.stack_bits() =~= pre_stack.drop_last().push(
                        crate::value::negate_bits(pre_stack.last()),
                    ));
                }
            } else if op >= OP_ADD && op <= OP_NOT_EQUAL {
                if self.stack.len() < 2 {
                    return InterpretResult::InterpretRuntimeError(
                        "No value to perform operation on.",
                    );
                }
                let b = self.stack.pop().unwrap();
                let a = self.stack.pop().unwrap();
                proof {
                    assert(b.0 == pre_stack.last());
                    assert(a.0 == pre_stack[pre_stack.len() - 2]);
                    assert(self.stack_bits() =~= pre_stack.take(pre_stack.len() - 2));
                }
                let res: Value = if op == OP_EQUAL {
                    Value(
                        if a.0 == b.0 {
                            TRUE_VAL
                        } else {
                            FALSE_VAL
                        },
                    )
                } else if op == OP_NOT_EQUAL {
                    Value(
                        if a.0 != b.0 {
                            TRUE_VAL
                        } else {
                            FALSE_VAL
                        },
                    )
                } else {
                    if a.0 & QNAN == QNAN || b.0 & QNAN == QNAN {
                        return InterpretResult::InterpretRuntimeError("Operands must be numbers.");
                    }
                    if op == OP_ADD {
                        Value(add_bits(a.0, b.0))
                    } else if op == OP_SUBTRACT {
                        Value(sub_bits(a.0, b.0))
                    } else if op == OP_MULTIPLY {
                        Value(mul_bits(a.0, b.0))
                    } else if op == OP_DIVIDE {
                        Value(div_bits(a.0, b.0))
                    } else if op == OP_MODULO {
                        Value(rem_bits(a.0, b.0))
                    } else if op == OP_GREATER {
                        Value(
                            if num_lt(b.0, a.0) {
                                TRUE_VAL
                            } else {
                                FALSE_VAL
                            },
                        )
                    } else if op == OP_GREATER_EQUAL {
                        Value(
                            if num_le(b.0, a.0) {
                                TRUE_VAL
                            } else {
                                FALSE_VAL
                            },
                        )
                    } else if op == OP_LESS {
                        Value(
                            if num_lt(a.0, b.0) {
                                TRUE_VAL
                            } else {
                                FALSE_VAL
                            },
                        )
                    } else {
                        Value(
                            if num_le(a.0, b.0) {
                                TRUE_VAL
                            } else {
                                FALSE_VAL
                            },
                        )
                    }
                };
                proof {
                    assert(apply_op(op, a.0, b.0) == EvalOutcome::Val(res.0));
                }
                self.stack.push(res);
                self.ip = ip + 1;
                proof {
                    assert(self.stack_bits() =~= pre_stack.take(pre_stack.len() - 2).push(res.0));
                }
            } else {
                return InterpretResult::InterpretError("Invalid OpCode");
            }
        }
    }
}

} // verus!
