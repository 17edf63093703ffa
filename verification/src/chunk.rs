use vstd::prelude::*;
use crate::value::Value;

verus! {

// One-byte instruction tags.  The numbering is a stable external contract
// shared by the compiler, the disassembler and the machine.
pub const OP_RETURN: u8 = 0;

pub const OP_CONSTANT: u8 = 1;

pub const OP_NEGATE: u8 = 2;

pub const OP_ADD: u8 = 3;

pub const OP_SUBTRACT: u8 = 4;

pub const OP_MULTIPLY: u8 = 5;

pub const OP_DIVIDE: u8 = 6;

pub const OP_MODULO: u8 = 7;

pub const OP_GREATER: u8 = 8;

pub const OP_GREATER_EQUAL: u8 = 9;

pub const OP_LESS: u8 = 10;

pub const OP_LESS_EQUAL: u8 = 11;

pub const OP_EQUAL: u8 = 12;

pub const OP_NOT_EQUAL: u8 = 13;

/// `Constant` is the only instruction with an operand byte, so the pool is
/// addressed by one byte and can never hold more than this many entries.
pub const MAX_CONSTANTS: usize = 256;

/// A line table is monotone: later instruction bytes never come from
/// earlier source lines.
pub open spec fn lines_sorted(lines: Seq<usize>) -> bool {
    forall|i: int, j: int| 0 <= i <= j < lines.len() ==> lines[i] <= lines[j]
}

/// A compiled unit: instruction bytes, the constant pool they index, and one
/// source line per instruction byte for error attribution.
pub struct Chunk {
    pub code: Vec<u8>,
    pub constants: Vec<Value>,
    pub lines: Vec<usize>,
}

impl Chunk {
    /// The constant pool as raw 64-bit encodings.
    pub open spec fn const_bits(self) -> Seq<u64> {
        self.constants@.map(|i: int, v: Value| v.0)
    }

    pub open spec fn wf(self) -> bool {
        &&& self.lines@.len() == self.code@.len()
        &&& self.constants@.len() <= MAX_CONSTANTS
    }

    pub fn new(capacity: usize, const_capacity: usize) -> (c: Chunk)
        ensures
            c.wf(),
            c.code@ == Seq::<u8>::empty(),
            c.constants@ == Seq::<Value>::empty(),
            c.lines@ == Seq::<usize>::empty(),
    {
        Chunk {
            code: Vec::with_capacity(capacity),
            constants: Vec::with_capacity(const_capacity),
            lines: Vec::with_capacity(capacity / 6),
        }
    }

    pub fn push_code(&mut self, code: u8, line: usize)
        requires
            old(self).wf(),
        ensures
            final(self).wf(),
            final(self).code@ == old(self).code@.push(code),
            final(self).lines@ == old(self).lines@.push(line),
            final(self).constants@ == old(self).constants@,
    {
        self.code.push(code);
        self.lines.push(line);
    }

    pub fn push_constant(&mut self, constant: Value) -> (idx: usize)
        requires
            old(self).wf(),
            old(self).constants@.len() < MAX_CONSTANTS,
        ensures
            final(self).wf(),
            idx == old(self).constants@.len(),
            final(self).constants@ == old(self).constants@.push(constant),
            final(self).code@ == old(self).code@,
            final(self).lines@ == old(self).lines@,
    {
        self.constants.push(constant);
        self.constants.len() - 1
    }

    pub fn code(&self) -> (r: &Vec<u8>)
        ensures
            r@ == self.code@,
    {
        &self.code
    }

    pub fn constants(&self) -> (r: &Vec<Value>)
        ensures
            r@ == self.constants@,
    {
        &self.constants
    }

    pub fn lines(&self) -> (r: &Vec<usize>)
        ensures
            r@ == self.lines@,
    {
        &self.lines
    }
}

} // verus!
