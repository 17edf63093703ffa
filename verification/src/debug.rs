use vstd::prelude::*;
use crate::chunk::{Chunk, OP_RETURN, OP_CONSTANT, OP_NEGATE, OP_ADD, OP_SUBTRACT, OP_MULTIPLY,
    OP_DIVIDE, OP_MODULO, OP_GREATER, OP_GREATER_EQUAL, OP_LESS, OP_LESS_EQUAL, OP_EQUAL,
    OP_NOT_EQUAL, lines_sorted};

verus! {

// ---------------------------------------------------------------------------
// The disassembler: a read-only rendering of a chunk as one entry per
// instruction.  It mutates nothing; callers print the entries.  The
// entries tile the code exactly: no gaps, no overlaps, and an unknown
// opcode byte is still reported as a one-byte entry, never skipped.
// ---------------------------------------------------------------------------
/// One disassembled instruction: where it starts, the source line it came
/// from, its opcode byte, and the operand byte of a constant load.
#[derive(Copy, Clone, Debug, PartialEq, Eq)]
pub struct Instr {
    pub offset: usize,
    pub line: usize,
    pub opcode: u8,
    pub operand: Option<u8>,
}

pub open spec fn is_known_opcode(op: u8) -> bool {
    op <= OP_NOT_EQUAL
}

/// How many code bytes the instruction at `off` spans: a constant load
/// takes its operand byte with it where one is present (a constant opcode
/// as the last byte is a truncated instruction and spans that byte alone).
pub open spec fn instr_width(code: Seq<u8>, off: int) -> int {
    if code[off] == OP_CONSTANT && off + 1 < code.len() {
        2
    } else {
        1
    }
}

/// What the entry for offset `off` must hold.
pub open spec fn instr_at(code: Seq<u8>, lines: Seq<usize>, off: int) -> Instr {
    Instr {
        offset: off as usize,
        line: lines[off],
        opcode: code[off],
        operand: if code[off] == OP_CONSTANT && off + 1 < code.len() {
            Some(code[off + 1])
        } else {
            None
        },
    }
}

/// The entries tile `code` exactly: the first starts at zero, each next
/// entry starts where the previous one ends, and the last one ends at the
/// end of the code.
pub open spec fn covers(code: Seq<u8>, entries: Seq<Instr>) -> bool {
    &&& (entries.len() == 0 <==> code.len() == 0)
    &&& (entries.len() > 0 ==> entries[0].offset == 0)
    &&& forall|i: int|
        0 <= i < entries.len() ==> entries[i].offset as int + instr_width(
            code,
            entries[i].offset as int,
        ) == (if i + 1 < entries.len() {
            entries[i + 1].offset as int
        } else {
            code.len() as int
        })
}

/// The mnemonic of a known opcode.
pub fn opcode_name(op: u8) -> (r: Option<&'static str>)
    ensures
        r is Some <==> is_known_opcode(op),
{
    if op == OP_RETURN {
        Some("RETURN")
    } else if op == OP_CONSTANT {
        Some("CONSTANT")
    } else if op == OP_NEGATE {
        Some("NEGATE")
    } else if op == OP_ADD {
        Some("ADD")
    } else if op == OP_SUBTRACT {
        Some("SUBTRACT")
    } else if op == OP_MULTIPLY {
        Some("MULTIPLY")
    } else if op == OP_DIVIDE {
        Some("DIVIDE")
    } else if op == OP_MODULO {
        Some("MODULO")
    } else if op == OP_GREATER {
        Some("GREATER")
    } else if op == OP_GREATER_EQUAL {
        Some("GREATER_EQUAL")
    } else if op == OP_LESS {
        Some("LESS")
    } else if op == OP_LESS_EQUAL {
        Some("LESS_EQUAL")
    } else if op == OP_EQUAL {
        Some("EQUAL")
    } else if op == OP_NOT_EQUAL {
        Some("NOT_EQUAL")
    } else {
        None
    }
}

/// The single instruction at `offset`, and the offset just past it.
pub fn disassemble_instruction(chunk: &Chunk, offset: usize) -> (r: (Instr, usize))
    requires
        chunk.wf(),
        offset < chunk.code@.len(),
    ensures
        r.0 == instr_at(chunk.code@, chunk.lines@, offset as int),
        r.1 as int == offset as int + instr_width(chunk.code@, offset as int),
{
    let n = chunk.code.len();
    let op = chunk.code[offset];
    let line = chunk.lines[offset];
    if op == OP_CONSTANT && offset + 1 < n {
        let operand = chunk.code[offset + 1];
        (Instr { offset, line, opcode: op, operand: Some(operand) }, offset + 2)
    } else {
        (Instr { offset, line, opcode: op, operand: None }, offset + 1)
    }
}

/// Disassemble a whole chunk: one entry per instruction, tiling the code
/// exactly, each entry reporting the opcode, operand and line at its
/// offset.
pub fn disassemble_chunk(chunk: &Chunk) -> (v: Vec<Instr>)
    requires
        chunk.wf(),
    ensures
        covers(chunk.code@, v@),
        forall|i: int|
            0 <= i < v@.len() ==> v@[i].offset < chunk.code@.len() && v@[i] == instr_at(
                chunk.code@,
                chunk.lines@,
                v@[i].offset as int,
            ),
{
    let mut v: Vec<Instr> = Vec::new();
    let mut offset: usize = 0;
    #[verifier::loop_isolation(false)]
    loop
        invariant
            offset <= chunk.code@.len(),
            v@.len() == 0 <==> offset == 0,
            v@.len() > 0 ==> v@[0].offset == 0,
            forall|i: int|
                0 <= i < v@.len() ==> v@[i].offset < chunk.code@.len() && v@[i] == instr_at(
                    chunk.code@,
                    chunk.lines@,
                    v@[i].offset as int,
                ),
            forall|i: int|
                0 <= i < v@.len() ==> v@[i].offset as int + instr_width(
                    chunk.code@,
                    v@[i].offset as int,
                ) == (if i + 1 < v@.len() {
                    v@[i + 1].offset as int
                } else {
                    offset as int
                }),
        decreases chunk.code@.len() - offset,
    {
        if offset >= chunk.code.len() {
            break;
        }
        let (ins, next) = disassemble_instruction(chunk, offset);
        v.push(ins);
        offset = next;
    }
    v
}

/// Across a disassembly of a chunk whose line table is monotone, the
/// reported lines never decrease from one instruction to a later one.
pub proof fn lemma_disassembly_lines_monotone(
    code: Seq<u8>,
    lines: Seq<usize>,
    entries: Seq<Instr>,
    i: int,
    j: int,
)
    requires
        lines.len() == code.len(),
        lines_sorted(lines),
        covers(code, entries),
        forall|k: int|
            0 <= k < entries.len() ==> entries[k].offset < code.len() && entries[k] == instr_at(
                code,
                lines,
                entries[k].offset as int,
            ),
        0 <= i <= j < entries.len(),
    ensures
        entries[i].line <= entries[j].line,
    decreases j - i,
{
    if i < j {
        lemma_disassembly_lines_monotone(code, lines, entries, i, j - 1);
        assert(entries[j - 1].offset as int + instr_width(code, entries[j - 1].offset as int)
            == entries[j].offset as int);
        assert(entries[j - 1].offset < entries[j].offset);
        assert(lines[entries[j - 1].offset as int] <= lines[entries[j].offset as int]);
    }
}

} // verus!
