use vstd::prelude::*;
use vstd::string::StringSliceAdditionalSpecFns;
use crate::scanner::{Scanner, Token, TokenKind, ScannerError, ScanStep, next_spec,
    lemma_next_spec_progress};
use crate::chunk::{Chunk, OP_RETURN, OP_CONSTANT, OP_NEGATE, OP_ADD, OP_SUBTRACT, OP_MULTIPLY,
    OP_DIVIDE, OP_MODULO, OP_GREATER, OP_GREATER_EQUAL, OP_LESS, OP_LESS_EQUAL, OP_EQUAL,
    OP_NOT_EQUAL, MAX_CONSTANTS, lines_sorted};
use crate::value::{Value, TRUE_VAL, FALSE_VAL, NIL_VAL};
use crate::model::{Ast, BinOp, op_byte, implements, chunk_implements, lemma_implements_monotone};

verus! {

// The precedence ladder, loosest to tightest.
pub const PREC_NONE: u8 = 0;

pub const PREC_ASSIGNMENT: u8 = 1;

pub const PREC_OR: u8 = 2;

pub const PREC_AND: u8 = 3;

pub const PREC_EQUALITY: u8 = 4;

pub const PREC_COMPARISON: u8 = 5;

pub const PREC_TERM: u8 = 6;

pub const PREC_FACTOR: u8 = 7;

pub const PREC_UNARY: u8 = 8;

pub const PREC_CALL: u8 = 9;

pub const PREC_PRIMARY: u8 = 10;

/// The parse rule of a token kind: the precedence with which it may open
/// an expression and the precedence with which it binds as an infix
/// operator (`PREC_NONE` for neither).
pub struct Rule {
    pub prefix: u8,
    pub infix: u8,
}

pub open spec fn spec_rule(kind: TokenKind) -> Rule {
    match kind {
        TokenKind::LeftParenthesis => Rule { prefix: PREC_PRIMARY, infix: PREC_NONE },
        TokenKind::Minus => Rule { prefix: PREC_UNARY, infix: PREC_TERM },
        TokenKind::Plus => Rule { prefix: PREC_NONE, infix: PREC_TERM },
        TokenKind::Slash => Rule { prefix: PREC_NONE, infix: PREC_FACTOR },
        TokenKind::Star => Rule { prefix: PREC_NONE, infix: PREC_FACTOR },
        TokenKind::Modulo => Rule { prefix: PREC_NONE, infix: PREC_FACTOR },
        TokenKind::BangEqual => Rule { prefix: PREC_NONE, infix: PREC_COMPARISON },
        TokenKind::EqualEqual => Rule { prefix: PREC_NONE, infix: PREC_COMPARISON },
        TokenKind::Greater => Rule { prefix: PREC_NONE, infix: PREC_COMPARISON },
        TokenKind::GreaterEqual => Rule { prefix: PREC_NONE, infix: PREC_COMPARISON },
        TokenKind::Less => Rule { prefix: PREC_NONE, infix: PREC_COMPARISON },
        TokenKind::LessEqual => Rule { prefix: PREC_NONE, infix: PREC_COMPARISON },
        _ => Rule { prefix: PREC_NONE, infix: PREC_NONE },
    }
}

/// The rule table, indexed by token kind.
pub fn get_rule(kind: TokenKind) -> (r: Rule)
    ensures
        r == spec_rule(kind),
{
    match kind {
        TokenKind::LeftParenthesis => Rule { prefix: PREC_PRIMARY, infix: PREC_NONE },
        TokenKind::Minus => Rule { prefix: PREC_UNARY, infix: PREC_TERM },
        TokenKind::Plus => Rule { prefix: PREC_NONE, infix: PREC_TERM },
        TokenKind::Slash => Rule { prefix: PREC_NONE, infix: PREC_FACTOR },
        TokenKind::Star => Rule { prefix: PREC_NONE, infix: PREC_FACTOR },
        TokenKind::Modulo => Rule { prefix: PREC_NONE, infix: PREC_FACTOR },
        TokenKind::BangEqual => Rule { prefix: PREC_NONE, infix: PREC_COMPARISON },
        TokenKind::EqualEqual => Rule { prefix: PREC_NONE, infix: PREC_COMPARISON },
        TokenKind::Greater => Rule { prefix: PREC_NONE, infix: PREC_COMPARISON },
        TokenKind::GreaterEqual => Rule { prefix: PREC_NONE, infix: PREC_COMPARISON },
        TokenKind::Less => Rule { prefix: PREC_NONE, infix: PREC_COMPARISON },
        TokenKind::LessEqual => Rule { prefix: PREC_NONE, infix: PREC_COMPARISON },
        _ => Rule { prefix: PREC_NONE, infix: PREC_NONE },
    }
}

// ---------------------------------------------------------------------------
// The expression grammar as a function of the source bytes.
//
// `parse_prec_spec` is precedence climbing written out mathematically: one
// prefix expression, then every infix operator binding at least as tightly
// as `min_prec`, folded to the left.  `nconst` counts constant-pool
// entries, so the pool's ceiling is part of the grammar's success.  `fuel`
// only bounds the recursion; any fuel beyond the remaining input gives the
// same answer (`lemma_parse_prec_fuel`).  The executable parser is proved
// to accept and translate exactly what this function parses.
// ---------------------------------------------------------------------------
pub enum ParseOutcome {
    /// The fuel ran out first (never happens with sufficient fuel).
    Exhausted,
    /// No parse: a scan error, an unexpected token, a missing parenthesis,
    /// or a full constant pool.
    Rejected,
    /// A parse: the expression, the position and line after it, and the
    /// number of pool entries used so far.
    Parsed(Ast, int, int, int),
}

/// The binding strength an infix operator gives its right operand, and the
/// operator itself.
pub open spec fn infix_info(kind: TokenKind) -> (u8, BinOp) {
    match kind {
        TokenKind::Plus => (PREC_FACTOR, BinOp::Add),
        TokenKind::Minus => (PREC_FACTOR, BinOp::Subtract),
        TokenKind::Star => (PREC_UNARY, BinOp::Multiply),
        TokenKind::Slash => (PREC_UNARY, BinOp::Divide),
        TokenKind::Modulo => (PREC_UNARY, BinOp::Modulo),
        TokenKind::Greater => (PREC_TERM, BinOp::Greater),
        TokenKind::GreaterEqual => (PREC_TERM, BinOp::GreaterEqual),
        TokenKind::Less => (PREC_TERM, BinOp::Less),
        TokenKind::LessEqual => (PREC_TERM, BinOp::LessEqual),
        TokenKind::EqualEqual => (PREC_TERM, BinOp::Equal),
        TokenKind::BangEqual => (PREC_TERM, BinOp::NotEqual),
        _ => (PREC_NONE, BinOp::Add),
    }
}

pub open spec fn parse_prec_spec(
    src: Seq<u8>,
    pos: int,
    line: int,
    min_prec: u8,
    nconst: int,
    fuel: nat,
) -> ParseOutcome
    decreases fuel,
{
    if fuel == 0 {
        ParseOutcome::Exhausted
    } else {
        match next_spec(src, pos, line) {
            ScanStep::Stop(_) => ParseOutcome::Rejected,
            ScanStep::Failed(_, _, _) => ParseOutcome::Rejected,
            ScanStep::Lexed(t, p, l) => {
                if t.kind == TokenKind::NumberLiteral || t.kind == TokenKind::True || t.kind
                    == TokenKind::False || t.kind == TokenKind::Nil {
                    let bits = if t.kind == TokenKind::NumberLiteral {
                        t.num
                    } else if t.kind == TokenKind::True {
                        TRUE_VAL
                    } else if t.kind == TokenKind::False {
                        FALSE_VAL
                    } else {
                        NIL_VAL
                    };
                    if nconst >= MAX_CONSTANTS {
                        ParseOutcome::Rejected
                    } else {
                        parse_infix_spec(
                            src,
                            p,
                            l,
                            Ast::Lit(bits),
                            min_prec,
                            nconst + 1,
                            (fuel - 1) as nat,
                        )
                    }
                } else if t.kind == TokenKind::LeftParenthesis {
                    match parse_prec_spec(src, p, l, PREC_ASSIGNMENT, nconst, (fuel - 1) as nat) {
                        ParseOutcome::Parsed(e, p2, l2, n2) => match next_spec(src, p2, l2) {
                            ScanStep::Lexed(t2, p3, l3) => {
                                if t2.kind == TokenKind::RightParenthesis {
                                    parse_infix_spec(src, p3, l3, e, min_prec, n2, (fuel - 1) as nat)
                                } else {
                                    ParseOutcome::Rejected
                                }
                            },
                            _ => ParseOutcome::Rejected,
                        },
                        other => other,
                    }
                } else if t.kind == TokenKind::Minus {
                    match parse_prec_spec(src, p, l, PREC_UNARY, nconst, (fuel - 1) as nat) {
                        ParseOutcome::Parsed(e, p2, l2, n2) => parse_infix_spec(
                            src,
                            p2,
                            l2,
                            Ast::Neg(Box::new(e)),
                            min_prec,
                            n2,
                            (fuel - 1) as nat,
                        ),
                        other => other,
                    }
                } else {
                    ParseOutcome::Rejected
                }
            },
        }
    }
}

pub open spec fn parse_infix_spec(
    src: Seq<u8>,
    pos: int,
    line: int,
    lhs: Ast,
    min_prec: u8,
    nconst: int,
    fuel: nat,
) -> ParseOutcome
    decreases fuel,
{
    if fuel == 0 {
        ParseOutcome::Exhausted
    } else {
        match next_spec(src, pos, line) {
            ScanStep::Stop(l) => ParseOutcome::Parsed(lhs, src.len() as int, l, nconst),
            ScanStep::Failed(_, _, _) => ParseOutcome::Rejected,
            ScanStep::Lexed(t, p, l) => {
                if spec_rule(t.kind).infix < min_prec {
                    ParseOutcome::Parsed(lhs, pos, line, nconst)
                } else {
                    let rhs_prec = infix_info(t.kind).0;
                    let bop = infix_info(t.kind).1;
                    match parse_prec_spec(src, p, l, rhs_prec, nconst, (fuel - 1) as nat) {
                        ParseOutcome::Parsed(r, p2, l2, n2) => parse_infix_spec(
                            src,
                            p2,
                            l2,
                            Ast::Bin(bop, Box::new(lhs), Box::new(r)),
                            min_prec,
                            n2,
                            (fuel - 1) as nat,
                        ),
                        other => other,
                    }
                }
            },
        }
    }
}

/// One whole compilation unit: an expression parsed at the loosest
/// precedence from the start of the input, with an empty constant pool and
/// fuel that the input length always suffices for.
pub open spec fn parse_program(src: Seq<u8>) -> ParseOutcome {
    parse_prec_spec(src, 0, 1, PREC_ASSIGNMENT, 0, (src.len() + 1) as nat)
}

/// Any fuel beyond the remaining input is enough: the parse equals the one
/// with canonical fuel, never exhausts, and on success the cursor moved
/// forward through the input.
pub proof fn lemma_parse_prec_fuel(
    src: Seq<u8>,
    pos: int,
    line: int,
    min_prec: u8,
    nconst: int,
    fuel: nat,
)
    requires
        0 <= pos <= src.len(),
        line >= 0,
        fuel >= src.len() - pos + 1,
    ensures
        parse_prec_spec(src, pos, line, min_prec, nconst, fuel) == parse_prec_spec(
            src,
            pos,
            line,
            min_prec,
            nconst,
            (src.len() - pos + 1) as nat,
        ),
        !(parse_prec_spec(src, pos, line, min_prec, nconst, fuel) is Exhausted),
        match parse_prec_spec(src, pos, line, min_prec, nconst, fuel) {
            ParseOutcome::Parsed(e, p2, l2, n2) => pos < p2 <= src.len() && line <= l2,
            _ => true,
        },
    decreases fuel,
{
    let canon: nat = (src.len() - pos + 1) as nat;
    lemma_next_spec_progress(src, pos, line);
    match next_spec(src, pos, line) {
        ScanStep::Stop(_) => {},
        ScanStep::Failed(_, _, _) => {},
        ScanStep::Lexed(t, p, l) => {
            if t.kind == TokenKind::NumberLiteral || t.kind == TokenKind::True || t.kind
                == TokenKind::False || t.kind == TokenKind::Nil {
                if nconst < MAX_CONSTANTS {
                    let bits = if t.kind == TokenKind::NumberLiteral {
                        t.num
                    } else if t.kind == TokenKind::True {
                        TRUE_VAL
                    } else if t.kind == TokenKind::False {
                        FALSE_VAL
                    } else {
                        NIL_VAL
                    };
                    lemma_parse_infix_fuel(
                        src,
                        p,
                        l,
                        Ast::Lit(bits),
                        min_prec,
                        nconst + 1,
                        (fuel - 1) as nat,
                    );
                    lemma_parse_infix_fuel(
                        src,
                        p,
                        l,
                        Ast::Lit(bits),
                        min_prec,
                        nconst + 1,
                        (canon - 1) as nat,
                    );
                }
            } else if t.kind == TokenKind::LeftParenthesis {
                lemma_parse_prec_fuel(src, p, l, PREC_ASSIGNMENT, nconst, (fuel - 1) as nat);
                lemma_parse_prec_fuel(src, p, l, PREC_ASSIGNMENT, nconst, (canon - 1) as nat);
                match parse_prec_spec(src, p, l, PREC_ASSIGNMENT, nconst, (fuel - 1) as nat) {
                    ParseOutcome::Parsed(e, p2, l2, n2) => {
                        lemma_next_spec_progress(src, p2, l2);
                        match next_spec(src, p2, l2) {
                            ScanStep::Lexed(t2, p3, l3) => {
                                if t2.kind == TokenKind::RightParenthesis {
                                    lemma_parse_infix_fuel(
                                        src,
                                        p3,
                                        l3,
                                        e,
                                        min_prec,
                                        n2,
                                        (fuel - 1) as nat,
                                    );
                                    lemma_parse_infix_fuel(
                                        src,
                                        p3,
                                        l3,
                                        e,
                                        min_prec,
                                        n2,
                                        (canon - 1) as nat,
                                    );
                                }
                            },
                            _ => {},
                        }
                    },
                    _ => {},
                }
            } else if t.kind == TokenKind::Minus {
                lemma_parse_prec_fuel(src, p, l, PREC_UNARY, nconst, (fuel - 1) as nat);
                lemma_parse_prec_fuel(src, p, l, PREC_UNARY, nconst, (canon - 1) as nat);
                match parse_prec_spec(src, p, l, PREC_UNARY, nconst, (fuel - 1) as nat) {
                    ParseOutcome::Parsed(e, p2, l2, n2) => {
                        lemma_parse_infix_fuel(
                            src,
                            p2,
                            l2,
                            Ast::Neg(Box::new(e)),
                            min_prec,
                            n2,
                            (fuel - 1) as nat,
                        );
                        lemma_parse_infix_fuel(
                            src,
                            p2,
                            l2,
                            Ast::Neg(Box::new(e)),
                            min_prec,
                            n2,
                            (canon - 1) as nat,
                        );
                    },
                    _ => {},
                }
            }
        },
    }
}

pub proof fn lemma_parse_infix_fuel(
    src: Seq<u8>,
    pos: int,
    line: int,
    lhs: Ast,
    min_prec: u8,
    nconst: int,
    fuel: nat,
)
    requires
        0 <= pos <= src.len(),
        line >= 0,
        fuel >= src.len() - pos + 1,
    ensures
        parse_infix_spec(src, pos, line, lhs, min_prec, nconst, fuel) == parse_infix_spec(
            src,
            pos,
            line,
            lhs,
            min_prec,
            nconst,
            (src.len() - pos + 1) as nat,
        ),
        !(parse_infix_spec(src, pos, line, lhs, min_prec, nconst, fuel) is Exhausted),
        match parse_infix_spec(src, pos, line, lhs, min_prec, nconst, fuel) {
            ParseOutcome::Parsed(e, p2, l2, n2) => pos <= p2 <= src.len() && line <= l2,
            _ => true,
        },
    decreases fuel,
{
    let canon: nat = (src.len() - pos + 1) as nat;
    lemma_next_spec_progress(src, pos, line);
    match next_spec(src, pos, line) {
        ScanStep::Stop(_) => {},
        ScanStep::Failed(_, _, _) => {},
        ScanStep::Lexed(t, p, l) => {
            if spec_rule(t.kind).infix >= min_prec {
                let rhs_prec = infix_info(t.kind).0;
                let bop = infix_info(t.kind).1;
                lemma_parse_prec_fuel(src, p, l, rhs_prec, nconst, (fuel - 1) as nat);
                lemma_parse_prec_fuel(src, p, l, rhs_prec, nconst, (canon - 1) as nat);
                match parse_prec_spec(src, p, l, rhs_prec, nconst, (fuel - 1) as nat) {
                    ParseOutcome::Parsed(r, p2, l2, n2) => {
                        lemma_parse_infix_fuel(
                            src,
                            p2,
                            l2,
                            Ast::Bin(bop, Box::new(lhs), Box::new(r)),
                            min_prec,
                            n2,
                            (fuel - 1) as nat,
                        );
                        lemma_parse_infix_fuel(
                            src,
                            p2,
                            l2,
                            Ast::Bin(bop, Box::new(lhs), Box::new(r)),
                            min_prec,
                            n2,
                            (canon - 1) as nat,
                        );
                    },
                    _ => {},
                }
            }
        },
    }
}

/// A compile diagnostic: a fixed message and the source line it concerns.
#[derive(Copy, Clone, Debug, PartialEq, Eq)]
pub struct CompileError {
    pub message: &'static str,
    pub line: usize,
}

/// `b` carries `a` unchanged as its first entries.
pub open spec fn seq_extends<T>(a: Seq<T>, b: Seq<T>) -> bool {
    a.len() <= b.len() && b.subrange(0, a.len() as int) == a
}

proof fn lemma_seq_extends_trans<T>(a: Seq<T>, b: Seq<T>, c: Seq<T>)
    requires
        seq_extends(a, b),
        seq_extends(b, c),
    ensures
        seq_extends(a, c),
{
    assert forall|i: int| 0 <= i < a.len() implies c.subrange(0, a.len() as int)[i] == a[i] by {
        assert(b[i] == b.subrange(0, a.len() as int)[i]);
        assert(c[i] == c.subrange(0, b.len() as int)[i]);
    }
    assert(c.subrange(0, a.len() as int) =~= a);
}

proof fn lemma_const_bits_extends(c1: Chunk, c2: Chunk)
    requires
        seq_extends(c1.constants@, c2.constants@),
    ensures
        seq_extends(c1.const_bits(), c2.const_bits()),
{
    assert forall|i: int| 0 <= i < c1.constants@.len() implies c2.constants@[i]
        == c1.constants@[i] by {
        assert(c2.constants@.subrange(0, c1.constants@.len() as int)[i] == c2.constants@[i]);
    }
    assert(c2.const_bits().subrange(0, c1.const_bits().len() as int) =~= c1.const_bits());
}

/// The single-pass compiler: it pulls tokens from its scanner, keeps one
/// token of lookahead, and emits instructions into its own chunk.  Errors
/// accumulate in `had_error`; `panic_mode` suppresses cascading
/// diagnostics after the first one (the minimal expression grammar has no
/// recovery point before the end of the expression).  `last_line` is the
/// line of the most recently consumed token; instructions are attributed
/// to it, which keeps the chunk's line table monotone.
pub struct Parser {
    pub scanner: Scanner,
    pub chunk: Chunk,
    pub lookahead: Option<Token>,
    /// The scanning position and line from which the buffered lookahead
    /// token was produced; meaningful only while `lookahead` is `Some`.
    pub origin: Ghost<(int, int)>,
    pub had_error: bool,
    pub panic_mode: bool,
    pub errors: Vec<CompileError>,
    pub last_line: usize,
}

impl Parser {
    /// The scanning position and line the parser stands at: the point the
    /// buffered token was scanned from, or the scanner's own cursor.
    pub open spec fn cursor(self) -> (int, int) {
        match self.lookahead {
            Some(_) => self.origin@,
            None => (self.scanner.current as int, self.scanner.line as int),
        }
    }

    /// Input not yet consumed, measured in bytes from the cursor; every
    /// consumed token strictly lowers it, which bounds the recursion.
    pub open spec fn fuel(self) -> int {
        self.scanner.source@.len() - self.cursor().0
    }

    /// The line of the next token the parser will see.
    pub open spec fn peek_line(self) -> int {
        match self.lookahead {
            Some(t) => t.line as int,
            None => self.scanner.line as int,
        }
    }

    pub open spec fn wf(self) -> bool {
        &&& self.scanner.wf()
        &&& self.chunk.wf()
        &&& lines_sorted(self.chunk.lines@)
        &&& forall|i: int|
            0 <= i < self.chunk.lines@.len() ==> self.chunk.lines@[i] <= self.last_line
        &&& self.last_line as int <= self.peek_line()
        &&& match self.lookahead {
            Some(t) => t.line <= self.scanner.line && 0 <= self.origin@.0
                < self.scanner.current && 0 <= self.origin@.1 && next_spec(
                self.scanner.source@,
                self.origin@.0,
                self.origin@.1,
            ) == ScanStep::Lexed(t@, self.scanner.current as int, self.scanner.line as int),
            None => true,
        }
        &&& (self.had_error <==> self.errors@.len() > 0)
        &&& (self.panic_mode ==> self.had_error)
    }

    pub fn new(source: &str) -> (p: Parser)
        requires
            source.spec_bytes().len() < usize::MAX,
        ensures
            p.wf(),
            p.scanner.source@ == source.spec_bytes(),
            p.chunk.code@ == Seq::<u8>::empty(),
            p.chunk.constants@ == Seq::<Value>::empty(),
            p.chunk.lines@ == Seq::<usize>::empty(),
            !p.had_error,
            !p.panic_mode,
            p.lookahead is None,
            p.scanner.current == 0,
            p.scanner.line == 1,
            p.errors@ == Seq::<CompileError>::empty(),
    {
        let bytes = vstd::slice::slice_to_vec(source.as_bytes());
        let hint = source.len();
        Parser {
            scanner: Scanner::new(bytes),
            chunk: Chunk::new(hint, 8),
            lookahead: None,
            origin: Ghost((0, 0)),
            had_error: false,
            panic_mode: false,
            errors: Vec::new(),
            last_line: 1,
        }
    }

    /// Record a diagnostic at the line of the last consumed token, unless
    /// panic mode is already suppressing cascades.
    fn report_error(&mut self, message: &'static str)
        ensures
            final(self).had_error,
            final(self).panic_mode,
            final(self).scanner == old(self).scanner,
            final(self).chunk == old(self).chunk,
            final(self).lookahead == old(self).lookahead,
            final(self).origin == old(self).origin,
            final(self).last_line == old(self).last_line,
            old(self).panic_mode ==> final(self).errors@ == old(self).errors@,
            !old(self).panic_mode ==> final(self).errors@ == old(self).errors@.push(
                CompileError { message, line: old(self).last_line },
            ),
    {
        self.had_error = true;
        if !self.panic_mode {
            self.panic_mode = true;
            let line = self.last_line;
            self.errors.push(CompileError { message, line });
        }
    }

    /// Record a scanner error as a compile diagnostic.
    fn report_scan_error(&mut self, e: ScannerError)
        ensures
            final(self).had_error,
            final(self).panic_mode,
            final(self).scanner == old(self).scanner,
            final(self).chunk == old(self).chunk,
            final(self).lookahead == old(self).lookahead,
            final(self).origin == old(self).origin,
            final(self).last_line == old(self).last_line,
            old(self).panic_mode ==> final(self).errors@ == old(self).errors@,
            !old(self).panic_mode ==> final(self).errors@.len() == old(self).errors@.len() + 1,
    {
        self.had_error = true;
        if !self.panic_mode {
            self.panic_mode = true;
            let message = e.message();
            self.errors.push(CompileError { message, line: e.line });
        }
    }

    /// Consume and return the next token, reporting and skipping scanner
    /// errors; `None` at the end of input.
    fn advance(&mut self) -> (r: Option<Token>)
        requires
            old(self).wf(),
        ensures
            final(self).wf(),
            final(self).scanner.source@ == old(self).scanner.source@,
            final(self).chunk == old(self).chunk,
            final(self).lookahead is None,
            final(self).fuel() <= old(self).fuel(),
            old(self).had_error ==> final(self).had_error,
            old(self).last_line <= final(self).last_line,
            match r {
                Some(t) => final(self).fuel() < old(self).fuel() && final(self).last_line
                    == t.line,
                None => final(self).last_line == old(self).last_line,
            },
            old(self).lookahead is Some ==> r == old(self).lookahead,
            match next_spec(old(self).scanner.source@, old(self).cursor().0, old(self).cursor().1) {
                ScanStep::Stop(l) => r is None && final(self).cursor().0 == old(self).scanner.source@.len() && final(self).cursor().1 == l && final(self).errors@
                    == old(self).errors@ && final(self).had_error == old(self).had_error,
                ScanStep::Lexed(t, p, l) => (match r {
                    Some(tok) => tok@ == t,
                    None => false,
                }) && final(self).cursor().0 == p && final(self).cursor().1 == l && final(self).errors@ == old(self).errors@ && final(self).had_error == old(self).had_error,
                ScanStep::Failed(_, _, _) => true,
            },
    {
        let taken = self.lookahead.take();
        if let Some(t) = taken {
            self.last_line = t.line;
            return Some(t);
        }
        proof {
            lemma_next_spec_progress(
                self.scanner.source@,
                self.scanner.current as int,
                self.scanner.line as int,
            );
        }
        match self.scanner.next() {
            None => {
                return None;
            },
            Some(Ok(t)) => {
                self.last_line = t.line;
                return Some(t);
            },
            Some(Err(e)) => {
                self.report_scan_error(e);
            },
        }
        #[verifier::loop_isolation(false)]
        loop
            invariant
                self.wf(),
                self.lookahead is None,
                self.scanner.source@ == old(self).scanner.source@,
                self.chunk == old(self).chunk,
                self.fuel() <= old(self).fuel(),
                old(self).had_error ==> self.had_error,
                self.last_line == old(self).last_line,
                next_spec(
                    old(self).scanner.source@,
                    old(self).cursor().0,
                    old(self).cursor().1,
                ) is Failed,
            decreases self.fuel(),
        {
            proof {
                lemma_next_spec_progress(
                    self.scanner.source@,
                    self.scanner.current as int,
                    self.scanner.line as int,
                );
            }
            match self.scanner.next() {
                None => {
                    return None;
                },
                Some(Ok(t)) => {
                    self.last_line = t.line;
                    return Some(t);
                },
                Some(Err(e)) => {
                    self.report_scan_error(e);
                },
            }
        }
    }

    /// Make sure a token is buffered (unless at the end of input) and
    /// return the buffered token's infix precedence.
    fn peek_infix(&mut self) -> (p: u8)
        requires
            old(self).wf(),
        ensures
            final(self).wf(),
            final(self).scanner.source@ == old(self).scanner.source@,
            final(self).chunk == old(self).chunk,
            final(self).fuel() <= old(self).fuel(),
            old(self).had_error ==> final(self).had_error,
            final(self).last_line == old(self).last_line,
            match final(self).lookahead {
                Some(t) => p == spec_rule(t.kind).infix,
                None => p == PREC_NONE,
            },
            old(self).lookahead is Some ==> *final(self) == *old(self),
            match next_spec(old(self).scanner.source@, old(self).cursor().0, old(self).cursor().1) {
                ScanStep::Stop(l) => p == PREC_NONE && final(self).lookahead is None && final(self).cursor().0 == old(self).scanner.source@.len() && final(self).cursor().1 == l
                    && final(self).errors@ == old(self).errors@ && final(self).had_error == old(self).had_error,
                ScanStep::Lexed(t, pp, ll) => p == spec_rule(t.kind).infix && (match final(self).lookahead {
                    Some(bt) => bt@ == t,
                    None => false,
                }) && final(self).cursor() == old(self).cursor() && final(self).errors@ == old(self).errors@ && final(self).had_error == old(self).had_error,
                ScanStep::Failed(_, _, _) => true,
            },
    {
        match &self.lookahead {
            Some(t) => {
                return get_rule(t.kind).infix;
            },
            None => {},
        }
        let ghost first_cur = self.scanner.current as int;
        let ghost first_line = self.scanner.line as int;
        proof {
            lemma_next_spec_progress(self.scanner.source@, first_cur, first_line);
        }
        match self.scanner.next() {
            None => {
                return PREC_NONE;
            },
            Some(Ok(t)) => {
                let k = t.kind;
                self.lookahead = Some(t);
                self.origin = Ghost((first_cur, first_line));
                return get_rule(k).infix;
            },
            Some(Err(e)) => {
                self.report_scan_error(e);
            },
        }
        #[verifier::loop_isolation(false)]
        loop
            invariant
                self.wf(),
                self.lookahead is None,
                self.scanner.source@ == old(self).scanner.source@,
                self.chunk == old(self).chunk,
                self.fuel() <= old(self).fuel(),
                old(self).had_error ==> self.had_error,
                self.last_line == old(self).last_line,
                next_spec(
                    old(self).scanner.source@,
                    old(self).cursor().0,
                    old(self).cursor().1,
                ) is Failed,
            decreases self.fuel(),
        {
            let ghost pre_cur = self.scanner.current as int;
            let ghost pre_line = self.scanner.line as int;
            proof {
                lemma_next_spec_progress(
                    self.scanner.source@,
                    self.scanner.current as int,
                    self.scanner.line as int,
                );
            }
            match self.scanner.next() {
                None => {
                    return PREC_NONE;
                },
                Some(Ok(t)) => {
                    let k = t.kind;
                    self.lookahead = Some(t);
                    self.origin = Ghost((pre_cur, pre_line));
                    return get_rule(k).infix;
                },
                Some(Err(e)) => {
                    self.report_scan_error(e);
                },
            }
        }
    }

    /// Consume one token and demand that it has the given kind, reporting
    /// the message otherwise.
    fn expect_token(&mut self, kind: TokenKind, message: &'static str) -> (ok: bool)
        requires
            old(self).wf(),
        ensures
            final(self).wf(),
            final(self).scanner.source@ == old(self).scanner.source@,
            final(self).chunk == old(self).chunk,
            final(self).fuel() <= old(self).fuel(),
            old(self).had_error ==> final(self).had_error,
            old(self).last_line <= final(self).last_line,
            !ok ==> final(self).had_error,
            match next_spec(old(self).scanner.source@, old(self).cursor().0, old(self).cursor().1) {
                ScanStep::Stop(_) => !ok,
                ScanStep::Lexed(t, p, l) => if t.kind == kind {
                    ok && final(self).cursor().0 == p && final(self).cursor().1 == l && final(self).errors@ == old(self).errors@ && final(self).had_error == old(self).had_error
                } else {
                    !ok
                },
                ScanStep::Failed(_, _, _) => true,
            },
    {
        match self.advance() {
            Some(t) => {
                if t.kind == kind {
                    true
                } else {
                    self.report_error(message);
                    false
                }
            },
            None => {
                self.report_error(message);
                false
            },
        }
    }

    /// Append the value to the constant pool and emit the two-byte load
    /// for it, or report that the pool is at its ceiling.
    fn emit_constant(&mut self, v: Value) -> (ok: bool)
        requires
            old(self).wf(),
        ensures
            final(self).wf(),
            final(self).scanner == old(self).scanner,
            final(self).lookahead == old(self).lookahead,
            final(self).origin == old(self).origin,
            final(self).last_line == old(self).last_line,
            old(self).had_error ==> final(self).had_error,
            ok ==> final(self).had_error == old(self).had_error && final(self).errors@ == old(self).errors@,
            seq_extends(old(self).chunk.code@, final(self).chunk.code@),
            seq_extends(old(self).chunk.constants@, final(self).chunk.constants@),
            ok ==> implements(
                final(self).chunk.code@.skip(old(self).chunk.code@.len() as int),
                final(self).chunk.const_bits(),
                Ast::Lit(v.0),
            ),
            !ok ==> final(self).had_error && final(self).chunk == old(self).chunk && old(self).chunk.constants@.len() >= MAX_CONSTANTS,
            ok ==> old(self).chunk.constants@.len() < MAX_CONSTANTS && final(self).chunk.constants@.len() == old(self).chunk.constants@.len() + 1,
    {
        if self.chunk.constants.len() >= MAX_CONSTANTS {
            self.report_error("Too many constants in one chunk.");
            proof {
                assert(self.chunk.code@.subrange(0, old(self).chunk.code@.len() as int)
                    =~= old(self).chunk.code@);
                assert(self.chunk.constants@.subrange(0, old(self).chunk.constants@.len() as int)
                    =~= old(self).chunk.constants@);
            }
            return false;
        }
        let line = self.last_line;
        let idx = self.chunk.push_constant(v);
        self.chunk.push_code(OP_CONSTANT, line);
        self.chunk.push_code(idx as u8, line);
        proof {
            let base = old(self).chunk.code@.len() as int;
            let delta = self.chunk.code@.skip(base);
            assert(delta =~= seq![OP_CONSTANT, idx as u8]);
            assert(self.chunk.const_bits()[idx as int] == v.0);
            assert(self.chunk.code@.subrange(0, base) =~= old(self).chunk.code@);
            assert(self.chunk.constants@.subrange(0, old(self).chunk.constants@.len() as int)
                =~= old(self).chunk.constants@);
        }
        true
    }

    /// Parse one prefix expression: a literal, a parenthesized group, a
    /// unary minus, or an error.  Whenever the grammar parses from the
    /// parser's position, the state afterwards is exactly the grammar's
    /// state after the prefix, poised to fold infix operators.
    #[verifier::rlimit(100)]
    #[verifier::spinoff_prover]
    fn parse_prefix(&mut self, min_prec: u8) -> (res: (bool, Ghost<Ast>))
        requires
            old(self).wf(),
            min_prec >= 1,
        ensures
            final(self).wf(),
            final(self).scanner.source@ == old(self).scanner.source@,
            final(self).fuel() <= old(self).fuel(),
            old(self).had_error ==> final(self).had_error,
            old(self).last_line <= final(self).last_line,
            seq_extends(old(self).chunk.code@, final(self).chunk.code@),
            seq_extends(old(self).chunk.constants@, final(self).chunk.constants@),
            !res.0 ==> final(self).had_error,
            res.0 ==> final(self).fuel() < old(self).fuel() && implements(
                final(self).chunk.code@.skip(old(self).chunk.code@.len() as int),
                final(self).chunk.const_bits(),
                res.1@,
            ),
            parse_prec_spec(
                old(self).scanner.source@,
                old(self).cursor().0,
                old(self).cursor().1,
                min_prec,
                old(self).chunk.constants@.len() as int,
                (old(self).fuel() + 1) as nat,
            ) is Parsed ==> res.0 && parse_prec_spec(
                old(self).scanner.source@,
                old(self).cursor().0,
                old(self).cursor().1,
                min_prec,
                old(self).chunk.constants@.len() as int,
                (old(self).fuel() + 1) as nat,
            ) == parse_infix_spec(
                old(self).scanner.source@,
                final(self).cursor().0,
                final(self).cursor().1,
                res.1@,
                min_prec,
                final(self).chunk.constants@.len() as int,
                (final(self).fuel() + 1) as nat,
            ) && final(self).had_error == old(self).had_error && final(self).errors@ == old(self).errors@,
        decreases old(self).fuel(), 0int,
    {
        let ghost src = self.scanner.source@;
        let ghost c0 = self.cursor();
        let ghost n0 = self.chunk.constants@.len() as int;
        let ghost f0 = (self.fuel() + 1) as nat;
        let ghost spec0 = parse_prec_spec(src, c0.0, c0.1, min_prec, n0, f0);
        proof {
            lemma_next_spec_progress(src, c0.0, c0.1);
        }
        let ghost dummy: Ast = Ast::Lit(0);
        let mut cur: Ghost<Ast> = Ghost(dummy);
        let t = match self.advance() {
            None => {
                proof {
                    assert(spec0 is Rejected);
                }
                self.report_error("Expected expression, but found end of input.");
                proof {
                    assert(self.chunk.code@.subrange(0, old(self).chunk.code@.len() as int)
                        =~= old(self).chunk.code@);
                    assert(self.chunk.constants@.subrange(
                        0,
                        old(self).chunk.constants@.len() as int,
                    ) =~= old(self).chunk.constants@);
                }
                return (false, cur);
            },
            Some(t) => t,
        };
        proof {
            assert(self.chunk.code@.subrange(0, old(self).chunk.code@.len() as int)
                =~= old(self).chunk.code@);
            assert(self.chunk.constants@.subrange(0, old(self).chunk.constants@.len() as int)
                =~= old(self).chunk.constants@);
        }
        match t.kind {
            TokenKind::NumberLiteral => {
                let ok = self.emit_constant(Value(t.num));
                if !ok {
                    proof {
                        assert(!(spec0 is Parsed));
                    }
                    return (false, cur);
                }
                cur = Ghost(Ast::Lit(t.num));
                proof {
                    match next_spec(src, c0.0, c0.1) {
                        ScanStep::Lexed(ts, p1, l1) => {
                            lemma_parse_infix_fuel(
                                src,
                                p1,
                                l1,
                                Ast::Lit(t.num),
                                min_prec,
                                n0 + 1,
                                (f0 - 1) as nat,
                            );
                        },
                        _ => {},
                    }
                }
            },
            TokenKind::True => {
                let ok = self.emit_constant(Value(TRUE_VAL));
                if !ok {
                    proof {
                        assert(!(spec0 is Parsed));
                    }
                    return (false, cur);
                }
                cur = Ghost(Ast::Lit(TRUE_VAL));
                proof {
                    match next_spec(src, c0.0, c0.1) {
                        ScanStep::Lexed(ts, p1, l1) => {
                            lemma_parse_infix_fuel(
                                src,
                                p1,
                                l1,
                                Ast::Lit(TRUE_VAL),
                                min_prec,
                                n0 + 1,
                                (f0 - 1) as nat,
                            );
                        },
                        _ => {},
                    }
                }
            },
            TokenKind::False => {
                let ok = self.emit_constant(Value(FALSE_VAL));
                if !ok {
                    proof {
                        assert(!(spec0 is Parsed));
                    }
                    return (false, cur);
                }
                cur = Ghost(Ast::Lit(FALSE_VAL));
                proof {
                    match next_spec(src, c0.0, c0.1) {
                        ScanStep::Lexed(ts, p1, l1) => {
                            lemma_parse_infix_fuel(
                                src,
                                p1,
                                l1,
                                Ast::Lit(FALSE_VAL),
                                min_prec,
                                n0 + 1,
                                (f0 - 1) as nat,
                            );
                        },
                        _ => {},
                    }
                }
            },
            TokenKind::Nil => {
                let ok = self.emit_constant(Value(NIL_VAL));
                if !ok {
                    proof {
                        assert(!(spec0 is Parsed));
                    }
                    return (false, cur);
                }
                cur = Ghost(Ast::Lit(NIL_VAL));
                proof {
                    match next_spec(src, c0.0, c0.1) {
                        ScanStep::Lexed(ts, p1, l1) => {
                            lemma_parse_infix_fuel(
                                src,
                                p1,
                                l1,
                                Ast::Lit(NIL_VAL),
                                min_prec,
                                n0 + 1,
                                (f0 - 1) as nat,
                            );
                        },
                        _ => {},
                    }
                }
            },
            TokenKind::LeftParenthesis => {
                let (ok1, g) = self.parse_precedence(PREC_ASSIGNMENT);
                proof {
                    match next_spec(src, c0.0, c0.1) {
                        ScanStep::Lexed(ts, p1, l1) => {
                            lemma_parse_prec_fuel(
                                src,
                                p1,
                                l1,
                                PREC_ASSIGNMENT,
                                n0,
                                (f0 - 1) as nat,
                            );
                        },
                        _ => {},
                    }
                }
                if !ok1 {
                    proof {
                        assert(!(spec0 is Parsed));
                    }
                    return (false, g);
                }
                let ghost after_inner = self.cursor();
                proof {
                    lemma_next_spec_progress(src, after_inner.0, after_inner.1);
                }
                if !self.expect_token(TokenKind::RightParenthesis, "Expected ')'") {
                    proof {
                        assert(!(spec0 is Parsed));
                    }
                    return (false, g);
                }
                proof {
                    match next_spec(src, c0.0, c0.1) {
                        ScanStep::Lexed(ts, p1, l1) => {
                            match parse_prec_spec(
                                src,
                                p1,
                                l1,
                                PREC_ASSIGNMENT,
                                n0,
                                (f0 - 1) as nat,
                            ) {
                                ParseOutcome::Parsed(e1, p2, l2, n2) => {
                                    match next_spec(src, p2, l2) {
                                        ScanStep::Lexed(t2, p3, l3) => {
                                            if t2.kind == TokenKind::RightParenthesis {
                                                lemma_parse_infix_fuel(
                                                    src,
                                                    p3,
                                                    l3,
                                                    e1,
                                                    min_prec,
                                                    n2,
                                                    (f0 - 1) as nat,
                                                );
                                            }
                                        },
                                        _ => {},
                                    }
                                },
                                _ => {},
                            }
                        },
                        _ => {},
                    }
                }
                cur = g;
            },
            TokenKind::Minus => {
                let (ok1, g) = self.parse_precedence(PREC_UNARY);
                proof {
                    match next_spec(src, c0.0, c0.1) {
                        ScanStep::Lexed(ts, p1, l1) => {
                            lemma_parse_prec_fuel(src, p1, l1, PREC_UNARY, n0, (f0 - 1) as nat);
                        },
                        _ => {},
                    }
                }
                if !ok1 {
                    proof {
                        assert(!(spec0 is Parsed));
                    }
                    return (false, g);
                }
                let ghost code_rhs = self.chunk.code@;
                let line = self.last_line;
                self.chunk.push_code(OP_NEGATE, line);
                proof {
                    let base = old(self).chunk.code@.len() as int;
                    let delta = self.chunk.code@.skip(base);
                    assert(delta.take(delta.len() - 1) =~= code_rhs.skip(base));
                    assert(delta.last() == OP_NEGATE);
                    assert(self.chunk.code@.subrange(0, base) =~= old(self).chunk.code@);
                    match next_spec(src, c0.0, c0.1) {
                        ScanStep::Lexed(ts, p1, l1) => {
                            match parse_prec_spec(src, p1, l1, PREC_UNARY, n0, (f0 - 1) as nat) {
                                ParseOutcome::Parsed(e1, p2, l2, n2) => {
                                    lemma_parse_infix_fuel(
                                        src,
                                        p2,
                                        l2,
                                        Ast::Neg(Box::new(e1)),
                                        min_prec,
                                        n2,
                                        (f0 - 1) as nat,
                                    );
                                },
                                _ => {},
                            }
                        },
                        _ => {},
                    }
                }
                cur = Ghost(Ast::Neg(Box::new(g@)));
            },
            TokenKind::Bang => {
                proof {
                    assert(!(spec0 is Parsed));
                }
                self.report_error("Unary '!' is not supported.");
                return (false, cur);
            },
            _ => {
                proof {
                    assert(!(spec0 is Parsed));
                }
                self.report_error("Expected expression.");
                return (false, cur);
            },
        }
        (true, cur)
    }

    /// The precedence-climbing core: parse one prefix expression, then
    /// fold in every infix operator that binds at least as tightly as
    /// `min_prec`.  On success the chunk has grown by exactly the
    /// translation of the expression the ghost result describes; and
    /// whenever the grammar (`parse_prec_spec`) parses an expression from
    /// the parser's position, this function accepts, reports nothing, and
    /// returns exactly that expression.
    #[verifier::rlimit(100)]
    #[verifier::spinoff_prover]
    fn parse_precedence(&mut self, min_prec: u8) -> (res: (bool, Ghost<Ast>))
        requires
            old(self).wf(),
            min_prec >= 1,
        ensures
            final(self).wf(),
            final(self).scanner.source@ == old(self).scanner.source@,
            final(self).fuel() <= old(self).fuel(),
            old(self).had_error ==> final(self).had_error,
            old(self).last_line <= final(self).last_line,
            seq_extends(old(self).chunk.code@, final(self).chunk.code@),
            seq_extends(old(self).chunk.constants@, final(self).chunk.constants@),
            !res.0 ==> final(self).had_error,
            res.0 ==> implements(
                final(self).chunk.code@.skip(old(self).chunk.code@.len() as int),
                final(self).chunk.const_bits(),
                res.1@,
            ),
            match parse_prec_spec(
                old(self).scanner.source@,
                old(self).cursor().0,
                old(self).cursor().1,
                min_prec,
                old(self).chunk.constants@.len() as int,
                (old(self).fuel() + 1) as nat,
            ) {
                ParseOutcome::Parsed(e, p2, l2, n2) => res.0 && res.1@ == e && final(self).cursor().0 == p2 && final(self).cursor().1 == l2 && final(self).chunk.constants@.len() == n2 && final(self).had_error == old(self).had_error
                    && final(self).errors@ == old(self).errors@,
                _ => true,
            },
        decreases old(self).fuel(), 1int,
    {
        let ghost src = self.scanner.source@;
        let ghost spec0 = parse_prec_spec(
            src,
            self.cursor().0,
            self.cursor().1,
            min_prec,
            self.chunk.constants@.len() as int,
            (self.fuel() + 1) as nat,
        );
        let (ok0, mut cur) = self.parse_prefix(min_prec);
        if !ok0 {
            return (false, cur);
        }
        #[verifier::loop_isolation(false)]
        loop
            invariant
                self.wf(),
                self.scanner.source@ == src,
                self.fuel() < old(self).fuel(),
                old(self).had_error ==> self.had_error,
                old(self).last_line <= self.last_line,
                seq_extends(old(self).chunk.code@, self.chunk.code@),
                seq_extends(old(self).chunk.constants@, self.chunk.constants@),
                implements(
                    self.chunk.code@.skip(old(self).chunk.code@.len() as int),
                    self.chunk.const_bits(),
                    cur@,
                ),
                spec0 is Parsed ==> (spec0 == parse_infix_spec(
                    src,
                    self.cursor().0,
                    self.cursor().1,
                    cur@,
                    min_prec,
                    self.chunk.constants@.len() as int,
                    (self.fuel() + 1) as nat,
                ) && self.had_error == old(self).had_error && self.errors@ == old(self).errors@),
            decreases self.fuel(),
        {
            let ghost ck = self.cursor();
            let ghost nk = self.chunk.constants@.len() as int;
            let ghost fk = (self.fuel() + 1) as nat;
            proof {
                lemma_next_spec_progress(src, ck.0, ck.1);
            }
            let p = self.peek_infix();
            if p < min_prec {
                break;
            }
            let t2 = match self.advance() {
                Some(t2) => t2,
                None => {
                    proof {
                        assert(false);
                    }
                    return (false, cur);
                },
            };
            let kind = t2.kind;
            let rhs_prec: u8;
            let opb: u8;
            let ghost mut bop: BinOp = BinOp::Add;
            if kind == TokenKind::Plus {
                rhs_prec = PREC_FACTOR;
                opb = OP_ADD;
            } else if kind == TokenKind::Minus {
                rhs_prec = PREC_FACTOR;
                opb = OP_SUBTRACT;
                proof {
                    bop = BinOp::Subtract;
                }
            } else if kind == TokenKind::Star {
                rhs_prec = PREC_UNARY;
                opb = OP_MULTIPLY;
                proof {
                    bop = BinOp::Multiply;
                }
            } else if kind == TokenKind::Slash {
                rhs_prec = PREC_UNARY;
                opb = OP_DIVIDE;
                proof {
                    bop = BinOp::Divide;
                }
            } else if kind == TokenKind::Modulo {
                rhs_prec = PREC_UNARY;
                opb = OP_MODULO;
                proof {
                    bop = BinOp::Modulo;
                }
            } else if kind == TokenKind::Greater {
                rhs_prec = PREC_TERM;
                opb = OP_GREATER;
                proof {
                    bop = BinOp::Greater;
                }
            } else if kind == TokenKind::GreaterEqual {
                rhs_prec = PREC_TERM;
                opb = OP_GREATER_EQUAL;
                proof {
                    bop = BinOp::GreaterEqual;
                }
            } else if kind == TokenKind::Less {
                rhs_prec = PREC_TERM;
                opb = OP_LESS;
                proof {
                    bop = BinOp::Less;
                }
            } else if kind == TokenKind::LessEqual {
                rhs_prec = PREC_TERM;
                opb = OP_LESS_EQUAL;
                proof {
                    bop = BinOp::LessEqual;
                }
            } else if kind == TokenKind::EqualEqual {
                rhs_prec = PREC_TERM;
                opb = OP_EQUAL;
                proof {
                    bop = BinOp::Equal;
                }
            } else if kind == TokenKind::BangEqual {
                rhs_prec = PREC_TERM;
                opb = OP_NOT_EQUAL;
                proof {
                    bop = BinOp::NotEqual;
                }
            } else {
                proof {
                    assert(false);
                }
                rhs_prec = PREC_NONE;
                opb = OP_RETURN;
            }
            proof {
                assert(rhs_prec == infix_info(kind).0);
                assert(bop == infix_info(kind).1);
                assert(op_byte(bop) == opb);
            }
            let ghost chunk_head = self.chunk;
            let ghost cur_pre = cur@;
            let (ok2, g2) = self.parse_precedence(rhs_prec);
            proof {
                match next_spec(src, ck.0, ck.1) {
                    ScanStep::Lexed(ts, pp, ll) => {
                        lemma_parse_prec_fuel(src, pp, ll, rhs_prec, nk, (fk - 1) as nat);
                    },
                    _ => {},
                }
            }
            if !ok2 {
                proof {
                    assert(!(spec0 is Parsed));
                    lemma_seq_extends_trans(
                        old(self).chunk.code@,
                        chunk_head.code@,
                        self.chunk.code@,
                    );
                    lemma_seq_extends_trans(
                        old(self).chunk.constants@,
                        chunk_head.constants@,
                        self.chunk.constants@,
                    );
                }
                return (false, cur);
            }
            let ghost code_rhs = self.chunk.code@;
            let line = self.last_line;
            self.chunk.push_code(opb, line);
            proof {
                let base = old(self).chunk.code@.len() as int;
                let m = chunk_head.code@.len() - base;
                let delta = self.chunk.code@.skip(base);
                let delta_a = chunk_head.code@.skip(base);
                let delta_b = code_rhs.skip(chunk_head.code@.len() as int);
                assert(seq_extends(code_rhs, self.chunk.code@)) by {
                    assert(self.chunk.code@.subrange(0, code_rhs.len() as int) =~= code_rhs);
                }
                lemma_seq_extends_trans(old(self).chunk.code@, chunk_head.code@, code_rhs);
                lemma_seq_extends_trans(old(self).chunk.code@, code_rhs, self.chunk.code@);
                lemma_seq_extends_trans(
                    old(self).chunk.constants@,
                    chunk_head.constants@,
                    self.chunk.constants@,
                );
                lemma_const_bits_extends(chunk_head, self.chunk);
                lemma_implements_monotone(
                    delta_a,
                    chunk_head.const_bits(),
                    self.chunk.const_bits(),
                    cur_pre,
                );
                assert(delta.subrange(0, m) =~= delta_a);
                assert(delta.subrange(m, delta.len() - 1) =~= delta_b);
                assert(delta.last() == opb);
                let combined = Ast::Bin(bop, Box::new(cur_pre), Box::new(g2@));
                assert(implements(delta.subrange(0, m), self.chunk.const_bits(), cur_pre));
                assert(implements(delta.subrange(m, delta.len() - 1), self.chunk.const_bits(), g2@));
                assert(0 <= m <= delta.len() - 1);
                assert(implements(delta, self.chunk.const_bits(), combined));
                match next_spec(src, ck.0, ck.1) {
                    ScanStep::Lexed(ts, pp, ll) => {
                        match parse_prec_spec(src, pp, ll, rhs_prec, nk, (fk - 1) as nat) {
                            ParseOutcome::Parsed(r2, p2, l2, n2) => {
                                lemma_parse_infix_fuel(
                                    src,
                                    p2,
                                    l2,
                                    Ast::Bin(bop, Box::new(cur_pre), Box::new(r2)),
                                    min_prec,
                                    n2,
                                    (fk - 1) as nat,
                                );
                            },
                            _ => {},
                        }
                    },
                    _ => {},
                }
            }
            cur = Ghost(Ast::Bin(bop, Box::new(cur_pre), Box::new(g2@)));
        }
        (true, cur)
    }

    /// Parse one whole expression at the loosest precedence.
    fn expression(&mut self) -> (res: (bool, Ghost<Ast>))
        requires
            old(self).wf(),
        ensures
            final(self).wf(),
            final(self).scanner.source@ == old(self).scanner.source@,
            old(self).had_error ==> final(self).had_error,
            seq_extends(old(self).chunk.code@, final(self).chunk.code@),
            seq_extends(old(self).chunk.constants@, final(self).chunk.constants@),
            !res.0 ==> final(self).had_error,
            res.0 ==> implements(
                final(self).chunk.code@.skip(old(self).chunk.code@.len() as int),
                final(self).chunk.const_bits(),
                res.1@,
            ),
            match parse_prec_spec(
                old(self).scanner.source@,
                old(self).cursor().0,
                old(self).cursor().1,
                PREC_ASSIGNMENT,
                old(self).chunk.constants@.len() as int,
                (old(self).fuel() + 1) as nat,
            ) {
                ParseOutcome::Parsed(e, p2, l2, n2) => res.0 && res.1@ == e && final(self).had_error == old(self).had_error && final(self).errors@ == old(self).errors@,
                _ => true,
            },
    {
        self.parse_precedence(PREC_ASSIGNMENT)
    }

    /// Compile one expression into the chunk, ending with a return
    /// instruction.  The answer is true exactly when no error of any kind
    /// was recorded; the chunk then implements some expression, its
    /// constant pool is within the one-byte ceiling, and its line table is
    /// monotone.  And success is owed: whenever the grammar parses the
    /// whole source (`parse_program`), compilation succeeds and the chunk
    /// implements exactly the expression the grammar parsed, with standard
    /// precedence and left associativity by construction of the grammar.
    pub fn compile(&mut self) -> (r: bool)
        requires
            old(self).wf(),
            !old(self).had_error,
            old(self).lookahead is None,
            old(self).scanner.current == 0,
            old(self).scanner.line == 1,
            old(self).chunk.code@.len() == 0,
            old(self).chunk.constants@.len() == 0,
        ensures
            final(self).wf(),
            r == !final(self).had_error,
            r <==> final(self).errors@.len() == 0,
            final(self).chunk.constants@.len() <= MAX_CONSTANTS,
            lines_sorted(final(self).chunk.lines@),
            r ==> exists|e: Ast|
                chunk_implements(
                    final(self).chunk.code@,
                    final(self).chunk.const_bits(),
                    e,
                ),
            match parse_program(old(self).scanner.source@) {
                ParseOutcome::Parsed(e, p2, l2, n2) => r && chunk_implements(
                    final(self).chunk.code@,
                    final(self).chunk.const_bits(),
                    e,
                ),
                _ => true,
            },
    {
        let (ok, g) = self.expression();
        let ghost code_body = self.chunk.code@;
        let line = self.last_line;
        self.chunk.push_code(OP_RETURN, line);
        proof {
            if ok {
                let code = self.chunk.code@;
                assert(code.last() == OP_RETURN);
                assert(code.take(code.len() - 1) =~= code_body);
                assert(code_body.skip(0) =~= code_body);
                assert(chunk_implements(code, self.chunk.const_bits(), g@));
            }
        }
        !self.had_error
    }

    /// Hand the compiled chunk over; it is read-only from here on.
    pub fn into_chunk(self) -> (c: Chunk)
        ensures
            c == self.chunk,
    {
        self.chunk
    }
}

} // verus!
