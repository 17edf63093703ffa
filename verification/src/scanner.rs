use vstd::prelude::*;
use crate::numeric::{is_digit, is_numeral, num_of_decimal, decimal_bits};

verus! {

// ---------------------------------------------------------------------------
// The lexical grammar, written out as functions over the source bytes.
// `next_spec` says exactly which token, error or end the scanner's `next`
// must produce from a given cursor and line counter, and where the cursor
// and counter stand afterwards.  The executable scanner below is proved to
// follow it step for step.
// ---------------------------------------------------------------------------
/// The kind of a token.  Number, string and identifier tokens carry their
/// payload in the `num` and `text` fields of the token itself.
#[derive(Copy, Clone, Debug, PartialEq, Eq, Structural)]
pub enum TokenKind {
    LeftBracket,
    RightBracket,
    LeftBrace,
    RightBrace,
    LeftParenthesis,
    RightParenthesis,
    Comma,
    Dot,
    Semicolon,
    Plus,
    Minus,
    Star,
    Slash,
    Modulo,
    Bang,
    BangEqual,
    Equal,
    EqualEqual,
    Greater,
    GreaterEqual,
    Less,
    LessEqual,
    NumberLiteral,
    StringLiteral,
    Identifier,
    And,
    Class,
    Else,
    False,
    For,
    Fun,
    If,
    Nil,
    Or,
    Print,
    Return,
    Super,
    This,
    True,
    Var,
    While,
}

/// One token: its kind, the line on which it ends, and its payload.
/// `num` is the encoded double of a number literal and zero otherwise;
/// `text` is the contents of a string literal or the word of an
/// identifier, and empty otherwise.
#[derive(Debug)]
pub struct Token {
    pub kind: TokenKind,
    pub line: usize,
    pub num: u64,
    pub text: Vec<u8>,
}

/// The mathematical shadow of a `Token`.
pub struct SpecToken {
    pub kind: TokenKind,
    pub line: int,
    pub num: u64,
    pub text: Seq<u8>,
}

impl View for Token {
    type V = SpecToken;

    open spec fn view(&self) -> SpecToken {
        SpecToken { kind: self.kind, line: self.line as int, num: self.num, text: self.text@ }
    }
}

/// Why a scan failed at some position.
#[derive(Copy, Clone, Debug, PartialEq, Eq, Structural)]
pub enum ScanErrorKind {
    UnterminatedString,
    UnterminatedComment,
    UnrecognizedCharacter,
}

/// A malformed lexeme: the reason and the line it was found on.  Errors are
/// per-token and recoverable; the scanner can keep producing tokens.
#[derive(Copy, Clone, Debug, PartialEq, Eq, Structural)]
pub struct ScannerError {
    pub kind: ScanErrorKind,
    pub line: usize,
}

impl ScannerError {
    pub fn message(&self) -> (r: &'static str)
    {
        match self.kind {
            ScanErrorKind::UnterminatedString => "Unterminated string literal",
            ScanErrorKind::UnterminatedComment => "Unterminated block comment",
            ScanErrorKind::UnrecognizedCharacter => "Unrecognized character",
        }
    }
}

// --- whitespace and comments ---
/// Where the cursor stands while skipping blanks: in code, inside a line
/// comment, or inside a block comment of some nesting depth.
pub enum WsMode {
    Plain,
    InLine,
    InBlock(int),
}

pub enum WsOut {
    Ready(int, int),
    Unterminated(int),
}

/// Skipping whitespace, `//` comments and nestable `/* */` comments.
/// Yields the position and line of the first byte of the next lexeme (or
/// the end of input), or the error when the input ends inside a block
/// comment.
pub open spec fn skip_ws(src: Seq<u8>, pos: int, line: int, mode: WsMode) -> WsOut
    decreases src.len() - pos,
{
    if pos < 0 || pos >= src.len() {
        match mode {
            WsMode::InBlock(_) => WsOut::Unterminated(line),
            _ => WsOut::Ready(pos, line),
        }
    } else {
        let b = src[pos];
        match mode {
            WsMode::Plain => {
                if b == 32 || b == 9 || b == 13 {
                    skip_ws(src, pos + 1, line, WsMode::Plain)
                } else if b == 10 {
                    skip_ws(src, pos + 1, line + 1, WsMode::Plain)
                } else if b == 47 && pos + 1 < src.len() && src[pos + 1] == 47 {
                    skip_ws(src, pos + 2, line, WsMode::InLine)
                } else if b == 47 && pos + 1 < src.len() && src[pos + 1] == 42 {
                    skip_ws(src, pos + 2, line, WsMode::InBlock(1))
                } else {
                    WsOut::Ready(pos, line)
                }
            },
            WsMode::InLine => {
                if b == 10 {
                    skip_ws(src, pos + 1, line + 1, WsMode::Plain)
                } else {
                    skip_ws(src, pos + 1, line, WsMode::InLine)
                }
            },
            WsMode::InBlock(depth) => {
                if b == 42 && pos + 1 < src.len() && src[pos + 1] == 47 {
                    if depth <= 1 {
                        skip_ws(src, pos + 2, line, WsMode::Plain)
                    } else {
                        skip_ws(src, pos + 2, line, WsMode::InBlock(depth - 1))
                    }
                } else if b == 47 && pos + 1 < src.len() && src[pos + 1] == 42 {
                    skip_ws(src, pos + 2, line, WsMode::InBlock(depth + 1))
                } else if b == 10 {
                    skip_ws(src, pos + 1, line + 1, WsMode::InBlock(depth))
                } else {
                    skip_ws(src, pos + 1, line, WsMode::InBlock(depth))
                }
            },
        }
    }
}

pub proof fn lemma_skip_ws_bounds(src: Seq<u8>, pos: int, line: int, mode: WsMode)
    requires
        0 <= pos <= src.len(),
        line >= 0,
    ensures
        match skip_ws(src, pos, line, mode) {
            WsOut::Ready(p, l) => pos <= p <= src.len() && line <= l,
            WsOut::Unterminated(l) => line <= l,
        },
    decreases src.len() - pos,
{
    if pos < src.len() {
        match mode {
            WsMode::Plain => {
                let b = src[pos];
                if b == 32 || b == 9 || b == 13 {
                    lemma_skip_ws_bounds(src, pos + 1, line, WsMode::Plain);
                } else if b == 10 {
                    lemma_skip_ws_bounds(src, pos + 1, line + 1, WsMode::Plain);
                } else if b == 47 && pos + 1 < src.len() && src[pos + 1] == 47 {
                    lemma_skip_ws_bounds(src, pos + 2, line, WsMode::InLine);
                } else if b == 47 && pos + 1 < src.len() && src[pos + 1] == 42 {
                    lemma_skip_ws_bounds(src, pos + 2, line, WsMode::InBlock(1));
                }
            },
            WsMode::InLine => {
                if src[pos] == 10 {
                    lemma_skip_ws_bounds(src, pos + 1, line + 1, WsMode::Plain);
                } else {
                    lemma_skip_ws_bounds(src, pos + 1, line, WsMode::InLine);
                }
            },
            WsMode::InBlock(depth) => {
                let b = src[pos];
                if b == 42 && pos + 1 < src.len() && src[pos + 1] == 47 {
                    if depth <= 1 {
                        lemma_skip_ws_bounds(src, pos + 2, line, WsMode::Plain);
                    } else {
                        lemma_skip_ws_bounds(src, pos + 2, line, WsMode::InBlock(depth - 1));
                    }
                } else if b == 47 && pos + 1 < src.len() && src[pos + 1] == 42 {
                    lemma_skip_ws_bounds(src, pos + 2, line, WsMode::InBlock(depth + 1));
                } else if b == 10 {
                    lemma_skip_ws_bounds(src, pos + 1, line + 1, WsMode::InBlock(depth));
                } else {
                    lemma_skip_ws_bounds(src, pos + 1, line, WsMode::InBlock(depth));
                }
            },
        }
    }
}

// --- lexeme helpers ---
/// The end of the run of decimal digits starting at `pos`.
pub open spec fn digit_run_end(src: Seq<u8>, pos: int) -> int
    decreases src.len() - pos,
{
    if 0 <= pos < src.len() && is_digit(src[pos]) {
        digit_run_end(src, pos + 1)
    } else {
        pos
    }
}

pub proof fn lemma_digit_run(src: Seq<u8>, pos: int)
    requires
        0 <= pos <= src.len(),
    ensures
        pos <= digit_run_end(src, pos) <= src.len(),
        forall|i: int| pos <= i < digit_run_end(src, pos) ==> is_digit(src[i]),
        digit_run_end(src, pos) == src.len() || !is_digit(src[digit_run_end(src, pos)]),
    decreases src.len() - pos,
{
    if pos < src.len() && is_digit(src[pos]) {
        lemma_digit_run(src, pos + 1);
    }
}

pub open spec fn is_ident_byte(b: u8) -> bool {
    (65 <= b && b <= 90) || (97 <= b && b <= 122) || is_digit(b) || b == 95
}

pub open spec fn is_ident_start(b: u8) -> bool {
    (65 <= b && b <= 90) || (97 <= b && b <= 122) || b == 95
}

/// The end of the run of identifier bytes starting at `pos`.
pub open spec fn ident_run_end(src: Seq<u8>, pos: int) -> int
    decreases src.len() - pos,
{
    if 0 <= pos < src.len() && is_ident_byte(src[pos]) {
        ident_run_end(src, pos + 1)
    } else {
        pos
    }
}

pub proof fn lemma_ident_run(src: Seq<u8>, pos: int)
    requires
        0 <= pos <= src.len(),
    ensures
        pos <= ident_run_end(src, pos) <= src.len(),
    decreases src.len() - pos,
{
    if pos < src.len() && is_ident_byte(src[pos]) {
        lemma_ident_run(src, pos + 1);
    }
}

pub enum StrOut {
    Closed(int, int),
    Unclosed(int),
}

/// Scanning a string literal's contents from just after the opening quote:
/// the position of the closing quote and the line it stands on, counting
/// embedded newlines, or the line at which the input ended unterminated.
pub open spec fn string_scan(src: Seq<u8>, pos: int, line: int) -> StrOut
    decreases src.len() - pos,
{
    if pos < 0 || pos >= src.len() {
        StrOut::Unclosed(line)
    } else if src[pos] == 34 {
        StrOut::Closed(pos, line)
    } else if src[pos] == 10 {
        string_scan(src, pos + 1, line + 1)
    } else {
        string_scan(src, pos + 1, line)
    }
}

pub proof fn lemma_string_scan_bounds(src: Seq<u8>, pos: int, line: int)
    requires
        0 <= pos <= src.len(),
        line >= 0,
    ensures
        match string_scan(src, pos, line) {
            StrOut::Closed(p, l) => pos <= p < src.len() && line <= l,
            StrOut::Unclosed(l) => line <= l,
        },
    decreases src.len() - pos,
{
    if pos < src.len() && src[pos] != 34 {
        if src[pos] == 10 {
            lemma_string_scan_bounds(src, pos + 1, line + 1);
        } else {
            lemma_string_scan_bounds(src, pos + 1, line);
        }
    }
}

/// The keyword a word spells, or `Identifier` if it spells none.
pub open spec fn keyword_kind_spec(w: Seq<u8>) -> TokenKind {
    if w.len() == 3 && w[0] == 97 && w[1] == 110 && w[2] == 100 {
        TokenKind::And
    } else if w.len() == 5 && w[0] == 99 && w[1] == 108 && w[2] == 97 && w[3] == 115 && w[4] == 115 {
        TokenKind::Class
    } else if w.len() == 4 && w[0] == 101 && w[1] == 108 && w[2] == 115 && w[3] == 101 {
        TokenKind::Else
    } else if w.len() == 5 && w[0] == 102 && w[1] == 97 && w[2] == 108 && w[3] == 115 && w[4] == 101 {
        TokenKind::False
    } else if w.len() == 3 && w[0] == 102 && w[1] == 111 && w[2] == 114 {
        TokenKind::For
    } else if w.len() == 3 && w[0] == 102 && w[1] == 117 && w[2] == 110 {
        TokenKind::Fun
    } else if w.len() == 2 && w[0] == 105 && w[1] == 102 {
        TokenKind::If
    } else if w.len() == 3 && w[0] == 110 && w[1] == 105 && w[2] == 108 {
        TokenKind::Nil
    } else if w.len() == 2 && w[0] == 111 && w[1] == 114 {
        TokenKind::Or
    } else if w.len() == 5 && w[0] == 112 && w[1] == 114 && w[2] == 105 && w[3] == 110 && w[4] == 116 {
        TokenKind::Print
    } else if w.len() == 6 && w[0] == 114 && w[1] == 101 && w[2] == 116 && w[3] == 117 && w[4] == 114 && w[5] == 110 {
        TokenKind::Return
    } else if w.len() == 5 && w[0] == 115 && w[1] == 117 && w[2] == 112 && w[3] == 101 && w[4] == 114 {
        TokenKind::Super
    } else if w.len() == 4 && w[0] == 116 && w[1] == 104 && w[2] == 105 && w[3] == 115 {
        TokenKind::This
    } else if w.len() == 4 && w[0] == 116 && w[1] == 114 && w[2] == 117 && w[3] == 101 {
        TokenKind::True
    } else if w.len() == 3 && w[0] == 118 && w[1] == 97 && w[2] == 114 {
        TokenKind::Var
    } else if w.len() == 5 && w[0] == 119 && w[1] == 104 && w[2] == 105 && w[3] == 108 && w[4] == 101 {
        TokenKind::While
    } else {
        TokenKind::Identifier
    }
}

// --- one scanning step ---
pub enum ScanStep {
    /// End of input; the line counter after any trailing blanks.
    Stop(int),
    /// A token, the position after it, and the line after it.
    Lexed(SpecToken, int, int),
    /// An error, the line it is reported on, and the position after it.
    Failed(ScanErrorKind, int, int),
}

pub open spec fn plain_token(kind: TokenKind, line: int) -> SpecToken {
    SpecToken { kind, line, num: 0, text: Seq::empty() }
}

/// The token starting at `pos`, which holds a non-blank byte.
pub open spec fn token_at(src: Seq<u8>, pos: int, line: int) -> ScanStep {
    let b = src[pos];
    if b == 40 {
        ScanStep::Lexed(plain_token(TokenKind::LeftParenthesis, line), pos + 1, line)
    } else if b == 41 {
        ScanStep::Lexed(plain_token(TokenKind::RightParenthesis, line), pos + 1, line)
    } else if b == 123 {
        ScanStep::Lexed(plain_token(TokenKind::LeftBrace, line), pos + 1, line)
    } else if b == 125 {
        ScanStep::Lexed(plain_token(TokenKind::RightBrace, line), pos + 1, line)
    } else if b == 91 {
        ScanStep::Lexed(plain_token(TokenKind::LeftBracket, line), pos + 1, line)
    } else if b == 93 {
        ScanStep::Lexed(plain_token(TokenKind::RightBracket, line), pos + 1, line)
    } else if b == 44 {
        ScanStep::Lexed(plain_token(TokenKind::Comma, line), pos + 1, line)
    } else if b == 46 {
        ScanStep::Lexed(plain_token(TokenKind::Dot, line), pos + 1, line)
    } else if b == 59 {
        ScanStep::Lexed(plain_token(TokenKind::Semicolon, line), pos + 1, line)
    } else if b == 43 {
        ScanStep::Lexed(plain_token(TokenKind::Plus, line), pos + 1, line)
    } else if b == 45 {
        ScanStep::Lexed(plain_token(TokenKind::Minus, line), pos + 1, line)
    } else if b == 42 {
        ScanStep::Lexed(plain_token(TokenKind::Star, line), pos + 1, line)
    } else if b == 47 {
        ScanStep::Lexed(plain_token(TokenKind::Slash, line), pos + 1, line)
    } else if b == 37 {
        ScanStep::Lexed(plain_token(TokenKind::Modulo, line), pos + 1, line)
    } else if b == 60 {
        if pos + 1 < src.len() && src[pos + 1] == 61 {
            ScanStep::Lexed(plain_token(TokenKind::LessEqual, line), pos + 2, line)
        } else {
            ScanStep::Lexed(plain_token(TokenKind::Less, line), pos + 1, line)
        }
    } else if b == 62 {
        if pos + 1 < src.len() && src[pos + 1] == 61 {
            ScanStep::Lexed(plain_token(TokenKind::GreaterEqual, line), pos + 2, line)
        } else {
            ScanStep::Lexed(plain_token(TokenKind::Greater, line), pos + 1, line)
        }
    } else if b == 33 {
        if pos + 1 < src.len() && src[pos + 1] == 61 {
            ScanStep::Lexed(plain_token(TokenKind::BangEqual, line), pos + 2, line)
        } else {
            ScanStep::Lexed(plain_token(TokenKind::Bang, line), pos + 1, line)
        }
    } else if b == 61 {
        if pos + 1 < src.len() && src[pos + 1] == 61 {
            ScanStep::Lexed(plain_token(TokenKind::EqualEqual, line), pos + 2, line)
        } else {
            ScanStep::Lexed(plain_token(TokenKind::Equal, line), pos + 1, line)
        }
    } else if b == 34 {
        match string_scan(src, pos + 1, line) {
            StrOut::Closed(q, l) => ScanStep::Lexed(
                SpecToken {
                    kind: TokenKind::StringLiteral,
                    line: l,
                    num: 0,
                    text: src.subrange(pos + 1, q),
                },
                q + 1,
                l,
            ),
            StrOut::Unclosed(l) => ScanStep::Failed(
                ScanErrorKind::UnterminatedString,
                l,
                src.len() as int,
            ),
        }
    } else if is_digit(b) {
        let d1 = digit_run_end(src, pos + 1);
        let end = if d1 < src.len() && src[d1] == 46 && d1 + 1 < src.len() && is_digit(
            src[d1 + 1],
        ) {
            digit_run_end(src, d1 + 1)
        } else {
            d1
        };
        ScanStep::Lexed(
            SpecToken {
                kind: TokenKind::NumberLiteral,
                line,
                num: num_of_decimal(src.subrange(pos, end)),
                text: Seq::empty(),
            },
            end,
            line,
        )
    } else if is_ident_start(b) {
        let end = ident_run_end(src, pos + 1);
        let word = src.subrange(pos, end);
        let kind = keyword_kind_spec(word);
        ScanStep::Lexed(
            SpecToken {
                kind,
                line,
                num: 0,
                text: if kind == TokenKind::Identifier {
                    word
                } else {
                    Seq::empty()
                },
            },
            end,
            line,
        )
    } else {
        ScanStep::Failed(ScanErrorKind::UnrecognizedCharacter, line, pos + 1)
    }
}

/// One call of the scanner: skip blanks and comments, then classify what
/// starts at the cursor.
pub open spec fn next_spec(src: Seq<u8>, pos: int, line: int) -> ScanStep {
    match skip_ws(src, pos, line, WsMode::Plain) {
        WsOut::Unterminated(l) => ScanStep::Failed(
            ScanErrorKind::UnterminatedComment,
            l,
            src.len() as int,
        ),
        WsOut::Ready(p, l) => if p >= src.len() {
            ScanStep::Stop(l)
        } else {
            token_at(src, p, l)
        },
    }
}

/// Every scanning step makes progress: it moves the cursor strictly
/// forward (unless the input is exhausted), never past the end, and never
/// moves the line counter backwards.
pub proof fn lemma_next_spec_progress(src: Seq<u8>, pos: int, line: int)
    requires
        0 <= pos <= src.len(),
        line >= 0,
    ensures
        match next_spec(src, pos, line) {
            ScanStep::Stop(l) => line <= l,
            ScanStep::Lexed(t, p, l) => pos < p <= src.len() && line <= t.line <= l,
            ScanStep::Failed(_, l, p) => pos < p <= src.len() && line <= l,
        },
{
    lemma_skip_ws_bounds(src, pos, line, WsMode::Plain);
    match skip_ws(src, pos, line, WsMode::Plain) {
        WsOut::Unterminated(l) => {
            assert(pos < src.len());
        },
        WsOut::Ready(p, l) => {
            if p < src.len() {
                let b = src[p];
                if b == 34 {
                    lemma_string_scan_bounds(src, p + 1, l);
                } else if is_digit(b) {
                    lemma_digit_run(src, p + 1);
                    let d1 = digit_run_end(src, p + 1);
                    if d1 < src.len() && src[d1] == 46 && d1 + 1 < src.len() && is_digit(
                        src[d1 + 1],
                    ) {
                        lemma_digit_run(src, d1 + 1);
                    }
                } else if is_ident_start(b) {
                    lemma_ident_run(src, p + 1);
                }
            }
        },
    }
}


// ---------------------------------------------------------------------------
// The executable scanner: a pull-based lexer over the source bytes.  Each
// call of `next` produces exactly the step that `next_spec` describes.
// ---------------------------------------------------------------------------
/// The lexer: the source bytes, a cursor, and the current line counter
/// (starting at one).
pub struct Scanner {
    pub source: Vec<u8>,
    pub current: usize,
    pub line: usize,
}

impl Scanner {
    /// The cursor never passes the end, and the line counter can still
    /// count one line per remaining byte without overflowing.
    pub open spec fn wf(self) -> bool {
        &&& self.current <= self.source@.len()
        &&& self.line as int + (self.source@.len() - self.current as int) <= usize::MAX as int
    }

    pub fn new(source: Vec<u8>) -> (s: Scanner)
        requires
            source@.len() < usize::MAX,
        ensures
            s.wf(),
            s.source@ == source@,
            s.current == 0,
            s.line == 1,
    {
        Scanner { source, current: 0, line: 1 }
    }

    fn make_token(&self, kind: TokenKind) -> (t: Token)
        ensures
            t@ == plain_token(kind, self.line as int),
    {
        Token { kind, line: self.line, num: 0, text: Vec::new() }
    }

    fn match_byte(&mut self, ch: u8) -> (r: bool)
        requires
            old(self).wf(),
        ensures
            final(self).wf(),
            final(self).source@ == old(self).source@,
            final(self).line == old(self).line,
            if old(self).current < old(self).source@.len() && old(self).source@[old(
                self,
            ).current as int] == ch {
                r && final(self).current == old(self).current + 1
            } else {
                !r && final(self).current == old(self).current
            },
    {
        if self.current < self.source.len() && self.source[self.current] == ch {
            self.current = self.current + 1;
            true
        } else {
            false
        }
    }

    /// Skip blanks, `//` comments and nestable `/* */` comments, following
    /// `skip_ws`; reports the unterminated block comment error.
    fn skip_whitespace(&mut self) -> (r: Option<ScannerError>)
        requires
            old(self).wf(),
        ensures
            final(self).wf(),
            final(self).source@ == old(self).source@,
            match skip_ws(
                old(self).source@,
                old(self).current as int,
                old(self).line as int,
                WsMode::Plain,
            ) {
                WsOut::Ready(p, l) => r is None && final(self).current == p && final(self).line
                    == l,
                WsOut::Unterminated(l) => r == Some(
                    ScannerError { kind: ScanErrorKind::UnterminatedComment, line: l as usize },
                ) && final(self).current == old(self).source@.len() && final(self).line == l,
            },
    {
        let ghost src = self.source@;
        let ghost pos0 = self.current as int;
        let ghost line0 = self.line as int;
        let mut depth: usize = 0;
        let mut in_line: bool = false;
        #[verifier::loop_isolation(false)]
        loop
            invariant
                self.wf(),
                self.source@ == src,
                2 * (depth as int) <= self.current as int,
                depth > 0 ==> !in_line,
                skip_ws(src, pos0, line0, WsMode::Plain) == skip_ws(
                    src,
                    self.current as int,
                    self.line as int,
                    if depth > 0 {
                        WsMode::InBlock(depth as int)
                    } else if in_line {
                        WsMode::InLine
                    } else {
                        WsMode::Plain
                    },
                ),
            decreases src.len() - self.current,
        {
            if self.current >= self.source.len() {
                if depth > 0 {
                    return Some(
                        ScannerError { kind: ScanErrorKind::UnterminatedComment, line: self.line },
                    );
                }
                return None;
            }
            let b = self.source[self.current];
            if depth > 0 {
                if b == 42 && self.current + 1 < self.source.len() && self.source[self.current + 1]
                    == 47 {
                    self.current = self.current + 2;
                    depth = depth - 1;
                } else if b == 47 && self.current + 1 < self.source.len()
                    && self.source[self.current + 1] == 42 {
                    self.current = self.current + 2;
                    depth = depth + 1;
                } else if b == 10 {
                    self.line = self.line + 1;
                    self.current = self.current + 1;
                } else {
                    self.current = self.current + 1;
                }
            } else if in_line {
                if b == 10 {
                    self.line = self.line + 1;
                    self.current = self.current + 1;
                    in_line = false;
                } else {
                    self.current = self.current + 1;
                }
            } else {
                if b == 32 || b == 9 || b == 13 {
                    self.current = self.current + 1;
                } else if b == 10 {
                    self.line = self.line + 1;
                    self.current = self.current + 1;
                } else if b == 47 && self.current + 1 < self.source.len()
                    && self.source[self.current + 1] == 47 {
                    self.current = self.current + 2;
                    in_line = true;
                } else if b == 47 && self.current + 1 < self.source.len()
                    && self.source[self.current + 1] == 42 {
                    self.current = self.current + 2;
                    depth = 1;
                } else {
                    return None;
                }
            }
        }
    }

    /// One token, error or end of input, per call, as `next_spec` says.
    /// The cursor moves strictly forward on every produced item, so a
    /// caller that pulls tokens always makes progress.
    pub fn next(&mut self) -> (r: Option<Result<Token, ScannerError>>)
        requires
            old(self).wf(),
        ensures
            final(self).wf(),
            final(self).source@ == old(self).source@,
            old(self).current <= final(self).current,
            old(self).line <= final(self).line,
            r is Some ==> old(self).current < final(self).current,
            match next_spec(old(self).source@, old(self).current as int, old(self).line as int) {
                ScanStep::Stop(l) => r is None && final(self).current == old(self).source@.len()
                    && final(self).line == l,
                ScanStep::Lexed(t, p, l) => (match r {
                    Some(Ok(tok)) => tok@ == t,
                    _ => false,
                }) && final(self).current == p && final(self).line == l,
                ScanStep::Failed(k, l, p) => (match r {
                    Some(Err(e)) => e.kind == k && e.line == l,
                    _ => false,
                }) && final(self).current == p && final(self).line == l,
            },
    {
        let ghost src = self.source@;
        let ghost pos0 = self.current as int;
        let ghost line0 = self.line as int;
        proof {
            lemma_next_spec_progress(src, pos0, line0);
            lemma_skip_ws_bounds(src, pos0, line0, WsMode::Plain);
        }
        if let Some(e) = self.skip_whitespace() {
            return Some(Err(e));
        }
        if self.current >= self.source.len() {
            return None;
        }
        let ghost p0 = self.current as int;
        let ghost l0 = self.line as int;
        let b = self.source[self.current];
        if b == 40 {
            self.current = self.current + 1;
            Some(Ok(self.make_token(TokenKind::LeftParenthesis)))
        } else if b == 41 {
            self.current = self.current + 1;
            Some(Ok(self.make_token(TokenKind::RightParenthesis)))
        } else if b == 123 {
            self.current = self.current + 1;
            Some(Ok(self.make_token(TokenKind::LeftBrace)))
        } else if b == 125 {
            self.current = self.current + 1;
            Some(Ok(self.make_token(TokenKind::RightBrace)))
        } else if b == 91 {
            self.current = self.current + 1;
            Some(Ok(self.make_token(TokenKind::LeftBracket)))
        } else if b == 93 {
            self.current = self.current + 1;
            Some(Ok(self.make_token(TokenKind::RightBracket)))
        } else if b == 44 {
            self.current = self.current + 1;
            Some(Ok(self.make_token(TokenKind::Comma)))
        } else if b == 46 {
            self.current = self.current + 1;
            Some(Ok(self.make_token(TokenKind::Dot)))
        } else if b == 59 {
            self.current = self.current + 1;
            Some(Ok(self.make_token(TokenKind::Semicolon)))
        } else if b == 43 {
            self.current = self.current + 1;
            Some(Ok(self.make_token(TokenKind::Plus)))
        } else if b == 45 {
            self.current = self.current + 1;
            Some(Ok(self.make_token(TokenKind::Minus)))
        } else if b == 42 {
            self.current = self.current + 1;
            Some(Ok(self.make_token(TokenKind::Star)))
        } else if b == 47 {
            self.current = self.current + 1;
            Some(Ok(self.make_token(TokenKind::Slash)))
        } else if b == 37 {
            self.current = self.current + 1;
            Some(Ok(self.make_token(TokenKind::Modulo)))
        } else if b == 60 {
            self.current = self.current + 1;
            if self.match_byte(61) {
                Some(Ok(self.make_token(TokenKind::LessEqual)))
            } else {
                Some(Ok(self.make_token(TokenKind::Less)))
            }
        } else if b == 62 {
            self.current = self.current + 1;
            if self.match_byte(61) {
                Some(Ok(self.make_token(TokenKind::GreaterEqual)))
            } else {
                Some(Ok(self.make_token(TokenKind::Greater)))
            }
        } else if b == 33 {
            self.current = self.current + 1;
            if self.match_byte(61) {
                Some(Ok(self.make_token(TokenKind::BangEqual)))
            } else {
                Some(Ok(self.make_token(TokenKind::Bang)))
            }
        } else if b == 61 {
            self.current = self.current + 1;
            if self.match_byte(61) {
                Some(Ok(self.make_token(TokenKind::EqualEqual)))
            } else {
                Some(Ok(self.make_token(TokenKind::Equal)))
            }
        } else if b == 34 {
            self.current = self.current + 1;
            let content_start = self.current;
            #[verifier::loop_isolation(false)]
            loop
                invariant
                    self.wf(),
                    self.source@ == src,
                    content_start <= self.current,
                    string_scan(src, content_start as int, l0) == string_scan(
                        src,
                        self.current as int,
                        self.line as int,
                    ),
                decreases src.len() - self.current,
            {
                if self.current >= self.source.len() {
                    return Some(
                        Err(
                            ScannerError {
                                kind: ScanErrorKind::UnterminatedString,
                                line: self.line,
                            },
                        ),
                    );
                }
                let c = self.source[self.current];
                if c == 34 {
                    break;
                }
                if c == 10 {
                    self.line = self.line + 1;
                }
                self.current = self.current + 1;
            }
            let text = copy_range(&self.source, content_start, self.current);
            let tok = Token { kind: TokenKind::StringLiteral, line: self.line, num: 0, text };
            self.current = self.current + 1;
            Some(Ok(tok))
        } else if b >= 48 && b <= 57 {
            let start = self.current;
            self.current = self.current + 1;
            #[verifier::loop_isolation(false)]
            loop
                invariant
                    self.wf(),
                    self.source@ == src,
                    start < self.current,
                    self.line as int == l0,
                    digit_run_end(src, start as int + 1) == digit_run_end(src, self.current as int),
                    forall|i: int| start < i < self.current as int ==> is_digit(src[i]),
                decreases src.len() - self.current,
            {
                if self.current >= self.source.len() {
                    break;
                }
                let c = self.source[self.current];
                if !(c >= 48 && c <= 57) {
                    break;
                }
                self.current = self.current + 1;
            }
            let d1 = self.current;
            let mut took_dot: bool = false;
            if d1 < self.source.len() && self.source[d1] == 46 && d1 + 1 < self.source.len()
                && self.source[d1 + 1] >= 48 && self.source[d1 + 1] <= 57 {
                took_dot = true;
                self.current = d1 + 1;
                #[verifier::loop_isolation(false)]
                loop
                    invariant
                        self.wf(),
                        self.source@ == src,
                        d1 + 1 <= self.current,
                        self.line as int == l0,
                        digit_run_end(src, d1 as int + 1) == digit_run_end(
                            src,
                            self.current as int,
                        ),
                        forall|i: int| d1 < i < self.current as int ==> is_digit(src[i]),
                    decreases src.len() - self.current,
                {
                    if self.current >= self.source.len() {
                        break;
                    }
                    let c = self.source[self.current];
                    if !(c >= 48 && c <= 57) {
                        break;
                    }
                    self.current = self.current + 1;
                }
            }
            let end = self.current;
            let lexeme = copy_range(&self.source, start, end);
            proof {
                let lex = src.subrange(start as int, end as int);
                assert(is_digit(lex[0]));
                assert forall|i: int| 0 <= i < lex.len() implies is_digit(lex[i]) || lex[i]
                    == 46 by {
                    assert(lex[i] == src[start as int + i]);
                }
                assert forall|i: int, j: int|
                    0 <= i < j < lex.len() && lex[i] == 46 implies lex[j] != 46 by {
                    assert(lex[i] == src[start as int + i]);
                    assert(lex[j] == src[start as int + j]);
                }
                assert(is_numeral(lex));
            }
            let bits = decimal_bits(&lexeme);
            Some(
                Ok(Token { kind: TokenKind::NumberLiteral, line: self.line, num: bits, text: Vec::new() }),
            )
        } else if (b >= 65 && b <= 90) || (b >= 97 && b <= 122) || b == 95 {
            let start = self.current;
            self.current = self.current + 1;
            #[verifier::loop_isolation(false)]
            loop
                invariant
                    self.wf(),
                    self.source@ == src,
                    start < self.current,
                    self.line as int == l0,
                    ident_run_end(src, start as int + 1) == ident_run_end(src, self.current as int),
                decreases src.len() - self.current,
            {
                if self.current >= self.source.len() {
                    break;
                }
                let c = self.source[self.current];
                if !((c >= 65 && c <= 90) || (c >= 97 && c <= 122) || (c >= 48 && c <= 57) || c
                    == 95) {
                    break;
                }
                self.current = self.current + 1;
            }
            let word = copy_range(&self.source, start, self.current);
            let kind = keyword_kind(&word);
            if kind == TokenKind::Identifier {
                Some(Ok(Token { kind, line: self.line, num: 0, text: word }))
            } else {
                Some(Ok(Token { kind, line: self.line, num: 0, text: Vec::new() }))
            }
        } else {
            self.current = self.current + 1;
            Some(
                Err(ScannerError { kind: ScanErrorKind::UnrecognizedCharacter, line: self.line }),
            )
        }
    }
}

/// A copy of `src[a..b]` as its own vector.
fn copy_range(src: &Vec<u8>, a: usize, b: usize) -> (r: Vec<u8>)
    requires
        a <= b <= src@.len(),
    ensures
        r@ == src@.subrange(a as int, b as int),
{
    let mut r: Vec<u8> = Vec::new();
    let mut i = a;
    #[verifier::loop_isolation(false)]
    loop
        invariant
            a <= i <= b,
            r@ == src@.subrange(a as int, i as int),
        decreases b - i,
    {
        if i >= b {
            break;
        }
        r.push(src[i]);
        proof {
            assert(r@ =~= src@.subrange(a as int, i as int + 1));
        }
        i = i + 1;
    }
    r
}

/// The keyword a word spells, or `Identifier` if it spells none.
fn keyword_kind(w: &Vec<u8>) -> (k: TokenKind)
    ensures
        k == keyword_kind_spec(w@),
{
    let n = w.len();
    if n == 3 && w[0] == 97 && w[1] == 110 && w[2] == 100 {
        TokenKind::And
    } else if n == 5 && w[0] == 99 && w[1] == 108 && w[2] == 97 && w[3] == 115 && w[4] == 115 {
        TokenKind::Class
    } else if n == 4 && w[0] == 101 && w[1] == 108 && w[2] == 115 && w[3] == 101 {
        TokenKind::Else
    } else if n == 5 && w[0] == 102 && w[1] == 97 && w[2] == 108 && w[3] == 115 && w[4] == 101 {
        TokenKind::False
    } else if n == 3 && w[0] == 102 && w[1] == 111 && w[2] == 114 {
        TokenKind::For
    } else if n == 3 && w[0] == 102 && w[1] == 117 && w[2] == 110 {
        TokenKind::Fun
    } else if n == 2 && w[0] == 105 && w[1] == 102 {
        TokenKind::If
    } else if n == 3 && w[0] == 110 && w[1] == 105 && w[2] == 108 {
        TokenKind::Nil
    } else if n == 2 && w[0] == 111 && w[1] == 114 {
        TokenKind::Or
    } else if n == 5 && w[0] == 112 && w[1] == 114 && w[2] == 105 && w[3] == 110 && w[4] == 116 {
        TokenKind::Print
    } else if n == 6 && w[0] == 114 && w[1] == 101 && w[2] == 116 && w[3] == 117 && w[4] == 114
        && w[5] == 110 {
        TokenKind::Return
    } else if n == 5 && w[0] == 115 && w[1] == 117 && w[2] == 112 && w[3] == 101 && w[4] == 114 {
        TokenKind::Super
    } else if n == 4 && w[0] == 116 && w[1] == 104 && w[2] == 105 && w[3] == 115 {
        TokenKind::This
    } else if n == 4 && w[0] == 116 && w[1] == 114 && w[2] == 117 && w[3] == 101 {
        TokenKind::True
    } else if n == 3 && w[0] == 118 && w[1] == 97 && w[2] == 114 {
        TokenKind::Var
    } else if n == 5 && w[0] == 119 && w[1] == 104 && w[2] == 105 && w[3] == 108 && w[4] == 101 {
        TokenKind::While
    } else {
        TokenKind::Identifier
    }
}


// ---------------------------------------------------------------------------
// Scanning a whole input at once.
// ---------------------------------------------------------------------------
/// One item of a whole-input scan: a token or a recoverable error.
pub enum ScanItem {
    ItemTok(SpecToken),
    ItemErr(ScanErrorKind, int),
}

pub open spec fn item_model(r: Result<Token, ScannerError>) -> ScanItem {
    match r {
        Ok(t) => ScanItem::ItemTok(t@),
        Err(e) => ScanItem::ItemErr(e.kind, e.line as int),
    }
}

pub open spec fn items_model(s: Seq<Result<Token, ScannerError>>) -> Seq<ScanItem> {
    s.map(|i: int, r: Result<Token, ScannerError>| item_model(r))
}

/// `items` is exactly the chain of scanning steps from `(pos, line)` to
/// `(pos2, line2)`.
pub open spec fn scan_steps(
    src: Seq<u8>,
    pos: int,
    line: int,
    items: Seq<ScanItem>,
    pos2: int,
    line2: int,
) -> bool
    decreases items.len(),
{
    if items.len() == 0 {
        pos2 == pos && line2 == line
    } else {
        match next_spec(src, pos, line) {
            ScanStep::Stop(_) => false,
            ScanStep::Lexed(t, p, l) => items[0] == ScanItem::ItemTok(t) && scan_steps(
                src,
                p,
                l,
                items.drop_first(),
                pos2,
                line2,
            ),
            ScanStep::Failed(k, l, p) => items[0] == ScanItem::ItemErr(k, l) && scan_steps(
                src,
                p,
                l,
                items.drop_first(),
                pos2,
                line2,
            ),
        }
    }
}

proof fn lemma_scan_steps_snoc(
    src: Seq<u8>,
    pos: int,
    line: int,
    items: Seq<ScanItem>,
    pos2: int,
    line2: int,
    item: ScanItem,
    pos3: int,
    line3: int,
)
    requires
        scan_steps(src, pos, line, items, pos2, line2),
        match next_spec(src, pos2, line2) {
            ScanStep::Stop(_) => false,
            ScanStep::Lexed(t, p, l) => item == ScanItem::ItemTok(t) && pos3 == p && line3 == l,
            ScanStep::Failed(k, l, p) => item == ScanItem::ItemErr(k, l) && pos3 == p && line3
                == l,
        },
    ensures
        scan_steps(src, pos, line, items.push(item), pos3, line3),
    decreases items.len(),
{
    if items.len() == 0 {
        assert(items.push(item)[0] == item);
        assert(items.push(item).drop_first() =~= Seq::<ScanItem>::empty());
        match next_spec(src, pos, line) {
            ScanStep::Stop(_) => {},
            ScanStep::Lexed(t, p, l) => {
                assert(scan_steps(src, p, l, Seq::<ScanItem>::empty(), pos3, line3));
            },
            ScanStep::Failed(k, l, p) => {
                assert(scan_steps(src, p, l, Seq::<ScanItem>::empty(), pos3, line3));
            },
        }
    } else {
        assert(items.push(item)[0] == items[0]);
        assert(items.push(item).drop_first() =~= items.drop_first().push(item));
        match next_spec(src, pos, line) {
            ScanStep::Stop(_) => {},
            ScanStep::Lexed(t, p, l) => {
                lemma_scan_steps_snoc(
                    src,
                    p,
                    l,
                    items.drop_first(),
                    pos2,
                    line2,
                    item,
                    pos3,
                    line3,
                );
            },
            ScanStep::Failed(k, l, p) => {
                lemma_scan_steps_snoc(
                    src,
                    p,
                    l,
                    items.drop_first(),
                    pos2,
                    line2,
                    item,
                    pos3,
                    line3,
                );
            },
        }
    }
}

impl Scanner {
    /// Scan the whole input: every token and every recoverable error, in
    /// source order, ending exactly at the end of input.
    pub fn lex(&mut self) -> (out: Vec<Result<Token, ScannerError>>)
        requires
            old(self).wf(),
        ensures
            final(self).wf(),
            final(self).source@ == old(self).source@,
            final(self).current == old(self).source@.len(),
            exists|p: int, l: int|
                scan_steps(
                    old(self).source@,
                    old(self).current as int,
                    old(self).line as int,
                    items_model(out@),
                    p,
                    l,
                ) && next_spec(old(self).source@, p, l) is Stop,
    {
        let ghost src = self.source@;
        let ghost pos0 = self.current as int;
        let ghost line0 = self.line as int;
        let mut out: Vec<Result<Token, ScannerError>> = Vec::new();
        #[verifier::loop_isolation(false)]
        loop
            invariant
                self.wf(),
                self.source@ == src,
                scan_steps(
                    src,
                    pos0,
                    line0,
                    items_model(out@),
                    self.current as int,
                    self.line as int,
                ),
            decreases src.len() - self.current,
        {
            let ghost pre_cur = self.current as int;
            let ghost pre_line = self.line as int;
            let ghost pre_items = items_model(out@);
            match self.next() {
                None => {
                    proof {
                        assert(scan_steps(src, pos0, line0, items_model(out@), pre_cur, pre_line)
                            && next_spec(src, pre_cur, pre_line) is Stop);
                    }
                    return out;
                },
                Some(item) => {
                    proof {
                        lemma_scan_steps_snoc(
                            src,
                            pos0,
                            line0,
                            pre_items,
                            pre_cur,
                            pre_line,
                            item_model(item),
                            self.current as int,
                            self.line as int,
                        );
                    }
                    out.push(item);
                    proof {
                        assert(items_model(out@) =~= pre_items.push(item_model(item)));
                    }
                },
            }
        }
    }
}

} // verus!
