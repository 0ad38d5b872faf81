//! The scanner and the single-pass Pratt compiler.
//!
//! The scanner is pull-based: each `scan_tok` call consumes leading
//! whitespace and comments and recognizes exactly one lexeme. Its result is
//! pinned down completely by the specification function [`spec_scan`].
//!
//! The compiler drives the scanner one token of lookahead at a time,
//! applies precedence climbing over the expression grammar, and emits
//! instructions and constants directly into a [`Chunk`] — no syntax tree is
//! built. On success the emitted chunk is proved runnable: its stack
//! discipline never underflows and leaves exactly one value for `Return`.
use vstd::prelude::*;
use vstd::string::StringSliceAdditionalSpecFns;

use crate::machine::InterpretResult;
use crate::op_code::{
    chunk_runnable, chunk_wf, op_delta, op_pops, stack_height, Chunk, ChunkView, Numeral, OpCode,
};
use crate::token::{Token, TokenType};

verus! {

/// An ASCII decimal digit.
pub open spec fn spec_is_digit(c: u8) -> bool {
    48 <= c && c <= 57
}

/// An ASCII letter or an underscore: the bytes that may start an
/// identifier.
pub open spec fn spec_is_alpha(c: u8) -> bool {
    (65 <= c && c <= 90) || (97 <= c && c <= 122) || c == 95
}

/// A byte that may continue an identifier.
pub open spec fn spec_is_ident(c: u8) -> bool {
    spec_is_alpha(c) || spec_is_digit(c)
}

/// Whether `c` may start an identifier.
pub fn is_alpha(c: u8) -> (r: bool)
    ensures
        r == spec_is_alpha(c),
{
    (65 <= c && c <= 90) || (97 <= c && c <= 122) || c == 95
}

/// Position and line after skipping whitespace and line comments from
/// position `i`: spaces, tabs and carriage returns are skipped, a newline
/// is skipped and counted, and `//` skips to the end of the line.
pub open spec fn spec_skip_ws(s: Seq<u8>, i: int, line: int) -> (int, int)
    decreases s.len() - i, 0int,
{
    if i < 0 || i >= s.len() {
        (i, line)
    } else {
        let c = s[i];
        if c == 32 || c == 13 || c == 9 {
            spec_skip_ws(s, i + 1, line)
        } else if c == 10 {
            spec_skip_ws(s, i + 1, line + 1)
        } else if c == 47 && i + 1 < s.len() && s[i + 1] == 47 {
            spec_skip_comment(s, i + 2, line)
        } else {
            (i, line)
        }
    }
}

/// Inside a line comment: everything up to the next newline (which is left
/// for `spec_skip_ws` to count) or the end of the input is skipped.
pub open spec fn spec_skip_comment(s: Seq<u8>, i: int, line: int) -> (int, int)
    decreases s.len() - i, 1int,
{
    if i < 0 || i >= s.len() {
        (i, line)
    } else if s[i] == 10 {
        spec_skip_ws(s, i, line)
    } else {
        spec_skip_comment(s, i + 1, line)
    }
}

/// The first position at or after `i` that does not hold a digit.
pub open spec fn spec_digit_end(s: Seq<u8>, i: int) -> int
    decreases s.len() - i,
{
    if i < 0 || i >= s.len() || !spec_is_digit(s[i]) {
        i
    } else {
        spec_digit_end(s, i + 1)
    }
}

/// The first position at or after `i` that cannot continue an identifier.
pub open spec fn spec_ident_end(s: Seq<u8>, i: int) -> int
    decreases s.len() - i,
{
    if i < 0 || i >= s.len() || !spec_is_ident(s[i]) {
        i
    } else {
        spec_ident_end(s, i + 1)
    }
}

/// The position of the closing `"` at or after `i`, or the input's length
/// if the string is unterminated.
pub open spec fn spec_string_end(s: Seq<u8>, i: int) -> int
    decreases s.len() - i,
{
    if i < 0 || i >= s.len() || s[i] == 34 {
        i
    } else {
        spec_string_end(s, i + 1)
    }
}

/// Where a number starting at `i` ends: a digit run, continued past a `.`
/// only when another digit follows it.
pub open spec fn spec_num_end(s: Seq<u8>, i: int) -> int {
    let d = spec_digit_end(s, i);
    if d < s.len() && s[d] == 46 && d + 1 < s.len() && spec_is_digit(s[d + 1]) {
        spec_digit_end(s, d + 1)
    } else {
        d
    }
}

/// How many newline bytes lie in `s[i..j)`.
pub open spec fn spec_newlines(s: Seq<u8>, i: int, j: int) -> int
    decreases j - i,
{
    if i >= j {
        0
    } else {
        spec_newlines(s, i + 1, j) + if s[i] == 10 {
            1int
        } else {
            0int
        }
    }
}

/// Extending the counted range by one byte on the right adds that byte's
/// contribution.
pub proof fn lemma_newlines_snoc(s: Seq<u8>, i: int, j: int)
    requires
        i <= j,
    ensures
        spec_newlines(s, i, j + 1) == spec_newlines(s, i, j) + if s[j] == 10 {
            1int
        } else {
            0int
        },
    decreases j - i,
{
    if i < j {
        lemma_newlines_snoc(s, i + 1, j);
        assert(spec_newlines(s, i, j + 1) == spec_newlines(s, i + 1, j + 1) + if s[i] == 10 {
            1int
        } else {
            0int
        });
        assert(spec_newlines(s, i, j) == spec_newlines(s, i + 1, j) + if s[i] == 10 {
            1int
        } else {
            0int
        });
    } else {
        assert(spec_newlines(s, i, j) == 0);
        assert(spec_newlines(s, i + 1, j + 1) == 0);
        assert(spec_newlines(s, i, j + 1) == spec_newlines(s, i + 1, j + 1) + if s[i] == 10 {
            1int
        } else {
            0int
        });
    }
}

/// The keyword a lexeme spells, or `Identifier` if it spells none.
pub open spec fn spec_keyword(lex: Seq<u8>) -> TokenType {
    if lex == "and".spec_bytes() {
        TokenType::And
    } else if lex == "class".spec_bytes() {
        TokenType::Class
    } else if lex == "else".spec_bytes() {
        TokenType::Else
    } else if lex == "if".spec_bytes() {
        TokenType::If
    } else if lex == "nil".spec_bytes() {
        TokenType::Nil
    } else if lex == "or".spec_bytes() {
        TokenType::Or
    } else if lex == "print".spec_bytes() {
        TokenType::Print
    } else if lex == "return".spec_bytes() {
        TokenType::Return
    } else if lex == "super".spec_bytes() {
        TokenType::Super
    } else if lex == "this".spec_bytes() {
        TokenType::This
    } else if lex == "true".spec_bytes() {
        TokenType::True
    } else if lex == "false".spec_bytes() {
        TokenType::False
    } else if lex == "for".spec_bytes() {
        TokenType::For
    } else if lex == "while".spec_bytes() {
        TokenType::While
    } else if lex == "var".spec_bytes() {
        TokenType::Var
    } else if lex == "func".spec_bytes() {
        TokenType::Func
    } else {
        TokenType::Identifier
    }
}

/// Everything one `scan_tok` call does: the token's kind, text and line,
/// and the scanner's position and line afterwards.
pub ghost struct ScanOut {
    pub kind: TokenType,
    pub text: Seq<u8>,
    pub end: int,
    pub line: int,
}

/// The single token scanned from position `pos` on line `line`, after
/// leading whitespace and comments.
pub open spec fn spec_scan(s: Seq<u8>, pos: int, line: int) -> ScanOut {
    let skipped = spec_skip_ws(s, pos, line);
    let i = skipped.0;
    let l = skipped.1;
    if i >= s.len() {
        ScanOut { kind: TokenType::Eof, text: Seq::empty(), end: i, line: l }
    } else {
        let c = s[i];
        if spec_is_digit(c) {
            let e = spec_num_end(s, i);
            ScanOut { kind: TokenType::Number, text: s.subrange(i, e), end: e, line: l }
        } else if spec_is_alpha(c) {
            let e = spec_ident_end(s, i);
            ScanOut {
                kind: spec_keyword(s.subrange(i, e)),
                text: s.subrange(i, e),
                end: e,
                line: l,
            }
        } else if c == 34 {
            let q = spec_string_end(s, i + 1);
            if q >= s.len() {
                ScanOut {
                    kind: TokenType::Error,
                    text: "Unterminated string".spec_bytes(),
                    end: s.len() as int,
                    line: l + spec_newlines(s, i + 1, q),
                }
            } else {
                ScanOut {
                    kind: TokenType::Str,
                    text: s.subrange(i, q + 1),
                    end: q + 1,
                    line: l + spec_newlines(s, i + 1, q),
                }
            }
        } else if c == 40 {
            ScanOut { kind: TokenType::LeftParen, text: s.subrange(i, i + 1), end: i + 1, line: l }
        } else if c == 41 {
            ScanOut { kind: TokenType::RightParen, text: s.subrange(i, i + 1), end: i + 1, line: l }
        } else if c == 123 {
            ScanOut { kind: TokenType::LeftBrace, text: s.subrange(i, i + 1), end: i + 1, line: l }
        } else if c == 125 {
            ScanOut { kind: TokenType::RightBrace, text: s.subrange(i, i + 1), end: i + 1, line: l }
        } else if c == 44 {
            ScanOut { kind: TokenType::Comma, text: s.subrange(i, i + 1), end: i + 1, line: l }
        } else if c == 59 {
            ScanOut { kind: TokenType::Semicolon, text: s.subrange(i, i + 1), end: i + 1, line: l }
        } else if c == 45 {
            ScanOut { kind: TokenType::Minus, text: s.subrange(i, i + 1), end: i + 1, line: l }
        } else if c == 43 {
            ScanOut { kind: TokenType::Plus, text: s.subrange(i, i + 1), end: i + 1, line: l }
        } else if c == 42 {
            ScanOut { kind: TokenType::Star, text: s.subrange(i, i + 1), end: i + 1, line: l }
        } else if c == 47 {
            ScanOut { kind: TokenType::Slash, text: s.subrange(i, i + 1), end: i + 1, line: l }
        } else if c == 33 {
            if i + 1 < s.len() && s[i + 1] == 61 {
                ScanOut { kind: TokenType::BangEq, text: s.subrange(i, i + 2), end: i + 2, line: l }
            } else {
                ScanOut { kind: TokenType::Bang, text: s.subrange(i, i + 1), end: i + 1, line: l }
            }
        } else if c == 61 {
            if i + 1 < s.len() && s[i + 1] == 61 {
                ScanOut { kind: TokenType::EqEq, text: s.subrange(i, i + 2), end: i + 2, line: l }
            } else {
                ScanOut { kind: TokenType::Eq, text: s.subrange(i, i + 1), end: i + 1, line: l }
            }
        } else if c == 60 {
            if i + 1 < s.len() && s[i + 1] == 61 {
                ScanOut { kind: TokenType::LessEq, text: s.subrange(i, i + 2), end: i + 2, line: l }
            } else {
                ScanOut { kind: TokenType::Less, text: s.subrange(i, i + 1), end: i + 1, line: l }
            }
        } else if c == 62 {
            if i + 1 < s.len() && s[i + 1] == 61 {
                ScanOut {
                    kind: TokenType::GreaterEq,
                    text: s.subrange(i, i + 2),
                    end: i + 2,
                    line: l,
                }
            } else {
                ScanOut { kind: TokenType::Greater, text: s.subrange(i, i + 1), end: i + 1, line: l }
            }
        } else {
            ScanOut {
                kind: TokenType::Error,
                text: "Unexpected character".spec_bytes(),
                end: i + 1,
                line: l,
            }
        }
    }
}

/// Copies the bytes of `s` into a fresh vector.
pub fn text_bytes(s: &str) -> (out: Vec<u8>)
    ensures
        out@ == s.spec_bytes(),
{
    vstd::slice::slice_to_vec(s.as_bytes())
}

/// Whether two byte vectors hold the same bytes.
#[verifier::loop_isolation(false)]
pub fn bytes_eq(a: &Vec<u8>, b: &Vec<u8>) -> (r: bool)
    ensures
        r == (a@ == b@),
{
    if a.len() != b.len() {
        assert(a@ != b@);
        return false;
    }
    let n: usize = a.len();
    let mut i: usize = 0;
    while i < n
        invariant
            n == a@.len() == b@.len(),
            i <= n,
            forall|k: int| 0 <= k < i ==> a@[k] == b@[k],
        decreases n - i,
    {
        if a[i] != b[i] {
            return false;
        }
        i = i + 1;
    }
    assert(a@ =~= b@);
    true
}

/// The pull-based lexer: it owns the scan cursor over the source bytes and
/// produces one token per `scan_tok` call.
pub struct Scanner {
    pub content: Vec<u8>,
    pub start: usize,
    pub current: usize,
    pub line: usize,
}

impl Scanner {
    /// The scanner's basic sanity: the cursor stays inside the buffer and
    /// the line counter never outruns the bytes consumed.
    pub open spec fn wf(self) -> bool {
        &&& self.start <= self.current <= self.content@.len()
        &&& self.content@.len() < usize::MAX
        &&& 1 <= self.line
        &&& self.line <= self.current + 1
    }

    pub fn new(content: &str) -> (s: Scanner)
        requires
            content.spec_bytes().len() < usize::MAX,
        ensures
            s.wf(),
            s.content@ == content.spec_bytes(),
            s.start == 0,
            s.current == 0,
            s.line == 1,
    {
        Scanner {
            content: vstd::slice::slice_to_vec(content.as_bytes()),
            start: 0,
            current: 0,
            line: 1,
        }
    }

    fn is_at_end(&self) -> (r: bool)
        ensures
            r == (self.current >= self.content@.len()),
    {
        self.current >= self.content.len()
    }

    /// The byte under the cursor, or 0 at the end of the input.
    fn peek(&self) -> (r: u8)
        requires
            self.wf(),
        ensures
            r == if self.current < self.content@.len() {
                self.content@[self.current as int]
            } else {
                0u8
            },
    {
        if self.current < self.content.len() {
            self.content[self.current]
        } else {
            0
        }
    }

    /// The byte after the cursor, or 0 if there is none.
    fn peek_next(&self) -> (r: u8)
        requires
            self.wf(),
        ensures
            r == if self.current + 1 < self.content@.len() {
                self.content@[self.current + 1]
            } else {
                0u8
            },
    {
        if self.current < self.content.len() && self.current + 1 < self.content.len() {
            self.content[self.current + 1]
        } else {
            0
        }
    }

    /// Whether the byte under the cursor is a digit.
    fn peek_is_digit(&self) -> (r: bool)
        requires
            self.wf(),
        ensures
            r == (self.current < self.content@.len() && spec_is_digit(
                self.content@[self.current as int],
            )),
    {
        let c = self.peek();
        self.current < self.content.len() && 48 <= c && c <= 57
    }

    /// Whether the byte under the cursor may continue an identifier.
    fn peek_is_ident(&self) -> (r: bool)
        requires
            self.wf(),
        ensures
            r == (self.current < self.content@.len() && spec_is_ident(
                self.content@[self.current as int],
            )),
    {
        let c = self.peek();
        self.current < self.content.len() && ((65 <= c && c <= 90) || (97 <= c && c <= 122) || c
            == 95 || (48 <= c && c <= 57))
    }

    /// Consumes and returns the byte under the cursor.
    fn advance(&mut self) -> (r: u8)
        requires
            old(self).wf(),
            old(self).current < old(self).content@.len(),
        ensures
            final(self).wf(),
            r == old(self).content@[old(self).current as int],
            final(self).current == old(self).current + 1,
            final(self).content == old(self).content,
            final(self).start == old(self).start,
            final(self).line == old(self).line,
    {
        self.current = self.current + 1;
        self.content[self.current - 1]
    }

    /// Consumes the byte under the cursor iff it equals `expected`.
    fn match_next(&mut self, expected: u8) -> (r: bool)
        requires
            old(self).wf(),
        ensures
            final(self).wf(),
            final(self).content == old(self).content,
            final(self).start == old(self).start,
            final(self).line == old(self).line,
            r == (old(self).current < old(self).content@.len() && old(self).content@[old(
                self,
            ).current as int] == expected),
            r ==> final(self).current == old(self).current + 1,
            !r ==> final(self).current == old(self).current,
    {
        if self.is_at_end() {
            return false;
        }
        if self.content[self.current] != expected {
            return false;
        }
        self.current = self.current + 1;
        true
    }

    /// A token of kind `tok_type` spanning the bytes scanned since `start`.
    fn make_token(&self, tok_type: TokenType) -> (t: Token)
        requires
            self.wf(),
        ensures
            t.tok_type == tok_type,
            t.content@ == self.content@.subrange(self.start as int, self.current as int),
            t.line == self.line,
    {
        let lexeme: &[u8] = vstd::slice::slice_subrange(
            self.content.as_slice(),
            self.start,
            self.current,
        );
        Token::new(tok_type, vstd::slice::slice_to_vec(lexeme), self.line)
    }

    /// An `Error` token whose text is the diagnostic message itself.
    fn make_err(&self, msg: &str) -> (t: Token)
        ensures
            t.tok_type == TokenType::Error,
            t.content@ == msg.spec_bytes(),
            t.line == self.line,
    {
        Token::new(TokenType::Error, text_bytes(msg), self.line)
    }

    /// Skips whitespace and line comments, counting newlines.
    #[verifier::loop_isolation(false)]
    fn skip_white_space(&mut self)
        requires
            old(self).wf(),
        ensures
            final(self).wf(),
            final(self).content == old(self).content,
            final(self).start == old(self).start,
            final(self).current >= old(self).current,
            (final(self).current as int, final(self).line as int) == spec_skip_ws(
                old(self).content@,
                old(self).current as int,
                old(self).line as int,
            ),
    {
        let ghost s = self.content@;
        let ghost c0 = self.current as int;
        let ghost l0 = self.line as int;
        loop
            invariant
                self.wf(),
                self.content == old(self).content,
                self.start == old(self).start,
                self.current >= old(self).current,
                spec_skip_ws(s, c0, l0) == spec_skip_ws(s, self.current as int, self.line as int),
            decreases s.len() - self.current,
        {
            if self.is_at_end() {
                return ;
            }
            let c = self.peek();
            if c == 32 || c == 13 || c == 9 {
                self.current = self.current + 1;
            } else if c == 10 {
                self.line = self.line + 1;
                self.current = self.current + 1;
            } else if c == 47 {
                if self.peek_next() == 47 {
                    self.current = self.current + 2;
                    let ghost c2 = self.current as int;
                    while !self.is_at_end() && self.peek() != 10
                        invariant
                            self.wf(),
                            self.current as int >= c2,
                            self.content == old(self).content,
                            self.start == old(self).start,
                            self.current >= old(self).current,
                            spec_skip_ws(s, c0, l0) == spec_skip_comment(
                                s,
                                self.current as int,
                                self.line as int,
                            ),
                        decreases s.len() - self.current,
                    {
                        self.current = self.current + 1;
                    }
                    if self.is_at_end() {
                        return ;
                    }
                } else {
                    return ;
                }
            } else {
                return ;
            }
        }
    }

    /// Scans the rest of a number: the remaining digits, and a fractional
    /// part if a digit follows the dot.
    #[verifier::loop_isolation(false)]
    fn make_num(&mut self) -> (t: Token)
        requires
            old(self).wf(),
            old(self).start < old(self).current,
            old(self).current == old(self).start + 1,
            spec_is_digit(old(self).content@[old(self).start as int]),
        ensures
            final(self).wf(),
            final(self).content == old(self).content,
            final(self).start == old(self).start,
            final(self).line == old(self).line,
            final(self).current == spec_num_end(old(self).content@, old(self).start as int),
            final(self).current >= old(self).current,
            t.tok_type == TokenType::Number,
            t.content@ == old(self).content@.subrange(
                old(self).start as int,
                spec_num_end(old(self).content@, old(self).start as int),
            ),
            t.line == old(self).line,
    {
        let ghost s = self.content@;
        let ghost st = self.start as int;
        while self.peek_is_digit()
            invariant
                self.wf(),
                self.content == old(self).content,
                self.start == old(self).start,
                self.line == old(self).line,
                self.current >= old(self).current,
                spec_digit_end(s, st) == spec_digit_end(s, self.current as int),
            decreases s.len() - self.current,
        {
            self.current = self.current + 1;
        }
        assert(self.current as int == spec_digit_end(s, st));
        let dot = self.peek();
        let after_dot = self.peek_next();
        if dot == 46 && 48 <= after_dot && after_dot <= 57 {
            self.current = self.current + 1;
            let ghost d1 = self.current as int;
            while self.peek_is_digit()
                invariant
                    self.wf(),
                    self.content == old(self).content,
                    self.start == old(self).start,
                    self.line == old(self).line,
                    self.current >= d1,
                    spec_digit_end(s, d1) == spec_digit_end(s, self.current as int),
                decreases s.len() - self.current,
            {
                self.current = self.current + 1;
            }
            assert(self.current as int == spec_num_end(s, st));
        } else {
            assert(self.current as int == spec_num_end(s, st));
        }
        self.make_token(TokenType::Number)
    }

    /// Scans the rest of a string literal; unterminated strings yield an
    /// `Error` token.
    #[verifier::loop_isolation(false)]
    fn make_str(&mut self) -> (t: Token)
        requires
            old(self).wf(),
            old(self).current == old(self).start + 1,
            old(self).start < old(self).content@.len(),
        ensures
            final(self).wf(),
            final(self).content == old(self).content,
            final(self).start == old(self).start,
            final(self).current >= old(self).current,
            ({
                let s = old(self).content@;
                let i = old(self).start as int;
                let q = spec_string_end(s, i + 1);
                let l = old(self).line as int + spec_newlines(s, i + 1, q);
                if q >= s.len() {
                    &&& final(self).current == s.len()
                    &&& final(self).line == l
                    &&& t.tok_type == TokenType::Error
                    &&& t.content@ == "Unterminated string".spec_bytes()
                    &&& t.line == l
                } else {
                    &&& final(self).current == q + 1
                    &&& final(self).line == l
                    &&& t.tok_type == TokenType::Str
                    &&& t.content@ == s.subrange(i, q + 1)
                    &&& t.line == l
                }
            }),
    {
        let ghost s = self.content@;
        let ghost i = self.start as int;
        let ghost l0 = self.line as int;
        while self.current < self.content.len() && self.peek() != 34
            invariant
                self.wf(),
                self.content == old(self).content,
                self.start == old(self).start,
                self.current >= old(self).current,
                old(self).current == i + 1,
                spec_string_end(s, i + 1) == spec_string_end(s, self.current as int),
                self.line as int == l0 + spec_newlines(s, i + 1, self.current as int),
            decreases s.len() - self.current,
        {
            proof {
                lemma_newlines_snoc(s, i + 1, self.current as int);
            }
            if self.peek() == 10 {
                self.line = self.line + 1;
            }
            self.current = self.current + 1;
        }
        if self.is_at_end() {
            return self.make_err("Unterminated string");
        }
        let _ = self.advance();
        self.make_token(TokenType::Str)
    }

    /// Scans the rest of an identifier and classifies it as a keyword or a
    /// plain identifier.
    #[verifier::loop_isolation(false)]
    fn make_identifier(&mut self) -> (t: Token)
        requires
            old(self).wf(),
            old(self).current == old(self).start + 1,
            old(self).start < old(self).content@.len(),
        ensures
            final(self).wf(),
            final(self).content == old(self).content,
            final(self).start == old(self).start,
            final(self).line == old(self).line,
            final(self).current >= old(self).current,
            ({
                let s = old(self).content@;
                let i = old(self).start as int;
                let e = spec_ident_end(s, i + 1);
                &&& final(self).current == e
                &&& t.tok_type == spec_keyword(s.subrange(i, e))
                &&& t.content@ == s.subrange(i, e)
                &&& t.line == old(self).line
            }),
    {
        let ghost s = self.content@;
        let ghost i1 = self.current as int;
        while self.peek_is_ident()
            invariant
                self.wf(),
                self.content == old(self).content,
                self.start == old(self).start,
                self.line == old(self).line,
                self.current >= old(self).current,
                spec_ident_end(s, i1) == spec_ident_end(s, self.current as int),
            decreases s.len() - self.current,
        {
            self.current = self.current + 1;
        }
        let kind = self.get_id_type();
        self.make_token(kind)
    }

    /// Looks the current lexeme up in the keyword table.
    pub fn get_id_type(&self) -> (r: TokenType)
        requires
            self.wf(),
        ensures
            r == spec_keyword(self.content@.subrange(self.start as int, self.current as int)),
    {
        let lexeme: &[u8] = vstd::slice::slice_subrange(
            self.content.as_slice(),
            self.start,
            self.current,
        );
        let lex: Vec<u8> = vstd::slice::slice_to_vec(lexeme);
        if bytes_eq(&lex, &text_bytes("and")) {
            TokenType::And
        } else if bytes_eq(&lex, &text_bytes("class")) {
            TokenType::Class
        } else if bytes_eq(&lex, &text_bytes("else")) {
            TokenType::Else
        } else if bytes_eq(&lex, &text_bytes("if")) {
            TokenType::If
        } else if bytes_eq(&lex, &text_bytes("nil")) {
            TokenType::Nil
        } else if bytes_eq(&lex, &text_bytes("or")) {
            TokenType::Or
        } else if bytes_eq(&lex, &text_bytes("print")) {
            TokenType::Print
        } else if bytes_eq(&lex, &text_bytes("return")) {
            TokenType::Return
        } else if bytes_eq(&lex, &text_bytes("super")) {
            TokenType::Super
        } else if bytes_eq(&lex, &text_bytes("this")) {
            TokenType::This
        } else if bytes_eq(&lex, &text_bytes("true")) {
            TokenType::True
        } else if bytes_eq(&lex, &text_bytes("false")) {
            TokenType::False
        } else if bytes_eq(&lex, &text_bytes("for")) {
            TokenType::For
        } else if bytes_eq(&lex, &text_bytes("while")) {
            TokenType::While
        } else if bytes_eq(&lex, &text_bytes("var")) {
            TokenType::Var
        } else if bytes_eq(&lex, &text_bytes("func")) {
            TokenType::Func
        } else {
            TokenType::Identifier
        }
    }

    /// Scans exactly one token, as [`spec_scan`] describes: leading
    /// whitespace and comments are consumed first, and at the end of the
    /// input an `Eof` token is produced again on every call.
    pub fn scan_tok(&mut self) -> (t: Token)
        requires
            old(self).wf(),
        ensures
            final(self).wf(),
            final(self).content == old(self).content,
            final(self).current >= old(self).current,
            !(t.tok_type is Eof) ==> final(self).current > old(self).current,
            ({
                let r = spec_scan(old(self).content@, old(self).current as int, old(self).line as int);
                &&& t.tok_type == r.kind
                &&& t.content@ == r.text
                &&& t.line == r.line
                &&& final(self).current == r.end
                &&& final(self).line == r.line
            }),
    {
        self.skip_white_space();
        self.start = self.current;
        if self.is_at_end() {
            return self.make_token(TokenType::Eof);
        }
        let c = self.advance();
        if 48 <= c && c <= 57 {
            return self.make_num();
        }
        if (65 <= c && c <= 90) || (97 <= c && c <= 122) || c == 95 {
            return self.make_identifier();
        }
        if c == 40 {
            return self.make_token(TokenType::LeftParen);
        }
        if c == 41 {
            return self.make_token(TokenType::RightParen);
        }
        if c == 123 {
            return self.make_token(TokenType::LeftBrace);
        }
        if c == 125 {
            return self.make_token(TokenType::RightBrace);
        }
        if c == 44 {
            return self.make_token(TokenType::Comma);
        }
        if c == 59 {
            return self.make_token(TokenType::Semicolon);
        }
        if c == 45 {
            return self.make_token(TokenType::Minus);
        }
        if c == 43 {
            return self.make_token(TokenType::Plus);
        }
        if c == 42 {
            return self.make_token(TokenType::Star);
        }
        if c == 47 {
            return self.make_token(TokenType::Slash);
        }
        if c == 33 {
            let two = self.match_next(61);
            return if two {
                self.make_token(TokenType::BangEq)
            } else {
                self.make_token(TokenType::Bang)
            };
        }
        if c == 61 {
            let two = self.match_next(61);
            return if two {
                self.make_token(TokenType::EqEq)
            } else {
                self.make_token(TokenType::Eq)
            };
        }
        if c == 60 {
            let two = self.match_next(61);
            return if two {
                self.make_token(TokenType::LessEq)
            } else {
                self.make_token(TokenType::Less)
            };
        }
        if c == 62 {
            let two = self.match_next(61);
            return if two {
                self.make_token(TokenType::GreaterEq)
            } else {
                self.make_token(TokenType::Greater)
            };
        }
        if c == 34 {
            return self.make_str();
        }
        self.make_err("Unexpected character")
    }
}

/// Where a diagnostic points in the source: at the end of the input, at a
/// lexeme, or nowhere (a lexical error token carries its own message).
#[derive(Clone, PartialEq, Eq, Debug)]
pub enum DiagnosticLocation {
    AtEnd,
    At(Vec<u8>),
    Bare,
}

/// One compile-time diagnostic: the line it points at, where it points,
/// and its message.
#[derive(Clone, PartialEq, Eq, Debug)]
pub struct Diagnostic {
    pub line: usize,
    pub location: DiagnosticLocation,
    pub message: Vec<u8>,
}

/// The rendered form of a diagnostic:
/// `[line <N>] Error< at end | at '<lexeme>' | >: <message>`.
pub open spec fn spec_render(d: Diagnostic) -> Seq<u8> {
    "[line ".spec_bytes() + crate::op_code::spec_dec_digits(d.line as int) + "] Error".spec_bytes()
        + (match d.location {
        DiagnosticLocation::AtEnd => " at end".spec_bytes(),
        DiagnosticLocation::At(l) => " at '".spec_bytes() + l@ + "'".spec_bytes(),
        DiagnosticLocation::Bare => Seq::<u8>::empty(),
    }) + ": ".spec_bytes() + d.message@
}

impl Diagnostic {
    /// Renders the diagnostic in the exact reporting format.
    pub fn render(&self) -> (out: Vec<u8>)
        ensures
            out@ == spec_render(*self),
    {
        let mut out: Vec<u8> = Vec::new();
        crate::op_code::push_text(&mut out, "[line ");
        crate::op_code::push_dec(&mut out, self.line);
        crate::op_code::push_text(&mut out, "] Error");
        match &self.location {
            DiagnosticLocation::AtEnd => {
                crate::op_code::push_text(&mut out, " at end");
            },
            DiagnosticLocation::At(l) => {
                crate::op_code::push_text(&mut out, " at '");
                out.extend_from_slice(l.as_slice());
                crate::op_code::push_text(&mut out, "'");
            },
            DiagnosticLocation::Bare => {},
        }
        crate::op_code::push_text(&mut out, ": ");
        out.extend_from_slice(self.message.as_slice());
        assert(out@ =~= spec_render(*self));
        out
    }
}

/// The parser's transient state for one compile: one token of lookahead,
/// the token just consumed, and the error flags of panic-mode reporting.
pub struct Parser {
    pub curr_tok: Option<Token>,
    pub prev_tok: Option<Token>,
    pub error_occurred: bool,
    pub panic: bool,
    pub diagnostics: Vec<Diagnostic>,
}

impl Parser {
    /// Panic-mode bookkeeping: in the expression-only grammar there is no
    /// synchronization point, so panic is entered at most once, exactly
    /// when an error is recorded — hence at most one diagnostic.
    pub open spec fn wf(self) -> bool {
        &&& self.panic == self.error_occurred
        &&& self.diagnostics@.len() == if self.panic {
            1int
        } else {
            0int
        }
    }

    /// Records a diagnostic for the current or the previous token, unless
    /// panic mode already suppresses it.
    fn error_at(&mut self, current_tok: bool, msg: &str)
        requires
            old(self).wf(),
            current_tok ==> old(self).curr_tok is Some,
            !current_tok ==> old(self).prev_tok is Some,
        ensures
            final(self).wf(),
            final(self).panic,
            final(self).error_occurred,
            final(self).curr_tok == old(self).curr_tok,
            final(self).prev_tok == old(self).prev_tok,
            old(self).panic ==> *final(self) == *old(self),
            !old(self).panic ==> ({
                let tok = if current_tok {
                    old(self).curr_tok.unwrap()
                } else {
                    old(self).prev_tok.unwrap()
                };
                let d = final(self).diagnostics@.last();
                &&& final(self).diagnostics@.len() == 1
                &&& d.line == tok.line
                &&& d.message@ == msg.spec_bytes()
                &&& (tok.tok_type is Eof ==> d.location is AtEnd)
                &&& (tok.tok_type is Error ==> d.location is Bare)
                &&& (!(tok.tok_type is Eof) && !(tok.tok_type is Error)
                    ==> (d.location matches DiagnosticLocation::At(l) && l@ == tok.content@))
            }),
    {
        if self.panic {
            return ;
        }
        self.panic = true;
        let tok: &Token = if current_tok {
            self.curr_tok.as_ref().unwrap()
        } else {
            self.prev_tok.as_ref().unwrap()
        };
        let line: usize = tok.line;
        let location: DiagnosticLocation = if tok.tok_type == TokenType::Eof {
            DiagnosticLocation::AtEnd
        } else if tok.tok_type == TokenType::Error {
            DiagnosticLocation::Bare
        } else {
            DiagnosticLocation::At(vstd::slice::slice_to_vec(tok.content.as_slice()))
        };
        self.diagnostics.push(Diagnostic { line, location, message: text_bytes(msg) });
        self.error_occurred = true;
    }

    /// Records `msg` against the current (lookahead) token.
    pub fn error_at_curr(&mut self, msg: &str)
        requires
            old(self).wf(),
            old(self).curr_tok is Some,
        ensures
            final(self).wf(),
            final(self).panic,
            final(self).error_occurred,
            final(self).curr_tok == old(self).curr_tok,
            final(self).prev_tok == old(self).prev_tok,
            old(self).panic ==> *final(self) == *old(self),
            !old(self).panic ==> ({
                let tok = old(self).curr_tok.unwrap();
                let d = final(self).diagnostics@.last();
                &&& final(self).diagnostics@.len() == 1
                &&& d.line == tok.line
                &&& d.message@ == msg.spec_bytes()
                &&& (tok.tok_type is Eof ==> d.location is AtEnd)
                &&& (tok.tok_type is Error ==> d.location is Bare)
                &&& (!(tok.tok_type is Eof) && !(tok.tok_type is Error)
                    ==> (d.location matches DiagnosticLocation::At(l) && l@ == tok.content@))
            }),
    {
        self.error_at(true, msg);
    }

    /// Records `msg` against the token just consumed.
    pub fn error(&mut self, msg: &str)
        requires
            old(self).wf(),
            old(self).prev_tok is Some,
        ensures
            final(self).wf(),
            final(self).panic,
            final(self).error_occurred,
            final(self).curr_tok == old(self).curr_tok,
            final(self).prev_tok == old(self).prev_tok,
            old(self).panic ==> *final(self) == *old(self),
            !old(self).panic ==> ({
                let tok = old(self).prev_tok.unwrap();
                let d = final(self).diagnostics@.last();
                &&& final(self).diagnostics@.len() == 1
                &&& d.line == tok.line
                &&& d.message@ == msg.spec_bytes()
                &&& (tok.tok_type is Eof ==> d.location is AtEnd)
                &&& (tok.tok_type is Error ==> d.location is Bare)
                &&& (!(tok.tok_type is Eof) && !(tok.tok_type is Error)
                    ==> (d.location matches DiagnosticLocation::At(l) && l@ == tok.content@))
            }),
    {
        self.error_at(false, msg);
    }

    /// Surfaces a lexical error token: its text is the message and the
    /// diagnostic carries no location suffix.
    fn lexical_error_at_curr(&mut self)
        requires
            old(self).wf(),
            old(self).curr_tok is Some,
            old(self).curr_tok.unwrap().tok_type is Error,
        ensures
            final(self).wf(),
            final(self).panic,
            final(self).error_occurred,
            final(self).curr_tok == old(self).curr_tok,
            final(self).prev_tok == old(self).prev_tok,
            old(self).panic ==> *final(self) == *old(self),
            !old(self).panic ==> ({
                let tok = old(self).curr_tok.unwrap();
                let d = final(self).diagnostics@.last();
                &&& final(self).diagnostics@.len() == 1
                &&& d.line == tok.line
                &&& d.message@ == tok.content@
                &&& d.location is Bare
            }),
    {
        if self.panic {
            return ;
        }
        self.panic = true;
        let tok: &Token = self.curr_tok.as_ref().unwrap();
        let line: usize = tok.line;
        let message: Vec<u8> = vstd::slice::slice_to_vec(tok.content.as_slice());
        self.diagnostics.push(
            Diagnostic { line, location: DiagnosticLocation::Bare, message },
        );
        self.error_occurred = true;
    }

    /// Appends one instruction, tagged with the previous token's line.
    pub fn emit_byte(&self, chunk: &mut Chunk, op_code: OpCode)
        requires
            self.prev_tok is Some,
            chunk_wf(old(chunk)@),
            (op_code matches OpCode::Constant(j) ==> j < old(chunk)@.constants.len()),
        ensures
            chunk_wf(final(chunk)@),
            final(chunk)@.code == old(chunk)@.code.push(op_code),
            final(chunk)@.lines == old(chunk)@.lines.push(self.prev_tok.unwrap().line),
            final(chunk)@.constants == old(chunk)@.constants,
    {
        let line: usize = self.prev_tok.as_ref().unwrap().line;
        chunk.add_instr(op_code, line);
    }

    /// Appends a constant to the pool and the instruction referencing it,
    /// tagged with the previous token's line.
    pub fn emit_constant(&self, chunk: &mut Chunk, value: Numeral)
        requires
            self.prev_tok is Some,
            chunk_wf(old(chunk)@),
        ensures
            chunk_wf(final(chunk)@),
            final(chunk)@.constants == old(chunk)@.constants.push(value@),
            final(chunk)@.code == old(chunk)@.code.push(
                OpCode::Constant(old(chunk)@.constants.len() as usize),
            ),
            final(chunk)@.lines == old(chunk)@.lines.push(self.prev_tok.unwrap().line),
    {
        let line: usize = self.prev_tok.as_ref().unwrap().line;
        chunk.add_constant(value, line);
    }

    /// Emits the previous token — a number literal — as a constant: its
    /// exact spelling enters the pool, to be converted by the machine's
    /// driver when it is pushed.
    pub fn add_number(&self, chunk: &mut Chunk)
        requires
            self.prev_tok is Some,
            chunk_wf(old(chunk)@),
        ensures
            chunk_wf(final(chunk)@),
            final(chunk)@.constants == old(chunk)@.constants.push(self.prev_tok.unwrap().content@),
            final(chunk)@.code == old(chunk)@.code.push(
                OpCode::Constant(old(chunk)@.constants.len() as usize),
            ),
            final(chunk)@.lines == old(chunk)@.lines.push(self.prev_tok.unwrap().line),
    {
        let text: Vec<u8> = vstd::slice::slice_to_vec(
            self.prev_tok.as_ref().unwrap().content.as_slice(),
        );
        self.emit_constant(chunk, Numeral::new(text));
    }
}


/// The documented precedence levels, low to high.
pub const PREC_NONE: u8 = 0;

pub const PREC_ASSIGNMENT: u8 = 1;

pub const PREC_OR: u8 = 2;

pub const PREC_AND: u8 = 3;

pub const PREC_EQUALITY: u8 = 4;

pub const PREC_COMPARISON: u8 = 5;

pub const PREC_TERM: u8 = 6;

pub const PREC_FACTOR: u8 = 7;

pub const PREC_UNARY: u8 = 8;

pub const PREC_CALL: u8 = 9;

pub const PREC_PRIMARY: u8 = 10;

/// The infix binding precedence of a token: equality, comparison, term and
/// factor operators in their documented order; everything else binds not
/// at all.
pub open spec fn spec_infix_precedence(t: TokenType) -> u8 {
    match t {
        TokenType::BangEq => PREC_EQUALITY,
        TokenType::EqEq => PREC_EQUALITY,
        TokenType::Greater => PREC_COMPARISON,
        TokenType::GreaterEq => PREC_COMPARISON,
        TokenType::Less => PREC_COMPARISON,
        TokenType::LessEq => PREC_COMPARISON,
        TokenType::Plus => PREC_TERM,
        TokenType::Minus => PREC_TERM,
        TokenType::Star => PREC_FACTOR,
        TokenType::Slash => PREC_FACTOR,
        _ => PREC_NONE,
    }
}

/// The infix binding precedence of a token.
pub fn infix_precedence(t: TokenType) -> (r: u8)
    ensures
        r == spec_infix_precedence(t),
{
    match t {
        TokenType::BangEq => PREC_EQUALITY,
        TokenType::EqEq => PREC_EQUALITY,
        TokenType::Greater => PREC_COMPARISON,
        TokenType::GreaterEq => PREC_COMPARISON,
        TokenType::Less => PREC_COMPARISON,
        TokenType::LessEq => PREC_COMPARISON,
        TokenType::Plus => PREC_TERM,
        TokenType::Minus => PREC_TERM,
        TokenType::Star => PREC_FACTOR,
        TokenType::Slash => PREC_FACTOR,
        _ => PREC_NONE,
    }
}

/// The precedence table is total and consistent: every token has exactly
/// one binding precedence; multiplication and division bind tighter than
/// addition and subtraction, which bind tighter than the comparison
/// operators, which bind tighter than the equality operators; and unary
/// minus binds tighter than every binary operator. The compiled parse
/// shape follows this same table: `sp_parse_prec` and `sp_infix`, which
/// pin `compile`, consult `spec_infix_precedence` and nothing else.
pub proof fn lemma_precedence_table()
    ensures
        spec_infix_precedence(TokenType::Star) == PREC_FACTOR,
        spec_infix_precedence(TokenType::Slash) == PREC_FACTOR,
        spec_infix_precedence(TokenType::Plus) == PREC_TERM,
        spec_infix_precedence(TokenType::Minus) == PREC_TERM,
        spec_infix_precedence(TokenType::Greater) == PREC_COMPARISON,
        spec_infix_precedence(TokenType::GreaterEq) == PREC_COMPARISON,
        spec_infix_precedence(TokenType::Less) == PREC_COMPARISON,
        spec_infix_precedence(TokenType::LessEq) == PREC_COMPARISON,
        spec_infix_precedence(TokenType::EqEq) == PREC_EQUALITY,
        spec_infix_precedence(TokenType::BangEq) == PREC_EQUALITY,
        PREC_FACTOR > PREC_TERM && PREC_TERM > PREC_COMPARISON && PREC_COMPARISON > PREC_EQUALITY
            && PREC_EQUALITY > PREC_AND && PREC_AND > PREC_OR && PREC_OR > PREC_ASSIGNMENT
            && PREC_ASSIGNMENT > PREC_NONE,
        forall|t: TokenType| spec_infix_precedence(t) < PREC_UNARY,
        PREC_UNARY < PREC_CALL && PREC_CALL < PREC_PRIMARY,
{
}

/// The parser's termination measure: the bytes the scanner has not yet
/// consumed, plus one while the lookahead still holds a real token.
pub open spec fn parse_measure(s: Scanner, p: Parser) -> int {
    s.content@.len() - s.current + (match p.curr_tok {
        Option::Some(t) => if t.tok_type is Eof {
            0int
        } else {
            1int
        },
        Option::None => 1int,
    })
}

/// `post` extends `pre` by appending instructions and constants only.
pub open spec fn code_extends(pre: ChunkView, post: ChunkView) -> bool {
    &&& pre.code.len() <= post.code.len()
    &&& forall|i: int| 0 <= i < pre.code.len() ==> post.code[i] == #[trigger] pre.code[i]
    &&& pre.constants.len() <= post.constants.len()
    &&& forall|i: int|
        0 <= i < pre.constants.len() ==> post.constants[i] == #[trigger] pre.constants[i]
}

/// The instructions appended between `pre` and `post` never underflow an
/// operand stack that already holds `depth` values where the segment
/// begins, and none of them is a `Return`.
pub open spec fn seg_safe(pre: ChunkView, post: ChunkView, depth: int) -> bool {
    &&& forall|k: int|
        pre.code.len() <= k < post.code.len() ==> !((#[trigger] post.code[k]) is Return)
    &&& forall|k: int|
        pre.code.len() <= k < post.code.len() ==> depth + stack_height(post.code, k)
            - stack_height(post.code, pre.code.len() as int) >= op_pops(#[trigger] post.code[k])
}

/// The net number of values the appended segment leaves on the stack.
pub open spec fn seg_net(pre: ChunkView, post: ChunkView) -> int {
    stack_height(post.code, post.code.len() as int) - stack_height(
        post.code,
        pre.code.len() as int,
    )
}

/// Extension of the chunk composes.
pub proof fn lemma_code_extends_trans(a: ChunkView, b: ChunkView, c: ChunkView)
    requires
        code_extends(a, b),
        code_extends(b, c),
    ensures
        code_extends(a, c),
{
    assert forall|i: int| 0 <= i < a.code.len() implies c.code[i] == #[trigger] a.code[i] by {
        assert(b.code[i] == a.code[i]);
        assert(c.code[i] == b.code[i]);
    };
    assert forall|i: int|
        0 <= i < a.constants.len() implies c.constants[i] == #[trigger] a.constants[i] by {
        assert(b.constants[i] == a.constants[i]);
        assert(c.constants[i] == b.constants[i]);
    };
}

/// A segment that is safe at some depth is safe at any greater depth.
pub proof fn lemma_seg_safe_mono(pre: ChunkView, post: ChunkView, d1: int, d2: int)
    requires
        seg_safe(pre, post, d1),
        d1 <= d2,
    ensures
        seg_safe(pre, post, d2),
{
}

/// Appending a single non-`Return` instruction whose operands are covered
/// by `depth` is a safe segment with that instruction's net effect.
pub proof fn lemma_seg_single(pre: ChunkView, post: ChunkView, op: OpCode, depth: int)
    requires
        post.code == pre.code.push(op),
        !(op is Return),
        depth >= op_pops(op),
    ensures
        seg_safe(pre, post, depth),
        seg_net(pre, post) == op_delta(op),
{
    assert(post.code[pre.code.len() as int] == op);
    assert(stack_height(post.code, pre.code.len() as int + 1) == stack_height(
        post.code,
        pre.code.len() as int,
    ) + op_delta(op));
}

/// Two safe segments compose: if the second one's depth allowance equals
/// the first one's depth allowance plus what the first leaves behind, the
/// whole appended stretch is safe and the net effects add.
pub proof fn lemma_seg_compose(a: ChunkView, b: ChunkView, c: ChunkView, depth: int)
    requires
        code_extends(a, b),
        code_extends(b, c),
        seg_safe(a, b, depth),
        seg_safe(b, c, depth + seg_net(a, b)),
    ensures
        code_extends(a, c),
        seg_safe(a, c, depth),
        seg_net(a, c) == seg_net(a, b) + seg_net(b, c),
{
    assert forall|k: int| 0 <= k <= b.code.len() implies stack_height(c.code, k) == stack_height(
        b.code,
        k,
    ) by {
        crate::op_code::lemma_stack_height_prefix(b.code, c.code, k);
    };
    assert forall|k: int|
        a.code.len() <= k < c.code.len() implies !((#[trigger] c.code[k]) is Return) by {
        if k < b.code.len() {
            assert(c.code[k] == b.code[k]);
        }
    };
    assert forall|k: int|
        a.code.len() <= k < c.code.len() implies depth + stack_height(c.code, k) - stack_height(
        c.code,
        a.code.len() as int,
    ) >= op_pops(#[trigger] c.code[k]) by {
        if k < b.code.len() {
            assert(c.code[k] == b.code[k]);
            assert(stack_height(c.code, k) == stack_height(b.code, k));
        }
    };
}

impl Scanner {
    /// Pulls the next token into the parser's lookahead, moving the old
    /// lookahead into `prev_tok`; lexical error tokens are reported (once
    /// panic mode allows) and skipped, so the new lookahead is never an
    /// `Error` token.
    #[verifier::loop_isolation(false)]
    pub fn advance_tok(&mut self, parser: &mut Parser)
        requires
            old(self).wf(),
            old(parser).wf(),
        ensures
            final(self).wf(),
            final(parser).wf(),
            final(self).content == old(self).content,
            final(parser).prev_tok == old(parser).curr_tok,
            final(parser).curr_tok is Some,
            !(final(parser).curr_tok.unwrap().tok_type is Error),
            old(parser).panic ==> final(parser).panic,
            old(parser).panic ==> final(parser).diagnostics == old(parser).diagnostics,
            parse_measure(*final(self), *final(parser)) <= parse_measure(
                *old(self),
                *old(parser),
            ),
            (old(parser).curr_tok is Some && !(old(parser).curr_tok.unwrap().tok_type is Eof))
                ==> parse_measure(*final(self), *final(parser)) < parse_measure(
                *old(self),
                *old(parser),
            ),
            !old(parser).panic ==> ({
                let r = spec_scan(
                    old(self).content@,
                    old(self).current as int,
                    old(self).line as int,
                );
                &&& (final(parser).panic <==> r.kind is Error)
                &&& (!(r.kind is Error) ==> {
                    &&& final(self).current as int == r.end
                    &&& final(self).line as int == r.line
                    &&& (final(parser).curr_tok matches Some(t) && t.tok_type == r.kind
                        && t.content@ == r.text && t.line as int == r.line)
                    &&& final(parser).diagnostics == old(parser).diagnostics
                    &&& final(parser).error_occurred == old(parser).error_occurred
                })
                &&& (r.kind is Error ==> ({
                    let d = final(parser).diagnostics@.last();
                    &&& final(parser).diagnostics@.len() == 1
                    &&& d.line as int == r.line
                    &&& d.message@ == r.text
                    &&& d.location is Bare
                }))
            }),
    {
        let ghost cur0 = self.current as int;
        let mut moved: Option<Token> = None;
        core::mem::swap(&mut moved, &mut parser.curr_tok);
        parser.prev_tok = moved;
        let t = self.scan_tok();
        let first_err = t.tok_type == TokenType::Error;
        parser.curr_tok = Some(t);
        if !first_err {
            return ;
        }
        parser.lexical_error_at_curr();
        let ghost d1 = parser.diagnostics;
        loop
            invariant
                self.wf(),
                parser.wf(),
                parser.panic,
                self.content == old(self).content,
                parser.prev_tok == old(parser).curr_tok,
                parser.diagnostics == d1,
                parser.error_occurred,
                self.current as int > cur0,
            decreases self.content@.len() - self.current,
        {
            let t2 = self.scan_tok();
            let is_err = t2.tok_type == TokenType::Error;
            parser.curr_tok = Some(t2);
            if !is_err {
                break ;
            }
            parser.lexical_error_at_curr();
        }
    }

    /// Consumes the lookahead when it has the expected kind; otherwise
    /// reports `msg` at it.
    pub fn consume(&mut self, parser: &mut Parser, tok_type: TokenType, msg: &str)
        requires
            old(self).wf(),
            old(parser).wf(),
            old(parser).curr_tok is Some,
        ensures
            final(self).wf(),
            final(parser).wf(),
            final(self).content == old(self).content,
            final(parser).curr_tok is Some,
            old(parser).prev_tok is Some ==> final(parser).prev_tok is Some,
            old(parser).panic ==> final(parser).panic,
            old(parser).panic ==> final(parser).diagnostics == old(parser).diagnostics,
            parse_measure(*final(self), *final(parser)) <= parse_measure(
                *old(self),
                *old(parser),
            ),
            !final(parser).panic ==> old(parser).curr_tok.unwrap().tok_type == tok_type,
            !old(parser).panic ==> ({
                let r = spec_scan(
                    old(self).content@,
                    old(self).current as int,
                    old(self).line as int,
                );
                &&& (old(parser).curr_tok.unwrap().tok_type == tok_type ==> {
                    &&& (final(parser).panic <==> r.kind is Error)
                    &&& final(parser).prev_tok == old(parser).curr_tok
                    &&& (r.kind is Error ==> ({
                        let d = final(parser).diagnostics@.last();
                        &&& final(parser).diagnostics@.len() == 1
                        &&& d.line as int == r.line
                        &&& d.message@ == r.text
                        &&& d.location is Bare
                    }))
                    &&& (!(r.kind is Error) ==> {
                        &&& final(self).current as int == r.end
                        &&& final(self).line as int == r.line
                        &&& (final(parser).curr_tok matches Some(t) && t.tok_type == r.kind
                            && t.content@ == r.text && t.line as int == r.line)
                        &&& final(parser).diagnostics == old(parser).diagnostics
                        &&& final(parser).error_occurred == old(parser).error_occurred
                    })
                })
                &&& (old(parser).curr_tok.unwrap().tok_type != tok_type ==> {
                    &&& final(parser).panic
                    &&& *final(self) == *old(self)
                    &&& final(parser).curr_tok == old(parser).curr_tok
                    &&& final(parser).prev_tok == old(parser).prev_tok
                    &&& ({
                        let tok = old(parser).curr_tok.unwrap();
                        let d = final(parser).diagnostics@.last();
                        &&& final(parser).diagnostics@.len() == 1
                        &&& d.line == tok.line
                        &&& d.message@ == msg.spec_bytes()
                        &&& (tok.tok_type is Eof ==> d.location is AtEnd)
                        &&& (tok.tok_type is Error ==> d.location is Bare)
                        &&& (!(tok.tok_type is Eof) && !(tok.tok_type is Error) ==> (
                            d.location matches DiagnosticLocation::At(l) && l@ == tok.content@))
                    })
                })
            }),
    {
        let matched = match &parser.curr_tok {
            Option::Some(t) => t.tok_type == tok_type,
            Option::None => false,
        };
        if matched {
            self.advance_tok(parser);
            return ;
        }
        parser.error_at_curr(msg);
    }
}



/// A token as the parser sees it: the scan cursor field is dropped.
pub open spec fn norm_scan(t: ScanOut) -> ScanOut {
    ScanOut { kind: t.kind, text: t.text, end: 0, line: t.line }
}

/// The abstraction of one lookahead slot.
pub open spec fn tok_abs(t: Option<Token>) -> ScanOut {
    match t {
        Option::Some(tok) => ScanOut {
            kind: tok.tok_type,
            text: tok.content@,
            end: 0,
            line: tok.line as int,
        },
        Option::None => ScanOut { kind: TokenType::Eof, text: Seq::empty(), end: 0, line: 0 },
    }
}

/// Everything the compiler's run depends on: the scan cursor and line, the
/// two lookahead slots, and the chunk built so far.
pub ghost struct SpParse {
    pub pos: int,
    pub line: int,
    pub prev: ScanOut,
    pub curr: ScanOut,
    pub code: Seq<OpCode>,
    pub lines: Seq<usize>,
    pub consts: Seq<Seq<u8>>,
}

/// The first error's diagnostic: its line, where it points (0 at end,
/// 1 at a lexeme, 2 bare), the lexeme, and the message.
pub ghost struct SpDiag {
    pub line: int,
    pub loc_kind: int,
    pub lexeme: Seq<u8>,
    pub message: Seq<u8>,
}

/// A compile step's outcome: on `ok`, `st` is the state afterwards; a
/// failed step fails the whole compile with `diag` (panic mode records
/// exactly the first error, and nothing after it is observable).
pub ghost struct SpOut {
    pub ok: bool,
    pub st: SpParse,
    pub diag: SpDiag,
}

/// The diagnostic reported at a token: `at end` for the end of the input,
/// bare for a lexical error token (its text is the message), otherwise at
/// the token's lexeme.
pub open spec fn sp_diag_at(t: ScanOut, message: Seq<u8>) -> SpDiag {
    SpDiag {
        line: t.line,
        loc_kind: if t.kind is Eof {
            0int
        } else if t.kind is Error {
            2int
        } else {
            1int
        },
        lexeme: t.text,
        message,
    }
}

/// The diagnostic a lexical error token reports: bare, with the token's
/// text as the message.
pub open spec fn sp_lexical_diag(t: ScanOut) -> SpDiag {
    SpDiag { line: t.line, loc_kind: 2, lexeme: t.text, message: t.text }
}

/// Whether a recorded diagnostic is the mirrored one.
pub open spec fn diag_matches(d: Diagnostic, sd: SpDiag) -> bool {
    &&& d.line as int == sd.line
    &&& d.message@ == sd.message
    &&& (sd.loc_kind == 0 ==> d.location is AtEnd)
    &&& (sd.loc_kind == 2 ==> d.location is Bare)
    &&& (sd.loc_kind == 1 ==> (d.location matches DiagnosticLocation::At(l) && l@ == sd.lexeme))
}

/// The abstraction of the compiler's executable state.
pub open spec fn abs_state(s: Scanner, p: Parser, c: ChunkView) -> SpParse {
    SpParse {
        pos: s.current as int,
        line: s.line as int,
        prev: tok_abs(p.prev_tok),
        curr: tok_abs(p.curr_tok),
        code: c.code,
        lines: c.lines,
        consts: c.constants,
    }
}

/// Pulling one token: the lookahead moves to `prev` and the next scanned
/// token becomes the lookahead.
pub open spec fn sp_advance(s: Seq<u8>, st: SpParse) -> SpParse {
    let r = spec_scan(s, st.pos, st.line);
    SpParse {
        pos: r.end,
        line: r.line,
        prev: st.curr,
        curr: norm_scan(r),
        code: st.code,
        lines: st.lines,
        consts: st.consts,
    }
}

pub open spec fn sp_fail(st: SpParse, diag: SpDiag) -> SpOut {
    SpOut { ok: false, st, diag }
}

pub open spec fn sp_ok(st: SpParse) -> SpOut {
    SpOut { ok: true, st, diag: SpDiag { line: 0, loc_kind: 0, lexeme: Seq::empty(), message: Seq::empty() } }
}

/// The opcode a binary operator token compiles to.
pub open spec fn sp_op_of(t: TokenType) -> OpCode {
    match t {
        TokenType::Plus => OpCode::Add,
        TokenType::Minus => OpCode::Subtract,
        TokenType::Star => OpCode::Multiply,
        _ => OpCode::Divide,
    }
}

/// Appending one instruction, tagged with the previous token's line.
pub open spec fn sp_emit(st: SpParse, op: OpCode) -> SpParse {
    SpParse {
        pos: st.pos,
        line: st.line,
        prev: st.prev,
        curr: st.curr,
        code: st.code.push(op),
        lines: st.lines.push(st.prev.line as usize),
        consts: st.consts,
    }
}

/// Precedence climbing, mirrored: consume one token, apply its prefix rule
/// (number, unary minus, grouping), then fold in infix operators. `fuel`
/// only forces termination; `spec_compile` supplies more than any input
/// can use, so it never runs out on a run the compiler itself finishes.
pub open spec fn sp_parse_prec(s: Seq<u8>, st: SpParse, prec: u8, fuel: nat) -> SpOut
    decreases fuel,
{
    if fuel == 0 {
        sp_fail(st, sp_lexical_diag(st.curr))
    } else {
        let st1 = sp_advance(s, st);
        if st1.curr.kind is Error {
            sp_fail(st1, sp_lexical_diag(st1.curr))
        } else if st1.prev.kind is Number {
            let st2 = SpParse {
                pos: st1.pos,
                line: st1.line,
                prev: st1.prev,
                curr: st1.curr,
                code: st1.code.push(OpCode::Constant(st1.consts.len() as usize)),
                lines: st1.lines.push(st1.prev.line as usize),
                consts: st1.consts.push(st1.prev.text),
            };
            sp_infix(s, st2, prec, (fuel - 1) as nat)
        } else if st1.prev.kind is Minus {
            let pr = sp_unary(s, st1, (fuel - 1) as nat);
            if !pr.ok {
                pr
            } else {
                sp_infix(s, pr.st, prec, (fuel - 1) as nat)
            }
        } else if st1.prev.kind is LeftParen {
            let pr = sp_grouping(s, st1, (fuel - 1) as nat);
            if !pr.ok {
                pr
            } else {
                sp_infix(s, pr.st, prec, (fuel - 1) as nat)
            }
        } else {
            sp_fail(st1, sp_diag_at(st1.prev, "Expect expression".spec_bytes()))
        }
    }
}

/// Unary minus, mirrored: the operand at unary precedence, then `Negate`.
pub open spec fn sp_unary(s: Seq<u8>, st: SpParse, fuel: nat) -> SpOut
    decreases fuel,
{
    if fuel == 0 {
        sp_fail(st, sp_lexical_diag(st.curr))
    } else {
        let r = sp_parse_prec(s, st, PREC_UNARY, (fuel - 1) as nat);
        if !r.ok {
            r
        } else {
            sp_ok(sp_emit(r.st, OpCode::Negate))
        }
    }
}

/// Grouping, mirrored: a full sub-expression, then the matching `)`.
pub open spec fn sp_grouping(s: Seq<u8>, st: SpParse, fuel: nat) -> SpOut
    decreases fuel,
{
    if fuel == 0 {
        sp_fail(st, sp_lexical_diag(st.curr))
    } else {
        let r = sp_parse_prec(s, st, PREC_ASSIGNMENT, (fuel - 1) as nat);
        if !r.ok {
            r
        } else if !(r.st.curr.kind is RightParen) {
            sp_fail(r.st, sp_diag_at(r.st.curr, "Expect ')' after expression.".spec_bytes()))
        } else {
            let st2 = sp_advance(s, r.st);
            if st2.curr.kind is Error {
                sp_fail(st2, sp_lexical_diag(st2.curr))
            } else {
                sp_ok(st2)
            }
        }
    }
}

/// A binary operator, mirrored: the right operand one level tighter, then
/// the operator's opcode.
pub open spec fn sp_binary(s: Seq<u8>, st: SpParse, fuel: nat) -> SpOut
    decreases fuel,
{
    if fuel == 0 {
        sp_fail(st, sp_lexical_diag(st.curr))
    } else {
        let r = sp_parse_prec(
            s,
            st,
            (spec_infix_precedence(st.prev.kind) + 1) as u8,
            (fuel - 1) as nat,
        );
        if !r.ok {
            r
        } else {
            sp_ok(sp_emit(r.st, sp_op_of(st.prev.kind)))
        }
    }
}

/// The infix climb, mirrored: while the lookahead is an arithmetic
/// operator binding at least as tightly as `prec`, consume it and fold in
/// its right operand.
pub open spec fn sp_infix(s: Seq<u8>, st: SpParse, prec: u8, fuel: nat) -> SpOut
    decreases fuel,
{
    if fuel == 0 {
        sp_fail(st, sp_lexical_diag(st.curr))
    } else {
        let k = st.curr.kind;
        if (k is Plus || k is Minus || k is Star || k is Slash) && spec_infix_precedence(k)
            >= prec {
            let st1 = sp_advance(s, st);
            if st1.curr.kind is Error {
                sp_fail(st1, sp_lexical_diag(st1.curr))
            } else {
                let r = sp_binary(s, st1, (fuel - 1) as nat);
                if !r.ok {
                    r
                } else {
                    sp_infix(s, r.st, prec, (fuel - 1) as nat)
                }
            }
        } else {
            sp_ok(st)
        }
    }
}

/// The whole compile as a function of the source bytes alone: prime the
/// lookahead, parse one expression, require the end of the input, then
/// emit `Return`. `ok` says whether the source compiles; on `ok`, `st`
/// holds exactly the chunk the compiler builds.
pub open spec fn spec_compile(s: Seq<u8>) -> SpOut {
    let st0 = SpParse {
        pos: 0,
        line: 1,
        prev: tok_abs(Option::None),
        curr: tok_abs(Option::None),
        code: Seq::empty(),
        lines: Seq::empty(),
        consts: Seq::empty(),
    };
    let st1 = sp_advance(s, st0);
    if st1.curr.kind is Error {
        sp_fail(st1, sp_lexical_diag(st1.curr))
    } else {
        let r = sp_parse_prec(s, st1, PREC_ASSIGNMENT, (4 * s.len() + 8) as nat);
        if !r.ok {
            r
        } else if !(r.st.curr.kind is Eof) {
            sp_fail(r.st, sp_diag_at(r.st.curr, "Expect end of expression".spec_bytes()))
        } else {
            let st2 = sp_advance(s, r.st);
            if st2.curr.kind is Error {
                sp_fail(st2, sp_lexical_diag(st2.curr))
            } else {
                sp_ok(sp_emit(st2, OpCode::Return))
            }
        }
    }
}

/// Compiling the same source twice produces identical instruction, line
/// and constant sequences: the compiled chunk is a function of the source
/// text alone.
pub proof fn lemma_compile_deterministic(s: Seq<u8>, a: ChunkView, b: ChunkView)
    requires
        spec_compile(s).ok,
        a.code == spec_compile(s).st.code,
        a.lines == spec_compile(s).st.lines,
        a.constants == spec_compile(s).st.consts,
        b.code == spec_compile(s).st.code,
        b.lines == spec_compile(s).st.lines,
        b.constants == spec_compile(s).st.consts,
    ensures
        a.code == b.code,
        a.lines == b.lines,
        a.constants == b.constants,
{
}

impl Scanner {
    /// Precedence climbing: consumes one token and applies its prefix rule
    /// (number literal, unary minus, or grouping), then folds in every
    /// infix operator that binds at least as tightly as `prec`. Emits the
    /// operand's code first and each operator after its operands, so the
    /// chunk's order is the evaluation order. Unless an error struck, the
    /// run mirrors `sp_parse_prec` exactly, the appended segment needs no
    /// values beneath it, and it leaves exactly one.
    #[verifier::rlimit(100)]
    fn parse_precedence(&mut self, parser: &mut Parser, chunk: &mut Chunk, prec: u8)
        requires
            old(self).wf(),
            old(parser).wf(),
            old(parser).curr_tok is Some,
            chunk_wf(old(chunk)@),
            1 <= prec,
        ensures
            final(self).wf(),
            final(parser).wf(),
            final(self).content == old(self).content,
            final(parser).curr_tok is Some,
            final(parser).prev_tok is Some,
            old(parser).panic ==> final(parser).panic,
            old(parser).panic ==> final(parser).diagnostics == old(parser).diagnostics,
            parse_measure(*final(self), *final(parser)) <= parse_measure(
                *old(self),
                *old(parser),
            ),
            chunk_wf(final(chunk)@),
            code_extends(old(chunk)@, final(chunk)@),
            !final(parser).panic ==> (seg_safe(old(chunk)@, final(chunk)@, 0) && seg_net(
                old(chunk)@,
                final(chunk)@,
            ) == 1),
            !old(parser).panic ==> (forall|fuel: nat|
                #![trigger sp_parse_prec(old(self).content@, abs_state(*old(self), *old(parser), old(chunk)@), prec, fuel)]
                fuel >= 4 * parse_measure(*old(self), *old(parser)) + 1 ==> ({
                    let r = sp_parse_prec(
                        old(self).content@,
                        abs_state(*old(self), *old(parser), old(chunk)@),
                        prec,
                        fuel,
                    );
                    &&& (!final(parser).panic <==> r.ok)
                    &&& (r.ok ==> abs_state(*final(self), *final(parser), final(chunk)@) == r.st)
                    &&& (!r.ok ==> (final(parser).diagnostics@.len() == 1 && diag_matches(
                        final(parser).diagnostics@.last(),
                        r.diag,
                    )))
                })),
        decreases parse_measure(*old(self), *old(parser)), 1int,
    {
        let ghost s = self.content@;
        let ghost st_in = abs_state(*self, *parser, chunk@);
        let ghost m0 = parse_measure(*self, *parser);
        let ghost panic0 = parser.panic;
        let ghost c_base = chunk@;
        self.advance_tok(parser);
        let ghost st_a = abs_state(*self, *parser, chunk@);
        let ghost m_a = parse_measure(*self, *parser);
        let ghost panic_a = parser.panic;
        proof {
            if !panic0 && !panic_a {
                assert(st_a == sp_advance(s, st_in));
            }
        }
        let prev_kind = parser.prev_tok.as_ref().unwrap().tok_type;
        if prev_kind == TokenType::Number {
            let ghost c_pre = chunk@;
            parser.add_number(chunk);
            proof {
                lemma_seg_single(
                    c_pre,
                    chunk@,
                    OpCode::Constant(c_pre.constants.len() as usize),
                    0,
                );
            }
        } else if prev_kind == TokenType::Minus {
            self.unary(parser, chunk);
        } else if prev_kind == TokenType::LeftParen {
            self.grouping(parser, chunk);
        } else {
            parser.error("Expect expression");
            proof {
                if !panic0 {
                    assert forall|fuel: nat|
                        #![trigger sp_parse_prec(s, st_in, prec, fuel)]
                        fuel >= 4 * m0 + 1 implies ({
                        let r = sp_parse_prec(s, st_in, prec, fuel);
                        &&& !r.ok
                        &&& final(parser).diagnostics@.len() == 1
                        &&& diag_matches(final(parser).diagnostics@.last(), r.diag)
                    }) by {
                        if !panic_a {
                            assert(st_a == sp_advance(s, st_in));
                        }
                    }
                }
            }
            return ;
        }
        let ghost st_p = abs_state(*self, *parser, chunk@);
        let ghost m_p = parse_measure(*self, *parser);
        let ghost panic_p = parser.panic;
        let ghost c_mid = chunk@;
        self.infix_climb(parser, chunk, prec);
        proof {
            lemma_code_extends_trans(c_base, c_mid, chunk@);
            if !parser.panic {
                lemma_seg_compose(c_base, c_mid, chunk@, 0);
            }
            if !panic0 {
                assert forall|fuel: nat|
                    #![trigger sp_parse_prec(s, st_in, prec, fuel)]
                    fuel >= 4 * m0 + 1 implies ({
                    let r = sp_parse_prec(s, st_in, prec, fuel);
                    &&& (!final(parser).panic <==> r.ok)
                    &&& (r.ok ==> abs_state(*final(self), *final(parser), final(chunk)@) == r.st)
                    &&& (!r.ok ==> (final(parser).diagnostics@.len() == 1 && diag_matches(
                        final(parser).diagnostics@.last(),
                        r.diag,
                    )))
                }) by {
                    // naming the mirrored calls at fuel - 1 brings the
                    // callees' claims for this fuel into scope
                    if !panic_a {
                        let f1 = (fuel - 1) as nat;
                        if st_a.prev.kind is Minus {
                            let pr = sp_unary(s, st_a, f1);
                            if !panic_p {
                                let rr = sp_infix(s, st_p, prec, f1);
                            }
                        } else if st_a.prev.kind is LeftParen {
                            let pr = sp_grouping(s, st_a, f1);
                            if !panic_p {
                                let rr = sp_infix(s, st_p, prec, f1);
                            }
                        } else if st_a.prev.kind is Number {
                            let rr = sp_infix(s, st_p, prec, f1);
                        }
                    }
                }
            }
        }
    }

    /// The infix climb: while the lookahead is an arithmetic operator that
    /// binds at least as tightly as `prec`, consumes it and folds in its
    /// right operand via `binary`; mirrors `sp_infix`.
    #[verifier::rlimit(100)]
    fn infix_climb(&mut self, parser: &mut Parser, chunk: &mut Chunk, prec: u8)
        requires
            old(self).wf(),
            old(parser).wf(),
            old(parser).curr_tok is Some,
            old(parser).prev_tok is Some,
            chunk_wf(old(chunk)@),
            1 <= prec,
        ensures
            final(self).wf(),
            final(parser).wf(),
            final(self).content == old(self).content,
            final(parser).curr_tok is Some,
            final(parser).prev_tok is Some,
            old(parser).panic ==> final(parser).panic,
            old(parser).panic ==> final(parser).diagnostics == old(parser).diagnostics,
            parse_measure(*final(self), *final(parser)) <= parse_measure(
                *old(self),
                *old(parser),
            ),
            chunk_wf(final(chunk)@),
            code_extends(old(chunk)@, final(chunk)@),
            !final(parser).panic ==> (seg_safe(old(chunk)@, final(chunk)@, 1) && seg_net(
                old(chunk)@,
                final(chunk)@,
            ) == 0),
            !old(parser).panic ==> (forall|fuel: nat|
                #![trigger sp_infix(old(self).content@, abs_state(*old(self), *old(parser), old(chunk)@), prec, fuel)]
                fuel >= 4 * parse_measure(*old(self), *old(parser)) + 2 ==> ({
                    let r = sp_infix(
                        old(self).content@,
                        abs_state(*old(self), *old(parser), old(chunk)@),
                        prec,
                        fuel,
                    );
                    &&& (!final(parser).panic <==> r.ok)
                    &&& (r.ok ==> abs_state(*final(self), *final(parser), final(chunk)@) == r.st)
                    &&& (!r.ok ==> (final(parser).diagnostics@.len() == 1 && diag_matches(
                        final(parser).diagnostics@.last(),
                        r.diag,
                    )))
                })),
        decreases parse_measure(*old(self), *old(parser)), 2int,
    {
        let ghost s = self.content@;
        let ghost st_in = abs_state(*self, *parser, chunk@);
        let ghost m0 = parse_measure(*self, *parser);
        let ghost panic0 = parser.panic;
        let ghost c_base = chunk@;
        let k = parser.curr_tok.as_ref().unwrap().tok_type;
        let arith = k == TokenType::Plus || k == TokenType::Minus || k == TokenType::Star || k
            == TokenType::Slash;
        let p = infix_precedence(k);
        if !arith || p < prec {
            return ;
        }
        self.advance_tok(parser);
        let ghost st_a = abs_state(*self, *parser, chunk@);
        let ghost m_a = parse_measure(*self, *parser);
        let ghost panic_a = parser.panic;
        proof {
            if !panic0 && !panic_a {
                assert(st_a == sp_advance(s, st_in));
            }
        }
        self.binary(parser, chunk);
        let ghost st_b = abs_state(*self, *parser, chunk@);
        let ghost m_b = parse_measure(*self, *parser);
        let ghost panic_b = parser.panic;
        let ghost c_mid = chunk@;
        self.infix_climb(parser, chunk, prec);
        proof {
            lemma_code_extends_trans(c_base, c_mid, chunk@);
            if !parser.panic {
                lemma_seg_compose(c_base, c_mid, chunk@, 1);
            }
            if !panic0 {
                assert forall|fuel: nat|
                    #![trigger sp_infix(s, st_in, prec, fuel)]
                    fuel >= 4 * m0 + 2 implies ({
                    let r = sp_infix(s, st_in, prec, fuel);
                    &&& (!final(parser).panic <==> r.ok)
                    &&& (r.ok ==> abs_state(*final(self), *final(parser), final(chunk)@) == r.st)
                    &&& (!r.ok ==> (final(parser).diagnostics@.len() == 1 && diag_matches(
                        final(parser).diagnostics@.last(),
                        r.diag,
                    )))
                }) by {
                    if !panic_a {
                        let f1 = (fuel - 1) as nat;
                        let rb = sp_binary(s, st_a, f1);
                        if !panic_b {
                            let rr = sp_infix(s, st_b, prec, f1);
                        }
                    }
                }
            }
        }
    }

    /// Parses one full expression; mirrors `sp_parse_prec` at the lowest
    /// binding precedence.
    fn expression(&mut self, parser: &mut Parser, chunk: &mut Chunk)
        requires
            old(self).wf(),
            old(parser).wf(),
            old(parser).curr_tok is Some,
            chunk_wf(old(chunk)@),
        ensures
            final(self).wf(),
            final(parser).wf(),
            final(self).content == old(self).content,
            final(parser).curr_tok is Some,
            final(parser).prev_tok is Some,
            old(parser).panic ==> final(parser).panic,
            old(parser).panic ==> final(parser).diagnostics == old(parser).diagnostics,
            parse_measure(*final(self), *final(parser)) <= parse_measure(
                *old(self),
                *old(parser),
            ),
            chunk_wf(final(chunk)@),
            code_extends(old(chunk)@, final(chunk)@),
            !final(parser).panic ==> (seg_safe(old(chunk)@, final(chunk)@, 0) && seg_net(
                old(chunk)@,
                final(chunk)@,
            ) == 1),
            !old(parser).panic ==> (forall|fuel: nat|
                #![trigger sp_parse_prec(old(self).content@, abs_state(*old(self), *old(parser), old(chunk)@), PREC_ASSIGNMENT, fuel)]
                fuel >= 4 * parse_measure(*old(self), *old(parser)) + 1 ==> ({
                    let r = sp_parse_prec(
                        old(self).content@,
                        abs_state(*old(self), *old(parser), old(chunk)@),
                        PREC_ASSIGNMENT,
                        fuel,
                    );
                    &&& (!final(parser).panic <==> r.ok)
                    &&& (r.ok ==> abs_state(*final(self), *final(parser), final(chunk)@) == r.st)
                    &&& (!r.ok ==> (final(parser).diagnostics@.len() == 1 && diag_matches(
                        final(parser).diagnostics@.last(),
                        r.diag,
                    )))
                })),
        decreases parse_measure(*old(self), *old(parser)), 3int,
    {
        self.parse_precedence(parser, chunk, PREC_ASSIGNMENT);
    }

    /// The prefix rule for unary minus: parses its operand at unary
    /// precedence, then emits `Negate`; mirrors `sp_unary`.
    pub fn unary(&mut self, parser: &mut Parser, chunk: &mut Chunk)
        requires
            old(self).wf(),
            old(parser).wf(),
            old(parser).curr_tok is Some,
            old(parser).prev_tok is Some,
            old(parser).prev_tok.unwrap().tok_type is Minus,
            chunk_wf(old(chunk)@),
        ensures
            final(self).wf(),
            final(parser).wf(),
            final(self).content == old(self).content,
            final(parser).curr_tok is Some,
            final(parser).prev_tok is Some,
            old(parser).panic ==> final(parser).panic,
            old(parser).panic ==> final(parser).diagnostics == old(parser).diagnostics,
            parse_measure(*final(self), *final(parser)) <= parse_measure(
                *old(self),
                *old(parser),
            ),
            chunk_wf(final(chunk)@),
            code_extends(old(chunk)@, final(chunk)@),
            !final(parser).panic ==> (seg_safe(old(chunk)@, final(chunk)@, 0) && seg_net(
                old(chunk)@,
                final(chunk)@,
            ) == 1),
            !old(parser).panic ==> (forall|fuel: nat|
                #![trigger sp_unary(old(self).content@, abs_state(*old(self), *old(parser), old(chunk)@), fuel)]
                fuel >= 4 * parse_measure(*old(self), *old(parser)) + 3 ==> ({
                    let r = sp_unary(
                        old(self).content@,
                        abs_state(*old(self), *old(parser), old(chunk)@),
                        fuel,
                    );
                    &&& (!final(parser).panic <==> r.ok)
                    &&& (r.ok ==> abs_state(*final(self), *final(parser), final(chunk)@) == r.st)
                    &&& (!r.ok ==> (final(parser).diagnostics@.len() == 1 && diag_matches(
                        final(parser).diagnostics@.last(),
                        r.diag,
                    )))
                })),
        decreases parse_measure(*old(self), *old(parser)), 4int,
    {
        let ghost s = self.content@;
        let ghost st_in = abs_state(*self, *parser, chunk@);
        let ghost m0 = parse_measure(*self, *parser);
        let ghost panic0 = parser.panic;
        let ghost c_base = chunk@;
        self.parse_precedence(parser, chunk, PREC_UNARY);
        let ghost c_mid = chunk@;
        parser.emit_byte(chunk, OpCode::Negate);
        proof {
            lemma_code_extends_trans(c_base, c_mid, chunk@);
            if !parser.panic {
                lemma_seg_single(c_mid, chunk@, OpCode::Negate, 1);
                lemma_seg_compose(c_base, c_mid, chunk@, 0);
            }
            if !panic0 {
                assert forall|fuel: nat|
                    #![trigger sp_unary(s, st_in, fuel)]
                    fuel >= 4 * m0 + 3 implies ({
                    let r = sp_unary(s, st_in, fuel);
                    &&& (!final(parser).panic <==> r.ok)
                    &&& (r.ok ==> abs_state(*final(self), *final(parser), final(chunk)@) == r.st)
                    &&& (!r.ok ==> (final(parser).diagnostics@.len() == 1 && diag_matches(
                        final(parser).diagnostics@.last(),
                        r.diag,
                    )))
                }) by {
                    let f1 = (fuel - 1) as nat;
                    let rp = sp_parse_prec(s, st_in, PREC_UNARY, f1);
                }
            }
        }
    }

    /// The prefix rule for `(`: parses the grouped expression and requires
    /// the matching `)`; mirrors `sp_grouping`.
    #[verifier::rlimit(100)]
    pub fn grouping(&mut self, parser: &mut Parser, chunk: &mut Chunk)
        requires
            old(self).wf(),
            old(parser).wf(),
            old(parser).curr_tok is Some,
            chunk_wf(old(chunk)@),
        ensures
            final(self).wf(),
            final(parser).wf(),
            final(self).content == old(self).content,
            final(parser).curr_tok is Some,
            final(parser).prev_tok is Some,
            old(parser).panic ==> final(parser).panic,
            old(parser).panic ==> final(parser).diagnostics == old(parser).diagnostics,
            parse_measure(*final(self), *final(parser)) <= parse_measure(
                *old(self),
                *old(parser),
            ),
            chunk_wf(final(chunk)@),
            code_extends(old(chunk)@, final(chunk)@),
            !final(parser).panic ==> (seg_safe(old(chunk)@, final(chunk)@, 0) && seg_net(
                old(chunk)@,
                final(chunk)@,
            ) == 1),
            !old(parser).panic ==> (forall|fuel: nat|
                #![trigger sp_grouping(old(self).content@, abs_state(*old(self), *old(parser), old(chunk)@), fuel)]
                fuel >= 4 * parse_measure(*old(self), *old(parser)) + 3 ==> ({
                    let r = sp_grouping(
                        old(self).content@,
                        abs_state(*old(self), *old(parser), old(chunk)@),
                        fuel,
                    );
                    &&& (!final(parser).panic <==> r.ok)
                    &&& (r.ok ==> abs_state(*final(self), *final(parser), final(chunk)@) == r.st)
                    &&& (!r.ok ==> (final(parser).diagnostics@.len() == 1 && diag_matches(
                        final(parser).diagnostics@.last(),
                        r.diag,
                    )))
                })),
        decreases parse_measure(*old(self), *old(parser)), 4int,
    {
        let ghost s = self.content@;
        let ghost st_in = abs_state(*self, *parser, chunk@);
        let ghost m0 = parse_measure(*self, *parser);
        let ghost panic0 = parser.panic;
        self.expression(parser, chunk);
        let ghost st_e = abs_state(*self, *parser, chunk@);
        let ghost panic_e = parser.panic;
        self.consume(parser, TokenType::RightParen, "Expect ')' after expression.");
        proof {
            if !panic0 {
                assert forall|fuel: nat|
                    #![trigger sp_grouping(s, st_in, fuel)]
                    fuel >= 4 * m0 + 3 implies ({
                    let r = sp_grouping(s, st_in, fuel);
                    &&& (!final(parser).panic <==> r.ok)
                    &&& (r.ok ==> abs_state(*final(self), *final(parser), final(chunk)@) == r.st)
                    &&& (!r.ok ==> (final(parser).diagnostics@.len() == 1 && diag_matches(
                        final(parser).diagnostics@.last(),
                        r.diag,
                    )))
                }) by {
                    let f1 = (fuel - 1) as nat;
                    let rp = sp_parse_prec(s, st_in, PREC_ASSIGNMENT, f1);
                    if !panic_e && rp.ok {
                        assert(st_e == rp.st);
                        if rp.st.curr.kind is RightParen && !parser.panic {
                            assert(abs_state(*final(self), *final(parser), final(chunk)@)
                                == sp_advance(s, rp.st));
                        }
                    }
                }
            }
        }
    }

    /// The infix rule for a binary arithmetic operator: parses the right
    /// operand one level tighter (left associativity), then emits the
    /// operator's opcode; mirrors `sp_binary`.
    fn binary(&mut self, parser: &mut Parser, chunk: &mut Chunk)
        requires
            old(self).wf(),
            old(parser).wf(),
            old(parser).curr_tok is Some,
            old(parser).prev_tok is Some,
            (old(parser).prev_tok.unwrap().tok_type is Plus || old(
                parser,
            ).prev_tok.unwrap().tok_type is Minus || old(parser).prev_tok.unwrap().tok_type is Star
                || old(parser).prev_tok.unwrap().tok_type is Slash),
            chunk_wf(old(chunk)@),
        ensures
            final(self).wf(),
            final(parser).wf(),
            final(self).content == old(self).content,
            final(parser).curr_tok is Some,
            final(parser).prev_tok is Some,
            old(parser).panic ==> final(parser).panic,
            old(parser).panic ==> final(parser).diagnostics == old(parser).diagnostics,
            parse_measure(*final(self), *final(parser)) <= parse_measure(
                *old(self),
                *old(parser),
            ),
            chunk_wf(final(chunk)@),
            code_extends(old(chunk)@, final(chunk)@),
            !final(parser).panic ==> (seg_safe(old(chunk)@, final(chunk)@, 1) && seg_net(
                old(chunk)@,
                final(chunk)@,
            ) == 0),
            !old(parser).panic ==> (forall|fuel: nat|
                #![trigger sp_binary(old(self).content@, abs_state(*old(self), *old(parser), old(chunk)@), fuel)]
                fuel >= 4 * parse_measure(*old(self), *old(parser)) + 3 ==> ({
                    let r = sp_binary(
                        old(self).content@,
                        abs_state(*old(self), *old(parser), old(chunk)@),
                        fuel,
                    );
                    &&& (!final(parser).panic <==> r.ok)
                    &&& (r.ok ==> abs_state(*final(self), *final(parser), final(chunk)@) == r.st)
                    &&& (!r.ok ==> (final(parser).diagnostics@.len() == 1 && diag_matches(
                        final(parser).diagnostics@.last(),
                        r.diag,
                    )))
                })),
        decreases parse_measure(*old(self), *old(parser)), 5int,
    {
        let ghost s = self.content@;
        let ghost st_in = abs_state(*self, *parser, chunk@);
        let ghost m0 = parse_measure(*self, *parser);
        let ghost panic0 = parser.panic;
        let ghost c_base = chunk@;
        let op_kind = parser.prev_tok.as_ref().unwrap().tok_type;
        let p = infix_precedence(op_kind);
        self.parse_precedence(parser, chunk, p + 1);
        let ghost c_mid = chunk@;
        let op: OpCode = if op_kind == TokenType::Plus {
            OpCode::Add
        } else if op_kind == TokenType::Minus {
            OpCode::Subtract
        } else if op_kind == TokenType::Star {
            OpCode::Multiply
        } else {
            OpCode::Divide
        };
        parser.emit_byte(chunk, op);
        proof {
            lemma_code_extends_trans(c_base, c_mid, chunk@);
            if !parser.panic {
                lemma_seg_single(c_mid, chunk@, op, 2);
                lemma_seg_safe_mono(c_base, c_mid, 0, 1);
                lemma_seg_compose(c_base, c_mid, chunk@, 1);
            }
            if !panic0 {
                assert forall|fuel: nat|
                    #![trigger sp_binary(s, st_in, fuel)]
                    fuel >= 4 * m0 + 3 implies ({
                    let r = sp_binary(s, st_in, fuel);
                    &&& (!final(parser).panic <==> r.ok)
                    &&& (r.ok ==> abs_state(*final(self), *final(parser), final(chunk)@) == r.st)
                    &&& (!r.ok ==> (final(parser).diagnostics@.len() == 1 && diag_matches(
                        final(parser).diagnostics@.last(),
                        r.diag,
                    )))
                }) by {
                    let f1 = (fuel - 1) as nat;
                    let rp = sp_parse_prec(
                        s,
                        st_in,
                        (spec_infix_precedence(st_in.prev.kind) + 1) as u8,
                        f1,
                    );
                }
            }
        }
    }
}

/// The single-pass compiler: it owns no state of its own; each `compile`
/// call builds a scanner and a parser for the duration of the call.
pub struct Compiler {}

impl Compiler {
    /// Compiles one input into `chunk`, which must be fresh. The whole
    /// call is pinned by [`spec_compile`]: the compile succeeds exactly
    /// when the source parses, on success the chunk's instructions, line
    /// table and constants are the mirrored ones, and on failure exactly
    /// one diagnostic is recorded — the first error's, with its line,
    /// location and message as the mirror says. On success the chunk is
    /// also runnable: its stack discipline never underflows, its single
    /// `Return` is its last instruction, and exactly one value remains
    /// for `Return` to report.
    #[verifier::rlimit(100)]
    pub fn compile(&mut self, content: &str, chunk: &mut Chunk) -> (r: (
        InterpretResult,
        Vec<Diagnostic>,
    ))
        requires
            content.spec_bytes().len() < usize::MAX,
            old(chunk)@.code.len() == 0,
            old(chunk)@.lines.len() == 0,
            old(chunk)@.constants.len() == 0,
        ensures
            r.0 is OK || r.0 is CompileErr,
            (r.0 is OK) <==> r.1@.len() == 0,
            (r.0 is CompileErr) <==> r.1@.len() == 1,
            chunk_wf(final(chunk)@),
            r.0 is OK ==> chunk_runnable(final(chunk)@),
            (r.0 is OK) <==> spec_compile(content.spec_bytes()).ok,
            r.0 is OK ==> final(chunk)@.code == spec_compile(content.spec_bytes()).st.code,
            r.0 is OK ==> final(chunk)@.lines == spec_compile(content.spec_bytes()).st.lines,
            r.0 is OK ==> final(chunk)@.constants == spec_compile(content.spec_bytes()).st.consts,
            r.0 is CompileErr ==> (r.1@.len() == 1 && diag_matches(
                r.1@[0],
                spec_compile(content.spec_bytes()).diag,
            )),
    {
        let ghost sb = content.spec_bytes();
        let mut scanner = Scanner::new(content);
        let mut parser = Parser {
            curr_tok: None,
            prev_tok: None,
            error_occurred: false,
            panic: false,
            diagnostics: Vec::new(),
        };
        let ghost st0 = abs_state(scanner, parser, chunk@);
        proof {
            assert(chunk@.code =~= Seq::<OpCode>::empty());
            assert(chunk@.lines =~= Seq::<usize>::empty());
            assert(chunk@.constants =~= Seq::<Seq<u8>>::empty());
        }
        scanner.advance_tok(&mut parser);
        let ghost st1 = abs_state(scanner, parser, chunk@);
        let ghost panic1 = parser.panic;
        let ghost m1 = parse_measure(scanner, parser);
        proof {
            if !panic1 {
                assert(st1 == sp_advance(sb, st0));
            }
        }
        let ghost c_empty = chunk@;
        scanner.expression(&mut parser, chunk);
        let ghost st_e = abs_state(scanner, parser, chunk@);
        let ghost panic_e = parser.panic;
        let ghost c_expr = chunk@;
        scanner.consume(&mut parser, TokenType::Eof, "Expect end of expression");
        let ghost st_c = abs_state(scanner, parser, chunk@);
        let ghost panic_c = parser.panic;
        parser.emit_byte(chunk, OpCode::Return);
        proof {
            if !panic1 {
                let fuel0 = (4 * sb.len() + 8) as nat;
                assert(fuel0 >= 4 * m1 + 1);
                let re = sp_parse_prec(sb, st1, PREC_ASSIGNMENT, fuel0);
                if !panic_e && re.ok {
                    assert(st_e == re.st);
                    if st_e.curr.kind is Eof && !panic_c {
                        assert(st_c == sp_advance(sb, st_e));
                        assert(final(chunk)@.code == st_c.code.push(OpCode::Return));
                        assert(final(chunk)@.lines == st_c.lines.push(
                            st_c.prev.line as usize,
                        ));
                    }
                }
            }
            if !parser.panic {
                assert(spec_compile(sb).ok);
                assert(final(chunk)@.code == spec_compile(sb).st.code);
                assert(final(chunk)@.lines == spec_compile(sb).st.lines);
                assert(final(chunk)@.constants == spec_compile(sb).st.consts);
            } else {
                assert(!spec_compile(sb).ok);
            }
        }
        proof {
            if !parser.panic {
                let n = c_expr.code.len() as int;
                assert(final(chunk)@.code == c_expr.code.push(OpCode::Return));
                assert forall|k: int| 0 <= k <= n implies stack_height(
                    final(chunk)@.code,
                    k,
                ) == stack_height(c_expr.code, k) by {
                    crate::op_code::lemma_stack_height_prefix(c_expr.code, final(chunk)@.code, k);
                };
                assert(stack_height(final(chunk)@.code, n) == 1);
                assert forall|k: int| 0 <= k < n implies stack_height(final(chunk)@.code, k)
                    >= op_pops(final(chunk)@.code[k]) by {
                    assert(final(chunk)@.code[k] == c_expr.code[k]);
                    assert(0 + stack_height(c_expr.code, k) - stack_height(c_expr.code, 0)
                        >= op_pops(c_expr.code[k]));
                };
                assert(chunk_runnable(final(chunk)@));
            }
        }
        let had_error = parser.error_occurred;
        let diags = parser.diagnostics;
        if had_error {
            (InterpretResult::CompileErr, diags)
        } else {
            (InterpretResult::OK, diags)
        }
    }
}

} // verus!
