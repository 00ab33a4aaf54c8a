//! Hand-rolled Solidity lexer for the supported subset. Total (never panics, never
//! hangs): on any byte it cannot classify it returns a single `FrontendDiag`.
//! Size cap first, comments skipped, type names lexed as `Ident` (the allow-list
//! reject lives in the parser/checker so the diagnostic can name the type).
//!
//! The whole tokenization is specified by `spec_lex`, a function from the source
//! bytes to the token list (or the one diagnostic), and `lex` is proved to compute it.

use crate::codes;
use crate::diag::FrontendDiag;
use crate::limits::MAX_INPUT_BYTES;
use crate::parser::{trimmed_end, trimmed_start};
use crate::text::{ascii_chars, ascii_string, str_eq};
use vstd::slice::slice_to_vec;
use vstd::string::StringSliceAdditionalSpecFns;
use std::ops::Range;
use vstd::prelude::*;

verus! {

#[derive(Debug, Clone, PartialEq)]
pub enum TokKind {
    // declaration keywords
    Contract,
    Function,
    Returns,
    Return,
    Require,
    Assert,
    Revert,
    If,
    Else,
    Unchecked,
    /// An inline `assembly { … }` block, skipped whole by the lexer; the parser rejects it.
    Assembly,
    // visibility / mutability / data-location markers
    Public,
    Private,
    Internal,
    External,
    View,
    Pure,
    Memory,
    Storage,
    Calldata,
    // literals
    True,
    False,
    /// A numeric literal, normalized: `0x…` hex (separators dropped) or a plain decimal integer.
    Num(String),
    /// Identifiers AND type names (`uint256`, `address`, …).
    Ident(String),
    /// A string literal's raw text between the quotes (escapes uninterpreted).
    Str(String),
    /// The trimmed body of a `pragma … ;` directive.
    Pragma(String),
    // punctuation
    LParen,
    RParen,
    LBrace,
    RBrace,
    LBracket,
    RBracket,
    Semi,
    Comma,
    Dot,
    FatArrow,
    // operators
    Plus,
    Minus,
    Star,
    Pow,
    Slash,
    Percent,
    Assign,
    PlusEq,
    MinusEq,
    StarEq,
    SlashEq,
    PercentEq,
    EqEq,
    BangEq,
    Lt,
    LtEq,
    Gt,
    GtEq,
    Bang,
    AmpAmp,
    PipePipe,
    Amp,
    Pipe,
    Caret,
    Tilde,
    Shl,
    Shr,
    Question,
    Colon,
    Eof,
}

#[derive(Debug)]
pub struct Tok {
    pub kind: TokKind,
    pub span: Range<usize>,
}

impl TokKind {
    /// Whether this is an identifier (or type name) token.
    pub fn is_ident(&self) -> (r: bool)
        ensures
            r == (*self is Ident),
    {
        match self {
            TokKind::Ident(_) => true,
            _ => false,
        }
    }

    /// Whether this is a string literal token.
    pub fn is_str(&self) -> (r: bool)
        ensures
            r == (*self is Str),
    {
        match self {
            TokKind::Str(_) => true,
            _ => false,
        }
    }

    /// A copy of this kind (payload texts cloned).
    pub fn copied(&self) -> (r: TokKind)
        ensures
            r == *self,
    {
        match self {
            TokKind::Num(s) => TokKind::Num(s.clone()),
            TokKind::Ident(s) => TokKind::Ident(s.clone()),
            TokKind::Str(s) => TokKind::Str(s.clone()),
            TokKind::Pragma(s) => TokKind::Pragma(s.clone()),
            TokKind::Contract => TokKind::Contract,
            TokKind::Function => TokKind::Function,
            TokKind::Returns => TokKind::Returns,
            TokKind::Return => TokKind::Return,
            TokKind::Require => TokKind::Require,
            TokKind::Assert => TokKind::Assert,
            TokKind::Revert => TokKind::Revert,
            TokKind::If => TokKind::If,
            TokKind::Else => TokKind::Else,
            TokKind::Unchecked => TokKind::Unchecked,
            TokKind::Assembly => TokKind::Assembly,
            TokKind::Public => TokKind::Public,
            TokKind::Private => TokKind::Private,
            TokKind::Internal => TokKind::Internal,
            TokKind::External => TokKind::External,
            TokKind::View => TokKind::View,
            TokKind::Pure => TokKind::Pure,
            TokKind::Memory => TokKind::Memory,
            TokKind::Storage => TokKind::Storage,
            TokKind::Calldata => TokKind::Calldata,
            TokKind::True => TokKind::True,
            TokKind::False => TokKind::False,
            TokKind::LParen => TokKind::LParen,
            TokKind::RParen => TokKind::RParen,
            TokKind::LBrace => TokKind::LBrace,
            TokKind::RBrace => TokKind::RBrace,
            TokKind::LBracket => TokKind::LBracket,
            TokKind::RBracket => TokKind::RBracket,
            TokKind::Semi => TokKind::Semi,
            TokKind::Comma => TokKind::Comma,
            TokKind::Dot => TokKind::Dot,
            TokKind::FatArrow => TokKind::FatArrow,
            TokKind::Plus => TokKind::Plus,
            TokKind::Minus => TokKind::Minus,
            TokKind::Star => TokKind::Star,
            TokKind::Pow => TokKind::Pow,
            TokKind::Slash => TokKind::Slash,
            TokKind::Percent => TokKind::Percent,
            TokKind::Assign => TokKind::Assign,
            TokKind::PlusEq => TokKind::PlusEq,
            TokKind::MinusEq => TokKind::MinusEq,
            TokKind::StarEq => TokKind::StarEq,
            TokKind::SlashEq => TokKind::SlashEq,
            TokKind::PercentEq => TokKind::PercentEq,
            TokKind::EqEq => TokKind::EqEq,
            TokKind::BangEq => TokKind::BangEq,
            TokKind::Lt => TokKind::Lt,
            TokKind::LtEq => TokKind::LtEq,
            TokKind::Gt => TokKind::Gt,
            TokKind::GtEq => TokKind::GtEq,
            TokKind::Bang => TokKind::Bang,
            TokKind::AmpAmp => TokKind::AmpAmp,
            TokKind::PipePipe => TokKind::PipePipe,
            TokKind::Amp => TokKind::Amp,
            TokKind::Pipe => TokKind::Pipe,
            TokKind::Caret => TokKind::Caret,
            TokKind::Tilde => TokKind::Tilde,
            TokKind::Shl => TokKind::Shl,
            TokKind::Shr => TokKind::Shr,
            TokKind::Question => TokKind::Question,
            TokKind::Colon => TokKind::Colon,
            TokKind::Eof => TokKind::Eof,
        }
    }
}

impl Clone for Tok {
    fn clone(&self) -> (r: Tok)
        ensures
            r == *self,
    {
        Tok { kind: self.kind.copied(), span: self.span.start..self.span.end }
    }
}

/// The abstract value of a token kind: payload texts as character sequences.
pub enum TokV {
    Simple(TokKind),
    Num(Seq<char>),
    Ident(Seq<char>),
    Str(Seq<char>),
    Pragma(Seq<char>),
}

impl View for TokKind {
    type V = TokV;

    open spec fn view(&self) -> TokV {
        match self {
            TokKind::Num(s) => TokV::Num(s@),
            TokKind::Ident(s) => TokV::Ident(s@),
            TokKind::Str(s) => TokV::Str(s@),
            TokKind::Pragma(s) => TokV::Pragma(s@),
            other => TokV::Simple(*other),
        }
    }
}

/// A token as (kind, span start, span end).
pub type TokSpec = (TokV, int, int);

/// A rejection as (code, span start, span end).
pub type DiagV = (&'static str, int, int);

pub open spec fn tok_view(t: Tok) -> TokSpec {
    (t.kind@, t.span.start as int, t.span.end as int)
}

pub open spec fn toks_view(s: Seq<Tok>) -> Seq<TokSpec> {
    s.map_values(|t: Tok| tok_view(t))
}

pub open spec fn diag_is(d: FrontendDiag, v: DiagV) -> bool {
    d.code == v.0 && d.span.start == v.1 && d.span.end == v.2
}

// ── byte classes ─────────────────────────────────────────────────────────────

pub open spec fn is_ws(c: u8) -> bool {
    c == 32 || c == 9 || c == 13 || c == 10
}

pub open spec fn is_digit(c: u8) -> bool {
    48 <= c <= 57
}

pub open spec fn is_alpha(c: u8) -> bool {
    (65 <= c <= 90) || (97 <= c <= 122)
}

pub open spec fn is_hex(c: u8) -> bool {
    is_digit(c) || (65 <= c <= 70) || (97 <= c <= 102)
}

pub open spec fn is_ident_char(c: u8) -> bool {
    c == 95 || is_alpha(c) || is_digit(c)
}

/// The byte at `k`, if in bounds.
pub open spec fn peek_at(b: Seq<u8>, k: int) -> Option<u8> {
    if 0 <= k < b.len() {
        Some(b[k])
    } else {
        None
    }
}

// ── scanning functions ───────────────────────────────────────────────────────

/// The position of the first `\n` at or after `k` (or the end).
pub open spec fn line_end(b: Seq<u8>, k: int) -> int
    decreases b.len() - k,
{
    if k < 0 || k >= b.len() || b[k] == 10 {
        k
    } else {
        line_end(b, k + 1)
    }
}

/// Scanning from `k` (just past `/*`), the position just past the closing `*/`.
pub open spec fn block_close(b: Seq<u8>, k: int) -> Option<int>
    decreases b.len() - k,
{
    if k < 0 || k + 1 >= b.len() {
        None
    } else if b[k] == 42 && b[k + 1] == 47 {
        Some(k + 2)
    } else {
        block_close(b, k + 1)
    }
}

/// Where an unterminated block comment opened at `s` leaves the scan position.
pub open spec fn block_fail_pos(b: Seq<u8>, s: int) -> int {
    if s + 2 < b.len() - 1 {
        b.len() - 1
    } else {
        s + 2
    }
}

/// Skips whitespace and comments from `k` (an unterminated block comment stops the skip).
pub open spec fn skip_trivia(b: Seq<u8>, k: int) -> int
    decreases b.len() - k,
{
    if k < 0 || k >= b.len() {
        k
    } else if is_ws(b[k]) {
        skip_trivia(b, k + 1)
    } else if b[k] == 47 && peek_at(b, k + 1) == Some(47u8) {
        let j = line_end(b, k);
        if k < j <= b.len() {
            skip_trivia(b, j)
        } else {
            k
        }
    } else if b[k] == 47 && peek_at(b, k + 1) == Some(42u8) {
        match block_close(b, k + 2) {
            Some(j) => if k < j <= b.len() {
                skip_trivia(b, j)
            } else {
                k
            },
            None => block_fail_pos(b, k),
        }
    } else {
        k
    }
}

/// Scanning from `k` (past an opening quote), the position of the closing `quote`.
pub open spec fn quoted_end(b: Seq<u8>, quote: u8, k: int) -> Option<int>
    decreases b.len() - k,
{
    if k < 0 || k >= b.len() {
        None
    } else if b[k] == 92 {
        if k + 2 <= b.len() {
            quoted_end(b, quote, k + 2)
        } else {
            None
        }
    } else if b[k] == quote {
        Some(k)
    } else {
        quoted_end(b, quote, k + 1)
    }
}

/// Skips a balanced `open`/`close` group begun at `s`, now at `k` with nesting `depth`;
/// honors comments and quoted strings. `Ok` is the position just past the final `close`.
pub open spec fn balanced_end(b: Seq<u8>, open: u8, close: u8, s: int, k: int, depth: nat) -> Result<
    int,
    DiagV,
>
    decreases b.len() - k,
{
    if k < 0 || k >= b.len() {
        Err((codes::FE478_INLINE_ASSEMBLY_SOL, s, b.len() as int))
    } else if b[k] == 47 && peek_at(b, k + 1) == Some(47u8) {
        let j = line_end(b, k);
        if k < j <= b.len() {
            balanced_end(b, open, close, s, j, depth)
        } else {
            Err((codes::FE478_INLINE_ASSEMBLY_SOL, s, b.len() as int))
        }
    } else if b[k] == 47 && peek_at(b, k + 1) == Some(42u8) {
        match block_close(b, k + 2) {
            Some(j) => if k < j <= b.len() {
                balanced_end(b, open, close, s, j, depth)
            } else {
                Err((codes::FE478_INLINE_ASSEMBLY_SOL, s, b.len() as int))
            },
            None => Err((codes::FE401_UNSUPPORTED_SOL, k, b.len() as int)),
        }
    } else if b[k] == 34 || b[k] == 39 {
        match quoted_end(b, b[k], k + 1) {
            Some(q) => if k < q < b.len() {
                balanced_end(b, open, close, s, q + 1, depth)
            } else {
                Err((codes::FE478_INLINE_ASSEMBLY_SOL, s, b.len() as int))
            },
            None => Err((codes::FE401_UNSUPPORTED_SOL, k, b.len() as int)),
        }
    } else if b[k] == open {
        balanced_end(b, open, close, s, k + 1, depth + 1)
    } else if b[k] == close {
        if depth <= 1 {
            Ok(k + 1)
        } else {
            balanced_end(b, open, close, s, k + 1, (depth - 1) as nat)
        }
    } else {
        balanced_end(b, open, close, s, k + 1, depth)
    }
}

/// Byte classes scanned as runs: `CLS_DIGIT_US` digits or `_`, `CLS_HEX_US` hex digits or
/// `_`, `CLS_DIGIT` digits, `CLS_IDENT` identifier bytes, `CLS_NOT_US` anything but `_`.
pub open spec fn in_class(cls: u8, c: u8) -> bool {
    if cls == CLS_DIGIT_US {
        is_digit(c) || c == 95
    } else if cls == CLS_HEX_US {
        is_hex(c) || c == 95
    } else if cls == CLS_DIGIT {
        is_digit(c)
    } else if cls == CLS_IDENT {
        is_ident_char(c)
    } else {
        c != 95
    }
}

pub const CLS_DIGIT_US: u8 = 0;

pub const CLS_HEX_US: u8 = 1;

pub const CLS_DIGIT: u8 = 2;

pub const CLS_IDENT: u8 = 3;

pub const CLS_NOT_US: u8 = 4;

/// End of the run of `cls` bytes starting at `k`.
pub open spec fn run_end(b: Seq<u8>, k: int, cls: u8) -> int
    decreases b.len() - k,
{
    if k < 0 || k >= b.len() || !in_class(cls, b[k]) {
        k
    } else {
        run_end(b, k + 1, cls)
    }
}

/// The position of the first `;` at or after `k` (or the end).
pub open spec fn semi_pos(b: Seq<u8>, k: int) -> int
    decreases b.len() - k,
{
    if k < 0 || k >= b.len() || b[k] == 59 {
        k
    } else {
        semi_pos(b, k + 1)
    }
}

// ── digit texts ──────────────────────────────────────────────────────────────

/// `s` with leading `'0'` bytes removed (`trim_start_matches('0')`).
pub open spec fn strip_zeros(s: Seq<u8>) -> Seq<u8>
    decreases s.len(),
{
    if s.len() > 0 && s[0] == 48 {
        strip_zeros(s.drop_first())
    } else {
        s
    }
}

/// `s` with every byte outside class `cls` removed.
pub open spec fn keep_only(s: Seq<u8>, cls: u8) -> Seq<u8>
    decreases s.len(),
{
    if s.len() == 0 {
        s
    } else {
        let rest = keep_only(s.drop_last(), cls);
        if in_class(cls, s.last()) {
            rest.push(s.last())
        } else {
            rest
        }
    }
}

/// The position of the first `e`/`E` at or after `k` in `s` (or its length).
pub open spec fn exp_pos(s: Seq<u8>, k: int) -> int
    decreases s.len() - k,
{
    if k < 0 || k >= s.len() || s[k] == 101 || s[k] == 69 {
        k
    } else {
        exp_pos(s, k + 1)
    }
}

/// The prefix of `s` before its first `e`/`E`.
pub open spec fn before_exp(s: Seq<u8>) -> Seq<u8> {
    s.take(exp_pos(s, 0))
}

/// The decimal value of an all-digit byte string.
pub open spec fn dec_value(s: Seq<u8>) -> nat
    decreases s.len(),
{
    if s.len() == 0 {
        0
    } else {
        dec_value(s.drop_last()) * 10 + (s.last() - 48) as nat
    }
}

pub open spec fn all_digits(s: Seq<u8>) -> bool {
    forall|k: int| 0 <= k < s.len() ==> is_digit(#[trigger] s[k])
}

/// `i64` parse of a non-empty digit string, saturating to `i64::MAX` on overflow.
pub open spec fn exp_value(s: Seq<u8>) -> int {
    if dec_value(s) <= i64::MAX {
        dec_value(s) as int
    } else {
        i64::MAX as int
    }
}

pub open spec fn zeros(n: nat) -> Seq<u8> {
    Seq::new(n, |_k: int| 48u8)
}

/// `mantissa × 10^scale` as decimal digits, or `None` if not a non-negative integer.
pub open spec fn expand_pow10_spec(mantissa: Seq<u8>, scale: int) -> Option<Seq<u8>> {
    let m = strip_zeros(mantissa);
    if m.len() == 0 {
        Some(seq![48u8])
    } else if scale == 0 {
        Some(m)
    } else if scale > 0 {
        let pad: nat = if scale < 100 {
            scale as nat
        } else {
            100
        };
        Some(m + zeros(pad))
    } else {
        let n = -scale;
        if n < m.len() && m.skip(m.len() - n) == zeros(n as nat) {
            Some(m.take(m.len() - n))
        } else {
            None
        }
    }
}

/// The 78 decimal digits of `2^256 - 1`.
pub open spec fn u256_max_digits() -> Seq<u8> {
    seq![
        49u8, 49, 53, 55, 57, 50, 48, 56, 57, 50, 51, 55, 51, 49, 54, 49, 57, 53, 52, 50, 51,
        53, 55, 48, 57, 56, 53, 48, 48, 56, 54, 56, 55, 57, 48, 55, 56, 53, 51, 50, 54, 57, 57,
        56, 52, 54, 54, 53, 54, 52, 48, 53, 54, 52, 48, 51, 57, 52, 53, 55, 53, 56, 52, 48, 48,
        55, 57, 49, 51, 49, 50, 57, 54, 51, 57, 57, 51, 53,
    ]
}

/// Lexicographic `a <= b` on byte strings of equal length.
pub open spec fn lex_le(a: Seq<u8>, b: Seq<u8>) -> bool
    decreases a.len(),
{
    if a.len() == 0 || b.len() == 0 {
        true
    } else if a[0] < b[0] {
        true
    } else if a[0] > b[0] {
        false
    } else {
        lex_le(a.drop_first(), b.drop_first())
    }
}

/// A decimal digit string denotes a value `< 2^256`, by length then lexicographically.
pub open spec fn in_u256_range(t: Seq<u8>) -> bool {
    let s = strip_zeros(t);
    let s1 = if s.len() == 0 {
        seq![48u8]
    } else {
        s
    };
    s1.len() < 78 || (s1.len() == 78 && lex_le(s1, u256_max_digits()))
}

// ── one lexeme ───────────────────────────────────────────────────────────────

/// The outcome of lexing at one position: skip trivia, emit a token, or reject.
pub enum StepV {
    Skip(int),
    Emit(TokV, int, int),
    Fail(DiagV),
}

/// The text of a `"…"`/`'…'` literal: a lossy UTF-8 decoding of its raw bytes.
pub uninterp spec fn utf8_lossy(b: Seq<u8>) -> Seq<char>;

/// The characters of a string slice with leading and trailing Unicode white space removed.
pub open spec fn trimmed(s: Seq<char>) -> Seq<char> {
    trimmed_end(trimmed_start(s))
}

/// std `String::from_utf8_lossy`: decodes the bytes (ill-formed sequences become U+FFFD);
/// the result is named, not stated.
#[verifier::external_body]
pub(crate) fn string_from_utf8_lossy(b: &[u8]) -> (s: String)
    ensures
        s@ == utf8_lossy(b@),
{
    String::from_utf8_lossy(b).into_owned()
}

/// std `str::trim`: the slice without its leading and trailing white space, white space
/// being the Unicode `White_Space` property.
#[verifier::external_body]
pub(crate) fn str_trim(s: &str) -> (r: &str)
    ensures
        r@ == trimmed(s@),
{
    s.trim()
}

/// The keyword a word lexes to, or an identifier.
pub open spec fn keyword_kind(w: Seq<char>) -> TokV {
    if w == "contract"@ {
        TokV::Simple(TokKind::Contract)
    } else if w == "function"@ {
        TokV::Simple(TokKind::Function)
    } else if w == "returns"@ {
        TokV::Simple(TokKind::Returns)
    } else if w == "return"@ {
        TokV::Simple(TokKind::Return)
    } else if w == "require"@ {
        TokV::Simple(TokKind::Require)
    } else if w == "assert"@ {
        TokV::Simple(TokKind::Assert)
    } else if w == "revert"@ {
        TokV::Simple(TokKind::Revert)
    } else if w == "if"@ {
        TokV::Simple(TokKind::If)
    } else if w == "else"@ {
        TokV::Simple(TokKind::Else)
    } else if w == "unchecked"@ {
        TokV::Simple(TokKind::Unchecked)
    } else if w == "public"@ {
        TokV::Simple(TokKind::Public)
    } else if w == "private"@ {
        TokV::Simple(TokKind::Private)
    } else if w == "internal"@ {
        TokV::Simple(TokKind::Internal)
    } else if w == "external"@ {
        TokV::Simple(TokKind::External)
    } else if w == "view"@ {
        TokV::Simple(TokKind::View)
    } else if w == "pure"@ {
        TokV::Simple(TokKind::Pure)
    } else if w == "memory"@ {
        TokV::Simple(TokKind::Memory)
    } else if w == "storage"@ {
        TokV::Simple(TokKind::Storage)
    } else if w == "calldata"@ {
        TokV::Simple(TokKind::Calldata)
    } else if w == "true"@ {
        TokV::Simple(TokKind::True)
    } else if w == "false"@ {
        TokV::Simple(TokKind::False)
    } else {
        TokV::Ident(w)
    }
}

/// A numeric literal starting at `s`.
pub open spec fn number_step(b: Seq<u8>, s: int) -> StepV {
    if b[s] == 48 && (peek_at(b, s + 1) == Some(120u8) || peek_at(b, s + 1) == Some(88u8)) {
        let e = run_end(b, s + 2, CLS_HEX_US);
        let hex = keep_only(b.subrange(s + 2, e), CLS_NOT_US);
        if hex.len() == 0 || strip_zeros(hex).len() > 64 {
            StepV::Fail((codes::FE430_BAD_NUMBER_SOL, s, e))
        } else {
            StepV::Emit(TokV::Num(ascii_chars(seq![48u8, 120u8] + hex)), s, e)
        }
    } else {
        let e1 = run_end(b, s, CLS_DIGIT_US);
        let e2 = if peek_at(b, e1) == Some(46u8) {
            run_end(b, e1 + 1, CLS_DIGIT_US)
        } else {
            e1
        };
        let frac_len: int = if peek_at(b, e1) == Some(46u8) {
            keep_only(b.subrange(e1 + 1, e2), CLS_DIGIT).len() as int
        } else {
            0
        };
        if peek_at(b, e2) == Some(101u8) || peek_at(b, e2) == Some(69u8) {
            let es = if peek_at(b, e2 + 1) == Some(43u8) {
                e2 + 2
            } else {
                e2 + 1
            };
            let ee = run_end(b, es, CLS_DIGIT);
            if ee == es {
                StepV::Fail((codes::FE430_BAD_NUMBER_SOL, s, ee))
            } else {
                number_finish(b, s, ee, exp_value(b.subrange(es, ee)) - frac_len)
            }
        } else {
            number_finish(b, s, e2, 0 - frac_len)
        }
    }
}

/// Expand the mantissa of the decimal literal `b[s..e]` by `scale` and range-check it.
pub open spec fn number_finish(b: Seq<u8>, s: int, e: int, scale: int) -> StepV {
    let mantissa = keep_only(before_exp(b.subrange(s, e)), CLS_DIGIT);
    match expand_pow10_spec(mantissa, scale) {
        Some(t) => if in_u256_range(t) {
            StepV::Emit(TokV::Num(ascii_chars(t)), s, e)
        } else {
            StepV::Fail((codes::FE430_BAD_NUMBER_SOL, s, e))
        },
        None => StepV::Fail((codes::FE430_BAD_NUMBER_SOL, s, e)),
    }
}

/// A string literal opened at `s` by `quote`.
pub open spec fn string_step(b: Seq<u8>, s: int, quote: u8) -> StepV {
    match quoted_end(b, quote, s + 1) {
        Some(q) => StepV::Emit(TokV::Str(utf8_lossy(b.subrange(s + 1, q))), s, q + 1),
        None => StepV::Fail((codes::FE401_UNSUPPORTED_SOL, s, b.len() as int)),
    }
}

/// A `pragma` directive whose keyword spans `s..e`.
pub open spec fn pragma_step(b: Seq<u8>, s: int, e: int) -> StepV {
    let k = semi_pos(b, e);
    if k >= b.len() {
        StepV::Fail((codes::FE411_UNCHECKED_OR_PRAGMA, s, b.len() as int))
    } else {
        StepV::Emit(TokV::Pragma(trimmed(utf8_lossy(b.subrange(e, k)))), s, k + 1)
    }
}

/// Skips a `{ … }` group at `t` and emits one `Assembly` marker spanning from `s`.
pub open spec fn assembly_block(b: Seq<u8>, s: int, t: int) -> StepV {
    match balanced_end(b, 123, 125, t, t, 0) {
        Ok(j) => StepV::Emit(TokV::Simple(TokKind::Assembly), s, j),
        Err(d) => StepV::Fail(d),
    }
}

/// The word `assembly` spanning `s..e`: an inline-assembly block, or a plain identifier.
pub open spec fn assembly_step(b: Seq<u8>, s: int, e: int) -> StepV {
    let t = skip_trivia(b, e);
    let ident = StepV::Emit(keyword_kind(ascii_chars(b.subrange(s, e))), s, e);
    if peek_at(b, t) == Some(123u8) {
        assembly_block(b, s, t)
    } else if peek_at(b, t) == Some(40u8) {
        let t2 = skip_trivia(b, t + 1);
        if peek_at(b, t2) == Some(34u8) || peek_at(b, t2) == Some(39u8) {
            match balanced_end(b, 40, 41, t, t, 0) {
                Err(d) => StepV::Fail(d),
                Ok(j) => {
                    let t3 = skip_trivia(b, j);
                    if peek_at(b, t3) == Some(123u8) {
                        assembly_block(b, s, t3)
                    } else {
                        ident
                    }
                },
            }
        } else {
            ident
        }
    } else {
        ident
    }
}

/// An identifier or keyword starting at `s`.
pub open spec fn word_step(b: Seq<u8>, s: int) -> StepV {
    let e = run_end(b, s, CLS_IDENT);
    let w = ascii_chars(b.subrange(s, e));
    if w == "pragma"@ {
        pragma_step(b, s, e)
    } else if w == "assembly"@ {
        assembly_step(b, s, e)
    } else {
        StepV::Emit(keyword_kind(w), s, e)
    }
}

pub open spec fn one(k: TokKind, i: int) -> StepV {
    StepV::Emit(TokV::Simple(k), i, i + 1)
}

pub open spec fn two(k: TokKind, i: int) -> StepV {
    StepV::Emit(TokV::Simple(k), i, i + 2)
}

/// `two` if the next byte is `second`, else `one`.
pub open spec fn op2(b: Seq<u8>, i: int, second: u8, t: TokKind, o: TokKind) -> StepV {
    if peek_at(b, i + 1) == Some(second) {
        two(t, i)
    } else {
        one(o, i)
    }
}

/// Lexing at position `i < b.len()`.
pub open spec fn step(b: Seq<u8>, i: int) -> StepV {
    let c = b[i];
    let n = peek_at(b, i + 1);
    if is_ws(c) {
        StepV::Skip(i + 1)
    } else if c == 47 && n == Some(47u8) {
        StepV::Skip(line_end(b, i))
    } else if c == 47 && n == Some(42u8) {
        match block_close(b, i + 2) {
            Some(j) => StepV::Skip(j),
            None => StepV::Fail((codes::FE401_UNSUPPORTED_SOL, i, b.len() as int)),
        }
    } else if is_digit(c) {
        number_step(b, i)
    } else if c == 34 || c == 39 {
        string_step(b, i, c)
    } else if c == 40 {
        one(TokKind::LParen, i)
    } else if c == 41 {
        one(TokKind::RParen, i)
    } else if c == 123 {
        one(TokKind::LBrace, i)
    } else if c == 125 {
        one(TokKind::RBrace, i)
    } else if c == 91 {
        one(TokKind::LBracket, i)
    } else if c == 93 {
        one(TokKind::RBracket, i)
    } else if c == 59 {
        one(TokKind::Semi, i)
    } else if c == 44 {
        one(TokKind::Comma, i)
    } else if c == 46 {
        one(TokKind::Dot, i)
    } else if c == 43 {
        op2(b, i, 61, TokKind::PlusEq, TokKind::Plus)
    } else if c == 45 {
        op2(b, i, 61, TokKind::MinusEq, TokKind::Minus)
    } else if c == 42 && n == Some(42u8) {
        two(TokKind::Pow, i)
    } else if c == 42 {
        op2(b, i, 61, TokKind::StarEq, TokKind::Star)
    } else if c == 47 {
        op2(b, i, 61, TokKind::SlashEq, TokKind::Slash)
    } else if c == 37 {
        op2(b, i, 61, TokKind::PercentEq, TokKind::Percent)
    } else if c == 61 && n == Some(61u8) {
        two(TokKind::EqEq, i)
    } else if c == 61 && n == Some(62u8) {
        two(TokKind::FatArrow, i)
    } else if c == 61 {
        one(TokKind::Assign, i)
    } else if c == 33 {
        op2(b, i, 61, TokKind::BangEq, TokKind::Bang)
    } else if c == 60 && n == Some(60u8) {
        two(TokKind::Shl, i)
    } else if c == 60 {
        op2(b, i, 61, TokKind::LtEq, TokKind::Lt)
    } else if c == 62 && n == Some(62u8) {
        two(TokKind::Shr, i)
    } else if c == 62 {
        op2(b, i, 61, TokKind::GtEq, TokKind::Gt)
    } else if c == 38 && n == Some(38u8) {
        two(TokKind::AmpAmp, i)
    } else if c == 38 {
        one(TokKind::Amp, i)
    } else if c == 124 && n == Some(124u8) {
        two(TokKind::PipePipe, i)
    } else if c == 124 {
        one(TokKind::Pipe, i)
    } else if c == 94 {
        one(TokKind::Caret, i)
    } else if c == 126 {
        one(TokKind::Tilde, i)
    } else if c == 63 {
        one(TokKind::Question, i)
    } else if c == 58 {
        one(TokKind::Colon, i)
    } else if c == 95 || is_alpha(c) {
        word_step(b, i)
    } else {
        StepV::Fail((codes::FE401_UNSUPPORTED_SOL, i, i + 1))
    }
}

/// Tokenize `b` from position `i` to the end.
pub open spec fn lex_from(b: Seq<u8>, i: int) -> Result<Seq<TokSpec>, DiagV>
    decreases b.len() - i,
{
    if i < 0 || i >= b.len() {
        Ok(Seq::empty())
    } else {
        match step(b, i) {
            StepV::Fail(d) => Err(d),
            StepV::Skip(j) => if i < j <= b.len() {
                lex_from(b, j)
            } else {
                Ok(Seq::empty())
            },
            StepV::Emit(k, s, e) => if i < e <= b.len() {
                match lex_from(b, e) {
                    Ok(rest) => Ok(seq![(k, s, e)] + rest),
                    Err(d) => Err(d),
                }
            } else {
                Ok(Seq::empty())
            },
        }
    }
}

/// The tokenization of a whole source: its tokens then `Eof`, or the one rejection.
pub open spec fn spec_lex(b: Seq<u8>) -> Result<Seq<TokSpec>, DiagV> {
    if b.len() > MAX_INPUT_BYTES {
        Err((codes::FE402_TOO_LARGE_SOL, 0, b.len() as int))
    } else {
        match lex_from(b, 0) {
            Ok(t) => Ok(t.push((TokV::Simple(TokKind::Eof), b.len() as int, b.len() as int))),
            Err(d) => Err(d),
        }
    }
}

/// A lexing step that emits a token emits it at the position it starts from, and ends past it.
proof fn lemma_step_emit_at(b: Seq<u8>, i: int)
    requires
        0 <= i < b.len(),
    ensures
        step(b, i) matches StepV::Emit(_, s, _) ==> s == i,
        step(b, i) matches StepV::Emit(v, _, _) ==> v != TokV::Simple(TokKind::Eof),
        step(b, i) matches StepV::Emit(v, s, e) ==> (v matches TokV::Ident(n) ==> n == ascii_chars(b.subrange(s, e))),
{
}

/// The tokens lexed from position `i` lie in `i..b.len()`, each non-empty, in source order
/// and without overlap.
proof fn lemma_lex_from_ordered(b: Seq<u8>, i: int)
    requires
        0 <= i,
    ensures
        lex_from(b, i) matches Ok(t) ==> (forall|k: int| 0 <= k < t.len() ==> i <= (#[trigger] t[k]).1 < t[k].2
            <= b.len() && t[k].0 != TokV::Simple(TokKind::Eof) && (t[k].0 matches TokV::Ident(n) ==> n == ascii_chars(
            b.subrange(t[k].1, t[k].2),
        ))) && (forall|k: int, j: int| 0 <= k < j < t.len()
            ==> (#[trigger] t[k]).2 <= (#[trigger] t[j]).1),
    decreases b.len() - i,
{
    if i < b.len() {
        lemma_step_emit_at(b, i);
        match step(b, i) {
            StepV::Skip(j) => {
                if i < j <= b.len() {
                    lemma_lex_from_ordered(b, j);
                }
            },
            StepV::Emit(v, st, e) => {
                if i < e <= b.len() {
                    lemma_lex_from_ordered(b, e);
                    if let Ok(rest) = lex_from(b, e) {
                        let t = seq![(v, st, e)] + rest;
                        assert(lex_from(b, i) == Ok::<Seq<TokSpec>, DiagV>(t));
                        assert forall|k: int| 0 <= k < t.len() implies i <= (#[trigger] t[k]).1 < t[k].2
                            <= b.len() && t[k].0 != TokV::Simple(TokKind::Eof) && (t[k].0 matches TokV::Ident(n) ==> n
                            == ascii_chars(b.subrange(t[k].1, t[k].2))) by {
                            if k > 0 {
                                assert(t[k] == rest[k - 1]);
                            }
                        }
                        assert forall|k: int, j: int| 0 <= k < j < t.len() implies (#[trigger] t[k]).2
                            <= (#[trigger] t[j]).1 by {
                            assert(t[j] == rest[j - 1]);
                            if k > 0 {
                                assert(t[k] == rest[k - 1]);
                            }
                        }
                    }
                }
            },
            StepV::Fail(_) => {},
        }
    }
}

/// What a successful tokenization is: a non-empty stream whose last token, and only that
/// one, is `Eof` at the end of the source; the tokens before it are non-empty, lie in the
/// source, come in source order and do not overlap, and an identifier's text is the source
/// text it spans.
pub proof fn lemma_token_stream(b: Seq<u8>)
    ensures
        spec_lex(b) matches Ok(t) ==> {
            &&& t.len() > 0
            &&& t.last() == (TokV::Simple(TokKind::Eof), b.len() as int, b.len() as int)
            &&& forall|k: int| 0 <= k < t.len() - 1 ==> 0 <= (#[trigger] t[k]).1 < t[k].2 <= b.len() && t[k].0
                != TokV::Simple(TokKind::Eof) && (t[k].0 matches TokV::Ident(n) ==> n == ascii_chars(b.subrange(t[k].1, t[k].2)))
            &&& forall|k: int, j: int| 0 <= k < j < t.len() ==> (#[trigger] t[k]).2 <= (#[trigger] t[j]).1
        },
{
    lemma_lex_from_ordered(b, 0);
    if b.len() <= MAX_INPUT_BYTES {
        if let Ok(t0) = lex_from(b, 0) {
            let t = t0.push((TokV::Simple(TokKind::Eof), b.len() as int, b.len() as int));
            assert forall|k: int| 0 <= k < t.len() - 1 implies 0 <= (#[trigger] t[k]).1 < t[k].2
                <= b.len() && t[k].0 != TokV::Simple(TokKind::Eof) && (t[k].0 matches TokV::Ident(n) ==> n
                == ascii_chars(b.subrange(t[k].1, t[k].2))) by {
                assert(t[k] == t0[k]);
            }
            assert forall|k: int, j: int| 0 <= k < j < t.len() implies (#[trigger] t[k]).2 <= (
            #[trigger] t[j]).1 by {
                assert(t[k] == t0[k]);
                if j < t.len() - 1 {
                    assert(t[j] == t0[j]);
                }
            }
        }
    }
}

// ── the executable lexer ─────────────────────────────────────────────────────

pub open spec fn prepend(p: Seq<TokSpec>, r: Result<Seq<TokSpec>, DiagV>) -> Result<
    Seq<TokSpec>,
    DiagV,
> {
    match r {
        Ok(t) => Ok(p + t),
        Err(d) => Err(d),
    }
}

proof fn lemma_toks_view_push(s: Seq<Tok>, t: Tok)
    ensures
        toks_view(s.push(t)) == toks_view(s).push(tok_view(t)),
{
    assert(toks_view(s.push(t)) =~= toks_view(s).push(tok_view(t)));
}

/// Tokenize `src`. Fail-closed + total.
pub fn lex(src: &str) -> (r: Result<Vec<Tok>, FrontendDiag>)
    ensures
        match r {
            Ok(toks) => spec_lex(src.spec_bytes()) == Ok::<Seq<TokSpec>, DiagV>(toks_view(toks@)),
            Err(d) => spec_lex(src.spec_bytes()) matches Err(v) && diag_is(d, v),
        },
{
    let b = src.as_bytes();
    if b.len() > MAX_INPUT_BYTES {
        return Err(
            FrontendDiag::new(
                codes::FE402_TOO_LARGE_SOL,
                "source exceeds 1048576 bytes",
                0..b.len(),
            ),
        );
    }
    let mut lx = Lexer { b, i: 0, out: Vec::new() };
    assert(toks_view(lx.out@) =~= Seq::<TokSpec>::empty());
    match lx.run() {
        Err(d) => {
            return Err(d);
        },
        Ok(_) => {},
    }
    let end = b.len();
    let eof = Tok { kind: TokKind::Eof, span: end..end };
    proof {
        lemma_toks_view_push(lx.out@, eof);
    }
    lx.out.push(eof);
    Ok(lx.out)
}

struct Lexer<'a> {
    b: &'a [u8],
    i: usize,
    out: Vec<Tok>,
}

/// The effect of one lexing action from state `o` to state `n` with result `r`.
spec fn outcome<'a>(o: Lexer<'a>, n: Lexer<'a>, r: Result<(), FrontendDiag>, st: StepV) -> bool {
    &&& n.b == o.b
    &&& match st {
        StepV::Skip(j) => r is Ok && n.i == j && o.i < n.i <= n.b@.len() && n.out@ == o.out@,
        StepV::Emit(v, s, e) => r is Ok && n.i == e && o.i < n.i <= n.b@.len() && s == o.i
            && toks_view(n.out@) == toks_view(o.out@).push((v, s, e)),
        StepV::Fail(d) => r matches Err(x) && diag_is(x, d),
    }
}

/// Whether `s` equals `u256_max_digits()`; the 78 digits of `2^256 - 1`.
fn u256_max() -> (v: Vec<u8>)
    ensures
        v@ == u256_max_digits(),
{
    let v: Vec<u8> = vec![
        49u8, 49, 53, 55, 57, 50, 48, 56, 57, 50, 51, 55, 51, 49, 54, 49, 57, 53, 52, 50, 51,
        53, 55, 48, 57, 56, 53, 48, 48, 56, 54, 56, 55, 57, 48, 55, 56, 53, 51, 50, 54, 57, 57,
        56, 52, 54, 54, 53, 54, 52, 48, 53, 54, 52, 48, 51, 57, 52, 53, 55, 53, 56, 52, 48, 48,
        55, 57, 49, 51, 49, 50, 57, 54, 51, 57, 57, 51, 53,
    ];
    assert(v@ =~= u256_max_digits());
    v
}

/// `s` without its leading `'0'` bytes.
pub fn strip_zeros_bytes(s: &[u8]) -> (r: &[u8])
    ensures
        r@ == strip_zeros(s@),
{
    let mut k: usize = 0;
    assert(s@.skip(0) =~= s@);
    while k < s.len() && s[k] == 48
        invariant
            k <= s@.len(),
            strip_zeros(s@.skip(k as int)) == strip_zeros(s@),
        decreases s@.len() - k,
    {
        assert(s@.skip(k as int).drop_first() =~= s@.skip(k + 1));
        k = k + 1;
    }
    let r = &s[k..s.len()];
    assert(r@ =~= s@.skip(k as int));
    r
}

/// Whether a decimal digit string is `< 2^256` (the u256 ceiling): by length, then
/// lexicographically against `2^256 - 1` at the boundary length.
pub fn u256_decimal_in_range(digits: &[u8]) -> (r: bool)
    ensures
        r == in_u256_range(digits@),
{
    let t = strip_zeros_bytes(digits);
    let max = u256_max();
    if t.len() == 0 {
        return true;
    }
    if t.len() < 78 {
        return true;
    }
    if t.len() > 78 {
        return false;
    }
    let mut k: usize = 0;
    assert(t@.skip(0) =~= t@);
    assert(max@.skip(0) =~= max@);
    while k < 78
        invariant
            k <= 78,
            t@.len() == 78,
            t@ == strip_zeros(digits@),
            max@ == u256_max_digits(),
            lex_le(t@.skip(k as int), max@.skip(k as int)) == lex_le(t@, max@),
        decreases 78 - k,
    {
        assert(t@.skip(k as int).drop_first() =~= t@.skip(k + 1));
        assert(max@.skip(k as int).drop_first() =~= max@.skip(k + 1));
        assert(t@.skip(k as int)[0] == t@[k as int]);
        assert(max@.skip(k as int)[0] == max@[k as int]);
        if t[k] < max[k] {
            return true;
        }
        if t[k] > max[k] {
            return false;
        }
        k = k + 1;
    }
    assert(t@.skip(78) =~= Seq::<u8>::empty());
    true
}

/// The bytes of `s` in class `cls`, in order.
fn keep_bytes(s: &[u8], cls: u8) -> (r: Vec<u8>)
    ensures
        r@ == keep_only(s@, cls),
{
    let mut r: Vec<u8> = Vec::new();
    let mut k: usize = 0;
    while k < s.len()
        invariant
            k <= s@.len(),
            r@ == keep_only(s@.take(k as int), cls),
        decreases s@.len() - k,
    {
        assert(s@.take(k + 1).drop_last() =~= s@.take(k as int));
        if is_class(cls, s[k]) {
            r.push(s[k]);
        }
        k = k + 1;
    }
    assert(s@.take(s@.len() as int) =~= s@);
    r
}

/// Byte class membership (see `in_class`).
fn is_class(cls: u8, c: u8) -> (r: bool)
    ensures
        r == in_class(cls, c),
{
    let digit = 48 <= c && c <= 57;
    let alpha = (65 <= c && c <= 90) || (97 <= c && c <= 122);
    if cls == CLS_DIGIT_US {
        digit || c == 95
    } else if cls == CLS_HEX_US {
        digit || (65 <= c && c <= 70) || (97 <= c && c <= 102) || c == 95
    } else if cls == CLS_DIGIT {
        digit
    } else if cls == CLS_IDENT {
        c == 95 || alpha || digit
    } else {
        c != 95
    }
}

/// The prefix of `s` before its first `e`/`E`.
fn before_exp_bytes(s: &[u8]) -> (r: &[u8])
    ensures
        r@ == before_exp(s@),
{
    let mut k: usize = 0;
    while k < s.len() && s[k] != 101 && s[k] != 69
        invariant
            k <= s@.len(),
            exp_pos(s@, k as int) == exp_pos(s@, 0),
        decreases s@.len() - k,
    {
        k = k + 1;
    }
    &s[0..k]
}

proof fn lemma_dec_value_prefix(s: Seq<u8>, k: int)
    requires
        0 <= k <= s.len(),
    ensures
        dec_value(s.take(k)) <= dec_value(s),
    decreases s.len(),
{
    if k < s.len() {
        assert(s.drop_last().take(k) =~= s.take(k));
        lemma_dec_value_prefix(s.drop_last(), k);
    } else {
        assert(s.take(k) =~= s);
    }
}

/// `i64` value of a non-empty digit string, saturating at `i64::MAX` (the
/// `parse::<i64>().unwrap_or(i64::MAX)` of an all-digit exponent).
fn parse_exp(d: &[u8]) -> (r: i64)
    requires
        all_digits(d@),
    ensures
        r as int == exp_value(d@),
{
    let mut v: i64 = 0;
    let mut k: usize = 0;
    while k < d.len()
        invariant
            k <= d@.len(),
            all_digits(d@),
            v as int == dec_value(d@.take(k as int)),
            0 <= v,
        decreases d@.len() - k,
    {
        let dig = (d[k] - 48) as i64;
        assert(d@.take(k + 1).drop_last() =~= d@.take(k as int));
        assert(is_digit(d@[k as int]));
        if v > (i64::MAX - dig) / 10 {
            proof {
                lemma_dec_value_prefix(d@, k + 1);
            }
            return i64::MAX;
        }
        v = v * 10 + dig;
        k = k + 1;
    }
    assert(d@.take(d@.len() as int) =~= d@);
    v
}

/// `mantissa` (pure ASCII digits) × 10^`scale` as decimal digits, or `None` if the value is
/// not a non-negative integer (a negative `scale` that would drop a non-zero digit). Padding
/// is capped at 100 digits (the caller range-rejects an oversize result).
fn expand_pow10(mantissa: &[u8], scale: i64) -> (r: Option<Vec<u8>>)
    requires
        mantissa@.len() <= MAX_INPUT_BYTES,
    ensures
        match r {
            Some(v) => expand_pow10_spec(mantissa@, scale as int) == Some(v@),
            None => expand_pow10_spec(mantissa@, scale as int) is None,
        },
{
    let m = strip_zeros_bytes(mantissa);
    proof {
        lemma_strip_zeros_len(mantissa@);
    }
    if m.len() == 0 {
        let z: Vec<u8> = vec![48u8];
        assert(z@ =~= seq![48u8]);
        return Some(z);
    }
    if scale == 0 {
        return Some(slice_to_vec(m));
    }
    if scale > 0 {
        let pad: usize = if scale < 100 {
            scale as usize
        } else {
            100
        };
        let mut s = slice_to_vec(m);
        let mut k: usize = 0;
        while k < pad
            invariant
                k <= pad,
                s@ == m@ + zeros(k as nat),
            decreases pad - k,
        {
            s.push(48u8);
            k = k + 1;
            assert(s@ =~= m@ + zeros(k as nat));
        }
        return Some(s);
    }
    let ndrop: usize = if scale < -1000000000 {
        1000000000
    } else {
        (-scale) as usize
    };
    if scale < -1000000000 || ndrop >= m.len() {
        return None;
    }
    let cut = m.len() - ndrop;
    let mut k: usize = cut;
    while k < m.len()
        invariant
            cut <= k <= m@.len(),
            cut == m@.len() - ndrop,
            m@ == strip_zeros(mantissa@),
            m@.len() > 0,
            scale < 0,
            ndrop as int == -scale,
            forall|j: int| cut <= j < k ==> m@[j] == 48,
        decreases m@.len() - k,
    {
        if m[k] != 48 {
            assert(m@.skip(cut as int)[k - cut] == m@[k as int]);
            assert(zeros(ndrop as nat)[k - cut] == 48u8);
            return None;
        }
        k = k + 1;
    }
    assert(m@.skip(cut as int) =~= zeros(ndrop as nat));
    Some(slice_to_vec(&m[0..cut]))
}

impl<'a> Lexer<'a> {
    fn peek(&self, k: usize) -> (r: Option<u8>)
        requires
            k <= 2,
        ensures
            r == peek_at(self.b@, self.i + k),
    {
        if self.i < self.b.len() && k < self.b.len() - self.i {
            Some(self.b[self.i + k])
        } else {
            None
        }
    }

    fn punct(&mut self, kind: TokKind)
        requires
            old(self).i < old(self).b@.len() <= MAX_INPUT_BYTES,
        ensures
            outcome(
                *old(self),
                *final(self),
                Ok(()),
                StepV::Emit(kind@, old(self).i as int, old(self).i + 1),
            ),
    {
        let t = Tok { kind, span: self.i..self.i + 1 };
        proof {
            lemma_toks_view_push(self.out@, t);
        }
        self.out.push(t);
        self.i += 1;
    }

    fn punct2(&mut self, kind: TokKind)
        requires
            old(self).i + 1 < old(self).b@.len() <= MAX_INPUT_BYTES,
        ensures
            outcome(
                *old(self),
                *final(self),
                Ok(()),
                StepV::Emit(kind@, old(self).i as int, old(self).i + 2),
            ),
    {
        let t = Tok { kind, span: self.i..self.i + 2 };
        proof {
            lemma_toks_view_push(self.out@, t);
        }
        self.out.push(t);
        self.i += 2;
    }

    /// A one-or-two-char operator: if the next byte is `second`, emit `two` (2 bytes),
    /// else `one` (1 byte).
    fn op2(&mut self, second: u8, two: TokKind, one: TokKind)
        requires
            old(self).i < old(self).b@.len() <= MAX_INPUT_BYTES,
            two@ == TokV::Simple(two),
            one@ == TokV::Simple(one),
        ensures
            outcome(
                *old(self),
                *final(self),
                Ok(()),
                op2(old(self).b@, old(self).i as int, second, two, one),
            ),
    {
        if self.peek(1) == Some(second) {
            self.punct2(two);
        } else {
            self.punct(one);
        }
    }

    fn skip_line_comment(&mut self)
        requires
            old(self).i <= old(self).b@.len(),
        ensures
            final(self).b == old(self).b,
            final(self).out@ == old(self).out@,
            final(self).i == line_end(old(self).b@, old(self).i as int),
            old(self).i <= final(self).i <= final(self).b@.len(),
    {
        while self.i < self.b.len() && self.b[self.i] != 10
            invariant
                self.b == old(self).b,
                self.out@ == old(self).out@,
                old(self).i <= self.i <= self.b@.len(),
                line_end(self.b@, self.i as int) == line_end(self.b@, old(self).i as int),
            decreases self.b@.len() - self.i,
        {
            self.i += 1;
        }
    }

    fn skip_block_comment(&mut self) -> (r: Result<(), FrontendDiag>)
        requires
            old(self).i + 1 < old(self).b@.len() <= MAX_INPUT_BYTES,
        ensures
            final(self).b == old(self).b,
            final(self).out@ == old(self).out@,
            match block_close(old(self).b@, old(self).i + 2) {
                Some(j) => r is Ok && final(self).i == j && old(self).i + 2 <= j <= final(self).b@.len(),
                None => r matches Err(d) && diag_is(
                    d,
                    (codes::FE401_UNSUPPORTED_SOL, old(self).i as int, old(self).b@.len() as int),
                ) && final(self).i == block_fail_pos(old(self).b@, old(self).i as int),
            },
    {
        let start = self.i;
        self.i += 2;
        while self.i + 1 < self.b.len()
            invariant
                self.b == old(self).b,
                self.out@ == old(self).out@,
                self.b@.len() <= MAX_INPUT_BYTES,
                start == old(self).i,
                start + 2 <= self.i <= self.b@.len(),
                self.i == start + 2 || self.i <= self.b@.len() - 1,
                block_close(self.b@, self.i as int) == block_close(self.b@, start + 2),
            decreases self.b@.len() - self.i,
        {
            if self.b[self.i] == 42 && self.b[self.i + 1] == 47 {
                self.i += 2;
                return Ok(());
            }
            self.i += 1;
        }
        Err(
            FrontendDiag::new(
                codes::FE401_UNSUPPORTED_SOL,
                "unterminated block comment",
                start..self.b.len(),
            ),
        )
    }

    /// Skip whitespace + line/block comments (no token emitted). Used to peek from an
    /// `assembly` keyword to its `{ … }` block.
    fn skip_trivia(&mut self)
        requires
            old(self).i <= old(self).b@.len() <= MAX_INPUT_BYTES,
        ensures
            final(self).b == old(self).b,
            final(self).out@ == old(self).out@,
            final(self).i == skip_trivia(old(self).b@, old(self).i as int),
            final(self).i <= final(self).b@.len(),
    {
        while self.i < self.b.len()
            invariant
                self.b == old(self).b,
                self.out@ == old(self).out@,
                self.i <= self.b@.len() <= MAX_INPUT_BYTES,
                skip_trivia(self.b@, self.i as int) == skip_trivia(
                    self.b@,
                    old(self).i as int,
                ),
            decreases self.b@.len() - self.i,
        {
            let c = self.b[self.i];
            if c == 32 || c == 9 || c == 13 || c == 10 {
                self.i += 1;
            } else if c == 47 && self.peek(1) == Some(47u8) {
                let ghost k = self.i;
                self.skip_line_comment();
                assert(line_end(self.b@, k as int) == line_end(self.b@, k + 1));
                proof {
                    lemma_line_end_bound(self.b@, k + 1);
                }
            } else if c == 47 && self.peek(1) == Some(42u8) {
                if self.skip_block_comment().is_err() {
                    return ;
                }
            } else {
                return ;
            }
        }
    }

    /// Skip a balanced `open`/`close` group starting at the current `open` byte, honoring
    /// string + comment contents so a delimiter inside `"…"`/`'…'`/`/*…*/` does not miscount.
    fn skip_balanced(&mut self, open: u8, close: u8) -> (r: Result<(), FrontendDiag>)
        requires
            old(self).i < old(self).b@.len() <= MAX_INPUT_BYTES,
            old(self).b@[old(self).i as int] == open,
            open != close,
            open != 47 && open != 34 && open != 39,
        ensures
            final(self).b == old(self).b,
            final(self).out@ == old(self).out@,
            match balanced_end(
                old(self).b@,
                open,
                close,
                old(self).i as int,
                old(self).i as int,
                0,
            ) {
                Ok(j) => r is Ok && final(self).i == j && old(self).i < j <= final(self).b@.len(),
                Err(d) => r matches Err(x) && diag_is(x, d),
            },
    {
        let start = self.i;
        let mut depth: u32 = 0;
        while self.i < self.b.len()
            invariant
                self.b == old(self).b,
                self.out@ == old(self).out@,
                self.b@.len() <= MAX_INPUT_BYTES,
                start == old(self).i,
                start <= self.i <= self.b@.len(),
                depth <= self.i,
                (self.i == start && depth == 0) || (self.i > start && depth >= 1),
                self.b@[start as int] == open,
                open != close,
                open != 47 && open != 34 && open != 39,
                balanced_end(self.b@, open, close, start as int, self.i as int, depth as nat)
                    == balanced_end(self.b@, open, close, start as int, start as int, 0),
            decreases self.b@.len() - self.i,
        {
            let c = self.b[self.i];
            if c == 47 && self.peek(1) == Some(47u8) {
                let ghost k = self.i;
                self.skip_line_comment();
                assert(line_end(self.b@, k as int) == line_end(self.b@, k + 1));
                proof {
                    lemma_line_end_bound(self.b@, k + 1);
                }
            } else if c == 47 && self.peek(1) == Some(42u8) {
                match self.skip_block_comment() {
                    Err(d) => {
                        return Err(d);
                    },
                    Ok(_) => {},
                }
            } else if c == 34 || c == 39 {
                match self.skip_quoted(c) {
                    Err(d) => {
                        return Err(d);
                    },
                    Ok(_) => {},
                }
            } else if c == open {
                depth += 1;
                self.i += 1;
            } else if c == close {
                depth -= 1;
                self.i += 1;
                if depth == 0 {
                    return Ok(());
                }
            } else {
                self.i += 1;
            }
        }
        Err(
            FrontendDiag::new(
                codes::FE478_INLINE_ASSEMBLY_SOL,
                "unterminated inline `assembly` block",
                start..self.b.len(),
            ),
        )
    }

    /// Skip a `"…"`/`'…'` string (delimited by `quote`) WITHOUT emitting a token. Honors
    /// `\`-escapes; unterminated → Err.
    fn skip_quoted(&mut self, quote: u8) -> (r: Result<(), FrontendDiag>)
        requires
            old(self).i < old(self).b@.len() <= MAX_INPUT_BYTES,
        ensures
            final(self).b == old(self).b,
            final(self).out@ == old(self).out@,
            match quoted_end(old(self).b@, quote, old(self).i + 1) {
                Some(q) => r is Ok && final(self).i == q + 1 && old(self).i < q < final(self).b@.len(),
                None => r matches Err(d) && diag_is(
                    d,
                    (codes::FE401_UNSUPPORTED_SOL, old(self).i as int, old(self).b@.len() as int),
                ),
            },
    {
        let start = self.i;
        self.i += 1;
        while self.i < self.b.len()
            invariant
                self.b == old(self).b,
                self.out@ == old(self).out@,
                self.b@.len() <= MAX_INPUT_BYTES,
                start == old(self).i,
                start + 1 <= self.i <= self.b@.len() + 1,
                quoted_end(self.b@, quote, self.i as int) == quoted_end(
                    self.b@,
                    quote,
                    start + 1,
                ),
            decreases self.b@.len() + 1 - self.i,
        {
            let c = self.b[self.i];
            if c == 92 {
                self.i += 2;
            } else if c == quote {
                self.i += 1;
                return Ok(());
            } else {
                self.i += 1;
            }
        }
        Err(
            FrontendDiag::new(
                codes::FE401_UNSUPPORTED_SOL,
                "unterminated string literal",
                start..self.b.len(),
            ),
        )
    }

    /// Advance over the run of `cls` bytes.
    fn scan_run(&mut self, cls: u8)
        requires
            old(self).i <= old(self).b@.len(),
        ensures
            final(self).b == old(self).b,
            final(self).out@ == old(self).out@,
            final(self).i == run_end(old(self).b@, old(self).i as int, cls),
            old(self).i <= final(self).i <= final(self).b@.len(),
    {
        while self.i < self.b.len() && is_class(cls, self.b[self.i])
            invariant
                self.b == old(self).b,
                self.out@ == old(self).out@,
                old(self).i <= self.i <= self.b@.len(),
                run_end(self.b@, self.i as int, cls) == run_end(
                    self.b@,
                    old(self).i as int,
                    cls,
                ),
            decreases self.b@.len() - self.i,
        {
            self.i += 1;
        }
    }

    fn lex_number(&mut self) -> (r: Result<(), FrontendDiag>)
        requires
            old(self).i < old(self).b@.len() <= MAX_INPUT_BYTES,
            is_digit(old(self).b@[old(self).i as int]),
        ensures
            outcome(*old(self), *final(self), r, number_step(old(self).b@, old(self).i as int)),
    {
        if self.b[self.i] == 48 && (self.peek(1) == Some(120u8) || self.peek(1) == Some(88u8)) {
            self.lex_hex_number()
        } else {
            self.lex_decimal_number()
        }
    }

    /// Hex `0x…`, with optional `_` digit separators.
    #[verifier::rlimit(30)]
    fn lex_hex_number(&mut self) -> (r: Result<(), FrontendDiag>)
        requires
            old(self).i + 1 < old(self).b@.len() <= MAX_INPUT_BYTES,
            old(self).b@[old(self).i as int] == 48,
            old(self).b@[old(self).i + 1] == 120 || old(self).b@[old(self).i + 1] == 88,
        ensures
            outcome(*old(self), *final(self), r, number_step(old(self).b@, old(self).i as int)),
    {
        let start = self.i;
        // Hex `0x…`, with optional `_` digit separators.
        self.i += 2;
        let hs = self.i;
        self.scan_run(CLS_HEX_US);
        let hex = keep_bytes(&self.b[hs..self.i], CLS_NOT_US);
        if hex.len() == 0 {
            return Err(
                FrontendDiag::new(
                    codes::FE430_BAD_NUMBER_SOL,
                    "hex literal `0x` has no digits",
                    start..self.i,
                ),
            );
        }
        if strip_zeros_bytes(hex.as_slice()).len() > 64 {
            return Err(
                FrontendDiag::new(
                    codes::FE430_BAD_NUMBER_SOL,
                    "numeric literal exceeds the u256 range [0, 2^256)",
                    start..self.i,
                ),
            );
        }
        let mut text: Vec<u8> = Vec::new();
        text.push(48u8);
        text.push(120u8);
        let mut k: usize = 0;
        while k < hex.len()
            invariant
                k <= hex@.len(),
                text@ == seq![48u8, 120u8] + hex@.take(k as int),
            decreases hex@.len() - k,
        {
            text.push(hex[k]);
            k = k + 1;
            assert(text@ =~= seq![48u8, 120u8] + hex@.take(k as int));
        }
        assert(hex@.take(hex@.len() as int) =~= hex@);
        let t = Tok { kind: TokKind::Num(ascii_string(text.as_slice())), span: start..self.i };
        proof {
            lemma_toks_view_push(self.out@, t);
        }
        self.out.push(t);
        Ok(())
    }

    /// Decimal `<digits>[.<digits>]?[ (e|E) [+]? <digits> ]?`, with `_` separators. A
    /// non-integral value is rejected; `1e18` / `1_000_000` / `2.5e3` expand to integers.
    #[verifier::rlimit(30)]
    fn lex_decimal_number(&mut self) -> (r: Result<(), FrontendDiag>)
        requires
            old(self).i < old(self).b@.len() <= MAX_INPUT_BYTES,
            is_digit(old(self).b@[old(self).i as int]),
            !(old(self).b@[old(self).i as int] == 48 && (peek_at(old(self).b@, old(self).i + 1)
                == Some(120u8) || peek_at(old(self).b@, old(self).i + 1) == Some(88u8))),
        ensures
            outcome(*old(self), *final(self), r, number_step(old(self).b@, old(self).i as int)),
    {
        let start = self.i;
        proof {
            lemma_run_all(self.b@, start + 1, CLS_DIGIT_US);
        }
        // Decimal `<digits>[.<digits>]?[ (e|E) [+]? <digits> ]?`, with `_` separators.
        self.scan_run(CLS_DIGIT_US);
        let e1 = self.i;
        let mut frac_len: i64 = 0;
        if self.peek(0) == Some(46u8) {
            self.i += 1;
            let fs = self.i;
            self.scan_run(CLS_DIGIT_US);
            let fd = keep_bytes(&self.b[fs..self.i], CLS_DIGIT);
            proof {
                lemma_keep_only_len(self.b@.subrange(fs as int, self.i as int), CLS_DIGIT);
            }
            frac_len = fd.len() as i64;
        }
        let e2 = self.i;
        let mut exp: i64 = 0;
        if self.peek(0) == Some(101u8) || self.peek(0) == Some(69u8) {
            self.i += 1;
            if self.peek(0) == Some(43u8) {
                self.i += 1;
            }
            let es = self.i;
            self.scan_run(CLS_DIGIT);
            if self.i == es {
                return Err(
                    FrontendDiag::new(
                        codes::FE430_BAD_NUMBER_SOL,
                        "scientific-notation exponent has no digits",
                        start..self.i,
                    ),
                );
            }
            proof {
                lemma_run_all(self.b@, es as int, CLS_DIGIT);
            }
            exp = parse_exp(&self.b[es..self.i]);
        }
        // mantissa = every digit in the int+frac part (`_` and `.` stripped).
        let mant = keep_bytes(before_exp_bytes(&self.b[start..self.i]), CLS_DIGIT);
        proof {
            lemma_keep_only_len(before_exp(self.b@.subrange(start as int, self.i as int)), CLS_DIGIT);
            lemma_exp_pos_bound(self.b@.subrange(start as int, self.i as int), 0);
        }
        match expand_pow10(mant.as_slice(), exp - frac_len) {
            Some(t) => {
                if u256_decimal_in_range(t.as_slice()) {
                    let tok = Tok { kind: TokKind::Num(ascii_string(t.as_slice())), span: start..self.i };
                    proof {
                        lemma_toks_view_push(self.out@, tok);
                    }
                    self.out.push(tok);
                    Ok(())
                } else {
                    Err(
                        FrontendDiag::new(
                            codes::FE430_BAD_NUMBER_SOL,
                            "numeric literal exceeds the u256 range [0, 2^256)",
                            start..self.i,
                        ),
                    )
                }
            },
            None => Err(
                FrontendDiag::new(
                    codes::FE430_BAD_NUMBER_SOL,
                    "numeric literal is not a non-negative integer (a fractional value is unsupported)",
                    start..self.i,
                ),
            ),
        }
    }

    /// Scan a `"…"` or `'…'` string literal (delimited by `quote`), carrying its raw
    /// contents. `\`-escapes are skipped, never interpreted; unterminated → FE401.
    fn lex_string(&mut self, quote: u8) -> (r: Result<(), FrontendDiag>)
        requires
            old(self).i < old(self).b@.len() <= MAX_INPUT_BYTES,
        ensures
            outcome(
                *old(self),
                *final(self),
                r,
                string_step(old(self).b@, old(self).i as int, quote),
            ),
    {
        let start = self.i;
        self.i += 1;
        while self.i < self.b.len()
            invariant
                self.b == old(self).b,
                self.out@ == old(self).out@,
                self.b@.len() <= MAX_INPUT_BYTES,
                start == old(self).i,
                start + 1 <= self.i <= self.b@.len() + 1,
                quoted_end(self.b@, quote, self.i as int) == quoted_end(
                    self.b@,
                    quote,
                    start + 1,
                ),
            decreases self.b@.len() + 1 - self.i,
        {
            let c = self.b[self.i];
            if c == 92 {
                self.i += 2;
            } else if c == quote {
                let text = string_from_utf8_lossy(&self.b[start + 1..self.i]);
                self.i += 1;
                let t = Tok { kind: TokKind::Str(text), span: start..self.i };
                proof {
                    lemma_toks_view_push(self.out@, t);
                }
                self.out.push(t);
                return Ok(());
            } else {
                self.i += 1;
            }
        }
        Err(
            FrontendDiag::new(
                codes::FE401_UNSUPPORTED_SOL,
                "unterminated string literal",
                start..self.b.len(),
            ),
        )
    }

    fn lex_ident_or_keyword(&mut self) -> (r: Result<(), FrontendDiag>)
        requires
            old(self).i < old(self).b@.len() <= MAX_INPUT_BYTES,
            old(self).b@[old(self).i as int] == 95 || is_alpha(old(self).b@[old(self).i as int]),
        ensures
            outcome(*old(self), *final(self), r, word_step(old(self).b@, old(self).i as int)),
    {
        let start = self.i;
        self.scan_run(CLS_IDENT);
        proof {
            lemma_run_all(self.b@, start + 1, CLS_IDENT);
        }
        let word = ascii_string(&self.b[start..self.i]);
        if str_eq(word.as_str(), "pragma") {
            return self.lex_pragma(start);
        }
        // Inline `assembly [("flags")] { … }` — skip the whole balanced block and emit one
        // `Assembly` marker. A bare identifier `assembly` (not followed by a block) stays an
        // `Ident`.
        if str_eq(word.as_str(), "assembly") {
            let after_kw = self.i;
            self.skip_trivia();
            proof {
                lemma_skip_trivia_ge(self.b@, after_kw as int);
            }
            let mut is_block = self.peek(0) == Some(123u8);
            if !is_block && self.peek(0) == Some(40u8) {
                let save = self.i;
                self.i += 1;
                self.skip_trivia();
                let is_flags = self.peek(0) == Some(34u8) || self.peek(0) == Some(39u8);
                self.i = save;
                if is_flags {
                    match self.skip_balanced(40, 41) {
                        Err(d) => {
                            return Err(d);
                        },
                        Ok(_) => {},
                    }
                    proof {
                        lemma_skip_trivia_ge(self.b@, self.i as int);
                    }
                    self.skip_trivia();
                    is_block = self.peek(0) == Some(123u8);
                }
            }
            if is_block {
                proof {
                    lemma_skip_trivia_ge(self.b@, after_kw as int);
                }
                match self.skip_balanced(123, 125) {
                    Err(d) => {
                        return Err(d);
                    },
                    Ok(_) => {},
                }
                let t = Tok { kind: TokKind::Assembly, span: start..self.i };
                proof {
                    lemma_toks_view_push(self.out@, t);
                }
                self.out.push(t);
                return Ok(());
            }
            self.i = after_kw;
        }
        let kind = keyword_tok(word);
        let t = Tok { kind, span: start..self.i };
        proof {
            lemma_toks_view_push(self.out@, t);
        }
        self.out.push(t);
        Ok(())
    }

    /// Capture a `pragma … ;` directive's body (everything after `pragma`, up to but
    /// excluding `;`), trimmed. `start` is the byte offset of the `pragma` keyword.
    fn lex_pragma(&mut self, start: usize) -> (r: Result<(), FrontendDiag>)
        requires
            start < old(self).i <= old(self).b@.len() <= MAX_INPUT_BYTES,
        ensures
            outcome(
                Lexer { i: start, ..*old(self) },
                *final(self),
                r,
                pragma_step(old(self).b@, start as int, old(self).i as int),
            ),
    {
        let body_start = self.i;
        while self.i < self.b.len() && self.b[self.i] != 59
            invariant
                self.b == old(self).b,
                self.out@ == old(self).out@,
                body_start == old(self).i,
                body_start <= self.i <= self.b@.len(),
                semi_pos(self.b@, self.i as int) == semi_pos(self.b@, body_start as int),
            decreases self.b@.len() - self.i,
        {
            self.i += 1;
        }
        if self.i >= self.b.len() {
            return Err(
                FrontendDiag::new(
                    codes::FE411_UNCHECKED_OR_PRAGMA,
                    "unterminated pragma directive (missing `;`)",
                    start..self.b.len(),
                ),
            );
        }
        let raw = string_from_utf8_lossy(&self.b[body_start..self.i]);
        let body = str_trim(raw.as_str()).to_owned();
        let end = self.i + 1;
        let t = Tok { kind: TokKind::Pragma(body), span: start..end };
        proof {
            lemma_toks_view_push(self.out@, t);
        }
        self.out.push(t);
        self.i = end;
        Ok(())
    }

    /// Lex one lexeme (or skip one piece of trivia) at the current position.
    fn step(&mut self) -> (r: Result<(), FrontendDiag>)
        requires
            old(self).i < old(self).b@.len() <= MAX_INPUT_BYTES,
        ensures
            outcome(*old(self), *final(self), r, step(old(self).b@, old(self).i as int)),
    {
        let c = self.b[self.i];
        let n = self.peek(1);
        if c == 32 || c == 9 || c == 13 || c == 10 {
            self.i += 1;
            Ok(())
        } else if c == 47 && n == Some(47u8) {
            let ghost k = self.i;
            self.skip_line_comment();
            assert(line_end(self.b@, k as int) == line_end(self.b@, k + 1));
            proof {
                lemma_line_end_bound(self.b@, k + 1);
            }
            Ok(())
        } else if c == 47 && n == Some(42u8) {
            self.skip_block_comment()
        } else if 48 <= c && c <= 57 {
            self.lex_number()
        } else if c == 34 || c == 39 {
            self.lex_string(c)
        } else if c == 40 {
            self.punct(TokKind::LParen);
            Ok(())
        } else if c == 41 {
            self.punct(TokKind::RParen);
            Ok(())
        } else if c == 123 {
            self.punct(TokKind::LBrace);
            Ok(())
        } else if c == 125 {
            self.punct(TokKind::RBrace);
            Ok(())
        } else if c == 91 {
            self.punct(TokKind::LBracket);
            Ok(())
        } else if c == 93 {
            self.punct(TokKind::RBracket);
            Ok(())
        } else if c == 59 {
            self.punct(TokKind::Semi);
            Ok(())
        } else if c == 44 {
            self.punct(TokKind::Comma);
            Ok(())
        } else if c == 46 {
            self.punct(TokKind::Dot);
            Ok(())
        } else if c == 43 {
            self.op2(61, TokKind::PlusEq, TokKind::Plus);
            Ok(())
        } else if c == 45 {
            self.op2(61, TokKind::MinusEq, TokKind::Minus);
            Ok(())
        } else if c == 42 && n == Some(42u8) {
            // `**` (exponentiation) before `*=`/`*`; Solidity has no `**=`.
            self.punct2(TokKind::Pow);
            Ok(())
        } else if c == 42 {
            self.op2(61, TokKind::StarEq, TokKind::Star);
            Ok(())
        } else if c == 47 {
            self.op2(61, TokKind::SlashEq, TokKind::Slash);
            Ok(())
        } else if c == 37 {
            self.op2(61, TokKind::PercentEq, TokKind::Percent);
            Ok(())
        } else if c == 61 && n == Some(61u8) {
            self.punct2(TokKind::EqEq);
            Ok(())
        } else if c == 61 && n == Some(62u8) {
            self.punct2(TokKind::FatArrow);
            Ok(())
        } else if c == 61 {
            self.punct(TokKind::Assign);
            Ok(())
        } else if c == 33 {
            self.op2(61, TokKind::BangEq, TokKind::Bang);
            Ok(())
        } else if c == 60 && n == Some(60u8) {
            self.punct2(TokKind::Shl);
            Ok(())
        } else if c == 60 {
            self.op2(61, TokKind::LtEq, TokKind::Lt);
            Ok(())
        } else if c == 62 && n == Some(62u8) {
            self.punct2(TokKind::Shr);
            Ok(())
        } else if c == 62 {
            self.op2(61, TokKind::GtEq, TokKind::Gt);
            Ok(())
        } else if c == 38 && n == Some(38u8) {
            self.punct2(TokKind::AmpAmp);
            Ok(())
        } else if c == 38 {
            self.punct(TokKind::Amp);
            Ok(())
        } else if c == 124 && n == Some(124u8) {
            self.punct2(TokKind::PipePipe);
            Ok(())
        } else if c == 124 {
            self.punct(TokKind::Pipe);
            Ok(())
        } else if c == 94 {
            self.punct(TokKind::Caret);
            Ok(())
        } else if c == 126 {
            self.punct(TokKind::Tilde);
            Ok(())
        } else if c == 63 {
            self.punct(TokKind::Question);
            Ok(())
        } else if c == 58 {
            self.punct(TokKind::Colon);
            Ok(())
        } else if c == 95 || (65 <= c && c <= 90) || (97 <= c && c <= 122) {
            self.lex_ident_or_keyword()
        } else {
            Err(
                FrontendDiag::new(
                    codes::FE401_UNSUPPORTED_SOL,
                    "unexpected byte",
                    self.i..self.i + 1,
                ),
            )
        }
    }

    fn run(&mut self) -> (r: Result<(), FrontendDiag>)
        requires
            old(self).i == 0,
            toks_view(old(self).out@) == Seq::<TokSpec>::empty(),
            old(self).b@.len() <= MAX_INPUT_BYTES,
        ensures
            final(self).b == old(self).b,
            match r {
                Ok(_) => lex_from(old(self).b@, 0) == Ok::<Seq<TokSpec>, DiagV>(
                    toks_view(final(self).out@),
                ),
                Err(d) => lex_from(old(self).b@, 0) matches Err(v) && diag_is(d, v),
            },
    {
        while self.i < self.b.len()
            invariant
                self.b == old(self).b,
                self.i <= self.b@.len() <= MAX_INPUT_BYTES,
                lex_from(self.b@, 0) == prepend(
                    toks_view(self.out@),
                    lex_from(self.b@, self.i as int),
                ),
            decreases self.b@.len() - self.i,
        {
            let ghost before = toks_view(self.out@);
            let ghost i0 = self.i as int;
            let r = self.step();
            match r {
                Err(d) => {
                    return Err(d);
                },
                Ok(_) => {
                    proof {
                        match step(self.b@, i0) {
                            StepV::Emit(k, s, e) => {
                                assert(toks_view(self.out@) == before.push((k, s, e)));
                                assert(before.push((k, s, e)) =~= before + seq![(k, s, e)]);
                                match lex_from(self.b@, e) {
                                    Ok(rest) => {
                                        assert(before + (seq![(k, s, e)] + rest) =~= before.push(
                                            (k, s, e),
                                        ) + rest);
                                    },
                                    Err(_) => {},
                                }
                            },
                            _ => {},
                        }
                    }
                },
            }
        }
        proof {
            let v = toks_view(self.out@);
            assert(v + Seq::<TokSpec>::empty() =~= v);
        }
        Ok(())
    }
}

/// The keyword token a word lexes to, or an `Ident` carrying the word.
fn keyword_tok(word: String) -> (k: TokKind)
    ensures
        k@ == keyword_kind(word@),
{
    let w = word.as_str();
    if str_eq(w, "contract") {
        TokKind::Contract
    } else if str_eq(w, "function") {
        TokKind::Function
    } else if str_eq(w, "returns") {
        TokKind::Returns
    } else if str_eq(w, "return") {
        TokKind::Return
    } else if str_eq(w, "require") {
        TokKind::Require
    } else if str_eq(w, "assert") {
        TokKind::Assert
    } else if str_eq(w, "revert") {
        TokKind::Revert
    } else if str_eq(w, "if") {
        TokKind::If
    } else if str_eq(w, "else") {
        TokKind::Else
    } else if str_eq(w, "unchecked") {
        TokKind::Unchecked
    } else if str_eq(w, "public") {
        TokKind::Public
    } else if str_eq(w, "private") {
        TokKind::Private
    } else if str_eq(w, "internal") {
        TokKind::Internal
    } else if str_eq(w, "external") {
        TokKind::External
    } else if str_eq(w, "view") {
        TokKind::View
    } else if str_eq(w, "pure") {
        TokKind::Pure
    } else if str_eq(w, "memory") {
        TokKind::Memory
    } else if str_eq(w, "storage") {
        TokKind::Storage
    } else if str_eq(w, "calldata") {
        TokKind::Calldata
    } else if str_eq(w, "true") {
        TokKind::True
    } else if str_eq(w, "false") {
        TokKind::False
    } else {
        TokKind::Ident(word)
    }
}

proof fn lemma_line_end_bound(b: Seq<u8>, k: int)
    requires
        0 <= k <= b.len(),
    ensures
        k <= line_end(b, k) <= b.len(),
    decreases b.len() - k,
{
    if k < b.len() && b[k] != 10 {
        lemma_line_end_bound(b, k + 1);
    }
}

proof fn lemma_block_close_bound(b: Seq<u8>, k: int)
    requires
        0 <= k,
    ensures
        block_close(b, k) matches Some(j) ==> k + 2 <= j <= b.len(),
    decreases b.len() - k,
{
    if k + 1 < b.len() && !(b[k] == 42 && b[k + 1] == 47) {
        lemma_block_close_bound(b, k + 1);
    }
}

proof fn lemma_skip_trivia_ge(b: Seq<u8>, k: int)
    requires
        0 <= k <= b.len(),
    ensures
        k <= skip_trivia(b, k),
    decreases b.len() - k,
{
    if k < b.len() {
        if is_ws(b[k]) {
            lemma_skip_trivia_ge(b, k + 1);
        } else if b[k] == 47 && peek_at(b, k + 1) == Some(47u8) {
            let j = line_end(b, k);
            lemma_line_end_bound(b, k);
            if k < j <= b.len() {
                lemma_skip_trivia_ge(b, j);
            }
        } else if b[k] == 47 && peek_at(b, k + 1) == Some(42u8) {
            lemma_block_close_bound(b, k + 2);
            match block_close(b, k + 2) {
                Some(j) => if k < j <= b.len() {
                    lemma_skip_trivia_ge(b, j);
                },
                None => {},
            }
        }
    }
}

proof fn lemma_exp_pos_bound(s: Seq<u8>, k: int)
    requires
        0 <= k <= s.len(),
    ensures
        k <= exp_pos(s, k) <= s.len(),
    decreases s.len() - k,
{
    if k < s.len() && s[k] != 101 && s[k] != 69 {
        lemma_exp_pos_bound(s, k + 1);
    }
}

proof fn lemma_strip_zeros_len(s: Seq<u8>)
    ensures
        strip_zeros(s).len() <= s.len(),
    decreases s.len(),
{
    if s.len() > 0 && s[0] == 48 {
        lemma_strip_zeros_len(s.drop_first());
    }
}

proof fn lemma_keep_only_len(s: Seq<u8>, cls: u8)
    ensures
        keep_only(s, cls).len() <= s.len(),
    decreases s.len(),
{
    if s.len() > 0 {
        lemma_keep_only_len(s.drop_last(), cls);
    }
}

/// Every byte of a scanned run belongs to the run's class.
proof fn lemma_run_all(b: Seq<u8>, k: int, cls: u8)
    requires
        0 <= k <= b.len(),
    ensures
        forall|j: int| k <= j < run_end(b, k, cls) ==> in_class(cls, #[trigger] b[j]),
        k <= run_end(b, k, cls) <= b.len(),
        cls == CLS_DIGIT ==> all_digits(b.subrange(k, run_end(b, k, cls))),
    decreases b.len() - k,
{
    if k < b.len() && in_class(cls, b[k]) {
        lemma_run_all(b, k + 1, cls);
    }
    if cls == CLS_DIGIT {
        let sub = b.subrange(k, run_end(b, k, cls));
        assert forall|j: int| 0 <= j < sub.len() implies is_digit(#[trigger] sub[j]) by {
            assert(in_class(cls, b[k + j]));
        }
    }
}

} // verus!
