//! Recursive-descent parser for the supported Solidity subset, with a depth counter
//! checked BEFORE each nested descent (adversarial nesting yields an FE402 reject, never
//! a deep AST). Fail-closed + total: any construct outside the grammar returns one
//! `FrontendDiag`. Type names are kept raw (`TypeRef`); the allow-list reject and all
//! semantic checks live in `check`.

use crate::codes;
use crate::diag::{copy_span, span_of, FrontendDiag};
use crate::decimal::{fold_pow_decimal, parse_u64_digits};
use vstd::slice::slice_subrange;
use crate::lexer::{Tok, TokKind};
use crate::limits::{MAX_FUNCTIONS, MAX_MODIFIERS_PER_FN};
use crate::lexer::{all_digits, dec_value, is_digit};
use crate::text::{ascii_chars, ascii_string, bytes_starts_with, concat_str, dec_chars, has_prefix, str_eq, string_eq_str, string_push, usize_decimal};
use sha3::{Digest, Keccak256};
use vstd::string::{StrSliceExecFns, StringExecFns, StringSliceAdditionalSpecFns};
use vstd::utf8::encode_utf8;
use std::ops::Range;
use vstd::prelude::*;

verus! {

/// Maximum AST nesting depth (statements + expressions, combined). Deliberately low: the
/// bound must be safe for every recursive consumer of the AST downstream.
pub const MAX_NEST_DEPTH: u32 = 12;

// ── AST ──────────────────────────────────────────────────────────────────────

#[derive(Debug)]
pub struct Program {
    /// The `pragma … ;` body (raw) + its span, if present. Version-checked in `check`.
    pub pragma: Option<(String, Range<usize>)>,
    pub contract: Contract,
}

/// The raw result of parsing a file — the pragma + ALL top-level contract-like
/// declarations (concrete / abstract / interface / library), in source order, plus the
/// path of every plain/named `import`.
#[derive(Debug)]
pub struct ParsedFile {
    pub pragma: Option<(String, Range<usize>)>,
    pub contracts: Vec<Contract>,
    pub imports: Vec<(String, Range<usize>)>,
}

/// Which top-level declaration kind a `Contract` came from.
#[derive(Debug, Clone, Copy, PartialEq, Eq)]
pub enum ContractKind {
    Concrete,
    Abstract,
    Interface,
    Library,
}

/// One entry in a `contract X is A, B(args)` inheritance list.
#[derive(Debug)]
pub struct BaseRef {
    pub name: String,
    pub args: Vec<Expr>,
    pub span: Range<usize>,
}

#[derive(Debug)]
pub struct Contract {
    pub name: String,
    pub kind: ContractKind,
    pub bases: Vec<BaseRef>,
    pub structs: Vec<Struct>,
    pub state: Vec<StateVar>,
    pub functions: Vec<Function>,
    pub modifiers: Vec<Modifier>,
    pub constructor: Option<Constructor>,
    pub enums: Vec<Enum>,
    pub span: Range<usize>,
}

/// An `enum Name { A, B, C }`: members in source order (= the 0-based tag value).
#[derive(Debug)]
pub struct Enum {
    pub name: String,
    pub members: Vec<String>,
    pub span: Range<usize>,
}

/// A base-constructor invocation from a constructor's attribute window; only whether every
/// argument token was a literal is kept.
#[derive(Debug)]
pub struct BaseCtorCall {
    pub name: String,
    pub all_literal: bool,
    pub span: Range<usize>,
}

/// A `constructor(params) <base-calls> { body }`.
#[derive(Debug)]
pub struct Constructor {
    pub params: Vec<Param>,
    pub body: Vec<Stmt>,
    pub base_calls: Vec<BaseCtorCall>,
    pub span: Range<usize>,
}

/// A `struct Name { T field; … }` declaration.
#[derive(Debug)]
pub struct Struct {
    pub name: String,
    pub fields: Vec<StructField>,
    pub span: Range<usize>,
}

#[derive(Debug)]
pub struct StructField {
    pub name: String,
    pub ty: TypeRef,
    pub span: Range<usize>,
}

/// A `modifier name(params) { … _ … }` declaration; its body holds exactly one `Placeholder`.
#[derive(Debug)]
pub struct Modifier {
    pub name: String,
    pub params: Vec<Param>,
    pub body: Vec<Stmt>,
    pub span: Range<usize>,
}

/// A modifier application on a function: the name plus its argument expressions.
#[derive(Debug)]
pub struct ModifierApp {
    pub name: String,
    pub args: Vec<Expr>,
    pub span: Range<usize>,
}

#[derive(Debug)]
pub enum TypeRef {
    /// A scalar type name as written (`uint256`, `bool`, `address`, `uint8`, …).
    Scalar { name: String, span: Range<usize> },
    /// `mapping(K => V)`.
    Mapping { key: Box<TypeRef>, value: Box<TypeRef>, span: Range<usize> },
    /// A dynamic array `T[]` of a scalar element.
    Array { elem: Box<TypeRef>, span: Range<usize> },
}

impl TypeRef {
    pub fn span(&self) -> (r: Range<usize>)
        ensures
            r == self.spec_span(),
    {
        match self {
            TypeRef::Scalar { span, .. } => span.start..span.end,
            TypeRef::Mapping { span, .. } => span.start..span.end,
            TypeRef::Array { span, .. } => span.start..span.end,
        }
    }

    pub open spec fn spec_span(&self) -> Range<usize> {
        match self {
            TypeRef::Scalar { span, .. } => *span,
            TypeRef::Mapping { span, .. } => *span,
            TypeRef::Array { span, .. } => *span,
        }
    }
}

#[derive(Debug)]
pub struct StateVar {
    pub name: String,
    pub ty: TypeRef,
    pub init: Option<Expr>,
    pub span: Range<usize>,
}

#[derive(Debug)]
pub struct Param {
    pub name: String,
    pub ty: TypeRef,
    pub span: Range<usize>,
}

#[derive(Debug, Clone, Copy, PartialEq, Eq)]
pub enum Visibility {
    Public,
    Private,
    Internal,
    External,
    Default,
}

#[derive(Debug, Clone, Copy, PartialEq, Eq)]
pub enum StateMutability {
    NonPayable,
    View,
    Pure,
}

#[derive(Debug)]
pub struct Function {
    pub name: String,
    pub params: Vec<Param>,
    pub ret: Option<TypeRef>,
    pub visibility: Visibility,
    pub mutability: StateMutability,
    pub modifiers: Vec<ModifierApp>,
    pub body: Vec<Stmt>,
    /// A bodiless declaration (`function f(…) … ;`).
    pub bodiless: bool,
    pub span: Range<usize>,
}

#[derive(Debug, Clone, Copy, PartialEq, Eq)]
pub enum AssignOp {
    Eq,
    Plus,
    Minus,
    Star,
    Slash,
    Percent,
}

#[derive(Debug)]
pub enum Stmt {
    /// `require(cond)` / `require(cond, "reason")` — the reason is dropped.
    Require { cond: Expr, span: Range<usize> },
    /// `assert(cond)`.
    Assert { cond: Expr, span: Range<usize> },
    /// `revert()` / `revert CustomError(...)` — an unconditional abort.
    Revert { span: Range<usize> },
    /// `name = e` / `name op= e`.
    Assign { target: String, op: AssignOp, value: Expr, span: Range<usize> },
    /// `map[key] = e` / `map[key] op= e`.
    IndexAssign { map: String, key: Expr, op: AssignOp, value: Expr, span: Range<usize> },
    /// `map[k1][k2] = e` / `map[k1][k2] op= e`.
    IndexAssign2 {
        map: String,
        k1: Expr,
        k2: Expr,
        op: AssignOp,
        value: Expr,
        span: Range<usize>,
    },
    /// A recognized atomic transfer (produced by desugar only).
    MapTransfer { map: String, from: Expr, to: Expr, amount: Expr, span: Range<usize> },
    /// A recognized atomic ERC20 `transferFrom` (produced by desugar only).
    Erc20TransferFrom {
        bal_map: String,
        alw_map: String,
        from: Expr,
        spender: Expr,
        to: Expr,
        amount: Expr,
        oz5_infinite: bool,
        span: Range<usize>,
    },
    /// `obj.field = e` / `obj.field op= e`.
    FieldAssign { obj: String, field: String, op: AssignOp, value: Expr, span: Range<usize> },
    /// `T name = e;`.
    LocalVar { name: String, ty: TypeRef, value: Expr, span: Range<usize> },
    If { cond: Expr, then_body: Vec<Stmt>, else_body: Vec<Stmt>, span: Range<usize> },
    Return { value: Option<Expr>, span: Range<usize> },
    /// An `unchecked { … }` block (spliced by desugar).
    Unchecked { body: Vec<Stmt>, span: Range<usize> },
    /// The `_;` body-splice marker inside a `modifier` body.
    Placeholder { span: Range<usize> },
    /// A bare internal function-call statement (inlined by desugar).
    CallStmt { callee: String, args: Vec<Expr>, span: Range<usize> },
    /// A recognized reserved batch of map writes (produced by desugar only).
    ReservedBatch { transfer: Option<Box<Stmt>>, writes: Vec<Stmt>, span: Range<usize> },
    /// A recognized same-map fee-on-transfer split (produced by desugar only).
    MapSplitTransfer {
        map: String,
        from: Expr,
        amount: Expr,
        to: Expr,
        net: Expr,
        fee_to: Expr,
        fee: Expr,
        span: Range<usize>,
    },
    /// A recognized unified `_update(from, to, value)` (produced by desugar only).
    Erc20Update {
        map: String,
        ts_field: String,
        from: Expr,
        to: Expr,
        value: Expr,
        span: Range<usize>,
    },
    /// The rigid airdrop `for` loop, the parser's only loop output.
    AirdropLoop { idx: String, len_array: String, body: Vec<Stmt>, span: Range<usize> },
    /// A recognized N-ary atomic airdrop (produced by desugar only).
    BatchTransfer {
        map: String,
        from: Expr,
        recipients: String,
        amounts: String,
        span: Range<usize>,
    },
}

#[derive(Debug, Clone, Copy, PartialEq, Eq)]
pub enum UnOp {
    Not,
    Neg,
}

#[derive(Debug, Clone, Copy, PartialEq, Eq)]
pub enum BinOp {
    Add,
    Sub,
    Mul,
    Div,
    Mod,
    Eq,
    Ne,
    Lt,
    Le,
    Gt,
    Ge,
    And,
    Or,
}

#[derive(Debug)]
pub enum Expr {
    Num(String, Range<usize>),
    Bool(bool, Range<usize>),
    Var(String, Range<usize>),
    /// Member access `base.member`.
    Member(Box<Expr>, String, Range<usize>),
    /// Call `callee(args)`.
    Call(Box<Expr>, Vec<Expr>, Range<usize>),
    /// Index `base[key]`.
    Index(Box<Expr>, Box<Expr>, Range<usize>),
    Unary(UnOp, Box<Expr>, Range<usize>),
    Bin(BinOp, Box<Expr>, Box<Expr>, Range<usize>),
}

impl Expr {
    pub fn span(&self) -> (r: Range<usize>)
        ensures
            r == self.spec_span(),
    {
        match self {
            Expr::Num(_, s) => s.start..s.end,
            Expr::Bool(_, s) => s.start..s.end,
            Expr::Var(_, s) => s.start..s.end,
            Expr::Member(_, _, s) => s.start..s.end,
            Expr::Call(_, _, s) => s.start..s.end,
            Expr::Index(_, _, s) => s.start..s.end,
            Expr::Unary(_, _, s) => s.start..s.end,
            Expr::Bin(_, _, _, s) => s.start..s.end,
        }
    }

    pub open spec fn spec_span(&self) -> Range<usize> {
        match self {
            Expr::Num(_, s) => *s,
            Expr::Bool(_, s) => *s,
            Expr::Var(_, s) => *s,
            Expr::Member(_, _, s) => *s,
            Expr::Call(_, _, s) => *s,
            Expr::Index(_, _, s) => *s,
            Expr::Unary(_, _, s) => *s,
            Expr::Bin(_, _, _, s) => *s,
        }
    }
}


impl Stmt {
    /// The span of a statement.
    pub open spec fn spec_span(&self) -> Range<usize> {
        match self {
            Stmt::Require { span, .. } => *span,
            Stmt::Assert { span, .. } => *span,
            Stmt::Revert { span } => *span,
            Stmt::Assign { span, .. } => *span,
            Stmt::IndexAssign { span, .. } => *span,
            Stmt::IndexAssign2 { span, .. } => *span,
            Stmt::FieldAssign { span, .. } => *span,
            Stmt::MapTransfer { span, .. } => *span,
            Stmt::Erc20TransferFrom { span, .. } => *span,
            Stmt::LocalVar { span, .. } => *span,
            Stmt::If { span, .. } => *span,
            Stmt::Return { span, .. } => *span,
            Stmt::Unchecked { span, .. } => *span,
            Stmt::Placeholder { span } => *span,
            Stmt::CallStmt { span, .. } => *span,
            Stmt::ReservedBatch { span, .. } => *span,
            Stmt::MapSplitTransfer { span, .. } => *span,
            Stmt::Erc20Update { span, .. } => *span,
            Stmt::AirdropLoop { span, .. } => *span,
            Stmt::BatchTransfer { span, .. } => *span,
        }
    }
}


/// The OZ SafeMath method name → the CHECKED `BinOp` it lowers to.
pub open spec fn safemath_spec(m: Seq<char>) -> Option<BinOp> {
    if m == "add"@ {
        Some(BinOp::Add)
    } else if m == "sub"@ {
        Some(BinOp::Sub)
    } else if m == "mul"@ {
        Some(BinOp::Mul)
    } else if m == "div"@ {
        Some(BinOp::Div)
    } else if m == "mod"@ {
        Some(BinOp::Mod)
    } else {
        None
    }
}

/// The OZ SafeMath method name → the CHECKED `BinOp` it lowers to (`None` for any other name).
pub fn safemath_binop(m: &str) -> (r: Option<BinOp>)
    ensures
        r == safemath_spec(m@),
{
    if str_eq(m, "add") {
        Some(BinOp::Add)
    } else if str_eq(m, "sub") {
        Some(BinOp::Sub)
    } else if str_eq(m, "mul") {
        Some(BinOp::Mul)
    } else if str_eq(m, "div") {
        Some(BinOp::Div)
    } else if str_eq(m, "mod") {
        Some(BinOp::Mod)
    } else {
        None
    }
}

/// The synthesized per-field map name of a struct-map access `M[k].f`:
/// `__fe_sm_{len(var)}_{var}_{field}` (the byte length of `var` makes it injective).
pub open spec fn synth_name_spec(var: Seq<char>, field: Seq<char>) -> Seq<char> {
    "__fe_sm_"@ + dec_chars(encode_utf8(var).len()) + "_"@ + var + "_"@ + field
}

/// The synthesized per-field map name for a struct-map access `M[k].f` / declaration explode;
/// one encoding shared by the parse-time rewrite and the state-var synthesis.
pub fn struct_map_synth_name(var: &str, field: &str) -> (r: String)
    ensures
        r@ == synth_name_spec(var@, field@),
{
    let n: usize = var.as_bytes().len();
    let s = String::from_str("__fe_sm_");
    let s = concat_str(s, usize_decimal(n).as_str());
    let s = concat_str(s, "_");
    let s = concat_str(s, var);
    let s = concat_str(s, "_");
    concat_str(s, field)
}

/// A string literal's raw text is keccak-foldable: printable ASCII without a backslash.
pub open spec fn keccak_foldable_spec(raw: Seq<u8>) -> bool {
    forall|k: int| 0 <= k < raw.len() ==> 0x20 <= #[trigger] raw[k] <= 0x7e && raw[k] != 92
}

/// Is a string literal's RAW text safe to keccak-fold? Printable ASCII (0x20..=0x7E) with no
/// backslash (an escape would hash the escape TEXT, a lossy byte the replacement char).
pub fn keccak_foldable(raw: &str) -> (r: bool)
    ensures
        r == keccak_foldable_spec(raw.spec_bytes()),
{
    let b = raw.as_bytes();
    let mut k: usize = 0;
    while k < b.len()
        invariant
            k <= b@.len(),
            b@ == raw.spec_bytes(),
            forall|j: int| 0 <= j < k ==> 0x20 <= #[trigger] b@[j] <= 0x7e && b@[j] != 92,
        decreases b@.len() - k,
    {
        if !(0x20 <= b[k] && b[k] <= 0x7e && b[k] != 92) {
            return false;
        }
        k = k + 1;
    }
    true
}

/// The Keccak-256 digest of a byte string (`sha3::Keccak256`, the Ethereum Keccak).
pub uninterp spec fn keccak256_spec(data: Seq<u8>) -> Seq<u8>;

/// `sha3::Keccak256::digest`: the 32-byte Ethereum Keccak-256 digest of `data`; the digest
/// is named, not stated (its length, the hash's fixed output size, is).
#[verifier::external_body]
fn keccak256(data: &[u8]) -> (r: Vec<u8>)
    ensures
        r@ == keccak256_spec(data@),
        r@.len() == 32,
{
    Keccak256::digest(data).to_vec()
}

/// The lower-case hex digit of a nibble.
pub open spec fn hex_digit(n: nat) -> char {
    if n < 10 {
        ((48 + n) as u8) as char
    } else {
        ((87 + n) as u8) as char
    }
}

/// Two lower-case hex digits per byte, most significant nibble first.
pub open spec fn hex_lower(b: Seq<u8>) -> Seq<char>
    decreases b.len(),
{
    if b.len() == 0 {
        Seq::empty()
    } else {
        hex_lower(b.drop_last()).push(hex_digit((b.last() / 16) as nat)).push(
            hex_digit((b.last() % 16) as nat),
        )
    }
}

fn nibble_char(n: u8) -> (c: char)
    requires
        n < 16,
    ensures
        c == hex_digit(n as nat),
{
    if n < 10 {
        ((48 + n) as u8) as char
    } else {
        ((87 + n) as u8) as char
    }
}

/// The Keccak-256 hash of the literal's exact bytes, as a `0x…` hex literal (64 digits,
/// leading zeros kept).
pub fn keccak256_hex_literal(raw: &str) -> (s: String)
    ensures
        s@ == "0x"@ + hex_lower(keccak256_spec(raw.spec_bytes())),
{
    let digest = keccak256(raw.as_bytes());
    let mut s = String::from_str("0x");
    let mut k: usize = 0;
    while k < digest.len()
        invariant
            k <= digest@.len(),
            s@ == "0x"@ + hex_lower(digest@.take(k as int)),
        decreases digest@.len() - k,
    {
        let b = digest[k];
        string_push(&mut s, nibble_char(b / 16));
        string_push(&mut s, nibble_char(b % 16));
        assert(digest@.take(k + 1).drop_last() =~= digest@.take(k as int));
        k = k + 1;
        assert(s@ =~= "0x"@ + hex_lower(digest@.take(k as int)));
    }
    assert(digest@.take(digest@.len() as int) =~= digest@);
    s
}

/// Whether `s` is a non-empty run of ASCII decimal digits.
pub fn is_decimal_digits(s: &str) -> (r: bool)
    ensures
        r == (s.spec_bytes().len() > 0 && all_digits(s.spec_bytes())),
{
    let b = s.as_bytes();
    if b.len() == 0 {
        return false;
    }
    let mut k: usize = 0;
    while k < b.len()
        invariant
            k <= b@.len(),
            b@ == s.spec_bytes(),
            forall|j: int| 0 <= j < k ==> is_digit(#[trigger] b@[j]),
        decreases b@.len() - k,
    {
        if !(48 <= b[k] && b[k] <= 57) {
            return false;
        }
        k = k + 1;
    }
    true
}

// ── parser ───────────────────────────────────────────────────────────────────

struct Parser {
    toks: Vec<Tok>,
    i: usize,
    depth: u32,
    /// True only while parsing a `modifier` body, so `parse_stmt` recognizes `_;` as
    /// `Stmt::Placeholder`.
    in_modifier: bool,
    /// Set once a `using SafeMath for uint256;` directive is seen: `parse_postfix` then folds
    /// a `recv.add/sub/mul/div/mod(operand)` call into the checked `recv <binop> operand`.
    safemath_active: bool,
}

/// A payload-free token kind.
pub open spec fn is_simple(k: TokKind) -> bool {
    !(k is Num || k is Ident || k is Str || k is Pragma)
}

/// A token stream the parser can walk: non-empty and `Eof`-terminated.
pub open spec fn eof_terminated(toks: Seq<Tok>) -> bool {
    toks.len() > 0 && toks.last().kind == TokKind::Eof
}

/// `k` is an identifier token spelling `t`.
pub open spec fn ident_is(k: TokKind, t: Seq<char>) -> bool {
    k matches TokKind::Ident(n) && n@ == t
}

impl Parser {
    spec fn wf(&self) -> bool {
        &&& eof_terminated(self.toks@)
        &&& self.i < self.toks@.len()
        &&& self.depth <= MAX_NEST_DEPTH
    }

    /// The current token is a literal or a name standing alone: the next token ends an
    /// expression (see `is_expr_end`).
    spec fn simple_operand(&self) -> bool {
        self.simple_at(self.i as int)
    }

    /// The current token is a literal or a name followed by a token that no operator of the
    /// subset continues (an expression end, a bitwise operator or `?`).
    spec fn lone_operand(&self) -> bool {
        &&& (self.kind_at(self.i as int) is Num || self.kind_at(self.i as int) is Ident || self.kind_at(self.i as int)
            == TokKind::True || self.kind_at(self.i as int) == TokKind::False)
        &&& self.i + 1 < self.toks@.len()
        &&& (is_expr_end(self.kind_at(self.i + 1)) || is_bitwise_tok(self.kind_at(self.i + 1)) || self.kind_at(self.i + 1)
            == TokKind::Question)
    }

    /// The token at `k` is a literal or a name followed by a token that no operator of the
    /// subset continues.
    spec fn lone_at(&self, k: int) -> bool {
        &&& 0 <= k
        &&& (self.kind_at(k) is Num || self.kind_at(k) is Ident || self.kind_at(k) == TokKind::True || self.kind_at(k)
            == TokKind::False)
        &&& k + 1 < self.toks@.len()
        &&& (is_expr_end(self.kind_at(k + 1)) || is_bitwise_tok(self.kind_at(k + 1)) || self.kind_at(k + 1)
            == TokKind::Question)
    }

    /// The current token is a literal or a name that no postfix (`.`, `(`, `[`) follows.
    spec fn atom_operand(&self) -> bool {
        &&& (self.kind_at(self.i as int) is Num || self.kind_at(self.i as int) is Ident || self.kind_at(self.i as int)
            == TokKind::True || self.kind_at(self.i as int) == TokKind::False)
        &&& self.i + 1 < self.toks@.len()
        &&& self.kind_at(self.i + 1) != TokKind::Dot && self.kind_at(self.i + 1) != TokKind::LParen && self.kind_at(
            self.i + 1,
        ) != TokKind::LBracket
    }

    /// Under `using SafeMath`, the tokens from the current one are `a . m ( x )` with `m` a
    /// SafeMath method, `x` a literal or name, and nothing continuing the expression after the
    /// `)`; the nesting limit leaves room for the call.
    spec fn safemath_call_at(&self) -> bool {
        &&& self.safemath_active
        &&& self.i + 6 < self.toks@.len()
        &&& self.kind_at(self.i as int) is Ident
        &&& self.kind_at(self.i + 1) == TokKind::Dot
        &&& self.kind_at(self.i + 2) matches TokKind::Ident(m) && safemath_spec(m@) is Some
        &&& self.kind_at(self.i + 3) == TokKind::LParen
        &&& self.simple_at(self.i + 4)
        &&& self.kind_at(self.i + 5) == TokKind::RParen
        &&& self.kind_at(self.i + 6) != TokKind::Dot && self.kind_at(self.i + 6) != TokKind::LParen && self.kind_at(
            self.i + 6,
        ) != TokKind::LBracket
        &&& self.depth + 4 <= MAX_NEST_DEPTH
    }

    /// `e` is the SafeMath call at the current token folded into its operator: `a op x`, `op`
    /// the operator the method names.
    spec fn safemath_folded(&self, e: Expr) -> bool {
        match e {
            Expr::Bin(op, l, x, _) => self.atom_at(self.i as int, *l) && self.atom_at(self.i + 4, *x) && match self.kind_at(
                self.i + 2,
            ) {
                TokKind::Ident(m) => safemath_spec(m@) == Some(op),
                _ => false,
            },
            _ => false,
        }
    }

    /// The token at `k` is a literal or a name standing alone.
    spec fn simple_at(&self, k: int) -> bool {
        &&& 0 <= k
        &&& (self.kind_at(k) is Num || self.kind_at(k) is Ident || self.kind_at(k) == TokKind::True || self.kind_at(k)
            == TokKind::False)
        &&& k + 1 < self.toks@.len()
        &&& is_expr_end(self.kind_at(k + 1))
    }

    /// `e` is the expression the current literal or name token stands for, at its span.
    spec fn atom_of(&self, e: Expr) -> bool {
        self.atom_at(self.i as int, e)
    }

    /// `e` is the expression the literal or name token at `k` stands for, at its span.
    spec fn atom_at(&self, k: int, e: Expr) -> bool {
        let sp = self.toks@[k].span;
        match self.kind_at(k) {
            TokKind::Num(t) => e == Expr::Num(t, sp),
            TokKind::Ident(n) => e == Expr::Var(n, sp),
            TokKind::True => e == Expr::Bool(true, sp),
            TokKind::False => e == Expr::Bool(false, sp),
            _ => false,
        }
    }

    /// The tokens from `k` on are the payload-free kinds `ks`.
    spec fn toks_are(&self, k: int, ks: Seq<TokKind>) -> bool {
        &&& 0 <= k
        &&& k + ks.len() <= self.toks@.len()
        &&& (ks.len() > 0 ==> self.kind_at(k) == ks[0])
        &&& (ks.len() > 1 ==> self.kind_at(k + 1) == ks[1])
        &&& (ks.len() > 2 ==> self.kind_at(k + 2) == ks[2])
        &&& (ks.len() > 3 ==> self.kind_at(k + 3) == ks[3])
        &&& ks.len() <= 4
    }

    /// The token at `k` names a plain (non-`mapping`) type, not followed by `[`.
    spec fn scalar_type_at(&self, k: int) -> bool {
        &&& 0 <= k
        &&& k + 1 < self.toks@.len()
        &&& self.kind_at(k) is Ident
        &&& !ident_is(self.kind_at(k), "mapping"@)
        &&& self.kind_at(k + 1) != TokKind::LBracket
    }

    /// `t` is the scalar type the token at `k` names.
    spec fn scalar_of(&self, k: int, t: TypeRef) -> bool {
        self.kind_at(k) matches TokKind::Ident(n) && t == TypeRef::Scalar { name: n, span: self.toks@[k].span }
    }

    /// From `k`: `{ _ ; }`, the block of a modifier that only splices the body.
    spec fn placeholder_block_at(&self, k: int) -> bool {
        &&& self.toks_are(k, seq![TokKind::LBrace])
        &&& ident_is(self.kind_at(k + 1), "_"@)
        &&& self.toks_are(k + 2, seq![TokKind::Semi, TokKind::RBrace])
    }

    /// From `k`: `contract Name { }` and the end of input.
    spec fn one_empty_contract_at(&self, k: int) -> bool {
        &&& self.toks_are(k, seq![TokKind::Contract])
        &&& self.kind_at(k + 1) is Ident
        &&& self.toks_are(k + 2, seq![TokKind::LBrace, TokKind::RBrace, TokKind::Eof])
    }

    /// From `k`: `for (uint256 x; x < a.length; ++x) { }`.
    spec fn empty_airdrop_at(&self, k: int) -> bool {
        &&& self.toks_are(k + 1, seq![TokKind::LParen])
        &&& ident_is(self.kind_at(k + 2), "uint256"@)
        &&& (self.kind_at(k + 3) matches TokKind::Ident(x) && self.kind_at(k + 5) == TokKind::Ident(x) && self.kind_at(k + 13)
            == TokKind::Ident(x))
        &&& self.toks_are(k + 4, seq![TokKind::Semi])
        &&& self.toks_are(k + 6, seq![TokKind::Lt])
        &&& self.kind_at(k + 7) is Ident
        &&& self.toks_are(k + 8, seq![TokKind::Dot])
        &&& ident_is(self.kind_at(k + 9), "length"@)
        &&& self.toks_are(k + 10, seq![TokKind::Semi, TokKind::Plus, TokKind::Plus])
        &&& self.toks_are(k + 14, seq![TokKind::RParen, TokKind::LBrace, TokKind::RBrace])
    }

    /// The span from the start of token `a` to the end of token `b`.
    spec fn span_from(&self, a: int, b: int) -> Range<usize> {
        Range { start: self.toks@[a].span.start, end: self.toks@[b].span.end }
    }

    spec fn cur_kind(&self) -> TokKind {
        self.toks@[self.i as int].kind
    }

    spec fn kind_at(&self, k: int) -> TokKind {
        self.toks@[k].kind
    }

    /// The token stream and modifier mode are those of `o`.
    spec fn frame(&self, o: Parser) -> bool {
        self.toks@ == o.toks@ && self.in_modifier == o.in_modifier
    }

    /// A successful parse from `o`: consumed at least one token, depth restored.
    spec fn ok_after(&self, o: Parser) -> bool {
        &&& self.frame(o)
        &&& self.wf()
        &&& self.depth == o.depth
        &&& o.i < self.i
    }

    /// A successful parse from `o` that may have consumed nothing.
    spec fn ok_after_eq(&self, o: Parser) -> bool {
        &&& self.frame(o)
        &&& self.wf()
        &&& self.depth == o.depth
        &&& o.i <= self.i
    }

    /// A failed parse from `o`: only the depth counter may have grown (by unbalanced enters).
    spec fn err_after(&self, o: Parser) -> bool {
        &&& self.frame(o)
        &&& o.depth <= self.depth <= MAX_NEST_DEPTH + 1
    }

    /// The outcome of one grammar rule started in state `o`: the token stream and both modes
    /// are kept; success consumed at least one token and restored the depth counter.
    spec fn parsed<T>(&self, o: Parser, r: Result<T, FrontendDiag>) -> bool {
        &&& self.safemath_active == o.safemath_active
        &&& match r {
            Ok(_) => self.ok_after(o),
            Err(_) => self.err_after(o),
        }
    }

    fn cur(&self) -> (r: &TokKind)
        requires
            self.i < self.toks@.len(),
        ensures
            *r == self.cur_kind(),
    {
        &self.toks[self.i].kind
    }

    fn span(&self) -> (r: Range<usize>)
        requires
            self.i < self.toks@.len(),
        ensures
            r == self.toks@[self.i as int].span,
    {
        let s = &self.toks[self.i].span;
        s.start..s.end
    }

    /// The kind of the token `k` positions ahead, if any.
    fn peek_kind(&self, k: usize) -> (r: Option<&TokKind>)
        requires
            self.i < self.toks@.len(),
            k <= 2,
        ensures
            match r {
                Some(t) => self.i + k < self.toks@.len() && *t == self.kind_at(self.i + k),
                None => self.i + k >= self.toks@.len(),
            },
    {
        if k < self.toks.len() - self.i {
            Some(&self.toks[self.i + k].kind)
        } else {
            None
        }
    }

    /// Consume the current token (never past the final `Eof`), returning its span.
    fn bump(&mut self) -> (r: Range<usize>)
        requires
            old(self).wf(),
        ensures
            r == old(self).toks@[old(self).i as int].span,
            final(self).frame(*old(self)),
            final(self).wf(),
            final(self).depth == old(self).depth,
            final(self).safemath_active == old(self).safemath_active,
            final(self).i == if old(self).i + 1 < old(self).toks@.len() {
                old(self).i + 1
            } else {
                old(self).i as int
            },
            old(self).cur_kind() != TokKind::Eof ==> final(self).i == old(self).i + 1,
    {
        let s = self.span();
        if self.i < self.toks.len() - 1 {
            self.i += 1;
        }
        s
    }

    /// Whether the current token is the payload-free kind `k`.
    fn at(&self, k: &TokKind) -> (r: bool)
        requires
            self.i < self.toks@.len(),
            is_simple(*k),
        ensures
            r == (self.cur_kind() == *k),
    {
        match k {
            TokKind::Contract => matches!(self.toks[self.i].kind, TokKind::Contract),
            TokKind::Function => matches!(self.toks[self.i].kind, TokKind::Function),
            TokKind::Returns => matches!(self.toks[self.i].kind, TokKind::Returns),
            TokKind::Return => matches!(self.toks[self.i].kind, TokKind::Return),
            TokKind::Require => matches!(self.toks[self.i].kind, TokKind::Require),
            TokKind::Assert => matches!(self.toks[self.i].kind, TokKind::Assert),
            TokKind::Revert => matches!(self.toks[self.i].kind, TokKind::Revert),
            TokKind::If => matches!(self.toks[self.i].kind, TokKind::If),
            TokKind::Else => matches!(self.toks[self.i].kind, TokKind::Else),
            TokKind::Unchecked => matches!(self.toks[self.i].kind, TokKind::Unchecked),
            TokKind::Assembly => matches!(self.toks[self.i].kind, TokKind::Assembly),
            TokKind::Public => matches!(self.toks[self.i].kind, TokKind::Public),
            TokKind::Private => matches!(self.toks[self.i].kind, TokKind::Private),
            TokKind::Internal => matches!(self.toks[self.i].kind, TokKind::Internal),
            TokKind::External => matches!(self.toks[self.i].kind, TokKind::External),
            TokKind::View => matches!(self.toks[self.i].kind, TokKind::View),
            TokKind::Pure => matches!(self.toks[self.i].kind, TokKind::Pure),
            TokKind::Memory => matches!(self.toks[self.i].kind, TokKind::Memory),
            TokKind::Storage => matches!(self.toks[self.i].kind, TokKind::Storage),
            TokKind::Calldata => matches!(self.toks[self.i].kind, TokKind::Calldata),
            TokKind::True => matches!(self.toks[self.i].kind, TokKind::True),
            TokKind::False => matches!(self.toks[self.i].kind, TokKind::False),
            TokKind::LParen => matches!(self.toks[self.i].kind, TokKind::LParen),
            TokKind::RParen => matches!(self.toks[self.i].kind, TokKind::RParen),
            TokKind::LBrace => matches!(self.toks[self.i].kind, TokKind::LBrace),
            TokKind::RBrace => matches!(self.toks[self.i].kind, TokKind::RBrace),
            TokKind::LBracket => matches!(self.toks[self.i].kind, TokKind::LBracket),
            TokKind::RBracket => matches!(self.toks[self.i].kind, TokKind::RBracket),
            TokKind::Semi => matches!(self.toks[self.i].kind, TokKind::Semi),
            TokKind::Comma => matches!(self.toks[self.i].kind, TokKind::Comma),
            TokKind::Dot => matches!(self.toks[self.i].kind, TokKind::Dot),
            TokKind::FatArrow => matches!(self.toks[self.i].kind, TokKind::FatArrow),
            TokKind::Plus => matches!(self.toks[self.i].kind, TokKind::Plus),
            TokKind::Minus => matches!(self.toks[self.i].kind, TokKind::Minus),
            TokKind::Star => matches!(self.toks[self.i].kind, TokKind::Star),
            TokKind::Pow => matches!(self.toks[self.i].kind, TokKind::Pow),
            TokKind::Slash => matches!(self.toks[self.i].kind, TokKind::Slash),
            TokKind::Percent => matches!(self.toks[self.i].kind, TokKind::Percent),
            TokKind::Assign => matches!(self.toks[self.i].kind, TokKind::Assign),
            TokKind::PlusEq => matches!(self.toks[self.i].kind, TokKind::PlusEq),
            TokKind::MinusEq => matches!(self.toks[self.i].kind, TokKind::MinusEq),
            TokKind::StarEq => matches!(self.toks[self.i].kind, TokKind::StarEq),
            TokKind::SlashEq => matches!(self.toks[self.i].kind, TokKind::SlashEq),
            TokKind::PercentEq => matches!(self.toks[self.i].kind, TokKind::PercentEq),
            TokKind::EqEq => matches!(self.toks[self.i].kind, TokKind::EqEq),
            TokKind::BangEq => matches!(self.toks[self.i].kind, TokKind::BangEq),
            TokKind::Lt => matches!(self.toks[self.i].kind, TokKind::Lt),
            TokKind::LtEq => matches!(self.toks[self.i].kind, TokKind::LtEq),
            TokKind::Gt => matches!(self.toks[self.i].kind, TokKind::Gt),
            TokKind::GtEq => matches!(self.toks[self.i].kind, TokKind::GtEq),
            TokKind::Bang => matches!(self.toks[self.i].kind, TokKind::Bang),
            TokKind::AmpAmp => matches!(self.toks[self.i].kind, TokKind::AmpAmp),
            TokKind::PipePipe => matches!(self.toks[self.i].kind, TokKind::PipePipe),
            TokKind::Amp => matches!(self.toks[self.i].kind, TokKind::Amp),
            TokKind::Pipe => matches!(self.toks[self.i].kind, TokKind::Pipe),
            TokKind::Caret => matches!(self.toks[self.i].kind, TokKind::Caret),
            TokKind::Tilde => matches!(self.toks[self.i].kind, TokKind::Tilde),
            TokKind::Shl => matches!(self.toks[self.i].kind, TokKind::Shl),
            TokKind::Shr => matches!(self.toks[self.i].kind, TokKind::Shr),
            TokKind::Question => matches!(self.toks[self.i].kind, TokKind::Question),
            TokKind::Colon => matches!(self.toks[self.i].kind, TokKind::Colon),
            TokKind::Eof => matches!(self.toks[self.i].kind, TokKind::Eof),
            _ => false,
        }
    }

    /// Whether the current token is the identifier `text`.
    fn at_ident(&self, text: &str) -> (r: bool)
        requires
            self.i < self.toks@.len(),
        ensures
            r == ident_is(self.cur_kind(), text@),
    {
        match &self.toks[self.i].kind {
            TokKind::Ident(n) => string_eq_str(n, text),
            _ => false,
        }
    }

    fn err(&self, code: &'static str, msg: &str) -> (d: FrontendDiag)
        requires
            self.i < self.toks@.len(),
        ensures
            d.code == code,
            d.span == self.toks@[self.i as int].span,
    {
        FrontendDiag::new(code, msg, self.span())
    }

    /// Recursion-depth guard threaded through every recursive descent and every flat
    /// operator/postfix chain: bounds total AST nesting at `MAX_NEST_DEPTH` (FE402 beyond).
    fn enter(&mut self) -> (r: Result<(), FrontendDiag>)
        requires
            old(self).depth <= MAX_NEST_DEPTH,
            old(self).i < old(self).toks@.len(),
        ensures
            final(self).frame(*old(self)),
            final(self).i == old(self).i,
            final(self).safemath_active == old(self).safemath_active,
            final(self).depth == old(self).depth + 1,
            r is Ok <==> old(self).depth < MAX_NEST_DEPTH,
            r matches Err(d) ==> d.code == codes::FE402_TOO_LARGE_SOL,
    {
        self.depth += 1;
        if self.depth > MAX_NEST_DEPTH {
            return Err(self.err(codes::FE402_TOO_LARGE_SOL, "nesting exceeds depth 12"));
        }
        Ok(())
    }

    fn leave(&mut self)
        requires
            old(self).depth >= 1,
        ensures
            final(self).frame(*old(self)),
            final(self).i == old(self).i,
            final(self).safemath_active == old(self).safemath_active,
            final(self).depth == old(self).depth - 1,
    {
        self.depth -= 1;
    }

    /// Consume the payload-free token `k`, or reject FE401.
    fn expect(&mut self, k: TokKind, what: &str) -> (r: Result<Range<usize>, FrontendDiag>)
        requires
            old(self).wf(),
            is_simple(k),
        ensures
            final(self).frame(*old(self)),
            final(self).depth == old(self).depth,
            final(self).safemath_active == old(self).safemath_active,
            r is Ok <==> old(self).cur_kind() == k,
            r matches Ok(s) ==> s == old(self).toks@[old(self).i as int].span && (k != TokKind::Eof
                ==> final(self).ok_after(*old(self))),
            r is Ok ==> final(self).ok_after_eq(*old(self)),
            r matches Err(d) ==> d.code == codes::FE401_UNSUPPORTED_SOL && final(self).i == old(self).i,
            r is Ok && k != TokKind::Eof ==> final(self).i == old(self).i + 1,
    {
        if self.at(&k) {
            Ok(self.bump())
        } else {
            Err(self.err(codes::FE401_UNSUPPORTED_SOL, what))
        }
    }

    /// An identifier OR a type-name token (both lex as `Ident`). Returns (text, span).
    fn expect_ident(&mut self, what: &str) -> (r: Result<(String, Range<usize>), FrontendDiag>)
        requires
            old(self).wf(),
        ensures
            final(self).frame(*old(self)),
            final(self).depth == old(self).depth,
            final(self).safemath_active == old(self).safemath_active,
            r is Ok <==> old(self).cur_kind() is Ident,
            r matches Ok(p) ==> ident_is(old(self).cur_kind(), p.0@) && p.1 == old(self).toks@[old(self).i as int].span && final(self).ok_after(*old(self)),
            r matches Err(d) ==> d.code == codes::FE401_UNSUPPORTED_SOL && final(self).i == old(self).i,
            r is Ok ==> final(self).i == old(self).i + 1,
            r matches Ok(p) ==> old(self).cur_kind() == TokKind::Ident(p.0),
    {
        match &self.toks[self.i].kind {
            TokKind::Ident(name) => {
                let name = name.clone();
                let s = self.bump();
                Ok((name, s))
            },
            _ => Err(self.err(codes::FE401_UNSUPPORTED_SOL, what)),
        }
    }
}


/// `start..max(a, b)`.
fn join_span(start: usize, a: usize, b: usize) -> (r: Range<usize>)
    ensures
        r.start == start,
        r.end == if a >= b { a } else { b },
{
    if a >= b {
        start..a
    } else {
        start..b
    }
}

/// The binary operator a binary operator token denotes.
pub open spec fn tok_binop(k: TokKind) -> Option<BinOp> {
    match k {
        TokKind::EqEq => Some(BinOp::Eq),
        TokKind::BangEq => Some(BinOp::Ne),
        TokKind::Lt => Some(BinOp::Lt),
        TokKind::LtEq => Some(BinOp::Le),
        TokKind::Gt => Some(BinOp::Gt),
        TokKind::GtEq => Some(BinOp::Ge),
        TokKind::Plus => Some(BinOp::Add),
        TokKind::Minus => Some(BinOp::Sub),
        TokKind::Star => Some(BinOp::Mul),
        TokKind::Slash => Some(BinOp::Div),
        TokKind::Percent => Some(BinOp::Mod),
        _ => None,
    }
}

/// The binary operator of an equality-level token.
fn equality_op(k: &TokKind) -> (r: Option<BinOp>)
    ensures
        r == (if *k is EqEq || *k is BangEq {
            tok_binop(*k)
        } else {
            None
        }),
{
    match k {
        TokKind::EqEq => Some(BinOp::Eq),
        TokKind::BangEq => Some(BinOp::Ne),
        _ => None,
    }
}

/// The binary operator of a relational-level token.
fn relational_op(k: &TokKind) -> (r: Option<BinOp>)
    ensures
        r == (if *k is Lt || *k is LtEq || *k is Gt || *k is GtEq {
            tok_binop(*k)
        } else {
            None
        }),
{
    match k {
        TokKind::Lt => Some(BinOp::Lt),
        TokKind::LtEq => Some(BinOp::Le),
        TokKind::Gt => Some(BinOp::Gt),
        TokKind::GtEq => Some(BinOp::Ge),
        _ => None,
    }
}

/// The binary operator of an additive-level token.
fn additive_op(k: &TokKind) -> (r: Option<BinOp>)
    ensures
        r == (if *k is Plus || *k is Minus {
            tok_binop(*k)
        } else {
            None
        }),
{
    match k {
        TokKind::Plus => Some(BinOp::Add),
        TokKind::Minus => Some(BinOp::Sub),
        _ => None,
    }
}

/// The binary operator of a multiplicative-level token.
fn multiplicative_op(k: &TokKind) -> (r: Option<BinOp>)
    ensures
        r == (if *k is Star || *k is Slash || *k is Percent {
            tok_binop(*k)
        } else {
            None
        }),
{
    match k {
        TokKind::Star => Some(BinOp::Mul),
        TokKind::Slash => Some(BinOp::Div),
        TokKind::Percent => Some(BinOp::Mod),
        _ => None,
    }
}

/// A token that ends an expression: `;` `)` `,` `]` `}` `=` or the end of input.
pub open spec fn is_expr_end(k: TokKind) -> bool {
    k == TokKind::Semi || k == TokKind::RParen || k == TokKind::Comma || k == TokKind::RBracket || k == TokKind::RBrace
        || k == TokKind::Eof || k == TokKind::Assign
}

/// A bitwise or shift operator token (`& | ^ << >>`).
pub open spec fn is_bitwise_tok(k: TokKind) -> bool {
    k == TokKind::Amp || k == TokKind::Pipe || k == TokKind::Caret || k == TokKind::Shl || k
        == TokKind::Shr
}

impl Parser {
    /// `expr := or`, depth-guarded; a trailing `?` (the ternary) rejects FE480.
    fn parse_expr(&mut self) -> (r: Result<Expr, FrontendDiag>)
        requires
            old(self).wf(),
        ensures
            final(self).parsed(*old(self), r),
            old(self).simple_operand() && old(self).depth + 2 <= MAX_NEST_DEPTH ==> (r matches Ok(e) && old(self).atom_of(e) && final(self).i == old(self).i + 1),
            r matches Ok(_) ==> final(self).cur_kind() != TokKind::Question,
            old(self).lone_operand() && old(self).kind_at(old(self).i + 1) == TokKind::Question && old(self).depth + 2
                <= MAX_NEST_DEPTH ==> (r matches Err(d) && d.code == codes::FE480_TERNARY_SOL),
            old(self).lone_operand() && is_bitwise_tok(old(self).kind_at(old(self).i + 1)) && old(self).depth + 2
                <= MAX_NEST_DEPTH ==> (r matches Err(d) && d.code == codes::FE479_BITWISE_OP_SOL),
        decreases MAX_NEST_DEPTH - old(self).depth, 0nat,
    {
        self.enter()?;
        let r = self.parse_or();
        self.leave();
        let e = r?;
        if self.at(&TokKind::Question) {
            return Err(
                self.err(
                    codes::FE480_TERNARY_SOL,
                    "the ternary operator `cond ? a : b` is unsupported (lowering deferred)",
                ),
            );
        }
        Ok(e)
    }

    /// `or := and ('||' and)*`, left-nested; each chained operator is depth-guarded.
    fn parse_or(&mut self) -> (r: Result<Expr, FrontendDiag>)
        requires
            old(self).wf(),
        ensures
            final(self).parsed(*old(self), r),
            (old(self).lone_operand() && !is_bitwise_tok(old(self).kind_at(old(self).i + 1))) && old(self).depth + 1 <= MAX_NEST_DEPTH ==> (r matches Ok(e) && old(self).atom_of(e) && final(self).i == old(self).i + 1),
            old(self).lone_operand() && is_bitwise_tok(old(self).kind_at(old(self).i + 1)) && old(self).depth + 1
                <= MAX_NEST_DEPTH ==> (r matches Err(d) && d.code == codes::FE479_BITWISE_OP_SOL),
        decreases MAX_NEST_DEPTH - old(self).depth, 9nat,
    {
        let ghost o = *self;
        let mut lhs = self.parse_and()?;
        let mut chained: u32 = 0;
        while self.at(&TokKind::PipePipe)
            invariant
                self.wf(),
                self.frame(o),
                self.safemath_active == o.safemath_active,
                o.wf(),
                o == *old(self),
                self.depth == o.depth + chained,
                (o.lone_operand() && !is_bitwise_tok(o.kind_at(o.i + 1))) && o.depth + 1 <= MAX_NEST_DEPTH ==> self.i == o.i + 1 && chained == 0 && o.atom_of(lhs),
                o.lone_operand() && is_bitwise_tok(o.kind_at(o.i + 1)) ==> o.depth + 1 > MAX_NEST_DEPTH,
                o.i < self.i,
            decreases self.toks@.len() - self.i,
        {
            let s = self.bump();
            self.enter()?;
            chained += 1;
            let rhs = self.parse_and()?;
            let span = join_span(lhs.span().start, s.end, rhs.span().end);
            lhs = Expr::Bin(BinOp::Or, Box::new(lhs), Box::new(rhs), span);
        }
        self.depth -= chained;
        Ok(lhs)
    }

    /// `and := bitwise ('&&' bitwise)*`, left-nested and depth-guarded.
    fn parse_and(&mut self) -> (r: Result<Expr, FrontendDiag>)
        requires
            old(self).wf(),
        ensures
            final(self).parsed(*old(self), r),
            (old(self).lone_operand() && !is_bitwise_tok(old(self).kind_at(old(self).i + 1))) && old(self).depth + 1 <= MAX_NEST_DEPTH ==> (r matches Ok(e) && old(self).atom_of(e) && final(self).i == old(self).i + 1),
            old(self).lone_operand() && is_bitwise_tok(old(self).kind_at(old(self).i + 1)) && old(self).depth + 1
                <= MAX_NEST_DEPTH ==> (r matches Err(d) && d.code == codes::FE479_BITWISE_OP_SOL),
        decreases MAX_NEST_DEPTH - old(self).depth, 8nat,
    {
        let ghost o = *self;
        let mut lhs = self.parse_bitwise()?;
        let mut chained: u32 = 0;
        while self.at(&TokKind::AmpAmp)
            invariant
                self.wf(),
                self.frame(o),
                self.safemath_active == o.safemath_active,
                o.wf(),
                o == *old(self),
                self.depth == o.depth + chained,
                (o.lone_operand() && !is_bitwise_tok(o.kind_at(o.i + 1))) && o.depth + 1 <= MAX_NEST_DEPTH ==> self.i == o.i + 1 && chained == 0 && o.atom_of(lhs),
                o.lone_operand() && is_bitwise_tok(o.kind_at(o.i + 1)) ==> o.depth + 1 > MAX_NEST_DEPTH,
                o.i < self.i,
            decreases self.toks@.len() - self.i,
        {
            let s = self.bump();
            self.enter()?;
            chained += 1;
            let rhs = self.parse_bitwise()?;
            let span = join_span(lhs.span().start, s.end, rhs.span().end);
            lhs = Expr::Bin(BinOp::And, Box::new(lhs), Box::new(rhs), span);
        }
        self.depth -= chained;
        Ok(lhs)
    }

    /// Bitwise and shift operators are outside the subset: one after an operand rejects FE479.
    fn parse_bitwise(&mut self) -> (r: Result<Expr, FrontendDiag>)
        requires
            old(self).wf(),
        ensures
            final(self).parsed(*old(self), r),
            (old(self).lone_operand() && !is_bitwise_tok(old(self).kind_at(old(self).i + 1))) && old(self).depth + 1 <= MAX_NEST_DEPTH ==> (r matches Ok(e) && old(self).atom_of(e) && final(self).i == old(self).i + 1),
            r matches Ok(_) ==> !is_bitwise_tok(final(self).cur_kind()),
            old(self).lone_operand() && is_bitwise_tok(old(self).kind_at(old(self).i + 1)) && old(self).depth + 1
                <= MAX_NEST_DEPTH ==> (r matches Err(d) && d.code == codes::FE479_BITWISE_OP_SOL),
        decreases MAX_NEST_DEPTH - old(self).depth, 7nat,
    {
        let lhs = self.parse_equality()?;
        if self.at(&TokKind::Amp) || self.at(&TokKind::Pipe) || self.at(&TokKind::Caret)
            || self.at(&TokKind::Shl) || self.at(&TokKind::Shr) {
            return Err(
                self.err(
                    codes::FE479_BITWISE_OP_SOL,
                    "bitwise/shift operators (`& | ^ ~ << >>`) are unsupported (stdlib-lowering deferred)",
                ),
            );
        }
        Ok(lhs)
    }

    /// `equality := relational (('==' | '!=') relational)*`.
    fn parse_equality(&mut self) -> (r: Result<Expr, FrontendDiag>)
        requires
            old(self).wf(),
        ensures
            final(self).parsed(*old(self), r),
            old(self).lone_operand() && old(self).depth + 1 <= MAX_NEST_DEPTH ==> (r matches Ok(e) && old(self).atom_of(e) && final(self).i == old(self).i + 1),
        decreases MAX_NEST_DEPTH - old(self).depth, 6nat,
    {
        let ghost o = *self;
        let mut lhs = self.parse_relational()?;
        let mut chained: u32 = 0;
        loop
            invariant
                self.wf(),
                self.frame(o),
                self.safemath_active == o.safemath_active,
                o.wf(),
                o == *old(self),
                self.depth == o.depth + chained,
                o.lone_operand() && o.depth + 1 <= MAX_NEST_DEPTH ==> self.i == o.i + 1 && chained == 0 && o.atom_of(lhs),
                o.i < self.i,
            decreases self.toks@.len() - self.i,
        {
            let op = match equality_op(self.cur()) {
                Some(op) => op,
                None => break,
            };
            self.bump();
            self.enter()?;
            chained += 1;
            let rhs = self.parse_relational()?;
            let span = span_of(lhs.span().start, rhs.span().end);
            lhs = Expr::Bin(op, Box::new(lhs), Box::new(rhs), span);
        }
        self.depth -= chained;
        Ok(lhs)
    }

    /// `relational := additive (('<' | '<=' | '>' | '>=') additive)*`.
    fn parse_relational(&mut self) -> (r: Result<Expr, FrontendDiag>)
        requires
            old(self).wf(),
        ensures
            final(self).parsed(*old(self), r),
            old(self).lone_operand() && old(self).depth + 1 <= MAX_NEST_DEPTH ==> (r matches Ok(e) && old(self).atom_of(e) && final(self).i == old(self).i + 1),
        decreases MAX_NEST_DEPTH - old(self).depth, 5nat,
    {
        let ghost o = *self;
        let mut lhs = self.parse_additive()?;
        let mut chained: u32 = 0;
        loop
            invariant
                self.wf(),
                self.frame(o),
                self.safemath_active == o.safemath_active,
                o.wf(),
                o == *old(self),
                self.depth == o.depth + chained,
                o.lone_operand() && o.depth + 1 <= MAX_NEST_DEPTH ==> self.i == o.i + 1 && chained == 0 && o.atom_of(lhs),
                o.i < self.i,
            decreases self.toks@.len() - self.i,
        {
            let op = match relational_op(self.cur()) {
                Some(op) => op,
                None => break,
            };
            self.bump();
            self.enter()?;
            chained += 1;
            let rhs = self.parse_additive()?;
            let span = span_of(lhs.span().start, rhs.span().end);
            lhs = Expr::Bin(op, Box::new(lhs), Box::new(rhs), span);
        }
        self.depth -= chained;
        Ok(lhs)
    }

    /// `additive := multiplicative (('+' | '-') multiplicative)*`.
    fn parse_additive(&mut self) -> (r: Result<Expr, FrontendDiag>)
        requires
            old(self).wf(),
        ensures
            final(self).parsed(*old(self), r),
            old(self).lone_operand() && old(self).depth + 1 <= MAX_NEST_DEPTH ==> (r matches Ok(e) && old(self).atom_of(e) && final(self).i == old(self).i + 1),
        decreases MAX_NEST_DEPTH - old(self).depth, 4nat,
    {
        let ghost o = *self;
        let mut lhs = self.parse_multiplicative()?;
        let mut chained: u32 = 0;
        loop
            invariant
                self.wf(),
                self.frame(o),
                self.safemath_active == o.safemath_active,
                o.wf(),
                o == *old(self),
                self.depth == o.depth + chained,
                o.lone_operand() && o.depth + 1 <= MAX_NEST_DEPTH ==> self.i == o.i + 1 && chained == 0 && o.atom_of(lhs),
                o.i < self.i,
            decreases self.toks@.len() - self.i,
        {
            let op = match additive_op(self.cur()) {
                Some(op) => op,
                None => break,
            };
            self.bump();
            self.enter()?;
            chained += 1;
            let rhs = self.parse_multiplicative()?;
            let span = span_of(lhs.span().start, rhs.span().end);
            lhs = Expr::Bin(op, Box::new(lhs), Box::new(rhs), span);
        }
        self.depth -= chained;
        Ok(lhs)
    }

    /// `multiplicative := power (('*' | '/' | '%') power)*`.
    fn parse_multiplicative(&mut self) -> (r: Result<Expr, FrontendDiag>)
        requires
            old(self).wf(),
        ensures
            final(self).parsed(*old(self), r),
            old(self).lone_operand() && old(self).depth + 1 <= MAX_NEST_DEPTH ==> (r matches Ok(e) && old(self).atom_of(e) && final(self).i == old(self).i + 1),
        decreases MAX_NEST_DEPTH - old(self).depth, 3nat,
    {
        let ghost o = *self;
        let mut lhs = self.parse_power()?;
        let mut chained: u32 = 0;
        loop
            invariant
                self.wf(),
                self.frame(o),
                self.safemath_active == o.safemath_active,
                o.wf(),
                o == *old(self),
                self.depth == o.depth + chained,
                o.lone_operand() && o.depth + 1 <= MAX_NEST_DEPTH ==> self.i == o.i + 1 && chained == 0 && o.atom_of(lhs),
                o.i < self.i,
            decreases self.toks@.len() - self.i,
        {
            let op = match multiplicative_op(self.cur()) {
                Some(op) => op,
                None => break,
            };
            self.bump();
            self.enter()?;
            chained += 1;
            let rhs = self.parse_power()?;
            let span = span_of(lhs.span().start, rhs.span().end);
            lhs = Expr::Bin(op, Box::new(lhs), Box::new(rhs), span);
        }
        self.depth -= chained;
        Ok(lhs)
    }

    /// `power := unary ('**' power)?`, right-associative. Only a literal decimal `base ** exp`
    /// is accepted, folded to its value (FE430 beyond the u256 range); any other operand
    /// rejects FE482.
    fn parse_power(&mut self) -> (r: Result<Expr, FrontendDiag>)
        requires
            old(self).wf(),
        ensures
            final(self).parsed(*old(self), r),
            old(self).lone_operand() && old(self).depth + 1 <= MAX_NEST_DEPTH ==> (r matches Ok(e) && old(self).atom_of(e) && final(self).i == old(self).i + 1),
            old(self).atom_operand() && old(self).kind_at(old(self).i + 1) == TokKind::Pow && old(self).lone_at(
                old(self).i + 2,
            ) && !(old(self).cur_kind() is Num && old(self).kind_at(old(self).i + 2) is Num) && old(self).depth + 2
                <= MAX_NEST_DEPTH ==> (r matches Err(d) && d.code == codes::FE482_NON_CONSTANT_POW_SOL),
        decreases MAX_NEST_DEPTH - old(self).depth, 2nat,
    {
        let base = self.parse_unary()?;
        if !self.at(&TokKind::Pow) {
            return Ok(base);
        }
        let pow_span = self.bump();
        self.enter()?;
        let exp = self.parse_power()?;
        self.leave();
        let span = span_of(base.span().start, exp.span().end);
        let folded = match (&base, &exp) {
            (Expr::Num(b, _), Expr::Num(e, _)) => {
                if is_decimal_digits(b.as_str()) && is_decimal_digits(e.as_str()) {
                    Some(fold_pow_decimal(b.as_str().as_bytes(), e.as_str().as_bytes()))
                } else {
                    None
                }
            },
            _ => None,
        };
        match folded {
            Some(Some(digits)) => Ok(Expr::Num(ascii_string(digits.as_slice()), span)),
            Some(None) => Err(
                FrontendDiag::new(
                    codes::FE430_BAD_NUMBER_SOL,
                    "constant `**` result exceeds the u256 range [0, 2^256) (Solidity 0.8 reverts on this overflow)",
                    span,
                ),
            ),
            None => Err(
                FrontendDiag::new(
                    codes::FE482_NON_CONSTANT_POW_SOL,
                    "only a CONSTANT decimal `**` (a literal base and exponent, e.g. `10 ** 18`) is supported; precompute a non-constant exponentiation into a literal",
                    pow_span,
                ),
            ),
        }
    }

    /// Depth-guarded prefix operators (a `!`/`-` chain recurses through here).
    fn parse_unary(&mut self) -> (r: Result<Expr, FrontendDiag>)
        requires
            old(self).wf(),
        ensures
            final(self).parsed(*old(self), r),
            old(self).atom_operand() && old(self).depth + 1 <= MAX_NEST_DEPTH ==> (r matches Ok(e) && old(self).atom_of(e) && final(self).i == old(self).i + 1),
        decreases MAX_NEST_DEPTH - old(self).depth, 1nat,
    {
        self.enter()?;
        let r = self.parse_unary_inner();
        self.leave();
        r
    }

    /// `unary := '!' unary | '-' unary | postfix`; `~` rejects FE479.
    fn parse_unary_inner(&mut self) -> (r: Result<Expr, FrontendDiag>)
        requires
            old(self).wf(),
        ensures
            final(self).parsed(*old(self), r),
            old(self).atom_operand() ==> (r matches Ok(e) && old(self).atom_of(e) && final(self).i == old(self).i + 1),
            old(self).cur_kind() == TokKind::Tilde ==> (r matches Err(d) && d.code
                == codes::FE479_BITWISE_OP_SOL),
        decreases MAX_NEST_DEPTH - old(self).depth, 12nat,
    {
        if self.at(&TokKind::Bang) {
            let s = self.bump();
            let e = self.parse_unary()?;
            let span = span_of(s.start, e.span().end);
            Ok(Expr::Unary(UnOp::Not, Box::new(e), span))
        } else if self.at(&TokKind::Minus) {
            let s = self.bump();
            let e = self.parse_unary()?;
            let span = span_of(s.start, e.span().end);
            Ok(Expr::Unary(UnOp::Neg, Box::new(e), span))
        } else if self.at(&TokKind::Tilde) {
            Err(
                self.err(
                    codes::FE479_BITWISE_OP_SOL,
                    "the bitwise-not operator `~` is unsupported (stdlib-lowering deferred)",
                ),
            )
        } else {
            self.parse_postfix()
        }
    }

    /// `primary := Num | true | false | Ident | '(' expr ')'`; anything else rejects FE401.
    fn parse_primary(&mut self) -> (r: Result<Expr, FrontendDiag>)
        requires
            old(self).wf(),
        ensures
            final(self).parsed(*old(self), r),
            old(self).atom_operand() ==> (r matches Ok(e) && old(self).atom_of(e) && final(self).i == old(self).i + 1),
            old(self).cur_kind() is Num ==> (r matches Ok(e) && e is Num),
            old(self).cur_kind() == TokKind::True ==> r == Ok::<Expr, FrontendDiag>(
                Expr::Bool(true, old(self).toks@[old(self).i as int].span),
            ),
            old(self).cur_kind() == TokKind::False ==> r == Ok::<Expr, FrontendDiag>(
                Expr::Bool(false, old(self).toks@[old(self).i as int].span),
            ),
            old(self).cur_kind() is Ident ==> (r matches Ok(e) && e is Var && old(self).atom_of(e) && final(self).i
                == old(self).i + 1),
            !(old(self).cur_kind() is Num || old(self).cur_kind() is Ident || old(self).cur_kind()
                == TokKind::True || old(self).cur_kind() == TokKind::False || old(self).cur_kind()
                == TokKind::LParen) ==> (r matches Err(d) && d.code == codes::FE401_UNSUPPORTED_SOL),
        decreases MAX_NEST_DEPTH - old(self).depth, 10nat,
    {
        match self.cur() {
            TokKind::Num(t) => {
                let t = t.clone();
                let s = self.bump();
                return Ok(Expr::Num(t, s));
            },
            TokKind::Ident(name) => {
                let name = name.clone();
                let s = self.bump();
                return Ok(Expr::Var(name, s));
            },
            _ => {},
        }
        if self.at(&TokKind::True) {
            Ok(Expr::Bool(true, self.bump()))
        } else if self.at(&TokKind::False) {
            Ok(Expr::Bool(false, self.bump()))
        } else if self.at(&TokKind::LParen) {
            self.bump();
            let e = self.parse_expr()?;
            self.expect(TokKind::RParen, "`)`")?;
            Ok(e)
        } else {
            Err(self.err(codes::FE401_UNSUPPORTED_SOL, "expected an expression"))
        }
    }
}


/// `e` is `Var[key]`, a single-level index of a plain variable.
pub open spec fn is_var_index(e: Expr) -> bool {
    e matches Expr::Index(base, _, _) && *base is Var
}

fn var_index(e: &Expr) -> (r: bool)
    ensures
        r == is_var_index(*e),
{
    match e {
        Expr::Index(base, _, _) => match &**base {
            Expr::Var(_, _) => true,
            _ => false,
        },
        _ => false,
    }
}

/// The struct-map field path `M[k].f` read as the synthesized per-field map `__fe_sm_…[k]`.
fn rewrite_struct_map(e: Expr, member: &str, span: Range<usize>) -> (r: Expr)
    requires
        is_var_index(e),
    ensures
        e matches Expr::Index(base, key, _) && *base matches Expr::Var(m, vspan) && r
            matches Expr::Index(nb, nk, s) && *nb matches Expr::Var(n, ns) && n@ == synth_name_spec(m@, member@) && ns == vspan && nk == key && s == span,
{
    match e {
        Expr::Index(base, key, _) => match *base {
            Expr::Var(m, vspan) => {
                let synth = struct_map_synth_name(m.as_str(), member);
                Expr::Index(Box::new(Expr::Var(synth, vspan)), key, span)
            },
            other => Expr::Index(Box::new(other), key, span),
        },
        other => other,
    }
}

impl Parser {
    /// `keccak256("<literal>")` with a foldable literal: its Keccak-256 hash as a `0x…` literal.
    fn keccak_fold(&self, e: &Expr) -> (r: Option<String>)
        requires
            self.i < self.toks@.len(),
        ensures
            r is Some ==> self.i + 2 < self.toks@.len() && self.kind_at(self.i + 1) is Str
                && self.kind_at(self.i + 2) == TokKind::RParen && e is Var,
            r matches Some(h) ==> self.kind_at(self.i + 1) matches TokKind::Str(t) && h@ == "0x"@
                + hex_lower(keccak256_spec(encode_utf8(t@))) && keccak_foldable_spec(encode_utf8(t@)),
            (e matches Expr::Var(n, _) && n@ == "keccak256"@) && self.i + 2 < self.toks@.len() && self.kind_at(self.i + 2)
                == TokKind::RParen && (self.kind_at(self.i + 1) matches TokKind::Str(t) && keccak_foldable_spec(
                encode_utf8(t@),
            )) ==> r is Some,
    {
        let callee_is_keccak = match e {
            Expr::Var(n, _) => string_eq_str(n, "keccak256"),
            _ => false,
        };
        if !callee_is_keccak {
            return None;
        }
        let closes = match self.peek_kind(2) {
            Some(TokKind::RParen) => true,
            _ => false,
        };
        if !closes {
            return None;
        }
        match self.peek_kind(1) {
            Some(TokKind::Str(text)) => {
                if keccak_foldable(text.as_str()) {
                    Some(keccak256_hex_literal(text.as_str()))
                } else {
                    None
                }
            },
            _ => None,
        }
    }

    /// `postfix := primary ('.' Ident | '(' args ')' | '[' expr ']')*`, each link depth-guarded.
    /// `M[k].f` (not called) becomes the synthesized struct-map read; under `using SafeMath`,
    /// `recv.add/sub/mul/div/mod(x)` folds to the checked `recv <op> x`; `keccak256("…")` of
    /// a foldable literal folds to its hash.
    fn parse_postfix(&mut self) -> (r: Result<Expr, FrontendDiag>)
        requires
            old(self).wf(),
        ensures
            final(self).parsed(*old(self), r),
            old(self).atom_operand() ==> (r matches Ok(e) && old(self).atom_of(e) && final(self).i == old(self).i + 1),
            old(self).safemath_call_at() ==> (r matches Ok(e) && old(self).safemath_folded(e) && final(self).i == old(self).i
                + 6),
        decreases MAX_NEST_DEPTH - old(self).depth, 11nat,
    {
        let ghost o = *self;
        let mut e = self.parse_primary()?;
        let mut chained: u32 = 0;
        loop
            invariant
                self.wf(),
                self.frame(o),
                self.safemath_active == o.safemath_active,
                o.wf(),
                o == *old(self),
                self.depth == o.depth + chained,
                o.atom_operand() ==> self.i == o.i + 1 && chained == 0 && o.atom_of(e),
                o.safemath_call_at() ==> {
                    ||| (self.i == o.i + 1 && chained == 0 && o.atom_of(e))
                    ||| (self.i == o.i + 3 && chained == 1 && (e matches Expr::Member(recv, mm, _) && o.atom_of(*recv)
                        && o.kind_at(o.i + 2) == TokKind::Ident(mm)))
                    ||| (self.i == o.i + 6 && chained == 2 && o.safemath_folded(e))
                },
                o.i < self.i,
            ensures
                o.safemath_call_at() ==> (self.i == o.i + 6 && chained == 2 && o.safemath_folded(e)),
            decreases self.toks@.len() - self.i,
        {
            let ghost i0 = self.i;
            if self.at(&TokKind::Dot) {
                self.bump();
                self.enter()?;
                chained += 1;
                let (member, ms) = self.expect_ident("a member name")?;
                let span = span_of(e.span().start, ms.end);
                if !self.at(&TokKind::LParen) && var_index(&e) {
                    e = rewrite_struct_map(e, member.as_str(), span);
                } else {
                    e = Expr::Member(Box::new(e), member, span);
                }
            } else if self.at(&TokKind::LParen) {
                let safemath_op = if self.safemath_active {
                    match &e {
                        Expr::Member(_, m, _) => safemath_binop(m.as_str()),
                        _ => None,
                    }
                } else {
                    None
                };
                match safemath_op {
                    Some(op) => {
                        self.bump();
                        self.enter()?;
                        chained += 1;
                        let operand = self.parse_expr()?;
                        if self.at(&TokKind::Comma) {
                            self.bump();
                            let is_str = match self.cur() {
                                TokKind::Str(_) => true,
                                _ => false,
                            };
                            if is_str && matches!(op, BinOp::Sub | BinOp::Div | BinOp::Mod) {
                                self.bump();
                            } else {
                                return Err(
                                    self.err(
                                        codes::FE490_SAFEMATH_SHAPE_SOL,
                                        "a SafeMath `.add`/`.sub`/`.mul`/`.div`/`.mod` call takes ONE operand (plus an optional string revert-message for `.sub`/`.div`/`.mod`); this argument shape is unsupported",
                                    ),
                                );
                            }
                        }
                        let rp = self.expect(TokKind::RParen, "`)`")?;
                        e = match e {
                            Expr::Member(recv, _, _) => {
                                let span = span_of(recv.span().start, rp.end);
                                Expr::Bin(op, recv, Box::new(operand), span)
                            },
                            other => other,
                        };
                    },
                    None => {
                        match self.keccak_fold(&e) {
                            Some(lit) => {
                                self.bump();
                                self.bump();
                                let rp = self.bump();
                                let span = span_of(e.span().start, rp.end);
                                                e = Expr::Num(lit, span);
                            },
                            None => {
                                self.bump();
                                self.enter()?;
                                chained += 1;
                                let mut args: Vec<Expr> = Vec::new();
                                while !self.at(&TokKind::RParen)
                                    invariant
                                        self.wf(),
                                        self.frame(o),
                                        self.safemath_active == o.safemath_active,
                                        o.wf(),
                                        o == *old(self),
                                        self.i > i0,
                                        !o.atom_operand(),
                                        !o.safemath_call_at(),
                                        self.depth == o.depth + chained,
                                        o.i < self.i,
                                    decreases self.toks@.len() - self.i,
                                {
                                    let a = self.parse_expr()?;
                                    args.push(a);
                                    if self.at(&TokKind::Comma) {
                                        self.bump();
                                    } else {
                                        break;
                                    }
                                }
                                let rp = self.expect(TokKind::RParen, "`)`")?;
                                let span = span_of(e.span().start, rp.end);
                                e = Expr::Call(Box::new(e), args, span);
                            },
                        }
                    },
                }
            } else if self.at(&TokKind::LBracket) {
                self.bump();
                self.enter()?;
                chained += 1;
                let key = self.parse_expr()?;
                let rb = self.expect(TokKind::RBracket, "`]`")?;
                let span = span_of(e.span().start, rb.end);
                e = Expr::Index(Box::new(e), Box::new(key), span);
            } else {
                break;
            }
        }
        self.depth -= chained;
        Ok(e)
    }
}


/// The end of a nested `else if` statement's span (`0..0` for any other statement).
fn nested_span_end(s: &Stmt) -> (r: Range<usize>)
    ensures
        s matches Stmt::If { span, .. } ==> r == span,
        !(s is If) ==> r.start == 0 && r.end == 0,
{
    match s {
        Stmt::If { span, .. } => span.start..span.end,
        _ => 0..0,
    }
}

/// The number of `_` placeholders in a statement list, descending into `if` branches.
pub open spec fn placeholders(stmts: Seq<Stmt>) -> nat
    decreases stmts,
{
    if stmts.len() == 0 {
        0
    } else {
        let last = stmts.last();
        placeholders(stmts.drop_last()) + match last {
            Stmt::Placeholder { .. } => 1nat,
            Stmt::If { then_body, else_body, .. } => placeholders(then_body@) + placeholders(
                else_body@,
            ),
            _ => 0nat,
        }
    }
}

/// The number of `_` placeholders in a statement list at any depth: inside `if` branches,
/// `unchecked` blocks and loop bodies too.
pub open spec fn all_placeholders(stmts: Seq<Stmt>) -> nat
    decreases stmts,
{
    if stmts.len() == 0 {
        0
    } else {
        let last = stmts.last();
        all_placeholders(stmts.drop_last()) + match last {
            Stmt::Placeholder { .. } => 1nat,
            Stmt::If { then_body, else_body, .. } => all_placeholders(then_body@) + all_placeholders(
                else_body@,
            ),
            Stmt::Unchecked { body, .. } => all_placeholders(body@),
            Stmt::AirdropLoop { body, .. } => all_placeholders(body@),
            _ => 0nat,
        }
    }
}

/// A statement that holds no nested statement list and is no placeholder.
pub open spec fn leaf_stmt(s: Stmt) -> bool {
    !(s is Placeholder || s is If || s is Unchecked || s is AirdropLoop)
}

/// The placeholders of a one-statement list are those of the statement.
proof fn lemma_one_stmt_placeholders()
    ensures
        forall|x: Stmt| #[trigger] all_placeholders(seq![x]) == match x {
            Stmt::Placeholder { .. } => 1nat,
            Stmt::If { then_body, else_body, .. } => all_placeholders(then_body@) + all_placeholders(else_body@),
            Stmt::Unchecked { body, .. } => all_placeholders(body@),
            Stmt::AirdropLoop { body, .. } => all_placeholders(body@),
            _ => 0nat,
        },
{
    assert forall|x: Stmt| #[trigger] all_placeholders(seq![x]) == match x {
        Stmt::Placeholder { .. } => 1nat,
        Stmt::If { then_body, else_body, .. } => all_placeholders(then_body@) + all_placeholders(else_body@),
        Stmt::Unchecked { body, .. } => all_placeholders(body@),
        Stmt::AirdropLoop { body, .. } => all_placeholders(body@),
        _ => 0nat,
    } by {
        assert(seq![x].drop_last() =~= Seq::<Stmt>::empty());
        assert(all_placeholders(Seq::<Stmt>::empty()) == 0);
    }
}

/// The placeholders of a list grown by one statement.
proof fn lemma_placeholders_push_one(v: Seq<Stmt>, s: Stmt)
    ensures
        all_placeholders(v.push(s)) == all_placeholders(v) + all_placeholders(seq![s]),
        leaf_stmt(s) ==> all_placeholders(seq![s]) == 0,
{
    assert(v.push(s).drop_last() =~= v);
    assert(seq![s].drop_last() =~= Seq::<Stmt>::empty());
    assert(all_placeholders(Seq::<Stmt>::empty()) == 0);
}

/// A block that is one placeholder holds one placeholder.
proof fn lemma_one_placeholder(b: Seq<Stmt>)
    requires
        b.len() == 1,
        b[0] is Placeholder,
    ensures
        all_placeholders(b) == 1,
{
    assert(b.drop_last() =~= Seq::<Stmt>::empty());
    assert(all_placeholders(b.drop_last()) == 0);
    assert(b.last() == b[0]);
}

/// `x`, saturated at `usize::MAX`.
pub open spec fn sat(x: nat) -> nat {
    if x > usize::MAX {
        usize::MAX as nat
    } else {
        x
    }
}

fn sat_add(a: usize, b: usize) -> (r: usize)
    ensures
        r == sat((a + b) as nat),
{
    if a > usize::MAX - b {
        usize::MAX
    } else {
        a + b
    }
}

/// Counts the `Stmt::Placeholder` nodes of a statement tree at any depth (a modifier needs
/// exactly one), saturating at `usize::MAX`.
fn count_placeholders(stmts: &[Stmt]) -> (n: usize)
    ensures
        n == sat(all_placeholders(stmts@)),
    decreases stmts@,
{
    let mut n: usize = 0;
    let mut k: usize = 0;
    while k < stmts.len()
        invariant
            k <= stmts@.len(),
            n == sat(all_placeholders(stmts@.take(k as int))),
        decreases stmts@.len() - k,
    {
        assert(stmts@.take(k + 1).drop_last() =~= stmts@.take(k as int));
        match &stmts[k] {
            Stmt::Placeholder { .. } => {
                n = sat_add(n, 1);
            },
            Stmt::If { then_body, else_body, .. } => {
                assert(decreases_to!(stmts@ => stmts@[k as int]));
                let a = count_placeholders(then_body.as_slice());
                let b = count_placeholders(else_body.as_slice());
                n = sat_add(sat_add(n, a), b);
            },
            Stmt::Unchecked { body, .. } => {
                assert(decreases_to!(stmts@ => stmts@[k as int]));
                let a = count_placeholders(body.as_slice());
                n = sat_add(n, a);
            },
            Stmt::AirdropLoop { body, .. } => {
                assert(decreases_to!(stmts@ => stmts@[k as int]));
                let a = count_placeholders(body.as_slice());
                n = sat_add(n, a);
            },
            _ => {},
        }
        k = k + 1;
    }
    assert(stmts@.take(stmts@.len() as int) =~= stmts@);
    n
}

/// Whether an `emit` argument may be dropped with its event: no call (except an elementary
/// type cast of safe arguments or the zero-argument `_msgSender()`), no trap-capable
/// arithmetic (`+ - * / %`, unary `-`).
pub open spec fn discard_safe(e: Expr) -> bool
    decreases e,
{
    match e {
        Expr::Num(..) => true,
        Expr::Bool(..) => true,
        Expr::Var(..) => true,
        Expr::Call(callee, args, _) => match *callee {
            Expr::Var(name, _) => if elementary_cast_spec(name@) {
                forall|k: int| 0 <= k < args@.len() ==> discard_safe(#[trigger] args@[k])
            } else {
                name@ == "_msgSender"@ && args@.len() == 0
            },
            _ => false,
        },
        Expr::Member(base, _, _) => discard_safe(*base),
        Expr::Index(base, key, _) => discard_safe(*base) && discard_safe(*key),
        Expr::Unary(op, inner, _) => op != UnOp::Neg && discard_safe(*inner),
        Expr::Bin(op, l, r, _) => !(op == BinOp::Add || op == BinOp::Sub || op == BinOp::Mul
            || op == BinOp::Div || op == BinOp::Mod) && discard_safe(*l) && discard_safe(*r),
    }
}

/// Whether an `emit` argument may be dropped with its event (see `discard_safe`).
pub fn emit_arg_discard_safe(e: &Expr) -> (r: bool)
    ensures
        r == discard_safe(*e),
    decreases e,
{
    match e {
        Expr::Num(..) => true,
        Expr::Bool(..) => true,
        Expr::Var(..) => true,
        Expr::Call(callee, args, _) => match &**callee {
            Expr::Var(name, _) => {
                if is_elementary_cast(name.as_str()) {
                    let mut k: usize = 0;
                    while k < args.len()
                        invariant
                            k <= args@.len(),
                            forall|j: int| 0 <= j < k ==> discard_safe(#[trigger] args@[j]),
                            *e == Expr::Call(*callee, *args, e.spec_span()),
                            **callee == Expr::Var(*name, callee.spec_span()),
                            elementary_cast_spec(name@),
                        decreases args@.len() - k,
                    {
                        proof {
                            assert(decreases_to!(*e => (*e)->Call_1));
                            assert((*e)->Call_1 == *args);
                            assert(decreases_to!(*args => args[k as int]));
                        }
                        if !emit_arg_discard_safe(&args[k]) {
                            return false;
                        }
                        k = k + 1;
                    }
                    true
                } else {
                    string_eq_str(name, "_msgSender") && args.len() == 0
                }
            },
            _ => false,
        },
        Expr::Member(base, _, _) => emit_arg_discard_safe(base),
        Expr::Index(base, key, _) => emit_arg_discard_safe(base) && emit_arg_discard_safe(key),
        Expr::Unary(op, inner, _) => !matches!(op, UnOp::Neg) && emit_arg_discard_safe(inner),
        Expr::Bin(op, l, r, _) => !matches!(
            op,
            BinOp::Add | BinOp::Sub | BinOp::Mul | BinOp::Div | BinOp::Mod
        ) && emit_arg_discard_safe(l) && emit_arg_discard_safe(r),
    }
}

/// std's `u32` parse of a text: an optional leading `+`, then at least one decimal digit, with
/// a value at most `u32::MAX`.
pub open spec fn parse_u32_spec(w: Seq<u8>) -> Option<nat> {
    let d = if w.len() > 0 && w[0] == 43 {
        w.drop_first()
    } else {
        w
    };
    if d.len() > 0 && all_digits(d) && dec_value(d) <= u32::MAX {
        Some(dec_value(d))
    } else {
        None
    }
}

/// A Solidity elementary type usable as a cast callee: `address`, `payable`, `bool`,
/// `string`, `bytes`, `uint`, `int`, `uintN`/`intN` (N a multiple of 8 in 8..=256) and
/// `bytesN` (N in 1..=32).
pub open spec fn elementary_cast_spec(name: Seq<char>) -> bool {
    let b = encode_utf8(name);
    let pu = encode_utf8("uint"@);
    let pi = encode_utf8("int"@);
    let pb = encode_utf8("bytes"@);
    if name == "address"@ || name == "payable"@ || name == "bool"@ || name == "string"@ || name
        == "bytes"@ || name == "uint"@ || name == "int"@ {
        true
    } else if has_prefix(b, pu) || has_prefix(b, pi) {
        let w = if has_prefix(b, pu) {
            b.skip(pu.len() as int)
        } else {
            b.skip(pi.len() as int)
        };
        parse_u32_spec(w) matches Some(n) && 8 <= n <= 256 && n % 8 == 0
    } else if has_prefix(b, pb) {
        parse_u32_spec(b.skip(pb.len() as int)) matches Some(n) && 1 <= n <= 32
    } else {
        false
    }
}

/// std's `u32` parse of a byte text (see `parse_u32_spec`).
fn parse_u32_text(w: &[u8]) -> (r: Option<u32>)
    ensures
        match parse_u32_spec(w@) {
            Some(n) => r == Some(n as u32),
            None => r is None,
        },
{
    let d: &[u8] = if w.len() > 0 && w[0] == 43 {
        slice_subrange(w, 1, w.len())
    } else {
        w
    };
    assert(w@.len() > 0 && w@[0] == 43 ==> d@ =~= w@.drop_first());
    assert(!(w@.len() > 0 && w@[0] == 43) ==> d@ =~= w@);
    if d.len() == 0 {
        return None;
    }
    let mut k: usize = 0;
    while k < d.len()
        invariant
            k <= d@.len(),
            forall|j: int| 0 <= j < k ==> is_digit(#[trigger] d@[j]),
            d@.len() > 0,
            w@.len() > 0 && w@[0] == 43 ==> d@ == w@.drop_first(),
            !(w@.len() > 0 && w@[0] == 43) ==> d@ == w@,
        decreases d@.len() - k,
    {
        if !(48 <= d[k] && d[k] <= 57) {
            assert(!is_digit(d@[k as int]));
            return None;
        }
        k = k + 1;
    }
    match parse_u64_digits(d) {
        Some(v) => {
            if v <= 0xffff_ffff {
                Some(v as u32)
            } else {
                None
            }
        },
        None => None,
    }
}

/// Whether `name` is a Solidity elementary type usable as a cast callee (`elementary_cast_spec`).
pub fn is_elementary_cast(name: &str) -> (r: bool)
    ensures
        r == elementary_cast_spec(name@),
{
    if str_eq(name, "address") || str_eq(name, "payable") || str_eq(name, "bool") || str_eq(
        name,
        "string",
    ) || str_eq(name, "bytes") || str_eq(name, "uint") || str_eq(name, "int") {
        return true;
    }
    let b = name.as_bytes();
    let pu = "uint".as_bytes();
    let pi = "int".as_bytes();
    let pb = "bytes".as_bytes();
    let uint_p = bytes_starts_with(b, pu);
    let int_p = bytes_starts_with(b, pi);
    if uint_p || int_p {
        let skip: usize = if uint_p {
            pu.len()
        } else {
            pi.len()
        };
        let w = slice_subrange(b, skip, b.len());
        assert(w@ =~= name.spec_bytes().skip(skip as int));
        return match parse_u32_text(w) {
            Some(n) => 8 <= n && n <= 256 && n % 8 == 0,
            None => false,
        };
    }
    if bytes_starts_with(b, pb) {
        let w = slice_subrange(b, pb.len(), b.len());
        assert(w@ =~= name.spec_bytes().skip(pb@.len() as int));
        return match parse_u32_text(w) {
            Some(n) => 1 <= n && n <= 32,
            None => false,
        };
    }
    false
}

/// The assignment operator an assignment token denotes.
pub open spec fn tok_assign_op(k: TokKind) -> Option<AssignOp> {
    match k {
        TokKind::Assign => Some(AssignOp::Eq),
        TokKind::PlusEq => Some(AssignOp::Plus),
        TokKind::MinusEq => Some(AssignOp::Minus),
        TokKind::StarEq => Some(AssignOp::Star),
        TokKind::SlashEq => Some(AssignOp::Slash),
        TokKind::PercentEq => Some(AssignOp::Percent),
        _ => None,
    }
}

/// The assignment operator of a token.
fn assign_op(k: &TokKind) -> (r: Option<AssignOp>)
    ensures
        r == tok_assign_op(*k),
{
    match k {
        TokKind::Assign => Some(AssignOp::Eq),
        TokKind::PlusEq => Some(AssignOp::Plus),
        TokKind::MinusEq => Some(AssignOp::Minus),
        TokKind::StarEq => Some(AssignOp::Star),
        TokKind::SlashEq => Some(AssignOp::Slash),
        TokKind::PercentEq => Some(AssignOp::Percent),
        _ => None,
    }
}

/// The statement an assignment `lhs op value` stands for: `x`, `m[k]`, `m[k1][k2]` or
/// `obj.field`; a deeper index rejects FE440, any other target FE401.
fn classify_assignment(lhs: Expr, op: AssignOp, value: Expr, end: usize) -> (r: Result<
    Stmt,
    FrontendDiag,
>)
    ensures
        r matches Ok(x) ==> leaf_stmt(x),
        lhs is Var ==> (r matches Ok(s) && s is Assign),
        lhs matches Expr::Var(t, ts) ==> r == Ok::<Stmt, FrontendDiag>(
            Stmt::Assign { span: Range { start: ts.start, end }, target: t, op, value },
        ),
        (lhs matches Expr::Index(b, _, _) && *b is Var) ==> (r matches Ok(s) && s is IndexAssign),
        (lhs matches Expr::Index(b, _, _) && *b matches Expr::Index(b2, _, _) && *b2 is Var) ==> (r
            matches Ok(s) && s is IndexAssign2),
        (lhs matches Expr::Index(b, _, _) && *b matches Expr::Index(b2, _, _) && !(*b2 is Var)) ==> (
        r matches Err(d) && d.code == codes::FE440_NESTED_MAPPING_SOL),
        (lhs matches Expr::Member(b, _, _) && *b is Var) ==> (r matches Ok(s) && s is FieldAssign),
        r is Ok <==> (lhs is Var || (lhs matches Expr::Index(b, _, _) && (*b is Var || (*b
            matches Expr::Index(b2, _, _) && *b2 is Var))) || (lhs matches Expr::Member(b, _, _)
            && *b is Var)),
        r matches Err(d) ==> d.code == codes::FE440_NESTED_MAPPING_SOL || d.code
            == codes::FE401_UNSUPPORTED_SOL,
{
    match lhs {
        Expr::Var(target, tspan) => Ok(
            Stmt::Assign { span: span_of(tspan.start, end), target, op, value },
        ),
        Expr::Index(base, key, ispan) => match *base {
            Expr::Var(map, _) => Ok(
                Stmt::IndexAssign { span: span_of(ispan.start, end), map, key: *key, op, value },
            ),
            Expr::Index(inner_base, mid_key, _) => match *inner_base {
                Expr::Var(map, _) => Ok(
                    Stmt::IndexAssign2 {
                        span: span_of(ispan.start, end),
                        map,
                        k1: *mid_key,
                        k2: *key,
                        op,
                        value,
                    },
                ),
                _ => Err(
                    FrontendDiag::new(
                        codes::FE440_NESTED_MAPPING_SOL,
                        "mapping nesting deeper than 2 levels is unsupported (`m[a][b][c]`)",
                        ispan,
                    ),
                ),
            },
            _ => Err(
                FrontendDiag::new(
                    codes::FE401_UNSUPPORTED_SOL,
                    "invalid index-assignment target (only `m[k]` or `m[k1][k2]`)",
                    ispan,
                ),
            ),
        },
        Expr::Member(base, field, mspan) => match *base {
            Expr::Var(obj, _) => Ok(
                Stmt::FieldAssign { span: span_of(mspan.start, end), obj, field, op, value },
            ),
            _ => Err(
                FrontendDiag::new(
                    codes::FE401_UNSUPPORTED_SOL,
                    "invalid field-assignment target (only a single-level `obj.field` is assignable)",
                    mspan,
                ),
            ),
        },
        other => {
            let s = other.span();
            Err(
                FrontendDiag::new(
                    codes::FE401_UNSUPPORTED_SOL,
                    "invalid assignment target (only a variable, `map[key]`, or `obj.field`)",
                    s,
                ),
            )
        },
    }
}

impl Parser {
    /// `type := 'mapping' '(' type Ident? '=>' type Ident? ')' | Ident ('[' ']')?`; a sized
    /// array `T[N]` rejects FE491. The mapping descent is depth-guarded.
    fn parse_type(&mut self) -> (r: Result<TypeRef, FrontendDiag>)
        requires
            old(self).wf(),
        ensures
            final(self).parsed(*old(self), r),
            !(old(self).cur_kind() is Ident) ==> (r matches Err(d) && d.code
                == codes::FE401_UNSUPPORTED_SOL),
            !ident_is(old(self).cur_kind(), "mapping"@) ==> !(r matches Ok(TypeRef::Mapping { .. })),
            old(self).scalar_type_at(old(self).i as int) ==> (r matches Ok(t) && old(self).scalar_of(old(self).i as int, t)
                && final(self).i == old(self).i + 1),
        decreases MAX_NEST_DEPTH - old(self).depth, 0nat,
    {
        if self.at_ident("mapping") {
            self.enter()?;
            let r = self.parse_mapping_type();
            self.leave();
            return r;
        }
        let (name, span) = self.expect_ident("a type name")?;
        let start = span.start;
        let base = TypeRef::Scalar { name, span };
        if self.at(&TokKind::LBracket) {
            let lb = self.bump();
            if self.at(&TokKind::RBracket) {
                let rb = self.bump();
                return Ok(TypeRef::Array { elem: Box::new(base), span: span_of(start, rb.end) });
            }
            return Err(
                FrontendDiag::new(
                    codes::FE491_ARRAY_TYPE_SOL,
                    "only an unsized dynamic array `T[]` is supported (a fixed-size `T[N]` is not)",
                    lb,
                ),
            );
        }
        Ok(base)
    }

    /// `mapping ( K [name] => V [name] )` (the optional names are dropped).
    fn parse_mapping_type(&mut self) -> (r: Result<TypeRef, FrontendDiag>)
        requires
            old(self).wf(),
            ident_is(old(self).cur_kind(), "mapping"@),
        ensures
            final(self).parsed(*old(self), r),
            r matches Ok(t) ==> t is Mapping,
            old(self).toks_are(old(self).i + 1, seq![TokKind::LParen]) && old(self).scalar_type_at(old(self).i + 2)
                && old(self).toks_are(old(self).i + 3, seq![TokKind::FatArrow]) && old(self).scalar_type_at(old(self).i + 4)
                && old(self).toks_are(old(self).i + 5, seq![TokKind::RParen]) ==> (r matches Ok(
                TypeRef::Mapping { key, value, span },
            ) && old(self).scalar_of(old(self).i + 2, *key) && old(self).scalar_of(old(self).i + 4, *value) && span
                == old(self).span_from(old(self).i as int, old(self).i + 5) && final(self).i == old(self).i + 6),
        decreases MAX_NEST_DEPTH - old(self).depth, 1nat,
    {
        let start = self.bump();
        self.expect(TokKind::LParen, "`(` after `mapping`")?;
        let key = self.parse_type()?;
        if self.cur().is_ident() {
            self.bump();
        }
        self.expect(TokKind::FatArrow, "`=>` in mapping type")?;
        let value = self.parse_type()?;
        if self.cur().is_ident() {
            self.bump();
        }
        let end = self.expect(TokKind::RParen, "`)` to close mapping type")?;
        Ok(TypeRef::Mapping { key: Box::new(key), value: Box::new(value), span: span_of(start.start, end.end) })
    }

    /// `{ stmt* }`, depth-guarded.
    fn parse_block(&mut self) -> (r: Result<(Vec<Stmt>, Range<usize>), FrontendDiag>)
        requires
            old(self).wf(),
        ensures
            !old(self).in_modifier ==> (r matches Ok((v, _)) ==> all_placeholders(v@) == 0),
            final(self).parsed(*old(self), r),
            old(self).depth + 1 <= MAX_NEST_DEPTH && old(self).in_modifier && old(self).placeholder_block_at(old(self).i as int) ==> (r matches Ok((v, sp)) && v@
                == seq![Stmt::Placeholder { span: old(self).span_from(old(self).i + 1, old(self).i + 2) }] && sp == old(self).toks@[old(
                self,
            ).i + 3].span && final(self).i == old(self).i + 4),
            old(self).depth + 1 <= MAX_NEST_DEPTH && old(self).toks_are(old(self).i as int, seq![TokKind::LBrace, TokKind::RBrace])
                ==> (r matches Ok((v, sp)) && v@.len() == 0 && sp == old(self).toks@[old(self).i + 1].span && final(self).i
                == old(self).i + 2),
        decreases MAX_NEST_DEPTH - old(self).depth, 0nat,
    {
        self.enter()?;
        let r = self.parse_block_inner();
        self.leave();
        r
    }

    /// The statements of a block up to its `}`; each `emit Name(args);` is consumed and
    /// dropped (FE481 for an argument that cannot be dropped).
    fn parse_block_inner(&mut self) -> (r: Result<(Vec<Stmt>, Range<usize>), FrontendDiag>)
        requires
            old(self).wf(),
        ensures
            !old(self).in_modifier ==> (r matches Ok((v, _)) ==> all_placeholders(v@) == 0),
            final(self).parsed(*old(self), r),
            old(self).in_modifier && old(self).placeholder_block_at(old(self).i as int) ==> (r matches Ok((v, sp)) && v@
                == seq![Stmt::Placeholder { span: old(self).span_from(old(self).i + 1, old(self).i + 2) }] && sp == old(self).toks@[old(
                self,
            ).i + 3].span && final(self).i == old(self).i + 4),
            old(self).toks_are(old(self).i as int, seq![TokKind::LBrace, TokKind::RBrace]) ==> (r matches Ok((v, sp))
                && v@.len() == 0 && sp == old(self).toks@[old(self).i + 1].span && final(self).i == old(self).i + 2),
            old(self).cur_kind() != TokKind::LBrace ==> (r matches Err(d) && d.code
                == codes::FE401_UNSUPPORTED_SOL),
        decreases MAX_NEST_DEPTH - old(self).depth, 3nat,
    {
        proof {
            lemma_one_stmt_placeholders();
        }
        let ghost o = *self;
        self.expect(TokKind::LBrace, "`{`")?;
        let mut stmts: Vec<Stmt> = Vec::new();
        while !self.at(&TokKind::RBrace) && !self.at(&TokKind::Eof)
            invariant
                old(self).cur_kind() == TokKind::LBrace,
                o.toks_are(o.i as int, seq![TokKind::LBrace, TokKind::RBrace]) ==> self.i == o.i + 1 && stmts@.len() == 0,
                self.wf(),
                self.frame(o),
                self.safemath_active == o.safemath_active,
                self.depth == o.depth,
                o == *old(self),
                o.in_modifier && o.placeholder_block_at(o.i as int) ==> (self.i == o.i + 1 && stmts@.len() == 0) || (self.i
                    == o.i + 3 && stmts@ == seq![Stmt::Placeholder { span: o.span_from(o.i + 1, o.i + 2) }]),
                o.i < self.i,
                !o.in_modifier ==> all_placeholders(stmts@) == 0,
            decreases self.toks@.len() - self.i,
        {
            let is_emit = self.at_ident("emit") && match self.peek_kind(1) {
                Some(TokKind::Ident(_)) => true,
                _ => false,
            };
            if is_emit {
                self.parse_emit_discard()?;
            } else {
                let s = self.parse_stmt()?;
                proof {
                    lemma_placeholders_push_one(stmts@, s);
                }
                stmts.push(s);
            }
        }
        let end = self.expect(TokKind::RBrace, "`}`")?;
        Ok((stmts, end))
    }

    /// Consumes and drops `emit Name(args);`; an argument that is not discard-safe rejects
    /// FE481 at its span.
    fn parse_emit_discard(&mut self) -> (r: Result<(), FrontendDiag>)
        requires
            old(self).wf(),
            ident_is(old(self).cur_kind(), "emit"@),
        ensures
            final(self).parsed(*old(self), r),
            old(self).kind_at(old(self).i + 1) is Ident && old(self).toks_are(
                old(self).i + 2,
                seq![TokKind::LParen, TokKind::RParen, TokKind::Semi],
            ) ==> r is Ok && final(self).i == old(self).i + 5,
    {
        let ghost o = *self;
        self.bump();
        self.expect_ident("event name")?;
        self.expect(TokKind::LParen, "`(`")?;
        let mut args: Vec<Expr> = Vec::new();
        if !self.at(&TokKind::RParen) {
            loop
                invariant
                    self.wf(),
                    self.frame(o),
                    self.safemath_active == o.safemath_active,
                    self.depth == o.depth,
                    !(o.kind_at(o.i + 1) is Ident && o.toks_are(o.i + 2, seq![TokKind::LParen, TokKind::RParen, TokKind::Semi])),
                    o == *old(self),
                    o.i < self.i,
                decreases self.toks@.len() - self.i,
            {
                let a = self.parse_expr()?;
                args.push(a);
                if self.at(&TokKind::Comma) {
                    self.bump();
                } else {
                    break;
                }
            }
        }
        self.expect(TokKind::RParen, "`)`")?;
        self.expect(TokKind::Semi, "`;`")?;
        let mut k: usize = 0;
        while k < args.len()
            invariant
                o.kind_at(o.i + 1) is Ident && o.toks_are(o.i + 2, seq![TokKind::LParen, TokKind::RParen, TokKind::Semi]) ==> args@.len() == 0 && self.i == o.i + 5,
                k <= args@.len(),
                self.wf(),
                self.frame(o),
                self.safemath_active == o.safemath_active,
                self.depth == o.depth,
                o == *old(self),
                o.i < self.i,
            decreases args@.len() - k,
        {
            if !emit_arg_discard_safe(&args[k]) {
                return Err(
                    FrontendDiag::new(
                        codes::FE481_EMIT_ARG_EFFECTFUL_SOL,
                        "an `emit` argument contains a call or trap-capable arithmetic; bind it to a local before the emit (the discarded event can't preserve its argument's revert/side-effect)",
                        args[k].span(),
                    ),
                );
            }
            k = k + 1;
        }
        Ok(())
    }

    /// Consumes a numeric literal spelling `want`, else rejects FE401.
    fn expect_num_lit(&mut self, want: &str, msg: &str) -> (r: Result<(), FrontendDiag>)
        requires
            old(self).wf(),
        ensures
            final(self).parsed(*old(self), r),
            r is Ok <==> (old(self).cur_kind() matches TokKind::Num(n) && n@ == want@),
            r matches Err(d) ==> d.code == codes::FE401_UNSUPPORTED_SOL,
    {
        let hit = match self.cur() {
            TokKind::Num(n) => string_eq_str(n, want),
            _ => false,
        };
        if hit {
            self.bump();
            Ok(())
        } else {
            Err(self.err(codes::FE401_UNSUPPORTED_SOL, msg))
        }
    }

    /// The airdrop loop increment on `idx`: `++i`, `i++`, `i += 1` or `i = i + 1`; anything
    /// else rejects FE401.
    fn parse_airdrop_inc(&mut self, idx: &str) -> (r: Result<(), FrontendDiag>)
        requires
            old(self).wf(),
        ensures
            final(self).parsed(*old(self), r),
            r matches Err(d) ==> d.code == codes::FE401_UNSUPPORTED_SOL,
            old(self).toks_are(old(self).i as int, seq![TokKind::Plus, TokKind::Plus]) && ident_is(
                old(self).kind_at(old(self).i + 2),
                idx@,
            ) ==> r is Ok && final(self).i == old(self).i + 3,
    {
        if self.at(&TokKind::Plus) {
            self.bump();
            self.expect(TokKind::Plus, "`++` (pre-increment)")?;
            let (v, _) = self.expect_ident("the loop counter after `++`")?;
            if !string_eq_str(&v, idx) {
                return Err(
                    self.err(
                        codes::FE401_UNSUPPORTED_SOL,
                        "the loop increment must step the loop counter",
                    ),
                );
            }
            return Ok(());
        }
        let (v, _) = self.expect_ident("the loop counter in the increment")?;
        if !string_eq_str(&v, idx) {
            return Err(
                self.err(codes::FE401_UNSUPPORTED_SOL, "the loop increment must step the loop counter"),
            );
        }
        if self.at(&TokKind::Plus) {
            self.bump();
            self.expect(TokKind::Plus, "`++` (post-increment)")?;
            Ok(())
        } else if self.at(&TokKind::PlusEq) {
            self.bump();
            self.expect_num_lit("1", "the airdrop loop must step by `+= 1`")
        } else if self.at(&TokKind::Assign) {
            self.bump();
            let (v2, _) = self.expect_ident("`<i>` in `<i> = <i> + 1`")?;
            if !string_eq_str(&v2, idx) {
                return Err(
                    self.err(
                        codes::FE401_UNSUPPORTED_SOL,
                        "the loop increment must step the loop counter",
                    ),
                );
            }
            self.expect(TokKind::Plus, "`+` in `<i> = <i> + 1`")?;
            self.expect_num_lit("1", "the airdrop loop must step by `+ 1`")
        } else {
            Err(
                self.err(
                    codes::FE401_UNSUPPORTED_SOL,
                    "unrecognized loop increment (use `i++` / `++i` / `i += 1` / `i = i + 1`)",
                ),
            )
        }
    }

    /// The one rigid airdrop loop:
    /// `for (uint|uint256 i [= 0]; i < arr.length; <inc>) { body }`; any deviation rejects FE401.
    fn parse_airdrop_for(&mut self) -> (r: Result<Stmt, FrontendDiag>)
        requires
            old(self).wf(),
            ident_is(old(self).cur_kind(), "for"@),
        ensures
            !old(self).in_modifier ==> (r matches Ok(x) ==> all_placeholders(seq![x]) == 0),
            final(self).parsed(*old(self), r),
            r matches Ok(s) ==> s is AirdropLoop,
            old(self).depth + 1 <= MAX_NEST_DEPTH && old(self).empty_airdrop_at(old(self).i as int) ==> (r matches Ok(
                Stmt::AirdropLoop { idx, len_array, body, span },
            ) && old(self).kind_at(old(self).i + 3) == TokKind::Ident(idx) && old(self).kind_at(old(self).i + 7)
                == TokKind::Ident(len_array) && body@.len() == 0 && span == old(self).span_from(old(self).i as int, old(self).i + 16)
                && final(self).i == old(self).i + 17),
        decreases MAX_NEST_DEPTH - old(self).depth, 1nat,
    {
        proof {
            lemma_one_stmt_placeholders();
        }
        let start = self.bump();
        self.expect(TokKind::LParen, "`(` after `for` (only the airdrop loop shape is supported)")?;
        let (tyname, _) = self.expect_ident("`uint`/`uint256` loop-counter type")?;
        if !string_eq_str(&tyname, "uint") && !string_eq_str(&tyname, "uint256") {
            return Err(
                self.err(
                    codes::FE401_UNSUPPORTED_SOL,
                    "the airdrop loop counter must be declared `uint`/`uint256`",
                ),
            );
        }
        let (idx, _) = self.expect_ident("the loop-counter name")?;
        if self.at(&TokKind::Assign) {
            self.bump();
            self.expect_num_lit("0", "the loop must initialize the counter to 0")?;
        }
        self.expect(TokKind::Semi, "`;` after the loop init")?;
        let (ci, _) = self.expect_ident("the loop counter in the condition")?;
        if !string_eq_str(&ci, idx.as_str()) {
            return Err(
                self.err(codes::FE401_UNSUPPORTED_SOL, "the loop condition must test the loop counter"),
            );
        }
        self.expect(TokKind::Lt, "`<` in the loop condition (`<i> < <arr>.length`)")?;
        let (len_array, _) = self.expect_ident("the array in `<arr>.length`")?;
        self.expect(TokKind::Dot, "`.` in `<arr>.length`")?;
        let (lenword, _) = self.expect_ident("`length`")?;
        if !string_eq_str(&lenword, "length") {
            return Err(
                self.err(codes::FE401_UNSUPPORTED_SOL, "the loop bound must be `<arr>.length`"),
            );
        }
        self.expect(TokKind::Semi, "`;` after the loop condition")?;
        self.parse_airdrop_inc(idx.as_str())?;
        self.expect(TokKind::RParen, "`)` to close the `for` header")?;
        let (body, end) = self.parse_block()?;
        Ok(Stmt::AirdropLoop { idx, len_array, body, span: span_of(start.start, end.end) })
    }

    /// One statement.
    fn parse_stmt(&mut self) -> (r: Result<Stmt, FrontendDiag>)
        requires
            old(self).wf(),
        ensures
            !old(self).in_modifier ==> (r matches Ok(x) ==> all_placeholders(seq![x]) == 0),
            final(self).parsed(*old(self), r),
            old(self).in_modifier && ident_is(old(self).cur_kind(), "_"@) && old(self).toks_are(
                old(self).i + 1,
                seq![TokKind::Semi],
            ) ==> r == Ok::<Stmt, FrontendDiag>(Stmt::Placeholder { span: old(self).span_from(old(self).i as int, old(self).i + 1) })
                && final(self).i == old(self).i + 2,
            old(self).cur_kind() == TokKind::Assembly ==> (r matches Err(d) && d.code
                == codes::FE478_INLINE_ASSEMBLY_SOL),
        decreases MAX_NEST_DEPTH - old(self).depth, 2nat,
    {
        proof {
            lemma_one_stmt_placeholders();
        }
        let placeholder = self.in_modifier && self.at_ident("_") && match self.peek_kind(1) {
            Some(TokKind::Semi) => true,
            _ => false,
        };
        if placeholder {
            let s = self.bump();
            let semi = self.bump();
            return Ok(Stmt::Placeholder { span: span_of(s.start, semi.end) });
        }
        if self.at_ident("for") {
            return self.parse_airdrop_for();
        }
        if self.at(&TokKind::Require) {
            self.parse_require()
        } else if self.at(&TokKind::Assert) {
            self.parse_assert()
        } else if self.at(&TokKind::Revert) {
            self.parse_revert()
        } else if self.at(&TokKind::Return) {
            self.parse_return()
        } else if self.at(&TokKind::If) {
            self.parse_if()
        } else if self.at(&TokKind::Unchecked) {
            let s = self.bump();
            let (body, end) = self.parse_block()?;
            Ok(Stmt::Unchecked { body, span: span_of(s.start, end.end) })
        } else if self.at(&TokKind::Assembly) {
            Err(
                self.err(
                    codes::FE478_INLINE_ASSEMBLY_SOL,
                    "inline `assembly` (YUL) is unsupported (a low-level sub-language that is not translated)",
                ),
            )
        } else if self.cur().is_ident() {
            self.parse_assign_or_local()
        } else {
            Err(self.err(codes::FE401_UNSUPPORTED_SOL, "unsupported statement"))
        }
    }

    /// `require(cond [, "reason"]);` — the reason is dropped; a non-literal reason rejects FE414.
    fn parse_require(&mut self) -> (r: Result<Stmt, FrontendDiag>)
        requires
            old(self).wf(),
            old(self).cur_kind() == TokKind::Require,
        ensures
            r matches Ok(x) ==> leaf_stmt(x),
            final(self).parsed(*old(self), r),
            old(self).depth + 2 <= MAX_NEST_DEPTH && old(self).toks_are(old(self).i + 1, seq![TokKind::LParen])
                && old(self).simple_at(old(self).i + 2) && old(self).toks_are(old(self).i + 3, seq![TokKind::RParen, TokKind::Semi])
                ==> (r matches Ok(Stmt::Require { cond, span }) && old(self).atom_at(old(self).i + 2, cond) && span
                == old(self).span_from(old(self).i as int, old(self).i + 4) && final(self).i == old(self).i + 5),
            r matches Ok(s) ==> s is Require,
    {
        let start = self.bump();
        self.expect(TokKind::LParen, "`(`")?;
        let cond = self.parse_expr()?;
        if self.at(&TokKind::Comma) {
            self.bump();
            if self.cur().is_str() {
                self.bump();
            } else {
                return Err(
                    self.err(
                        codes::FE414_BAD_GUARD,
                        "require's reason argument must be a string literal (it is dropped)",
                    ),
                );
            }
        }
        self.expect(TokKind::RParen, "`)`")?;
        let end = self.expect(TokKind::Semi, "`;`")?;
        Ok(Stmt::Require { cond, span: span_of(start.start, end.end) })
    }

    /// `assert(cond);`
    fn parse_assert(&mut self) -> (r: Result<Stmt, FrontendDiag>)
        requires
            old(self).wf(),
            old(self).cur_kind() == TokKind::Assert,
        ensures
            r matches Ok(x) ==> leaf_stmt(x),
            final(self).parsed(*old(self), r),
            old(self).depth + 2 <= MAX_NEST_DEPTH && old(self).toks_are(old(self).i + 1, seq![TokKind::LParen])
                && old(self).simple_at(old(self).i + 2) && old(self).toks_are(old(self).i + 3, seq![TokKind::RParen, TokKind::Semi])
                ==> (r matches Ok(Stmt::Assert { cond, span }) && old(self).atom_at(old(self).i + 2, cond) && span
                == old(self).span_from(old(self).i as int, old(self).i + 4) && final(self).i == old(self).i + 5),
            r matches Ok(s) ==> s is Assert,
    {
        let start = self.bump();
        self.expect(TokKind::LParen, "`(`")?;
        let cond = self.parse_expr()?;
        self.expect(TokKind::RParen, "`)`")?;
        let end = self.expect(TokKind::Semi, "`;`")?;
        Ok(Stmt::Assert { cond, span: span_of(start.start, end.end) })
    }

    /// `revert;`, `revert(…);` or `revert Custom(…);` — an unconditional abort; the `;` is
    /// required.
    fn parse_revert(&mut self) -> (r: Result<Stmt, FrontendDiag>)
        requires
            old(self).wf(),
            old(self).cur_kind() == TokKind::Revert,
        ensures
            r matches Ok(x) ==> leaf_stmt(x),
            final(self).parsed(*old(self), r),
            old(self).toks_are(old(self).i + 1, seq![TokKind::Semi]) ==> r == Ok::<Stmt, FrontendDiag>(
                Stmt::Revert { span: old(self).span_from(old(self).i as int, old(self).i + 1) },
            ) && final(self).i == old(self).i + 2,
            old(self).toks_are(old(self).i + 1, seq![TokKind::LParen, TokKind::RParen, TokKind::Semi]) ==> r == Ok::<
                Stmt,
                FrontendDiag,
            >(Stmt::Revert { span: old(self).span_from(old(self).i as int, old(self).i + 3) }) && final(self).i == old(self).i + 4,
            r matches Ok(s) ==> s is Revert,
    {
        let start = self.bump();
        if self.cur().is_ident() {
            self.bump();
        }
        if self.at(&TokKind::LParen) {
            self.skip_balanced_parens()?;
        }
        let end = self.expect(TokKind::Semi, "`;`")?;
        Ok(Stmt::Revert { span: span_of(start.start, end.end) })
    }

    /// Consumes a balanced `( … )` group; reaching `Eof` first rejects FE414.
    fn skip_balanced_parens(&mut self) -> (r: Result<(), FrontendDiag>)
        requires
            old(self).wf(),
        ensures
            final(self).parsed(*old(self), r),
            old(self).toks_are(old(self).i as int, seq![TokKind::LParen, TokKind::RParen]) ==> r is Ok && final(self).i
                == old(self).i + 2,
            old(self).cur_kind() != TokKind::LParen ==> (r matches Err(d) && d.code
                == codes::FE401_UNSUPPORTED_SOL),
            r matches Err(d) ==> d.code == codes::FE401_UNSUPPORTED_SOL || d.code
                == codes::FE414_BAD_GUARD,
    {
        let ghost o = *self;
        let _n = self.toks.len();
        self.expect(TokKind::LParen, "`(`")?;
        let mut depth: usize = 1;
        loop
            invariant
                self.wf(),
                self.frame(o),
                self.safemath_active == o.safemath_active,
                self.depth == o.depth,
                o == *old(self),
                o.i < self.i,
                1 <= depth <= self.i - o.i,
                o.toks_are(o.i as int, seq![TokKind::LParen, TokKind::RParen]) ==> self.i == o.i + 1 && depth == 1,
                old(self).cur_kind() == TokKind::LParen,
                self.toks@.len() <= usize::MAX,
            decreases self.toks@.len() - self.i,
        {
            if self.at(&TokKind::LParen) {
                depth = depth + 1;
                self.bump();
            } else if self.at(&TokKind::RParen) {
                depth = depth - 1;
                self.bump();
                if depth == 0 {
                    return Ok(());
                }
            } else if self.at(&TokKind::Eof) {
                return Err(self.err(codes::FE414_BAD_GUARD, "unterminated revert argument list"));
            } else {
                self.bump();
            }
        }
    }

    /// Consumes and drops a custom `error Name(params);` declaration.
    fn parse_error_discard(&mut self) -> (r: Result<(), FrontendDiag>)
        requires
            old(self).wf(),
            ident_is(old(self).cur_kind(), "error"@),
        ensures
            final(self).parsed(*old(self), r),
            old(self).kind_at(old(self).i + 1) is Ident && old(self).toks_are(
                old(self).i + 2,
                seq![TokKind::LParen, TokKind::RParen, TokKind::Semi],
            ) ==> r is Ok && final(self).i == old(self).i + 5,
            r is Ok ==> final(self).i > 0 && final(self).kind_at(final(self).i - 1) == TokKind::Semi,
    {
        self.bump();
        self.expect_ident("error name")?;
        self.skip_balanced_parens()?;
        self.expect(TokKind::Semi, "`;` to end the `error` declaration")?;
        Ok(())
    }

    /// `return [expr];`
    fn parse_return(&mut self) -> (r: Result<Stmt, FrontendDiag>)
        requires
            old(self).wf(),
            old(self).cur_kind() == TokKind::Return,
        ensures
            r matches Ok(x) ==> leaf_stmt(x),
            final(self).parsed(*old(self), r),
            old(self).toks_are(old(self).i + 1, seq![TokKind::Semi]) ==> r == Ok::<Stmt, FrontendDiag>(
                Stmt::Return { value: None, span: old(self).span_from(old(self).i as int, old(self).i + 1) },
            ) && final(self).i == old(self).i + 2,
            old(self).depth + 2 <= MAX_NEST_DEPTH && old(self).simple_at(old(self).i + 1) && old(self).toks_are(
                old(self).i + 2,
                seq![TokKind::Semi],
            ) ==> (r matches Ok(Stmt::Return { value: Some(v), span }) && old(self).atom_at(old(self).i + 1, v) && span
                == old(self).span_from(old(self).i as int, old(self).i + 2) && final(self).i == old(self).i + 3),
            r matches Ok(s) ==> s is Return,
    {
        let start = self.bump();
        let value = if self.at(&TokKind::Semi) {
            None
        } else {
            Some(self.parse_expr()?)
        };
        let end = self.expect(TokKind::Semi, "`;`")?;
        Ok(Stmt::Return { value, span: span_of(start.start, end.end) })
    }

    /// `if (cond) block [else (if … | block)]`, depth-guarded (an `else if` chain recurses here).
    fn parse_if(&mut self) -> (r: Result<Stmt, FrontendDiag>)
        requires
            old(self).wf(),
            old(self).cur_kind() == TokKind::If,
        ensures
            !old(self).in_modifier ==> (r matches Ok(x) ==> all_placeholders(seq![x]) == 0),
            final(self).parsed(*old(self), r),
            old(self).depth + 3 <= MAX_NEST_DEPTH && old(self).toks_are(old(self).i + 1, seq![TokKind::LParen])
                && old(self).simple_at(old(self).i + 2) && old(self).toks_are(
                old(self).i + 3,
                seq![TokKind::RParen, TokKind::LBrace, TokKind::RBrace],
            ) && old(self).kind_at(old(self).i + 6) != TokKind::Else ==> (r matches Ok(
                Stmt::If { cond, then_body, else_body, span },
            ) && old(self).atom_at(old(self).i + 2, cond) && then_body@.len() == 0 && else_body@.len() == 0 && span
                == old(self).span_from(old(self).i as int, old(self).i + 5) && final(self).i == old(self).i + 6),
            r matches Ok(s) ==> s is If,
        decreases MAX_NEST_DEPTH - old(self).depth, 0nat,
    {
        self.enter()?;
        let r = self.parse_if_inner();
        self.leave();
        r
    }

    fn parse_if_inner(&mut self) -> (r: Result<Stmt, FrontendDiag>)
        requires
            old(self).wf(),
            old(self).cur_kind() == TokKind::If,
        ensures
            !old(self).in_modifier ==> (r matches Ok(x) ==> all_placeholders(seq![x]) == 0),
            final(self).parsed(*old(self), r),
            old(self).depth + 2 <= MAX_NEST_DEPTH && old(self).toks_are(old(self).i + 1, seq![TokKind::LParen])
                && old(self).simple_at(old(self).i + 2) && old(self).toks_are(
                old(self).i + 3,
                seq![TokKind::RParen, TokKind::LBrace, TokKind::RBrace],
            ) && old(self).kind_at(old(self).i + 6) != TokKind::Else ==> (r matches Ok(
                Stmt::If { cond, then_body, else_body, span },
            ) && old(self).atom_at(old(self).i + 2, cond) && then_body@.len() == 0 && else_body@.len() == 0 && span
                == old(self).span_from(old(self).i as int, old(self).i + 5) && final(self).i == old(self).i + 6),
            r matches Ok(s) ==> s is If,
        decreases MAX_NEST_DEPTH - old(self).depth, 1nat,
    {
        proof {
            lemma_one_stmt_placeholders();
        }
        let start = self.bump();
        self.expect(TokKind::LParen, "`(`")?;
        let cond = self.parse_expr()?;
        self.expect(TokKind::RParen, "`)`")?;
        let (then_body, end0) = self.parse_block()?;
        let mut end = end0;
        let else_body = if self.at(&TokKind::Else) {
            self.bump();
            if self.at(&TokKind::If) {
                let nested = self.parse_if()?;
                end = nested_span_end(&nested);
                let mut v: Vec<Stmt> = Vec::new();
                v.push(nested);
                v
            } else {
                let (eb, e) = self.parse_block()?;
                end = e;
                eb
            }
        } else {
            Vec::new()
        };
        Ok(Stmt::If { cond, then_body, else_body, span: span_of(start.start, end.end) })
    }

    /// `T name = e;` (two identifiers ahead), a bare call statement `f(args);`, or an
    /// assignment `lvalue op= e;` to a variable, `m[k]`, `m[k1][k2]` or `obj.field`.
    fn parse_assign_or_local(&mut self) -> (r: Result<Stmt, FrontendDiag>)
        requires
            old(self).wf(),
        ensures
            r matches Ok(x) ==> leaf_stmt(x),
            final(self).parsed(*old(self), r),
            old(self).depth + 2 <= MAX_NEST_DEPTH && old(self).simple_at(old(self).i as int) && old(self).kind_at(
                old(self).i as int,
            ) is Ident && old(self).toks_are(old(self).i + 1, seq![TokKind::Assign]) && old(self).simple_at(old(self).i + 2)
                && old(self).toks_are(old(self).i + 3, seq![TokKind::Semi]) ==> (r matches Ok(
                Stmt::Assign { target, op, value, span },
            ) && old(self).kind_at(old(self).i as int) == TokKind::Ident(target) && op == AssignOp::Eq && old(self).atom_at(
                old(self).i + 2,
                value,
            ) && span == old(self).span_from(old(self).i as int, old(self).i + 3) && final(self).i == old(self).i + 4),
    {
        let next_is_ident = match self.peek_kind(1) {
            Some(TokKind::Ident(_)) => true,
            _ => false,
        };
        if next_is_ident {
            let ty = self.parse_type()?;
            let (name, _) = self.expect_ident("local variable name")?;
            self.expect(TokKind::Assign, "`=`")?;
            let value = self.parse_expr()?;
            let end = self.expect(TokKind::Semi, "`;`")?;
            let start = ty.span().start;
            return Ok(Stmt::LocalVar { span: span_of(start, end.end), name, ty, value });
        }
        let lhs = self.parse_expr()?;
        let is_call_stmt = self.at(&TokKind::Semi) && match &lhs {
            Expr::Call(c, _, _) => match &**c {
                Expr::Var(_, _) => true,
                _ => false,
            },
            _ => false,
        };
        if is_call_stmt {
            let end = self.expect(TokKind::Semi, "`;`")?;
            return match lhs {
                Expr::Call(c, args, cspan) => match *c {
                    Expr::Var(name, _) => Ok(
                        Stmt::CallStmt { callee: name, args, span: span_of(cspan.start, end.end) },
                    ),
                    _ => Err(self.err(codes::FE401_UNSUPPORTED_SOL, "invalid call statement")),
                },
                _ => Err(self.err(codes::FE401_UNSUPPORTED_SOL, "invalid call statement")),
            };
        }
        let op = match assign_op(self.cur()) {
            Some(op) => op,
            None => {
                return Err(self.err(codes::FE401_UNSUPPORTED_SOL, "expected an assignment operator"));
            },
        };
        self.bump();
        let value = self.parse_expr()?;
        let end = self.expect(TokKind::Semi, "`;`")?;
        classify_assignment(lhs, op, value, end.end)
    }
}


/// Whether a character has the Unicode `White_Space` property (the code points that the
/// Unicode Character Database lists under `White_Space` in `PropList.txt`).
pub open spec fn unicode_ws(c: char) -> bool {
    let u = c as u32;
    ||| 0x09 <= u <= 0x0D
    ||| u == 0x20
    ||| u == 0x85
    ||| u == 0xA0
    ||| u == 0x1680
    ||| 0x2000 <= u <= 0x200A
    ||| u == 0x2028
    ||| u == 0x2029
    ||| u == 0x202F
    ||| u == 0x205F
    ||| u == 0x3000
}

/// The characters of a string slice without its leading Unicode white space.
pub open spec fn trimmed_start(s: Seq<char>) -> Seq<char>
    decreases s.len(),
{
    if s.len() > 0 && unicode_ws(s[0]) {
        trimmed_start(s.drop_first())
    } else {
        s
    }
}

/// The characters of a string slice without its trailing Unicode white space.
pub open spec fn trimmed_end(s: Seq<char>) -> Seq<char>
    decreases s.len(),
{
    if s.len() > 0 && unicode_ws(s.last()) {
        trimmed_end(s.drop_last())
    } else {
        s
    }
}

/// std `str::trim_start`: the slice without its leading white space, white space being the
/// Unicode `White_Space` property.
#[verifier::external_body]
pub(crate) fn str_trim_start(s: &str) -> (r: &str)
    ensures
        r@ == trimmed_start(s@),
{
    s.trim_start()
}

/// std `char::is_whitespace`: whether the character has the Unicode `White_Space` property.
#[verifier::external_body]
pub(crate) fn char_is_whitespace(c: char) -> (r: bool)
    ensures
        r == unicode_ws(c),
{
    c.is_whitespace()
}

/// A `pragma solidity …` body: after leading white space, the word `solidity` alone or
/// followed by white space.
pub open spec fn solidity_pragma(body: Seq<char>) -> bool {
    let t = trimmed_start(body);
    t == "solidity"@ || (t.len() > 8 && t.take(8) == "solidity"@ && unicode_ws(t[8]))
}

/// Whether a pragma body is a `solidity` version pragma (`solidity8.0` is not).
fn is_solidity_pragma(body: &str) -> (r: bool)
    ensures
        r == solidity_pragma(body@),
{
    let t = str_trim_start(body);
    proof {
        reveal_strlit("solidity");
    }
    if str_eq(t, "solidity") {
        return true;
    }
    let n = t.unicode_len();
    if n <= 8 {
        return false;
    }
    let mut k: usize = 0;
    let word = "solidity";
    assert(word@.len() == 8);
    while k < 8
        invariant
            k <= 8,
            t@ == trimmed_start(body@),
            t@ != "solidity"@,
            n == t@.len(),
            n > 8,
            word@ == "solidity"@,
            word@.len() == 8,
            forall|j: int| 0 <= j < k ==> t@[j] == word@[j],
        decreases 8 - k,
    {
        if t.get_char(k) != word.get_char(k) {
            return false;
        }
        k = k + 1;
    }
    assert(t@.take(8) =~= "solidity"@);
    char_is_whitespace(t.get_char(8))
}

/// Most top-level contract declarations in one file.
pub const MAX_CONTRACTS: usize = 64;

/// Most entries in one inheritance list.
pub const MAX_BASES: usize = 32;

/// The totality bounds and shape facts of a parsed contract.
pub open spec fn contract_bounded(c: Contract) -> bool {
    &&& c.bases@.len() <= MAX_BASES
    &&& c.functions@.len() <= MAX_FUNCTIONS
    &&& c.modifiers@.len() <= MAX_FUNCTIONS
    &&& c.structs@.len() <= MAX_FUNCTIONS
    &&& c.enums@.len() <= MAX_FUNCTIONS
    &&& forall|k: int| 0 <= k < c.functions@.len() ==> (#[trigger] c.functions@[k]).modifiers@.len()
        <= MAX_MODIFIERS_PER_FN
    &&& forall|k: int| 0 <= k < c.functions@.len() ==> all_placeholders((#[trigger] c.functions@[k]).body@) == 0
    &&& c.constructor matches Some(ct) ==> all_placeholders(ct.body@) == 0
    &&& forall|k: int| 0 <= k < c.modifiers@.len() ==> all_placeholders(
        (#[trigger] c.modifiers@[k]).body@,
    ) == 1
    &&& forall|k: int| 0 <= k < c.enums@.len() ==> (#[trigger] c.enums@[k]).members@.len() <= 256
    &&& forall|k: int| 0 <= k < c.structs@.len() ==> (#[trigger] c.structs@[k]).fields@.len()
        <= MAX_FUNCTIONS
    &&& (c.kind == ContractKind::Interface || c.kind == ContractKind::Library) ==> (
    c.functions@.len() == 0 && c.modifiers@.len() == 0 && c.structs@.len() == 0 && c.enums@.len()
        == 0 && c.state@.len() == 0 && c.constructor is None)
}

/// The totality bounds of a parsed file: at most `MAX_CONTRACTS` contracts, each bounded, and
/// a kept pragma is a `solidity` one.
pub open spec fn file_bounded(f: ParsedFile) -> bool {
    &&& f.contracts@.len() <= MAX_CONTRACTS
    &&& forall|k: int| 0 <= k < f.contracts@.len() ==> contract_bounded(#[trigger] f.contracts@[k])
    &&& f.pragma matches Some(p) ==> solidity_pragma(p.0@)
}

/// Parses an `Eof`-terminated token stream into the file's pragma, contract declarations
/// and import paths; the first construct outside the grammar rejects with one diagnostic.
pub fn parse(toks: Vec<Tok>, _src_len: usize) -> (r: Result<ParsedFile, FrontendDiag>)
    requires
        eof_terminated(toks@),
    ensures
        r matches Ok(f) ==> file_bounded(f),
        r matches Ok(f) ==> (toks@.len() >= 2 && toks@[toks@.len() - 2].kind == TokKind::RBrace && (forall|k: int|
            0 <= k < toks@.len() - 1 ==> (#[trigger] toks@[k]).kind != TokKind::Eof) ==> f.contracts@.len() > 0
            && f.contracts@.last().span.end == toks@[toks@.len() - 2].span.end),
        r matches Ok(f) ==> (toks@[0].kind == TokKind::Contract ==> f.contracts@.len() > 0 && f.contracts@[0].span.start
            == toks@[0].span.start),
        toks@.len() == 1 ==> (r matches Ok(f) && f.pragma is None && f.contracts@.len() == 0 && f.imports@.len() == 0),
        toks@.len() == 5 && toks@[0].kind == TokKind::Contract && toks@[1].kind is Ident && toks@[2].kind == TokKind::LBrace
            && toks@[3].kind == TokKind::RBrace ==> (r matches Ok(f) && f.pragma is None && f.imports@.len() == 0
            && f.contracts@.len() == 1 && toks@[1].kind == TokKind::Ident(f.contracts@[0].name) && f.contracts@[0].kind
            == ContractKind::Concrete && f.contracts@[0].functions@.len() == 0),
{
    let mut p = Parser { toks, i: 0, depth: 0, in_modifier: false, safemath_active: false };
    let ghost t = p.toks@;
    let r = p.parse_program();
    proof {
        if r is Ok && t.len() >= 2 && (forall|k: int| 0 <= k < t.len() - 1 ==> (#[trigger] t[k]).kind != TokKind::Eof) {
            assert(p.toks@ == t);
            assert(t[p.i as int].kind == TokKind::Eof);
            assert(p.i == t.len() - 1);
        }
    }
    r
}

impl Parser {
    /// The whole file: pragmas (the last `solidity` one is kept), imports, `using`
    /// directives, custom error declarations and contract declarations, up to `Eof`.
    fn parse_program(&mut self) -> (r: Result<ParsedFile, FrontendDiag>)
        requires
            old(self).wf(),
            !old(self).in_modifier,
        ensures
            r matches Ok(f) ==> file_bounded(f),
            r matches Ok(f) ==> final(self).toks@ == old(self).toks@ && final(self).wf() && final(self).cur_kind() == TokKind::Eof && (final(self).i > old(self).i && final(self).kind_at(
                final(self).i - 1,
            ) == TokKind::RBrace ==> f.contracts@.len() > 0 && f.contracts@.last().span.end == final(self).toks@[final(self).i
                - 1].span.end),
            r matches Ok(f) ==> (old(self).cur_kind() == TokKind::Contract ==> f.contracts@.len() > 0
                && f.contracts@[0].span.start == old(self).toks@[old(self).i as int].span.start),
            old(self).cur_kind() == TokKind::Eof ==> (r matches Ok(f) && f.pragma is None && f.contracts@.len() == 0
                && f.imports@.len() == 0),
            old(self).one_empty_contract_at(old(self).i as int) ==> (r matches Ok(f) && f.pragma is None && f.imports@.len()
                == 0 && f.contracts@.len() == 1 && old(self).kind_at(old(self).i + 1) == TokKind::Ident(f.contracts@[0].name)
                && f.contracts@[0].kind == ContractKind::Concrete && f.contracts@[0].functions@.len() == 0),
    {
        let mut pragma: Option<(String, Range<usize>)> = None;
        let mut contracts: Vec<Contract> = Vec::new();
        let mut imports: Vec<(String, Range<usize>)> = Vec::new();
        loop
            invariant
                self.wf(),
                !self.in_modifier,
                self.depth == old(self).depth,
                contracts@.len() <= MAX_CONTRACTS,
                self.toks@ == old(self).toks@,
                old(self).i <= self.i,
                old(self).cur_kind() == TokKind::Eof ==> self.i == old(self).i && pragma is None && contracts@.len() == 0
                    && imports@.len() == 0,
                old(self).one_empty_contract_at(old(self).i as int) ==> pragma is None && imports@.len() == 0 && ((self.i
                    == old(self).i && contracts@.len() == 0) || (self.i == old(self).i + 4 && contracts@.len() == 1
                    && old(self).kind_at(old(self).i + 1) == TokKind::Ident(contracts@[0].name) && contracts@[0].kind
                    == ContractKind::Concrete && contracts@[0].functions@.len() == 0)),
                forall|k: int| 0 <= k < contracts@.len() ==> contract_bounded(#[trigger] contracts@[k]),
                pragma matches Some(p) ==> solidity_pragma(p.0@),
                self.i > old(self).i && self.kind_at(self.i - 1) == TokKind::RBrace ==> contracts@.len() > 0
                    && contracts@.last().span.end == self.toks@[self.i - 1].span.end,
                self.i == old(self).i ==> contracts@.len() == 0,
                old(self).cur_kind() == TokKind::Contract && self.i > old(self).i ==> contracts@.len() > 0
                    && contracts@[0].span.start == self.toks@[old(self).i as int].span.start,
            ensures
                self.cur_kind() == TokKind::Eof,
            decreases self.toks@.len() - self.i,
        {
            if self.at(&TokKind::Eof) {
                break;
            }
            let pragma_body = match self.cur() {
                TokKind::Pragma(body) => Some(body.clone()),
                _ => None,
            };
            match pragma_body {
                Some(body) => {
                    let s = self.bump();
                    if is_solidity_pragma(body.as_str()) {
                        pragma = Some((body, s));
                    }
                },
                None => {
                    if self.at_ident("import") {
                        match self.parse_import()? {
                            Some(imp) => imports.push(imp),
                            None => {},
                        }
                    } else if self.at_ident("using") {
                        self.parse_using()?;
                    } else if self.at_ident("error") {
                        self.parse_error_discard()?;
                    } else {
                        if contracts.len() >= MAX_CONTRACTS {
                            return Err(
                                self.err(
                                    codes::FE402_TOO_LARGE_SOL,
                                    "too many top-level contracts (max 64)",
                                ),
                            );
                        }
                        let c = self.parse_contract()?;
                        contracts.push(c);
                    }
                },
            }
        }
        Ok(ParsedFile { pragma, contracts, imports })
    }

    /// `using SafeMath for uint256|uint;` sets the SafeMath mode; any other `using X for Y;`
    /// rejects FE477.
    fn parse_using(&mut self) -> (r: Result<(), FrontendDiag>)
        requires
            old(self).wf(),
            ident_is(old(self).cur_kind(), "using"@),
        ensures
            final(self).safemath_active == (old(self).safemath_active || r is Ok),
            r is Ok ==> final(self).ok_after(*old(self)),
            r is Err ==> final(self).err_after(*old(self)),
            ident_is(old(self).kind_at(old(self).i + 1), "SafeMath"@) && ident_is(old(self).kind_at(old(self).i + 2), "for"@)
                && (ident_is(old(self).kind_at(old(self).i + 3), "uint256"@) || ident_is(
                old(self).kind_at(old(self).i + 3),
                "uint"@,
            )) && old(self).toks_are(old(self).i + 4, seq![TokKind::Semi]) ==> r is Ok && final(self).i == old(self).i + 5,
            r is Ok ==> final(self).i > 0 && final(self).kind_at(final(self).i - 1) == TokKind::Semi,
    {
        self.bump();
        let (lib, _) = self.expect_ident("a library name after `using`")?;
        if !self.at_ident("for") {
            return Err(self.err(codes::FE477_USING_FOR_SOL, "`using X for Y;` is unsupported"));
        }
        self.bump();
        let (ty, _) = self.expect_ident("a target type after `for`")?;
        self.expect(TokKind::Semi, "`;` to end the `using` directive")?;
        if string_eq_str(&lib, "SafeMath") && (string_eq_str(&ty, "uint256") || string_eq_str(
            &ty,
            "uint",
        )) {
            self.safemath_active = true;
            Ok(())
        } else {
            Err(
                self.err(
                    codes::FE477_USING_FOR_SOL,
                    "`using X for Y;` is unsupported (only `using SafeMath for uint256` is recognized)",
                ),
            )
        }
    }

    /// A top-level `import … ;`: the path of its one string literal (`None` for none); a `*`
    /// or `as` (a namespaced or aliased import) or a second literal rejects FE476.
    fn parse_import(&mut self) -> (r: Result<Option<(String, Range<usize>)>, FrontendDiag>)
        requires
            old(self).wf(),
            ident_is(old(self).cur_kind(), "import"@),
        ensures
            final(self).parsed(*old(self), r),
            old(self).kind_at(old(self).i + 1) is Str && old(self).toks_are(old(self).i + 2, seq![TokKind::Semi]) ==> (r
                matches Ok(Some((t, sp))) && old(self).kind_at(old(self).i + 1) == TokKind::Str(t) && sp == old(self).toks@[old(self).i
                + 1].span && final(self).i == old(self).i + 3),
            r is Ok ==> final(self).i > 0 && final(self).kind_at(final(self).i - 1) == TokKind::Semi,
    {
        let ghost o = *self;
        self.bump();
        let mut path: Option<(String, Range<usize>)> = None;
        loop
            invariant
                self.wf(),
                self.frame(o),
                self.safemath_active == o.safemath_active,
                self.depth == o.depth,
                o == *old(self),
                o.kind_at(o.i + 1) is Str && o.toks_are(o.i + 2, seq![TokKind::Semi]) ==> (self.i == o.i + 1 && path is None)
                    || (self.i == o.i + 2 && (path matches Some((t, sp)) && o.kind_at(o.i + 1) == TokKind::Str(t) && sp == o.toks@[o.i
                    + 1].span)),
                o.i < self.i,
            decreases self.toks@.len() - self.i,
        {
            if self.at(&TokKind::Semi) {
                self.bump();
                return Ok(path);
            } else if self.at(&TokKind::Eof) {
                return Err(
                    self.err(codes::FE401_UNSUPPORTED_SOL, "unterminated `import` (missing `;`)"),
                );
            } else if self.at(&TokKind::Star) {
                return Err(
                    self.err(
                        codes::FE476_IMPORT_OR_BASE_SOL,
                        "a namespaced import (`import * as M from …`) is unsupported (the namespace can't be flattened)",
                    ),
                );
            } else if self.at_ident("as") {
                return Err(
                    self.err(
                        codes::FE476_IMPORT_OR_BASE_SOL,
                        "an aliased import (`… as Name`) is unsupported (the alias renames a symbol flatten can't drop)",
                    ),
                );
            }
            let text = match self.cur() {
                TokKind::Str(s) => Some(s.clone()),
                _ => None,
            };
            match text {
                Some(t) => {
                    if path.is_none() {
                        let span = self.bump();
                        path = Some((t, span));
                    } else {
                        return Err(
                            self.err(
                                codes::FE476_IMPORT_OR_BASE_SOL,
                                "an `import` with more than one string literal is unsupported",
                            ),
                        );
                    }
                },
                None => {
                    self.bump();
                },
            }
        }
    }

    /// An optional `is Base1, Base2(args), …` (argument lists skipped); more than
    /// `MAX_BASES` entries rejects FE402.
    fn parse_inheritance_list(&mut self) -> (r: Result<Vec<BaseRef>, FrontendDiag>)
        requires
            old(self).wf(),
        ensures
            final(self).safemath_active == old(self).safemath_active,
            r is Ok ==> final(self).ok_after_eq(*old(self)),
            r is Err ==> final(self).err_after(*old(self)),
            r matches Ok(b) ==> b@.len() <= MAX_BASES,
            !ident_is(old(self).cur_kind(), "is"@) ==> (r matches Ok(b) && b@.len() == 0 && final(self).i == old(self).i),
            ident_is(old(self).cur_kind(), "is"@) && old(self).kind_at(old(self).i + 1) is Ident && old(self).kind_at(
                old(self).i + 2,
            ) != TokKind::LParen && old(self).kind_at(old(self).i + 2) != TokKind::Comma ==> (r matches Ok(b) && b@.len()
                == 1 && old(self).kind_at(old(self).i + 1) == TokKind::Ident(b@[0].name) && b@[0].span == old(self).toks@[old(
                self,
            ).i + 1].span && final(self).i == old(self).i + 2),
    {
        let ghost o = *self;
        let mut bases: Vec<BaseRef> = Vec::new();
        if !self.at_ident("is") {
            return Ok(bases);
        }
        self.bump();
        loop
            invariant_except_break
                o.kind_at(o.i + 1) is Ident && o.kind_at(o.i + 2) != TokKind::LParen && o.kind_at(o.i + 2) != TokKind::Comma
                    ==> self.i == o.i + 1 && bases@.len() == 0,
            invariant
                self.wf(),
                self.frame(o),
                self.safemath_active == o.safemath_active,
                self.depth == o.depth,
                o == *old(self),
                ident_is(o.cur_kind(), "is"@),
                o.i < self.i,
                bases@.len() <= MAX_BASES,
            ensures
                o.kind_at(o.i + 1) is Ident && o.kind_at(o.i + 2) != TokKind::LParen && o.kind_at(o.i + 2) != TokKind::Comma
                    ==> self.i == o.i + 2 && bases@.len() == 1 && o.kind_at(o.i + 1) == TokKind::Ident(bases@[0].name)
                    && bases@[0].span == o.toks@[o.i + 1].span,
            decreases self.toks@.len() - self.i,
        {
            let (name, span) = self.expect_ident("base contract name")?;
            if self.at(&TokKind::LParen) {
                self.skip_token_group(TokKind::LParen, TokKind::RParen)?;
            }
            if bases.len() >= MAX_BASES {
                return Err(
                    self.err(codes::FE402_TOO_LARGE_SOL, "inheritance list exceeds 32 bases"),
                );
            }
            bases.push(BaseRef { name, args: Vec::new(), span });
            if self.at(&TokKind::Comma) {
                self.bump();
            } else {
                break;
            }
        }
        Ok(bases)
    }

    /// Skips a balanced `open … close` token group starting at the current token; returns the
    /// span of the closing token. Reaching `Eof` first rejects FE401.
    fn skip_token_group(&mut self, open: TokKind, close: TokKind) -> (r: Result<
        Range<usize>,
        FrontendDiag,
    >)
        requires
            old(self).wf(),
            is_simple(open),
            is_simple(close),
            open != TokKind::Eof,
            close != TokKind::Eof,
            open != close,
            old(self).cur_kind() == open,
        ensures
            final(self).parsed(*old(self), r),
            old(self).kind_at(old(self).i + 1) == close ==> r == Ok::<Range<usize>, FrontendDiag>(
                old(self).toks@[old(self).i + 1].span,
            ) && final(self).i == old(self).i + 2,
            r matches Ok(s) ==> final(self).i > 0 && final(self).kind_at(final(self).i - 1) == close && s
                == final(self).toks@[final(self).i - 1].span,
    {
        let ghost o = *self;
        let _n = self.toks.len();
        let mut depth: usize = 0;
        loop
            invariant
                self.wf(),
                self.frame(o),
                self.safemath_active == o.safemath_active,
                self.depth == o.depth,
                o == *old(self),
                o.kind_at(o.i + 1) == close ==> (self.i == o.i && depth == 0) || (self.i == o.i + 1 && depth == 1),
                o.i <= self.i,
                depth <= self.i - o.i,
                depth == 0 ==> self.i == o.i,
                self.toks@.len() <= usize::MAX,
                is_simple(open),
                is_simple(close),
                open != TokKind::Eof,
                close != TokKind::Eof,
                open != close,
                old(self).cur_kind() == open,
            decreases self.toks@.len() - self.i,
        {
            if self.at(&TokKind::Eof) {
                return Err(self.err(codes::FE401_UNSUPPORTED_SOL, "unbalanced `(`/`{` group"));
            } else if self.at(&open) {
                depth = depth + 1;
                self.bump();
            } else if self.at(&close) {
                assert(depth > 0);
                depth = depth - 1;
                let s = self.bump();
                if depth == 0 {
                    return Ok(s);
                }
            } else {
                self.bump();
            }
        }
    }
}

impl Parser {
    /// A `contract`, `abstract contract`, `interface` or `library` declaration. An interface
    /// or library body is skipped whole; a contract body is parsed member by member, each
    /// member kind bounded by `MAX_FUNCTIONS` (FE402), at most one constructor (FE463).
    fn parse_contract(&mut self) -> (r: Result<Contract, FrontendDiag>)
        requires
            old(self).wf(),
            !old(self).in_modifier,
        ensures
            r is Ok ==> final(self).ok_after(*old(self)),
            r is Err ==> final(self).err_after(*old(self)),
            r matches Ok(c) ==> contract_bounded(c),
            r matches Ok(c) ==> final(self).i > 0 && final(self).kind_at(final(self).i - 1) == TokKind::RBrace && c.span.end
                == final(self).toks@[final(self).i - 1].span.end,
            r matches Ok(c) ==> c.span.start == old(self).toks@[old(self).i as int].span.start,
            old(self).cur_kind() == TokKind::Contract && old(self).kind_at(old(self).i + 1) is Ident && !ident_is(
                old(self).kind_at(old(self).i + 2),
                "is"@,
            ) && old(self).toks_are(old(self).i + 2, seq![TokKind::LBrace, TokKind::RBrace]) ==> (r matches Ok(c)
                && old(self).kind_at(old(self).i + 1) == TokKind::Ident(c.name) && c.kind == ContractKind::Concrete
                && c.bases@.len() == 0 && c.structs@.len() == 0 && c.state@.len() == 0 && c.functions@.len() == 0
                && c.modifiers@.len() == 0 && c.constructor is None && c.enums@.len() == 0 && c.span == old(self).span_from(
                old(self).i as int,
                old(self).i + 3,
            ) && final(self).i == old(self).i + 4),
    {
        let ghost o = *self;
        let kind;
        let start;
        if self.at(&TokKind::Contract) {
            kind = ContractKind::Concrete;
            start = self.bump();
        } else if self.at_ident("abstract") {
            let s = self.bump();
            self.expect(TokKind::Contract, "`contract` after `abstract`")?;
            kind = ContractKind::Abstract;
            start = s;
        } else if self.at_ident("interface") {
            kind = ContractKind::Interface;
            start = self.bump();
        } else if self.at_ident("library") {
            kind = ContractKind::Library;
            start = self.bump();
        } else {
            return Err(
                self.err(
                    codes::FE401_UNSUPPORTED_SOL,
                    "expected a top-level `contract`/`interface`/`library`/`abstract`",
                ),
            );
        }
        let (name, _) = self.expect_ident("contract name")?;
        let bases = self.parse_inheritance_list()?;
        if matches!(kind, ContractKind::Interface | ContractKind::Library) {
            if !self.at(&TokKind::LBrace) {
                return Err(self.err(codes::FE401_UNSUPPORTED_SOL, "expected `{` after the contract head"));
            }
            let end = self.skip_token_group(TokKind::LBrace, TokKind::RBrace)?;
            return Ok(
                Contract {
                    name,
                    kind,
                    bases,
                    structs: Vec::new(),
                    state: Vec::new(),
                    functions: Vec::new(),
                    modifiers: Vec::new(),
                    constructor: None,
                    enums: Vec::new(),
                    span: span_of(start.start, end.end),
                },
            );
        }
        self.expect(TokKind::LBrace, "`{`")?;
        let mut state: Vec<StateVar> = Vec::new();
        let mut functions: Vec<Function> = Vec::new();
        let mut modifiers: Vec<Modifier> = Vec::new();
        let mut structs: Vec<Struct> = Vec::new();
        let mut enums: Vec<Enum> = Vec::new();
        let mut constructor: Option<Constructor> = None;
        while !self.at(&TokKind::RBrace) && !self.at(&TokKind::Eof)
            invariant
                self.wf(),
                self.frame(o),
                self.depth == o.depth,
                o == *old(self),
                o.i < self.i,
                !self.in_modifier,
                o.cur_kind() == TokKind::Contract && o.kind_at(o.i + 1) is Ident && o.toks_are(
                    o.i + 2,
                    seq![TokKind::LBrace, TokKind::RBrace],
                ) ==> self.i == o.i + 3 && state@.len() == 0 && functions@.len() == 0 && modifiers@.len() == 0
                    && structs@.len() == 0 && enums@.len() == 0 && constructor is None && bases@.len() == 0 && kind
                    == ContractKind::Concrete && o.kind_at(o.i + 1) == TokKind::Ident(name),
                functions@.len() <= MAX_FUNCTIONS,
                modifiers@.len() <= MAX_FUNCTIONS,
                structs@.len() <= MAX_FUNCTIONS,
                enums@.len() <= MAX_FUNCTIONS,
                forall|k: int| 0 <= k < functions@.len() ==> (#[trigger] functions@[k]).modifiers@.len()
                    <= MAX_MODIFIERS_PER_FN,
                forall|k: int| 0 <= k < functions@.len() ==> all_placeholders((#[trigger] functions@[k]).body@) == 0,
                constructor matches Some(ct) ==> all_placeholders(ct.body@) == 0,
                forall|k: int| 0 <= k < modifiers@.len() ==> all_placeholders(
                    (#[trigger] modifiers@[k]).body@,
                ) == 1,
                forall|k: int| 0 <= k < enums@.len() ==> (#[trigger] enums@[k]).members@.len() <= 256,
                forall|k: int| 0 <= k < structs@.len() ==> (#[trigger] structs@[k]).fields@.len()
                    <= MAX_FUNCTIONS,
            decreases self.toks@.len() - self.i,
        {
            let ghost i0 = self.i;
            if self.at(&TokKind::Function) {
                if functions.len() >= MAX_FUNCTIONS {
                    return Err(self.err(codes::FE402_TOO_LARGE_SOL, "too many functions"));
                }
                let f = self.parse_function()?;
                functions.push(f);
            } else if self.at_ident("modifier") {
                if modifiers.len() >= MAX_FUNCTIONS {
                    return Err(self.err(codes::FE402_TOO_LARGE_SOL, "too many modifiers"));
                }
                let m = self.parse_modifier()?;
                modifiers.push(m);
            } else if self.at_ident("event") {
                self.bump();
                while !self.at(&TokKind::Semi) && !self.at(&TokKind::Eof)
                    invariant
                        self.wf(),
                        self.frame(o),
                        self.depth == o.depth,
                        o == *old(self),
                        !self.in_modifier,
                        i0 < self.i,
                        o.i < self.i,
                    decreases self.toks@.len() - self.i,
                {
                    self.bump();
                }
                self.expect(TokKind::Semi, "`;` to end the `event` declaration")?;
            } else if self.at_ident("error") {
                self.parse_error_discard()?;
            } else if self.at_ident("string") && !match self.peek_kind(1) {
                Some(TokKind::LBracket) => true,
                _ => false,
            } {
                self.bump();
                while !self.at(&TokKind::Semi) && !self.at(&TokKind::Eof)
                    invariant
                        self.wf(),
                        self.frame(o),
                        self.depth == o.depth,
                        o == *old(self),
                        !self.in_modifier,
                        i0 < self.i,
                        o.i < self.i,
                    decreases self.toks@.len() - self.i,
                {
                    self.bump();
                }
                self.expect(TokKind::Semi, "`;` to end the `string` state variable")?;
            } else if self.at_ident("struct") {
                if structs.len() >= MAX_FUNCTIONS {
                    return Err(self.err(codes::FE402_TOO_LARGE_SOL, "too many structs"));
                }
                let st = self.parse_struct()?;
                structs.push(st);
            } else if self.at_ident("enum") {
                if enums.len() >= MAX_FUNCTIONS {
                    return Err(self.err(codes::FE402_TOO_LARGE_SOL, "too many enums"));
                }
                let en = self.parse_enum()?;
                enums.push(en);
            } else if self.at_ident("using") {
                self.parse_using()?;
            } else if self.at_ident("constructor") {
                if constructor.is_some() {
                    return Err(
                        self.err(
                            codes::FE463_DUPLICATE_CONSTRUCTOR_SOL,
                            "a contract may declare at most one `constructor`",
                        ),
                    );
                }
                constructor = Some(self.parse_constructor()?);
            } else {
                let sv = self.parse_state_var()?;
                state.push(sv);
            }
        }
        let end = self.expect(TokKind::RBrace, "`}`")?;
        Ok(
            Contract {
                name,
                kind,
                bases,
                structs,
                state,
                functions,
                modifiers,
                constructor,
                enums,
                span: span_of(start.start, end.end),
            },
        )
    }

    /// `constructor(params) <attrs> { body }`: `public`/`internal` are ignored, `Name(args)`
    /// records a base-constructor call (whether every argument token is a literal); any
    /// other attribute rejects FE464.
    fn parse_constructor(&mut self) -> (r: Result<Constructor, FrontendDiag>)
        requires
            old(self).wf(),
            ident_is(old(self).cur_kind(), "constructor"@),
        ensures
            !old(self).in_modifier ==> (r matches Ok(c) ==> all_placeholders(c.body@) == 0),
            final(self).parsed(*old(self), r),
            old(self).depth + 1 <= MAX_NEST_DEPTH && old(self).toks_are(
                old(self).i + 1,
                seq![TokKind::LParen, TokKind::RParen, TokKind::LBrace, TokKind::RBrace],
            ) ==> (r matches Ok(c) && c.params@.len() == 0 && c.body@.len() == 0 && c.base_calls@.len() == 0 && c.span
                == old(self).span_from(old(self).i as int, old(self).i + 4) && final(self).i == old(self).i + 5),
    {
        proof {
            lemma_one_stmt_placeholders();
        }
        let ghost o = *self;
        let _n = self.toks.len();
        let start = self.bump();
        let params = self.parse_param_list()?;
        let mut base_calls: Vec<BaseCtorCall> = Vec::new();
        loop
            invariant
                self.wf(),
                self.frame(o),
                self.safemath_active == o.safemath_active,
                self.depth == o.depth,
                o == *old(self),
                o.toks_are(o.i + 1, seq![TokKind::LParen, TokKind::RParen, TokKind::LBrace, TokKind::RBrace]) ==> self.i == o.i
                    + 3 && base_calls@.len() == 0 && params@.len() == 0,
                o.i < self.i,
                self.toks@.len() <= usize::MAX,
            decreases self.toks@.len() - self.i,
        {
            if self.at(&TokKind::Public) || self.at(&TokKind::Internal) {
                self.bump();
            } else if self.at(&TokKind::LBrace) {
                break;
            } else if self.cur().is_ident() {
                let a = match self.cur() {
                    TokKind::Ident(a) => a.clone(),
                    _ => String::new(),
                };
                let name_span = self.bump();
                if !self.at(&TokKind::LParen) {
                    return Err(
                        self.err(
                            codes::FE464_UNSUPPORTED_CTOR_SOL,
                            "unsupported constructor form (a `payable` constructor or a modifier on the constructor is out of the closed-contract subset; a base-constructor call needs `(`)",
                        ),
                    );
                }
                let ghost i1 = self.i;
                self.bump();
                let mut depth: usize = 1;
                let mut all_literal = true;
                let mut end = copy_span(&name_span);
                while depth > 0
                    invariant
                        self.wf(),
                        self.frame(o),
                        self.safemath_active == o.safemath_active,
                        self.depth == o.depth,
                        o == *old(self),
                        o.i < self.i,
                        i1 < self.i,
                        !o.toks_are(o.i + 1, seq![TokKind::LParen, TokKind::RParen, TokKind::LBrace, TokKind::RBrace]),
                        depth <= self.i - i1,
                        self.toks@.len() <= usize::MAX,
                    decreases self.toks@.len() - self.i, depth,
                {
                    if self.at(&TokKind::Eof) {
                        return Err(
                            self.err(
                                codes::FE464_UNSUPPORTED_CTOR_SOL,
                                "unterminated base-constructor argument list",
                            ),
                        );
                    } else if self.at(&TokKind::LParen) {
                        depth = depth + 1;
                        all_literal = false;
                        end = self.bump();
                    } else if self.at(&TokKind::RParen) {
                        depth = depth - 1;
                        end = self.bump();
                    } else {
                        let literal = match self.cur() {
                            TokKind::Str(_) => true,
                            TokKind::Num(_) => true,
                            TokKind::True => true,
                            TokKind::False => true,
                            TokKind::Comma => true,
                            _ => false,
                        };
                        if !literal {
                            all_literal = false;
                        }
                        end = self.bump();
                    }
                }
                base_calls.push(
                    BaseCtorCall { name: a, all_literal, span: span_of(name_span.start, end.end) },
                );
            } else {
                return Err(
                    self.err(
                        codes::FE464_UNSUPPORTED_CTOR_SOL,
                        "unsupported constructor attribute (no `returns`/`view`/`pure`/`external` on a constructor)",
                    ),
                );
            }
        }
        let (body, end) = self.parse_block()?;
        Ok(Constructor { params, body, base_calls, span: span_of(start.start, end.end) })
    }

    /// `struct Name { T field; … }` (a comma after a field is tolerated); more than
    /// `MAX_FUNCTIONS` fields rejects FE402.
    fn parse_struct(&mut self) -> (r: Result<Struct, FrontendDiag>)
        requires
            old(self).wf(),
            ident_is(old(self).cur_kind(), "struct"@),
        ensures
            final(self).parsed(*old(self), r),
            old(self).kind_at(old(self).i + 1) is Ident && old(self).toks_are(
                old(self).i + 2,
                seq![TokKind::LBrace, TokKind::RBrace],
            ) ==> (r matches Ok(st) && old(self).kind_at(old(self).i + 1) == TokKind::Ident(st.name) && st.fields@.len() == 0
                && st.span == old(self).span_from(old(self).i as int, old(self).i + 3) && final(self).i == old(self).i + 4),
            r matches Ok(s) ==> s.fields@.len() <= MAX_FUNCTIONS,
    {
        let ghost o = *self;
        let start = self.bump();
        let (name, _) = self.expect_ident("struct name")?;
        self.expect(TokKind::LBrace, "`{`")?;
        let mut fields: Vec<StructField> = Vec::new();
        while !self.at(&TokKind::RBrace) && !self.at(&TokKind::Eof)
            invariant
                self.wf(),
                self.frame(o),
                self.safemath_active == o.safemath_active,
                self.depth == o.depth,
                o == *old(self),
                o.kind_at(o.i + 1) is Ident && o.toks_are(o.i + 2, seq![TokKind::LBrace, TokKind::RBrace]) ==> self.i == o.i + 3
                    && fields@.len() == 0 && o.kind_at(o.i + 1) == TokKind::Ident(name),
                o.i < self.i,
                fields@.len() <= MAX_FUNCTIONS,
            decreases self.toks@.len() - self.i,
        {
            if fields.len() >= MAX_FUNCTIONS {
                return Err(self.err(codes::FE402_TOO_LARGE_SOL, "too many struct fields"));
            }
            let ty = self.parse_type()?;
            let (fname, fspan) = self.expect_ident("struct field name")?;
            self.expect(TokKind::Semi, "`;` after struct field")?;
            if self.at(&TokKind::Comma) {
                self.bump();
            }
            let fstart = ty.span().start;
            fields.push(StructField { span: span_of(fstart, fspan.end), name: fname, ty });
        }
        let end = self.expect(TokKind::RBrace, "`}`")?;
        Ok(Struct { span: span_of(start.start, end.end), name, fields })
    }

    /// `enum Name { A, B, C }`: no trailing comma, no explicit values (FE401), at most 256
    /// members (FE402).
    fn parse_enum(&mut self) -> (r: Result<Enum, FrontendDiag>)
        requires
            old(self).wf(),
            ident_is(old(self).cur_kind(), "enum"@),
        ensures
            final(self).parsed(*old(self), r),
            old(self).kind_at(old(self).i + 1) is Ident && old(self).toks_are(
                old(self).i + 2,
                seq![TokKind::LBrace, TokKind::RBrace],
            ) ==> (r matches Ok(en) && old(self).kind_at(old(self).i + 1) == TokKind::Ident(en.name) && en.members@.len() == 0
                && en.span == old(self).span_from(old(self).i as int, old(self).i + 3) && final(self).i == old(self).i + 4),
            r matches Ok(e) ==> e.members@.len() <= 256,
    {
        let ghost o = *self;
        let start = self.bump();
        let (name, _) = self.expect_ident("enum name")?;
        self.expect(TokKind::LBrace, "`{`")?;
        let mut members: Vec<String> = Vec::new();
        while !self.at(&TokKind::RBrace) && !self.at(&TokKind::Eof)
            invariant
                self.wf(),
                self.frame(o),
                self.safemath_active == o.safemath_active,
                self.depth == o.depth,
                o == *old(self),
                o.kind_at(o.i + 1) is Ident && o.toks_are(o.i + 2, seq![TokKind::LBrace, TokKind::RBrace]) ==> self.i == o.i + 3
                    && members@.len() == 0 && o.kind_at(o.i + 1) == TokKind::Ident(name),
                o.i < self.i,
                members@.len() <= 256,
            decreases self.toks@.len() - self.i,
        {
            if members.len() >= 256 {
                return Err(self.err(codes::FE402_TOO_LARGE_SOL, "an enum may have at most 256 members"));
            }
            let (m, _) = self.expect_ident("enum member name")?;
            members.push(m);
            if self.at(&TokKind::Assign) {
                return Err(
                    self.err(
                        codes::FE401_UNSUPPORTED_SOL,
                        "explicit enum member values (`A = N`) are unsupported",
                    ),
                );
            }
            if self.at(&TokKind::Comma) {
                self.bump();
                if self.at(&TokKind::RBrace) {
                    return Err(
                        self.err(codes::FE401_UNSUPPORTED_SOL, "trailing comma in enum member list"),
                    );
                }
            } else {
                break;
            }
        }
        let end = self.expect(TokKind::RBrace, "`}` to close enum")?;
        Ok(Enum { span: span_of(start.start, end.end), name, members })
    }

    /// `modifier name[(params)] { … }`: the body is parsed with `_;` as the placeholder and
    /// must hold exactly one of them (FE447).
    fn parse_modifier(&mut self) -> (r: Result<Modifier, FrontendDiag>)
        requires
            old(self).wf(),
            !old(self).in_modifier,
            ident_is(old(self).cur_kind(), "modifier"@),
        ensures
            final(self).parsed(*old(self), r),
            old(self).depth + 1 <= MAX_NEST_DEPTH && old(self).kind_at(old(self).i + 1) is Ident
                && old(self).placeholder_block_at(old(self).i + 2) ==> (r matches Ok(m) && old(self).kind_at(old(self).i + 1)
                == TokKind::Ident(m.name) && m.params@.len() == 0 && m.body@ == seq![
                Stmt::Placeholder { span: old(self).span_from(old(self).i + 3, old(self).i + 4) },
            ] && m.span == old(self).span_from(old(self).i as int, old(self).i + 5) && final(self).i == old(self).i + 6),
            r matches Ok(m) ==> all_placeholders(m.body@) == 1,
    {
        let start = self.bump();
        let (name, _) = self.expect_ident("modifier name")?;
        let params = if self.at(&TokKind::LParen) {
            self.parse_param_list()?
        } else {
            Vec::new()
        };
        self.in_modifier = true;
        let r = self.parse_block();
        self.in_modifier = false;
        let (body, end) = r?;
        proof {
            if body@.len() == 1 && body@[0] is Placeholder {
                lemma_one_placeholder(body@);
            }
        }
        let n = count_placeholders(body.as_slice());
        if n != 1 {
            return Err(
                FrontendDiag::new(
                    codes::FE447_MODIFIER_PLACEHOLDER_SOL,
                    "a modifier body must contain exactly one `_;` placeholder",
                    span_of(start.start, end.end),
                ),
            );
        }
        Ok(Modifier { span: span_of(start.start, end.end), name, params, body })
    }

    /// `T [public|private|internal|constant|immutable]* name [= init];`
    fn parse_state_var(&mut self) -> (r: Result<StateVar, FrontendDiag>)
        requires
            old(self).wf(),
        ensures
            final(self).parsed(*old(self), r),
            old(self).scalar_type_at(old(self).i as int) && old(self).kind_at(old(self).i + 1) is Ident && !ident_is(
                old(self).kind_at(old(self).i + 1),
                "constant"@,
            ) && !ident_is(old(self).kind_at(old(self).i + 1), "immutable"@) && old(self).toks_are(
                old(self).i + 2,
                seq![TokKind::Semi],
            ) ==> (r matches Ok(v) && old(self).scalar_of(old(self).i as int, v.ty) && old(self).kind_at(old(self).i + 1)
                == TokKind::Ident(v.name) && v.init is None && v.span == old(self).span_from(old(self).i as int, old(self).i + 2)
                && final(self).i == old(self).i + 3),
    {
        let ghost o = *self;
        let ty = self.parse_type()?;
        while self.at(&TokKind::Public) || self.at(&TokKind::Private) || self.at(
            &TokKind::Internal,
        ) || self.at_ident("constant") || self.at_ident("immutable")
            invariant
                self.wf(),
                self.frame(o),
                self.safemath_active == o.safemath_active,
                self.depth == o.depth,
                o == *old(self),
                o.scalar_type_at(o.i as int) && o.kind_at(o.i + 1) is Ident && !ident_is(o.kind_at(o.i + 1), "constant"@)
                    && !ident_is(o.kind_at(o.i + 1), "immutable"@) ==> self.i == o.i + 1 && o.scalar_of(o.i as int, ty),
                o.i < self.i,
            decreases self.toks@.len() - self.i,
        {
            self.bump();
        }
        let (name, _) = self.expect_ident("state variable name")?;
        let init = if self.at(&TokKind::Assign) {
            self.bump();
            Some(self.parse_expr()?)
        } else {
            None
        };
        let end = self.expect(TokKind::Semi, "`;`")?;
        let start = ty.span().start;
        Ok(StateVar { span: span_of(start, end.end), name, ty, init })
    }

    /// `( T [memory|storage|calldata] name, … )`, no trailing comma.
    fn parse_param_list(&mut self) -> (r: Result<Vec<Param>, FrontendDiag>)
        requires
            old(self).wf(),
        ensures
            final(self).parsed(*old(self), r),
            old(self).toks_are(old(self).i as int, seq![TokKind::LParen, TokKind::RParen]) ==> (r matches Ok(v) && v@.len()
                == 0 && final(self).i == old(self).i + 2),
            old(self).cur_kind() != TokKind::LParen ==> r is Err,
    {
        let ghost o = *self;
        self.expect(TokKind::LParen, "`(`")?;
        let mut params: Vec<Param> = Vec::new();
        while !self.at(&TokKind::RParen)
            invariant
                self.wf(),
                self.frame(o),
                self.safemath_active == o.safemath_active,
                self.depth == o.depth,
                o == *old(self),
                o.toks_are(o.i as int, seq![TokKind::LParen, TokKind::RParen]) ==> self.i == o.i + 1 && params@.len() == 0,
                o.i < self.i,
            decreases self.toks@.len() - self.i,
        {
            let ghost i0 = self.i;
            let ty = self.parse_type()?;
            while self.at(&TokKind::Memory) || self.at(&TokKind::Storage) || self.at(
                &TokKind::Calldata,
            )
                invariant
                    self.wf(),
                    self.frame(o),
                    self.safemath_active == o.safemath_active,
                    self.depth == o.depth,
                    o.i < self.i,
                    i0 < self.i,
                decreases self.toks@.len() - self.i,
            {
                self.bump();
            }
            let (pname, pspan) = self.expect_ident("parameter name")?;
            let pstart = ty.span().start;
            params.push(Param { span: span_of(pstart, pspan.end), name: pname, ty });
            if self.at(&TokKind::Comma) {
                self.bump();
            } else {
                break;
            }
        }
        self.expect(TokKind::RParen, "`)`")?;
        Ok(params)
    }

    /// `function name(params) <attrs> [returns (T)] ({ body } | ;)`: visibility and
    /// mutability markers, `virtual`/`override[(…)]` (ignored) and modifier applications
    /// with arguments, in any order; `payable` rejects FE452; more than
    /// `MAX_MODIFIERS_PER_FN` applications reject FE402.
    fn parse_function(&mut self) -> (r: Result<Function, FrontendDiag>)
        requires
            old(self).wf(),
            old(self).cur_kind() == TokKind::Function,
        ensures
            !old(self).in_modifier ==> (r matches Ok(f) ==> all_placeholders(f.body@) == 0),
            final(self).parsed(*old(self), r),
            old(self).depth + 1 <= MAX_NEST_DEPTH && old(self).kind_at(old(self).i + 1) is Ident && old(self).toks_are(
                old(self).i + 2,
                seq![TokKind::LParen, TokKind::RParen, TokKind::Public, TokKind::LBrace],
            ) && old(self).toks_are(old(self).i + 6, seq![TokKind::RBrace]) ==> (r matches Ok(f) && old(self).kind_at(
                old(self).i + 1,
            ) == TokKind::Ident(f.name) && f.params@.len() == 0 && f.ret is None && f.visibility == Visibility::Public
                && f.mutability == StateMutability::NonPayable && f.modifiers@.len() == 0 && f.body@.len() == 0 && !f.bodiless
                && f.span == old(self).span_from(old(self).i as int, old(self).i + 6) && final(self).i == old(self).i + 7),
            r matches Ok(f) ==> f.modifiers@.len() <= MAX_MODIFIERS_PER_FN,
    {
        proof {
            lemma_one_stmt_placeholders();
        }
        let ghost o = *self;
        let start = self.expect(TokKind::Function, "`function`")?;
        let (name, _) = self.expect_ident("function name")?;
        let params = self.parse_param_list()?;
        let mut visibility = Visibility::Default;
        let mut mutability = StateMutability::NonPayable;
        let mut modifiers: Vec<ModifierApp> = Vec::new();
        loop
            invariant
                self.wf(),
                self.frame(o),
                self.safemath_active == o.safemath_active,
                self.depth == o.depth,
                o == *old(self),
                o.i < self.i,
                modifiers@.len() <= MAX_MODIFIERS_PER_FN,
                o.kind_at(o.i + 1) is Ident && o.toks_are(o.i + 2, seq![TokKind::LParen, TokKind::RParen, TokKind::Public, TokKind::LBrace]) && o.toks_are(o.i + 6, seq![TokKind::RBrace]) ==> o.kind_at(o.i + 1) == TokKind::Ident(name) && params@.len() == 0 && mutability
                    == StateMutability::NonPayable && modifiers@.len() == 0 && ((self.i == o.i + 4 && visibility == Visibility::Default)
                    || (self.i == o.i + 5 && visibility == Visibility::Public)),
            ensures
                o.kind_at(o.i + 1) is Ident && o.toks_are(o.i + 2, seq![TokKind::LParen, TokKind::RParen, TokKind::Public, TokKind::LBrace]) && o.toks_are(o.i + 6, seq![TokKind::RBrace]) ==> o.kind_at(o.i + 1) == TokKind::Ident(name) && params@.len() == 0 && mutability
                    == StateMutability::NonPayable && modifiers@.len() == 0 && self.i == o.i + 5 && visibility == Visibility::Public,
            decreases self.toks@.len() - self.i,
        {
            let ghost i0 = self.i;
            if self.at(&TokKind::Public) {
                visibility = Visibility::Public;
                self.bump();
            } else if self.at(&TokKind::Private) {
                visibility = Visibility::Private;
                self.bump();
            } else if self.at(&TokKind::Internal) {
                visibility = Visibility::Internal;
                self.bump();
            } else if self.at(&TokKind::External) {
                visibility = Visibility::External;
                self.bump();
            } else if self.at(&TokKind::View) {
                mutability = StateMutability::View;
                self.bump();
            } else if self.at(&TokKind::Pure) {
                mutability = StateMutability::Pure;
                self.bump();
            } else if self.cur().is_ident() {
                if self.at_ident("payable") {
                    return Err(
                        self.err(
                            codes::FE452_UNSUPPORTED_ATTRIBUTE_SOL,
                            "function attribute `payable` is unsupported",
                        ),
                    );
                }
                if self.at_ident("virtual") {
                    self.bump();
                } else if self.at_ident("override") {
                    self.bump();
                    if self.at(&TokKind::LParen) {
                        self.skip_token_group(TokKind::LParen, TokKind::RParen)?;
                    }
                } else {
                    let mname = match self.cur() {
                        TokKind::Ident(m) => m.clone(),
                        _ => String::new(),
                    };
                    let mstart = self.bump();
                    let mut args: Vec<Expr> = Vec::new();
                    let mut mend = mstart.end;
                    if self.at(&TokKind::LParen) {
                        self.bump();
                        while !self.at(&TokKind::RParen)
                            invariant
                                self.wf(),
                                self.frame(o),
                                self.safemath_active == o.safemath_active,
                                self.depth == o.depth,
                                o == *old(self),
                                i0 < self.i,
                                !(o.kind_at(o.i + 1) is Ident && o.toks_are(o.i + 2, seq![TokKind::LParen, TokKind::RParen, TokKind::Public, TokKind::LBrace]) && o.toks_are(o.i + 6, seq![TokKind::RBrace])),
                                o.i < self.i,
                            decreases self.toks@.len() - self.i,
                        {
                            let a = self.parse_expr()?;
                            args.push(a);
                            if self.at(&TokKind::Comma) {
                                self.bump();
                            } else {
                                break;
                            }
                        }
                        mend = self.expect(TokKind::RParen, "`)`")?.end;
                    }
                    if modifiers.len() >= MAX_MODIFIERS_PER_FN {
                        return Err(
                            self.err(codes::FE402_TOO_LARGE_SOL, "too many modifiers on a function"),
                        );
                    }
                    modifiers.push(ModifierApp { name: mname, args, span: span_of(mstart.start, mend) });
                }
            } else {
                break;
            }
        }
        let ret = if self.at(&TokKind::Returns) {
            self.bump();
            self.expect(TokKind::LParen, "`(`")?;
            let t = self.parse_type()?;
            while self.at(&TokKind::Memory) || self.at(&TokKind::Storage) || self.at(
                &TokKind::Calldata,
            )
                invariant
                    self.wf(),
                    self.frame(o),
                    self.safemath_active == o.safemath_active,
                    self.depth == o.depth,
                    o.i < self.i,
                decreases self.toks@.len() - self.i,
            {
                self.bump();
            }
            self.expect(TokKind::RParen, "`)`")?;
            Some(t)
        } else {
            None
        };
        let body;
        let bodiless;
        let end;
        if self.at(&TokKind::Semi) {
            end = self.bump();
            body = Vec::new();
            bodiless = true;
        } else {
            let (b, e) = self.parse_block()?;
            body = b;
            bodiless = false;
            end = e;
        }
        Ok(
            Function {
                span: span_of(start.start, end.end),
                name,
                params,
                ret,
                visibility,
                mutability,
                modifiers,
                body,
                bodiless,
            },
        )
    }
}

} // verus!
