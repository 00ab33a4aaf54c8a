//! What the emitted operator spellings mean: each binary operator is written as the SIGIL
//! operator that denotes it, and a compound assignment stores its target combined with the
//! right-hand side by the operator it names.

use crate::emit::{bin_text, compound};
use crate::lexer::{keyword_kind, step, StepV, TokKind, TokV};
use crate::parser::{safemath_spec, tok_assign_op, tok_binop, AssignOp, BinOp};
use crate::text::ascii_chars;
use vstd::prelude::*;

verus! {

// ── Laws of the operator spellings ───────────────────────────────────────────

/// What an operator spelling means: the binary operator it denotes (Solidity and SIGIL
/// spell these operators alike).
pub open spec fn sigil_binop(t: Seq<char>) -> Option<BinOp> {
    if t.len() == 1 {
        let c = t[0];
        if c == '+' {
            Some(BinOp::Add)
        } else if c == '-' {
            Some(BinOp::Sub)
        } else if c == '*' {
            Some(BinOp::Mul)
        } else if c == '/' {
            Some(BinOp::Div)
        } else if c == '%' {
            Some(BinOp::Mod)
        } else if c == '<' {
            Some(BinOp::Lt)
        } else if c == '>' {
            Some(BinOp::Gt)
        } else {
            None
        }
    } else if t.len() == 2 {
        let (c, d) = (t[0], t[1]);
        if c == '=' && d == '=' {
            Some(BinOp::Eq)
        } else if c == '!' && d == '=' {
            Some(BinOp::Ne)
        } else if c == '<' && d == '=' {
            Some(BinOp::Le)
        } else if c == '>' && d == '=' {
            Some(BinOp::Ge)
        } else if c == '&' && d == '&' {
            Some(BinOp::And)
        } else if c == '|' && d == '|' {
            Some(BinOp::Or)
        } else {
            None
        }
    } else {
        None
    }
}

/// Every binary operator is emitted as the SIGIL operator that means the same thing, so
/// reading the emitted spelling gives the operator back (in particular no two operators
/// share a spelling: `>=` is not `>`).
pub proof fn lemma_bin_text_means_its_operator(op: BinOp)
    ensures
        sigil_binop(bin_text(op)) == Some(op),
{
    match op {
        BinOp::Add => {
            reveal_strlit("+");
            assert(bin_text(op) =~= seq!['+']);
        },
        BinOp::Sub => {
            reveal_strlit("-");
            assert(bin_text(op) =~= seq!['-']);
        },
        BinOp::Mul => {
            reveal_strlit("*");
            assert(bin_text(op) =~= seq!['*']);
        },
        BinOp::Div => {
            reveal_strlit("/");
            assert(bin_text(op) =~= seq!['/']);
        },
        BinOp::Mod => {
            reveal_strlit("%");
            assert(bin_text(op) =~= seq!['%']);
        },
        BinOp::Eq => {
            reveal_strlit("==");
            assert(bin_text(op) =~= seq!['=', '=']);
        },
        BinOp::Ne => {
            reveal_strlit("!=");
            assert(bin_text(op) =~= seq!['!', '=']);
        },
        BinOp::Lt => {
            reveal_strlit("<");
            assert(bin_text(op) =~= seq!['<']);
        },
        BinOp::Le => {
            reveal_strlit("<=");
            assert(bin_text(op) =~= seq!['<', '=']);
        },
        BinOp::Gt => {
            reveal_strlit(">");
            assert(bin_text(op) =~= seq!['>']);
        },
        BinOp::Ge => {
            reveal_strlit(">=");
            assert(bin_text(op) =~= seq!['>', '=']);
        },
        BinOp::And => {
            reveal_strlit("&&");
            assert(bin_text(op) =~= seq!['&', '&']);
        },
        BinOp::Or => {
            reveal_strlit("||");
            assert(bin_text(op) =~= seq!['|', '|']);
        },
    }
}

/// The arithmetic operator a compound assignment applies (`None` for plain `=`).
pub open spec fn assign_arith(op: AssignOp) -> Option<BinOp> {
    match op {
        AssignOp::Eq => None,
        AssignOp::Plus => Some(BinOp::Add),
        AssignOp::Minus => Some(BinOp::Sub),
        AssignOp::Star => Some(BinOp::Mul),
        AssignOp::Slash => Some(BinOp::Div),
        AssignOp::Percent => Some(BinOp::Mod),
    }
}

/// The value stored by `lhs op= v` is `lhs` combined with `(v)` by the SIGIL spelling of the
/// same arithmetic operator as `op` (so it reads back as that operator); a plain `=` stores
/// `v` itself.
pub proof fn lemma_compound_applies_its_operator(op: AssignOp, lhs: Seq<char>, ve: Seq<char>)
    ensures
        match assign_arith(op) {
            Some(b) => compound(op, lhs, ve) == lhs + seq![' '] + bin_text(b) + seq![' ', '('] + ve + seq![')']
                && sigil_binop(bin_text(b)) == Some(b),
            None => compound(op, lhs, ve) == ve,
        },
{
    reveal_strlit(")");
    match op {
        AssignOp::Eq => {},
        AssignOp::Plus => {
            reveal_strlit(" + (");
            reveal_strlit("+");
            lemma_bin_text_means_its_operator(BinOp::Add);
            assert(compound(op, lhs, ve) =~= lhs + seq![' '] + bin_text(BinOp::Add) + seq![' ', '('] + ve + seq![')']);
        },
        AssignOp::Minus => {
            reveal_strlit(" - (");
            reveal_strlit("-");
            lemma_bin_text_means_its_operator(BinOp::Sub);
            assert(compound(op, lhs, ve) =~= lhs + seq![' '] + bin_text(BinOp::Sub) + seq![' ', '('] + ve + seq![')']);
        },
        AssignOp::Star => {
            reveal_strlit(" * (");
            reveal_strlit("*");
            lemma_bin_text_means_its_operator(BinOp::Mul);
            assert(compound(op, lhs, ve) =~= lhs + seq![' '] + bin_text(BinOp::Mul) + seq![' ', '('] + ve + seq![')']);
        },
        AssignOp::Slash => {
            reveal_strlit(" / (");
            reveal_strlit("/");
            lemma_bin_text_means_its_operator(BinOp::Div);
            assert(compound(op, lhs, ve) =~= lhs + seq![' '] + bin_text(BinOp::Div) + seq![' ', '('] + ve + seq![')']);
        },
        AssignOp::Percent => {
            reveal_strlit(" % (");
            reveal_strlit("%");
            lemma_bin_text_means_its_operator(BinOp::Mod);
            assert(compound(op, lhs, ve) =~= lhs + seq![' '] + bin_text(BinOp::Mod) + seq![' ', '('] + ve + seq![')']);
        },
    }
}

/// The source bytes that spell an operator or punctuation token (`None` for the other kinds).
pub open spec fn op_bytes(k: TokKind) -> Option<Seq<u8>> {
    match k {
        TokKind::LParen => Some(seq![40u8]),
        TokKind::RParen => Some(seq![41u8]),
        TokKind::LBrace => Some(seq![123u8]),
        TokKind::RBrace => Some(seq![125u8]),
        TokKind::LBracket => Some(seq![91u8]),
        TokKind::RBracket => Some(seq![93u8]),
        TokKind::Semi => Some(seq![59u8]),
        TokKind::Comma => Some(seq![44u8]),
        TokKind::Dot => Some(seq![46u8]),
        TokKind::FatArrow => Some(seq![61u8, 62u8]),
        TokKind::Plus => Some(seq![43u8]),
        TokKind::Minus => Some(seq![45u8]),
        TokKind::Star => Some(seq![42u8]),
        TokKind::Pow => Some(seq![42u8, 42u8]),
        TokKind::Slash => Some(seq![47u8]),
        TokKind::Percent => Some(seq![37u8]),
        TokKind::Assign => Some(seq![61u8]),
        TokKind::PlusEq => Some(seq![43u8, 61u8]),
        TokKind::MinusEq => Some(seq![45u8, 61u8]),
        TokKind::StarEq => Some(seq![42u8, 61u8]),
        TokKind::SlashEq => Some(seq![47u8, 61u8]),
        TokKind::PercentEq => Some(seq![37u8, 61u8]),
        TokKind::EqEq => Some(seq![61u8, 61u8]),
        TokKind::BangEq => Some(seq![33u8, 61u8]),
        TokKind::Lt => Some(seq![60u8]),
        TokKind::LtEq => Some(seq![60u8, 61u8]),
        TokKind::Gt => Some(seq![62u8]),
        TokKind::GtEq => Some(seq![62u8, 61u8]),
        TokKind::Bang => Some(seq![33u8]),
        TokKind::AmpAmp => Some(seq![38u8, 38u8]),
        TokKind::PipePipe => Some(seq![124u8, 124u8]),
        TokKind::Amp => Some(seq![38u8]),
        TokKind::Pipe => Some(seq![124u8]),
        TokKind::Caret => Some(seq![94u8]),
        TokKind::Tilde => Some(seq![126u8]),
        TokKind::Shl => Some(seq![60u8, 60u8]),
        TokKind::Shr => Some(seq![62u8, 62u8]),
        TokKind::Question => Some(seq![63u8]),
        TokKind::Colon => Some(seq![58u8]),
        _ => None,
    }
}

/// Every operator or punctuation token is lexed from the source bytes that spell it: the
/// bytes a token of such a kind covers are exactly its spelling (`/=` is `SlashEq`, `%=` is
/// `PercentEq`), so no such kind is produced from characters that spell another.
pub proof fn lemma_operator_tokens_spell_their_source(b: Seq<u8>, i: int)
    requires
        0 <= i < b.len(),
    ensures
        step(b, i) matches StepV::Emit(v, s, e) ==> (v matches TokV::Simple(k) ==> (op_bytes(k) matches Some(sp) ==> b.subrange(s, e) == sp)),
{
    assert(b.subrange(i, i + 1) =~= seq![b[i]]);
    if i + 1 < b.len() {
        assert(b.subrange(i, i + 2) =~= seq![b[i], b[i + 1]]);
    }
}

/// Whether `m` spells the three letters `x`, `y`, `z`.
pub open spec fn spells3(m: Seq<char>, x: char, y: char, z: char) -> bool {
    m.len() == 3 && m[0] == x && m[1] == y && m[2] == z
}

/// What the OpenZeppelin SafeMath method named `m` returns on `a`, `b`: `Some(Some(v))` for
/// the value, `Some(None)` where it reverts (division or remainder by zero, an underflowing
/// `sub`), `None` where `m` names no such method.
pub open spec fn safemath_call(m: Seq<char>, a: int, b: int) -> Option<Option<int>> {
    if spells3(m, 'a', 'd', 'd') {
        Some(Some(a + b))
    } else if spells3(m, 's', 'u', 'b') {
        Some(if b <= a { Some(a - b) } else { None })
    } else if spells3(m, 'm', 'u', 'l') {
        Some(Some(a * b))
    } else if spells3(m, 'd', 'i', 'v') {
        Some(if b != 0 { Some(a / b) } else { None })
    } else if spells3(m, 'm', 'o', 'd') {
        Some(if b != 0 { Some(a % b) } else { None })
    } else {
        None
    }
}

/// The value of a checked unsigned arithmetic operator on `a`, `b` (`None` where it traps:
/// division or remainder by zero, a subtraction below zero; also for the non-arithmetic
/// operators).
pub open spec fn checked_arith(op: BinOp, a: int, b: int) -> Option<int> {
    match op {
        BinOp::Add => Some(a + b),
        BinOp::Sub => if b <= a { Some(a - b) } else { None },
        BinOp::Mul => Some(a * b),
        BinOp::Div => if b != 0 { Some(a / b) } else { None },
        BinOp::Mod => if b != 0 { Some(a % b) } else { None },
        _ => None,
    }
}

/// A SafeMath call `a.m(b)` is folded into an operator exactly when `m` names a SafeMath
/// method, and the operator it becomes computes, for all operands, what that method returns
/// (the same value, and a trap exactly where the method reverts).
pub proof fn lemma_safemath_fold_keeps_the_value(m: Seq<char>, a: int, b: int)
    requires
        0 <= a,
        0 <= b,
    ensures
        safemath_spec(m) is Some <==> safemath_call(m, a, b) is Some,
        safemath_spec(m) matches Some(op) ==> safemath_call(m, a, b) == Some(checked_arith(op, a, b)),
{
    reveal_strlit("add");
    reveal_strlit("sub");
    reveal_strlit("mul");
    reveal_strlit("div");
    reveal_strlit("mod");
    if spells3(m, 'a', 'd', 'd') {
        assert(m =~= "add"@);
    } else if spells3(m, 's', 'u', 'b') {
        assert(m =~= "sub"@);
    } else if spells3(m, 'm', 'u', 'l') {
        assert(m =~= "mul"@);
    } else if spells3(m, 'd', 'i', 'v') {
        assert(m =~= "div"@);
    } else if spells3(m, 'm', 'o', 'd') {
        assert(m =~= "mod"@);
    }
}

/// The word that spells a keyword token (`None` for the other kinds).
pub open spec fn keyword_word(k: TokKind) -> Option<Seq<char>> {
    match k {
        TokKind::Contract => Some(seq!['c', 'o', 'n', 't', 'r', 'a', 'c', 't']),
        TokKind::Function => Some(seq!['f', 'u', 'n', 'c', 't', 'i', 'o', 'n']),
        TokKind::Returns => Some(seq!['r', 'e', 't', 'u', 'r', 'n', 's']),
        TokKind::Return => Some(seq!['r', 'e', 't', 'u', 'r', 'n']),
        TokKind::Require => Some(seq!['r', 'e', 'q', 'u', 'i', 'r', 'e']),
        TokKind::Assert => Some(seq!['a', 's', 's', 'e', 'r', 't']),
        TokKind::Revert => Some(seq!['r', 'e', 'v', 'e', 'r', 't']),
        TokKind::If => Some(seq!['i', 'f']),
        TokKind::Else => Some(seq!['e', 'l', 's', 'e']),
        TokKind::Unchecked => Some(seq!['u', 'n', 'c', 'h', 'e', 'c', 'k', 'e', 'd']),
        TokKind::Public => Some(seq!['p', 'u', 'b', 'l', 'i', 'c']),
        TokKind::Private => Some(seq!['p', 'r', 'i', 'v', 'a', 't', 'e']),
        TokKind::Internal => Some(seq!['i', 'n', 't', 'e', 'r', 'n', 'a', 'l']),
        TokKind::External => Some(seq!['e', 'x', 't', 'e', 'r', 'n', 'a', 'l']),
        TokKind::View => Some(seq!['v', 'i', 'e', 'w']),
        TokKind::Pure => Some(seq!['p', 'u', 'r', 'e']),
        TokKind::Memory => Some(seq!['m', 'e', 'm', 'o', 'r', 'y']),
        TokKind::Storage => Some(seq!['s', 't', 'o', 'r', 'a', 'g', 'e']),
        TokKind::Calldata => Some(seq!['c', 'a', 'l', 'l', 'd', 'a', 't', 'a']),
        TokKind::True => Some(seq!['t', 'r', 'u', 'e']),
        TokKind::False => Some(seq!['f', 'a', 'l', 's', 'e']),
        _ => None,
    }
}

/// A word lexes to a keyword token only when it is that keyword's own spelling; every other
/// word is an identifier carrying the word itself.
pub proof fn lemma_keywords_spell_their_word(w: Seq<char>)
    ensures
        keyword_kind(w) matches TokV::Simple(k) ==> keyword_word(k) == Some(w),
        keyword_kind(w) is Simple || keyword_kind(w) == TokV::Ident(w),
{
    reveal_strlit("contract");
    reveal_strlit("function");
    reveal_strlit("returns");
    reveal_strlit("return");
    reveal_strlit("require");
    reveal_strlit("assert");
    reveal_strlit("revert");
    reveal_strlit("if");
    reveal_strlit("else");
    reveal_strlit("unchecked");
    reveal_strlit("public");
    reveal_strlit("private");
    reveal_strlit("internal");
    reveal_strlit("external");
    reveal_strlit("view");
    reveal_strlit("pure");
    reveal_strlit("memory");
    reveal_strlit("storage");
    reveal_strlit("calldata");
    reveal_strlit("true");
    reveal_strlit("false");
    if keyword_kind(w) is Simple {
        let k = keyword_kind(w)->Simple_0;
        assert(keyword_word(k) is Some);
        assert(keyword_word(k)->Some_0 =~= w);
    }
}

/// The operator an operator token is parsed as is the one its source spelling denotes (`>=`
/// is `Ge`, `/` is `Div`), and an assignment token `op=` applies the operator spelled by its
/// first character, a plain `=` none.
pub proof fn lemma_parsed_operators_mean_their_spelling(k: TokKind)
    ensures
        tok_binop(k) matches Some(op) ==> (op_bytes(k) matches Some(sp) && sigil_binop(ascii_chars(sp)) == Some(op)),
        tok_assign_op(k) matches Some(a) ==> (op_bytes(k) matches Some(sp) && sp.last() == 61u8 && match assign_arith(a) {
            None => sp.len() == 1,
            Some(op) => sp.len() == 2 && sigil_binop(ascii_chars(sp.take(1))) == Some(op),
        }),
{
    match op_bytes(k) {
        Some(sp) => {
            assert(ascii_chars(sp).len() == sp.len());
            if sp.len() >= 1 {
                assert(ascii_chars(sp)[0] == sp[0] as char);
                assert(ascii_chars(sp.take(1)) =~= seq![sp[0] as char]);
            }
            if sp.len() >= 2 {
                assert(ascii_chars(sp)[1] == sp[1] as char);
            }
        },
        None => {},
    }
}

} // verus!
