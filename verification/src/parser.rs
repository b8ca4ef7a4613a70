//! Recursive-descent parser for the source language.
//!
//! Grammar (operator precedence low to high):
//! ```text
//! program    := stmt*
//! stmt       := expr ';' | 'return' expr ';'
//!             | 'if' '(' expr ')' stmt ('else' stmt)?
//!             | 'while' '(' expr ')' stmt
//!             | 'for' '(' expr? ';' expr? ';' expr? ')' stmt
//! expr       := assign
//! assign     := equality ('=' assign)?
//! equality   := relational (('==' | '!=') relational)*
//! relational := add (('<' | '<=' | '>' | '>=') add)*
//! add        := mul (('+' | '-') mul)*
//! mul        := unary (('*' | '/') unary)*
//! unary      := ('+' | '-')? primary
//! primary    := num | ident | '(' expr ')'
//! ```
//! Whitespace is insignificant and may appear around any token. Chains at one
//! precedence level fold into left-leaning trees, so `1-2-3` parses as
//! `(1-2)-3`. A `=` whose left side is not an identifier is a parse error.
//!
//! Each grammar rule has a specification function over `Seq<u8>` that defines
//! the parse exactly, and an executable function proved equal to it. A failed
//! parse carries the failing position and the productions attempted there.
use crate::ast::{BinaryOperation, Expr, ExprModel, OperatorKind, Program, seq_model};
use vstd::prelude::*;

verus! {

/// A grammar production, named in parse errors as an expected construct.
#[derive(Debug, PartialEq, Eq, Clone, Copy, Structural)]
pub enum Prod {
    Num,
    Ident,
    Operator,
    Primary,
    OpenParen,
    CloseParen,
    Semicolon,
    AssignTarget,
    Stmt,
}

/// A parse failure: the position of the offending byte and the set of
/// productions attempted there. The parser never recovers or retries; the
/// first failure ends the parse.
#[derive(Debug, PartialEq)]
pub struct ParseError {
    pub pos: usize,
    pub expected: Vec<Prod>,
}

/// The mathematical mirror of `ParseError`.
pub struct ErrModel {
    pub pos: int,
    pub expected: Seq<Prod>,
}

impl ParseError {
    /// The deep view of a parse error.
    pub open spec fn model(&self) -> ErrModel {
        ErrModel { pos: self.pos as int, expected: self.expected@ }
    }
}

/// The outcome of a specification-level parse: a value and the position just
/// after the consumed input, or a parse failure.
pub enum Parsed<T> {
    Found(T, int),
    Fail(ErrModel),
}

/// Lifts an executable expression-parse result to the specification level.
pub open spec fn parsed_expr(r: Result<(Expr, usize), ParseError>) -> Parsed<ExprModel> {
    match r {
        Ok((e, p)) => Parsed::Found(e.model(), p as int),
        Err(pe) => Parsed::Fail(pe.model()),
    }
}

/// Lifts an executable numeric-token result to the specification level.
pub open spec fn parsed_num(r: Result<(i64, usize), ParseError>) -> Parsed<int> {
    match r {
        Ok((n, p)) => Parsed::Found(n as int, p as int),
        Err(pe) => Parsed::Fail(pe.model()),
    }
}

/// Lifts an executable identifier-token result to the specification level.
pub open spec fn parsed_ident(r: Result<(Vec<u8>, usize), ParseError>) -> Parsed<Seq<u8>> {
    match r {
        Ok((name, p)) => Parsed::Found(name@, p as int),
        Err(pe) => Parsed::Fail(pe.model()),
    }
}

/// Lifts an executable operator-token result to the specification level.
pub open spec fn parsed_op(r: Result<(OperatorKind, usize), ParseError>) -> Parsed<OperatorKind> {
    match r {
        Ok((op, p)) => Parsed::Found(op, p as int),
        Err(pe) => Parsed::Fail(pe.model()),
    }
}

/// Whitespace: space, tab, line feed, carriage return.
pub open spec fn is_ws_byte(b: u8) -> bool {
    b == 32 || b == 9 || b == 10 || b == 13
}

/// An ASCII decimal digit.
pub open spec fn is_digit_byte(b: u8) -> bool {
    48 <= b && b <= 57
}

/// An ASCII letter.
pub open spec fn is_alpha_byte(b: u8) -> bool {
    (65 <= b && b <= 90) || (97 <= b && b <= 122)
}

/// A letter or a digit: the characters identifiers are made of.
pub open spec fn is_alnum_byte(b: u8) -> bool {
    is_digit_byte(b) || is_alpha_byte(b)
}

/// The first position at or after `pos` holding no whitespace.
pub open spec fn skip_ws(s: Seq<u8>, pos: int) -> int
    decreases s.len() - pos,
{
    if 0 <= pos && pos < s.len() && is_ws_byte(s[pos]) {
        skip_ws(s, pos + 1)
    } else {
        pos
    }
}

/// The end of the run of letters and digits starting at `pos`.
pub open spec fn alnum_end(s: Seq<u8>, pos: int) -> int
    decreases s.len() - pos,
{
    if 0 <= pos && pos < s.len() && is_alnum_byte(s[pos]) {
        alnum_end(s, pos + 1)
    } else {
        pos
    }
}

/// The end of the run of digits starting at `pos`.
pub open spec fn digit_end(s: Seq<u8>, pos: int) -> int
    decreases s.len() - pos,
{
    if 0 <= pos && pos < s.len() && is_digit_byte(s[pos]) {
        digit_end(s, pos + 1)
    } else {
        pos
    }
}

/// Bounds of `skip_ws`: it never moves backwards nor past the end.
pub proof fn lemma_skip_ws(s: Seq<u8>, pos: int)
    ensures
        pos <= skip_ws(s, pos),
        pos <= s.len() ==> skip_ws(s, pos) <= s.len(),
        0 <= pos < s.len() && !is_ws_byte(s[pos]) ==> skip_ws(s, pos) == pos,
    decreases s.len() - pos,
{
    if 0 <= pos && pos < s.len() && is_ws_byte(s[pos]) {
        lemma_skip_ws(s, pos + 1);
    }
}

/// Bounds of `alnum_end`, and that every byte of the run is a letter or digit.
pub proof fn lemma_alnum_end(s: Seq<u8>, pos: int)
    ensures
        pos <= alnum_end(s, pos),
        pos <= s.len() ==> alnum_end(s, pos) <= s.len(),
        forall|i: int| pos <= i < alnum_end(s, pos) && 0 <= pos ==> is_alnum_byte(#[trigger] s[i]),
    decreases s.len() - pos,
{
    if 0 <= pos && pos < s.len() && is_alnum_byte(s[pos]) {
        lemma_alnum_end(s, pos + 1);
    }
}

/// Bounds of `digit_end`, and that every byte of the run is a digit.
pub proof fn lemma_digit_end(s: Seq<u8>, pos: int)
    ensures
        pos <= digit_end(s, pos),
        pos <= s.len() ==> digit_end(s, pos) <= s.len(),
        forall|i: int| pos <= i < digit_end(s, pos) && 0 <= pos ==> is_digit_byte(#[trigger] s[i]),
    decreases s.len() - pos,
{
    if 0 <= pos && pos < s.len() && is_digit_byte(s[pos]) {
        lemma_digit_end(s, pos + 1);
    }
}

/// The numeric value of the digit run `s[start..end]`, most significant first.
pub open spec fn digits_val(s: Seq<u8>, start: int, end: int) -> int
    decreases end - start,
{
    if start >= end {
        0
    } else {
        digits_val(s, start, end - 1) * 10 + (s[end - 1] - 48)
    }
}

/// A digit run's value is nonnegative and weakly grows with its length.
pub proof fn lemma_digits_val_grows(s: Seq<u8>, start: int, mid: int, end: int)
    requires
        start <= mid <= end,
        forall|i: int| start <= i < end ==> is_digit_byte(#[trigger] s[i]),
    ensures
        0 <= digits_val(s, start, mid) <= digits_val(s, start, end),
    decreases end - mid,
{
    if mid == end {
        lemma_digits_val_nonneg(s, start, end);
    } else {
        lemma_digits_val_grows(s, start, mid, end - 1);
        lemma_digits_val_nonneg(s, start, end - 1);
    }
}

/// A digit run's value is nonnegative.
pub proof fn lemma_digits_val_nonneg(s: Seq<u8>, start: int, end: int)
    requires
        forall|i: int| start <= i < end ==> is_digit_byte(#[trigger] s[i]),
    ensures
        0 <= digits_val(s, start, end),
    decreases end - start,
{
    if start < end {
        lemma_digits_val_nonneg(s, start, end - 1);
    }
}

/// Skips whitespace: the executable form of `skip_ws`.
pub fn ws(s: &Vec<u8>, pos: usize) -> (p: usize)
    requires
        pos <= s@.len(),
    ensures
        p as int == skip_ws(s@, pos as int),
        pos <= p <= s@.len(),
{
    let mut i = pos;
    while i < s.len() && (s[i] == 32 || s[i] == 9 || s[i] == 10 || s[i] == 13)
        invariant
            pos <= i <= s@.len(),
            skip_ws(s@, pos as int) == skip_ws(s@, i as int),
        decreases s@.len() - i,
    {
        i = i + 1;
    }
    proof {
        lemma_skip_ws(s@, i as int);
    }
    i
}

/// Scans to the end of a letter-and-digit run: the executable `alnum_end`.
fn alnum_scan(s: &Vec<u8>, pos: usize) -> (p: usize)
    requires
        pos <= s@.len(),
    ensures
        p as int == alnum_end(s@, pos as int),
        pos <= p <= s@.len(),
{
    let mut i = pos;
    while i < s.len() && (
        (48 <= s[i] && s[i] <= 57) || (65 <= s[i] && s[i] <= 90) || (97 <= s[i] && s[i] <= 122)
    )
        invariant
            pos <= i <= s@.len(),
            alnum_end(s@, pos as int) == alnum_end(s@, i as int),
        decreases s@.len() - i,
    {
        i = i + 1;
    }
    proof {
        lemma_alnum_end(s@, i as int);
    }
    i
}

/// Scans to the end of a digit run: the executable `digit_end`.
fn digit_scan(s: &Vec<u8>, pos: usize) -> (p: usize)
    requires
        pos <= s@.len(),
    ensures
        p as int == digit_end(s@, pos as int),
        pos <= p <= s@.len(),
{
    let mut i = pos;
    while i < s.len() && 48 <= s[i] && s[i] <= 57
        invariant
            pos <= i <= s@.len(),
            digit_end(s@, pos as int) == digit_end(s@, i as int),
        decreases s@.len() - i,
    {
        i = i + 1;
    }
    proof {
        lemma_digit_end(s@, i as int);
    }
    i
}


/// Left parenthesis.
pub const B_LPAREN: u8 = 40;

/// Right parenthesis.
pub const B_RPAREN: u8 = 41;

/// Asterisk.
pub const B_STAR: u8 = 42;

/// Plus sign.
pub const B_PLUS: u8 = 43;

/// Minus sign.
pub const B_MINUS: u8 = 45;

/// Slash.
pub const B_SLASH: u8 = 47;

/// Semicolon.
pub const B_SEMI: u8 = 59;

/// Less-than sign.
pub const B_LT: u8 = 60;

/// Equals sign.
pub const B_EQ: u8 = 61;

/// Greater-than sign.
pub const B_GT: u8 = 62;

/// Exclamation mark.
pub const B_BANG: u8 = 33;

/// The statement keywords. An identifier token equal to one of these starts
/// the corresponding statement form; identifiers are otherwise free to use
/// these spellings (the expression-statement alternative is tried first).
#[derive(Debug, PartialEq, Eq, Clone, Copy, Structural)]
pub enum Kw {
    Return,
    If,
    While,
    For,
    Else,
}

/// The bytes of a keyword.
pub open spec fn kw_bytes(k: Kw) -> Seq<u8> {
    match k {
        Kw::Return => seq![114u8, 101u8, 116u8, 117u8, 114u8, 110u8],
        Kw::If => seq![105u8, 102u8],
        Kw::While => seq![119u8, 104u8, 105u8, 108u8, 101u8],
        Kw::For => seq![102u8, 111u8, 114u8],
        Kw::Else => seq![101u8, 108u8, 115u8, 101u8],
    }
}

/// Recognizes the keyword `k` at `pos` (after whitespace): the whole
/// letter-and-digit run there must equal the keyword. Yields the position
/// just after the keyword.
pub open spec fn kw_at(s: Seq<u8>, pos: int, k: Kw) -> Option<int> {
    let p = skip_ws(s, pos);
    let e = alnum_end(s, p);
    if 0 <= p && p <= e && e <= s.len() && s.subrange(p, e) == kw_bytes(k) {
        Some(e)
    } else {
        None
    }
}

/// The additive operators `+` and `-` at `pos` (after whitespace), with the
/// position just after the operator.
pub open spec fn add_op_at(s: Seq<u8>, pos: int) -> Option<(OperatorKind, int)> {
    let p = skip_ws(s, pos);
    if 0 <= p && p < s.len() && s[p] == B_PLUS {
        Some((OperatorKind::Add, p + 1))
    } else if 0 <= p && p < s.len() && s[p] == B_MINUS {
        Some((OperatorKind::Substruct, p + 1))
    } else {
        None
    }
}

/// The multiplicative operators `*` and `/` at `pos`.
pub open spec fn mul_op_at(s: Seq<u8>, pos: int) -> Option<(OperatorKind, int)> {
    let p = skip_ws(s, pos);
    if 0 <= p && p < s.len() && s[p] == B_STAR {
        Some((OperatorKind::Multiply, p + 1))
    } else if 0 <= p && p < s.len() && s[p] == B_SLASH {
        Some((OperatorKind::Divide, p + 1))
    } else {
        None
    }
}

/// The equality operators `==` and `!=` at `pos`.
pub open spec fn eq_op_at(s: Seq<u8>, pos: int) -> Option<(OperatorKind, int)> {
    let p = skip_ws(s, pos);
    if 0 <= p && p + 1 < s.len() && s[p] == B_EQ && s[p + 1] == B_EQ {
        Some((OperatorKind::Equal, p + 2))
    } else if 0 <= p && p + 1 < s.len() && s[p] == B_BANG && s[p + 1] == B_EQ {
        Some((OperatorKind::NotEqual, p + 2))
    } else {
        None
    }
}

/// The relational operators `<=`, `<`, `>=`, `>` at `pos`. The two-byte
/// spellings win over their one-byte prefixes.
pub open spec fn rel_op_at(s: Seq<u8>, pos: int) -> Option<(OperatorKind, int)> {
    let p = skip_ws(s, pos);
    if 0 <= p && p < s.len() && s[p] == B_LT {
        if p + 1 < s.len() && s[p + 1] == B_EQ {
            Some((OperatorKind::LessEqual, p + 2))
        } else {
            Some((OperatorKind::Less, p + 1))
        }
    } else if 0 <= p && p < s.len() && s[p] == B_GT {
        if p + 1 < s.len() && s[p + 1] == B_EQ {
            Some((OperatorKind::GreaterEqual, p + 2))
        } else {
            Some((OperatorKind::Greater, p + 1))
        }
    } else {
        None
    }
}

/// A single `=` at `pos` that is not the first byte of `==`.
pub open spec fn assign_op_at(s: Seq<u8>, pos: int) -> Option<int> {
    let p = skip_ws(s, pos);
    if 0 <= p && p < s.len() && s[p] == B_EQ && !(p + 1 < s.len() && s[p + 1] == B_EQ) {
        Some(p + 1)
    } else {
        None
    }
}

/// Combines the failures of two statement alternatives: the one that
/// progressed further wins; at equal positions the attempted productions
/// accumulate.
pub open spec fn merge_err(a: ErrModel, b: ErrModel) -> ErrModel {
    if b.pos > a.pos {
        b
    } else if a.pos > b.pos {
        a
    } else {
        ErrModel { pos: a.pos, expected: a.expected + b.expected }
    }
}

/// A failure carrying no production, returned on paths that no input reaches:
/// the grammar consumes at least one byte before each such recursive call, as
/// the executable parser's contracts prove.
pub open spec fn stuck<T>(pos: int) -> Parsed<T> {
    Parsed::Fail(ErrModel { pos: pos, expected: Seq::empty() })
}


/// A numeric literal token at `pos` (after whitespace): a digit run whose
/// value fits the literal type. An overflowing run is not a numeric literal
/// (the `primary` rule reads it as an identifier instead).
pub open spec fn spec_num(s: Seq<u8>, pos: int) -> Parsed<int> {
    let p = skip_ws(s, pos);
    if 0 <= p && p < s.len() && is_digit_byte(s[p]) {
        let e = digit_end(s, p);
        if digits_val(s, p, e) <= i64::MAX as int {
            Parsed::Found(digits_val(s, p, e), e)
        } else {
            Parsed::Fail(ErrModel { pos: p, expected: seq![Prod::Num] })
        }
    } else {
        Parsed::Fail(ErrModel { pos: p, expected: seq![Prod::Num] })
    }
}

/// An identifier token at `pos` (after whitespace): a letter-and-digit run.
pub open spec fn spec_ident(s: Seq<u8>, pos: int) -> Parsed<Seq<u8>> {
    let p = skip_ws(s, pos);
    if 0 <= p && p < s.len() && is_alnum_byte(s[p]) {
        Parsed::Found(s.subrange(p, alnum_end(s, p)), alnum_end(s, p))
    } else {
        Parsed::Fail(ErrModel { pos: p, expected: seq![Prod::Ident] })
    }
}

/// `primary := num | ident | '(' expr ')'`. A digit run that overflows the
/// literal type falls through to the identifier alternative, which then takes
/// the whole letter-and-digit run.
pub open spec fn spec_primary(s: Seq<u8>, pos: int) -> Parsed<ExprModel>
    decreases s.len() - pos, 2int,
{
    let p = skip_ws(s, pos);
    if 0 <= p && p < s.len() && (is_digit_byte(s[p]) || is_alpha_byte(s[p])) {
        match spec_num(s, pos) {
            Parsed::Found(v, e) => Parsed::Found(ExprModel::Num(v), e),
            Parsed::Fail(_) => match spec_ident(s, pos) {
                Parsed::Found(name, e) => Parsed::Found(ExprModel::Ident(name), e),
                Parsed::Fail(f) => Parsed::Fail(f),
            },
        }
    } else if 0 <= p && p < s.len() && s[p] == B_LPAREN {
        spec_paren_expr(s, pos)
    } else {
        Parsed::Fail(ErrModel { pos: p, expected: seq![Prod::Primary] })
    }
}

/// A parenthesized expression: `'(' expr ')'`.
pub open spec fn spec_paren_expr(s: Seq<u8>, pos: int) -> Parsed<ExprModel>
    decreases s.len() - pos, 1int,
{
    let p = skip_ws(s, pos);
    if 0 <= p && p < s.len() && s[p] == B_LPAREN {
        proof {
            lemma_skip_ws(s, pos);
        }
        match spec_expr(s, p + 1) {
            Parsed::Fail(f) => Parsed::Fail(f),
            Parsed::Found(e1, p1) => {
                let p2 = skip_ws(s, p1);
                if 0 <= p2 && p2 < s.len() && s[p2] == B_RPAREN {
                    Parsed::Found(e1, p2 + 1)
                } else {
                    Parsed::Fail(ErrModel { pos: p2, expected: seq![Prod::CloseParen] })
                }
            },
        }
    } else {
        Parsed::Fail(ErrModel { pos: p, expected: seq![Prod::Primary] })
    }
}

/// `unary := ('+' | '-')? primary`. A leading `-` becomes a subtraction from
/// zero; a leading `+` is a no-op.
pub open spec fn spec_unary(s: Seq<u8>, pos: int) -> Parsed<ExprModel>
    decreases s.len() - pos, 3int,
{
    let p = skip_ws(s, pos);
    if 0 <= p && p < s.len() && s[p] == B_PLUS {
        proof {
            lemma_skip_ws(s, pos);
        }
        spec_primary(s, p + 1)
    } else if 0 <= p && p < s.len() && s[p] == B_MINUS {
        proof {
            lemma_skip_ws(s, pos);
        }
        match spec_primary(s, p + 1) {
            Parsed::Fail(f) => Parsed::Fail(f),
            Parsed::Found(e1, p1) => Parsed::Found(
                ExprModel::BinaryOperation(
                    OperatorKind::Substruct,
                    Box::new(ExprModel::Num(0)),
                    Box::new(e1),
                ),
                p1,
            ),
        }
    } else {
        spec_primary(s, pos)
    }
}

/// The operators already parsed fold into a left-leaning tree: `acc` is the
/// chain so far and becomes the left child of the next operator node.
pub open spec fn spec_mul_rest(s: Seq<u8>, pos: int, acc: ExprModel) -> Parsed<ExprModel>
    decreases s.len() - pos, 4int,
{
    match mul_op_at(s, pos) {
        None => Parsed::Found(acc, pos),
        Some((op, p1)) => {
            proof {
                lemma_skip_ws(s, pos);
            }
            match spec_unary(s, p1) {
                Parsed::Fail(f) => Parsed::Fail(f),
                Parsed::Found(rhs, p2) => if p2 <= pos || p2 > s.len() {
                    stuck(p2)
                } else {
                    spec_mul_rest(
                        s,
                        p2,
                        ExprModel::BinaryOperation(op, Box::new(acc), Box::new(rhs)),
                    )
                },
            }
        },
    }
}

/// `mul := unary (('*' | '/') unary)*`, folded left.
pub open spec fn spec_mul(s: Seq<u8>, pos: int) -> Parsed<ExprModel>
    decreases s.len() - pos, 5int,
{
    match spec_unary(s, pos) {
        Parsed::Fail(f) => Parsed::Fail(f),
        Parsed::Found(e1, p1) => if p1 < pos || p1 > s.len() {
            stuck(p1)
        } else {
            spec_mul_rest(s, p1, e1)
        },
    }
}

/// The additive chain so far folds left; see `spec_mul_rest`.
pub open spec fn spec_add_rest(s: Seq<u8>, pos: int, acc: ExprModel) -> Parsed<ExprModel>
    decreases s.len() - pos, 6int,
{
    match add_op_at(s, pos) {
        None => Parsed::Found(acc, pos),
        Some((op, p1)) => {
            proof {
                lemma_skip_ws(s, pos);
            }
            match spec_mul(s, p1) {
                Parsed::Fail(f) => Parsed::Fail(f),
                Parsed::Found(rhs, p2) => if p2 <= pos || p2 > s.len() {
                    stuck(p2)
                } else {
                    spec_add_rest(
                        s,
                        p2,
                        ExprModel::BinaryOperation(op, Box::new(acc), Box::new(rhs)),
                    )
                },
            }
        },
    }
}

/// `add := mul (('+' | '-') mul)*`, folded left.
pub open spec fn spec_add(s: Seq<u8>, pos: int) -> Parsed<ExprModel>
    decreases s.len() - pos, 7int,
{
    match spec_mul(s, pos) {
        Parsed::Fail(f) => Parsed::Fail(f),
        Parsed::Found(e1, p1) => if p1 < pos || p1 > s.len() {
            stuck(p1)
        } else {
            spec_add_rest(s, p1, e1)
        },
    }
}

/// The relational chain so far folds left; see `spec_mul_rest`.
pub open spec fn spec_relational_rest(s: Seq<u8>, pos: int, acc: ExprModel) -> Parsed<ExprModel>
    decreases s.len() - pos, 8int,
{
    match rel_op_at(s, pos) {
        None => Parsed::Found(acc, pos),
        Some((op, p1)) => {
            proof {
                lemma_skip_ws(s, pos);
            }
            match spec_add(s, p1) {
                Parsed::Fail(f) => Parsed::Fail(f),
                Parsed::Found(rhs, p2) => if p2 <= pos || p2 > s.len() {
                    stuck(p2)
                } else {
                    spec_relational_rest(
                        s,
                        p2,
                        ExprModel::BinaryOperation(op, Box::new(acc), Box::new(rhs)),
                    )
                },
            }
        },
    }
}

/// `relational := add (('<' | '<=' | '>' | '>=') add)*`, folded left.
pub open spec fn spec_relational(s: Seq<u8>, pos: int) -> Parsed<ExprModel>
    decreases s.len() - pos, 9int,
{
    match spec_add(s, pos) {
        Parsed::Fail(f) => Parsed::Fail(f),
        Parsed::Found(e1, p1) => if p1 < pos || p1 > s.len() {
            stuck(p1)
        } else {
            spec_relational_rest(s, p1, e1)
        },
    }
}

/// The equality chain so far folds left; see `spec_mul_rest`.
pub open spec fn spec_equality_rest(s: Seq<u8>, pos: int, acc: ExprModel) -> Parsed<ExprModel>
    decreases s.len() - pos, 10int,
{
    match eq_op_at(s, pos) {
        None => Parsed::Found(acc, pos),
        Some((op, p1)) => {
            proof {
                lemma_skip_ws(s, pos);
            }
            match spec_relational(s, p1) {
                Parsed::Fail(f) => Parsed::Fail(f),
                Parsed::Found(rhs, p2) => if p2 <= pos || p2 > s.len() {
                    stuck(p2)
                } else {
                    spec_equality_rest(
                        s,
                        p2,
                        ExprModel::BinaryOperation(op, Box::new(acc), Box::new(rhs)),
                    )
                },
            }
        },
    }
}

/// `equality := relational (('==' | '!=') relational)*`, folded left.
pub open spec fn spec_equality(s: Seq<u8>, pos: int) -> Parsed<ExprModel>
    decreases s.len() - pos, 11int,
{
    match spec_relational(s, pos) {
        Parsed::Fail(f) => Parsed::Fail(f),
        Parsed::Found(e1, p1) => if p1 < pos || p1 > s.len() {
            stuck(p1)
        } else {
            spec_equality_rest(s, p1, e1)
        },
    }
}

/// `assign := equality ('=' assign)?`. Assignment is right-associative, and
/// its left side must be an identifier; any other left side is a parse error
/// at the `=`.
pub open spec fn spec_assign(s: Seq<u8>, pos: int) -> Parsed<ExprModel>
    decreases s.len() - pos, 13int,
{
    match spec_equality(s, pos) {
        Parsed::Fail(f) => Parsed::Fail(f),
        Parsed::Found(e1, p1) => if p1 < pos || p1 > s.len() {
            stuck(p1)
        } else {
            match assign_op_at(s, p1) {
                None => Parsed::Found(e1, p1),
                Some(pe) => match e1 {
                    ExprModel::Ident(_) => {
                        proof {
                            lemma_skip_ws(s, p1);
                        }
                        match spec_assign(s, pe) {
                            Parsed::Fail(f) => Parsed::Fail(f),
                            Parsed::Found(rhs, p2) => Parsed::Found(
                                ExprModel::BinaryOperation(
                                    OperatorKind::Assign,
                                    Box::new(e1),
                                    Box::new(rhs),
                                ),
                                p2,
                            ),
                        }
                    },
                    _ => Parsed::Fail(
                        ErrModel { pos: skip_ws(s, p1), expected: seq![Prod::AssignTarget] },
                    ),
                },
            }
        },
    }
}

/// `expr := assign`.
pub open spec fn spec_expr(s: Seq<u8>, pos: int) -> Parsed<ExprModel>
    decreases s.len() - pos, 15int,
{
    spec_assign(s, pos)
}


/// `stmt := expr ';'`: an expression statement.
pub open spec fn spec_expr_stmt(s: Seq<u8>, pos: int) -> Parsed<ExprModel> {
    match spec_expr(s, pos) {
        Parsed::Fail(f) => Parsed::Fail(f),
        Parsed::Found(e1, p1) => {
            let p2 = skip_ws(s, p1);
            if 0 <= p2 && p2 < s.len() && s[p2] == B_SEMI {
                Parsed::Found(e1, p2 + 1)
            } else {
                Parsed::Fail(ErrModel { pos: p2, expected: seq![Prod::Semicolon] })
            }
        },
    }
}

/// `stmt := 'return' expr ';'`.
pub open spec fn spec_return_stmt(s: Seq<u8>, pos: int) -> Parsed<ExprModel> {
    match kw_at(s, pos, Kw::Return) {
        None => Parsed::Fail(ErrModel { pos: skip_ws(s, pos), expected: seq![Prod::Stmt] }),
        Some(pk) => {
            match spec_expr(s, pk) {
                Parsed::Fail(f) => Parsed::Fail(f),
                Parsed::Found(e1, p1) => {
                    let p2 = skip_ws(s, p1);
                    if 0 <= p2 && p2 < s.len() && s[p2] == B_SEMI {
                        Parsed::Found(ExprModel::Return(Box::new(e1)), p2 + 1)
                    } else {
                        Parsed::Fail(ErrModel { pos: p2, expected: seq![Prod::Semicolon] })
                    }
                },
            }
        },
    }
}

/// A parenthesized condition `'(' expr ')'`, as the control-flow statement
/// forms use it.
pub open spec fn spec_cond(s: Seq<u8>, pos: int) -> Parsed<ExprModel> {
    let p1 = skip_ws(s, pos);
    if !(0 <= p1 && p1 < s.len() && s[p1] == B_LPAREN) {
        Parsed::Fail(ErrModel { pos: p1, expected: seq![Prod::OpenParen] })
    } else {
        match spec_expr(s, p1 + 1) {
            Parsed::Fail(f) => Parsed::Fail(f),
            Parsed::Found(c, p2) => {
                let p3 = skip_ws(s, p2);
                if 0 <= p3 && p3 < s.len() && s[p3] == B_RPAREN {
                    Parsed::Found(c, p3 + 1)
                } else {
                    Parsed::Fail(ErrModel { pos: p3, expected: seq![Prod::CloseParen] })
                }
            },
        }
    }
}

/// The optional `'else' stmt` tail of an if statement, after the then
/// branch ending at `prev`.
pub open spec fn spec_else_tail(s: Seq<u8>, prev: int) -> Parsed<Option<Box<ExprModel>>>
    decreases s.len() - prev, 18int,
{
    match kw_at(s, prev, Kw::Else) {
        None => Parsed::Found(None, prev),
        Some(pe) => if pe <= prev || pe > s.len() {
            stuck(pe)
        } else {
            match spec_stmt(s, pe) {
                Parsed::Fail(f) => Parsed::Fail(f),
                Parsed::Found(els, p6) => Parsed::Found(Some(Box::new(els)), p6),
            }
        },
    }
}

/// `stmt := 'if' '(' expr ')' stmt ('else' stmt)?`.
pub open spec fn spec_if_stmt(s: Seq<u8>, pos: int) -> Parsed<ExprModel>
    decreases s.len() - pos, 17int,
{
    match kw_at(s, pos, Kw::If) {
        None => Parsed::Fail(ErrModel { pos: skip_ws(s, pos), expected: seq![Prod::Stmt] }),
        Some(pk) => match spec_cond(s, pk) {
            Parsed::Fail(f) => Parsed::Fail(f),
            Parsed::Found(c, p4) => if p4 <= pos || p4 > s.len() {
                stuck(p4)
            } else {
                match spec_stmt(s, p4) {
                    Parsed::Fail(f) => Parsed::Fail(f),
                    Parsed::Found(t, p5) => if p5 <= pos || p5 > s.len() {
                        stuck(p5)
                    } else {
                        match spec_else_tail(s, p5) {
                            Parsed::Fail(f) => Parsed::Fail(f),
                            Parsed::Found(els, p6) => Parsed::Found(
                                ExprModel::If(Box::new(c), Box::new(t), els),
                                p6,
                            ),
                        }
                    },
                }
            },
        },
    }
}

/// `stmt := 'while' '(' expr ')' stmt`.
pub open spec fn spec_while_stmt(s: Seq<u8>, pos: int) -> Parsed<ExprModel>
    decreases s.len() - pos, 17int,
{
    match kw_at(s, pos, Kw::While) {
        None => Parsed::Fail(ErrModel { pos: skip_ws(s, pos), expected: seq![Prod::Stmt] }),
        Some(pk) => match spec_cond(s, pk) {
            Parsed::Fail(f) => Parsed::Fail(f),
            Parsed::Found(c, p4) => if p4 <= pos || p4 > s.len() {
                stuck(p4)
            } else {
                match spec_stmt(s, p4) {
                    Parsed::Fail(f) => Parsed::Fail(f),
                    Parsed::Found(b, p5) => Parsed::Found(
                        ExprModel::While(Box::new(c), Box::new(b)),
                        p5,
                    ),
                }
            },
        },
    }
}

/// One of the three optional header expressions of a `for` statement,
/// followed by the terminator `term` (`;` or `)`). An immediate terminator
/// means the expression is absent.
pub open spec fn spec_for_part(s: Seq<u8>, pos: int, term: u8) -> Parsed<
    Option<Box<ExprModel>>,
> {
    let q = skip_ws(s, pos);
    if 0 <= q && q < s.len() && s[q] == term {
        Parsed::Found(None, q + 1)
    } else {
        match spec_expr(s, pos) {
            Parsed::Fail(f) => Parsed::Fail(f),
            Parsed::Found(e1, q1) => {
                let q2 = skip_ws(s, q1);
                if 0 <= q2 && q2 < s.len() && s[q2] == term {
                    Parsed::Found(Some(Box::new(e1)), q2 + 1)
                } else {
                    Parsed::Fail(
                        ErrModel {
                            pos: q2,
                            expected: seq![
                                if term == B_SEMI {
                                    Prod::Semicolon
                                } else {
                                    Prod::CloseParen
                                },
                            ],
                        },
                    )
                }
            },
        }
    }
}

/// The header of a for statement: `'(' expr? ';' expr? ';' expr? ')'`,
/// yielding the optional initializer, condition and step.
#[verifier::opaque]
pub open spec fn spec_for_header(s: Seq<u8>, pos: int) -> Parsed<
    (Option<Box<ExprModel>>, Option<Box<ExprModel>>, Option<Box<ExprModel>>),
> {
    let p1 = skip_ws(s, pos);
    if !(0 <= p1 && p1 < s.len() && s[p1] == B_LPAREN) {
        Parsed::Fail(ErrModel { pos: p1, expected: seq![Prod::OpenParen] })
    } else {
        match spec_for_part(s, p1 + 1, B_SEMI) {
            Parsed::Fail(f) => Parsed::Fail(f),
            Parsed::Found(init, a) => match spec_for_part(s, a, B_SEMI) {
                Parsed::Fail(f) => Parsed::Fail(f),
                Parsed::Found(cond, b) => match spec_for_part(s, b, B_RPAREN) {
                    Parsed::Fail(f) => Parsed::Fail(f),
                    Parsed::Found(step, c) => Parsed::Found((init, cond, step), c),
                },
            },
        }
    }
}

/// `stmt := 'for' '(' expr? ';' expr? ';' expr? ')' stmt`.
pub open spec fn spec_for_stmt(s: Seq<u8>, pos: int) -> Parsed<ExprModel>
    decreases s.len() - pos, 17int,
{
    match kw_at(s, pos, Kw::For) {
        None => Parsed::Fail(ErrModel { pos: skip_ws(s, pos), expected: seq![Prod::Stmt] }),
        Some(pk) => match spec_for_header(s, pk) {
            Parsed::Fail(f) => Parsed::Fail(f),
            Parsed::Found((init, cond, step), c) => if c <= pos || c > s.len() {
                stuck(c)
            } else {
                match spec_stmt(s, c) {
                    Parsed::Fail(f) => Parsed::Fail(f),
                    Parsed::Found(body, p5) => Parsed::Found(
                        ExprModel::For(init, cond, step, Box::new(body)),
                        p5,
                    ),
                }
            },
        },
    }
}

/// A statement: the five forms are tried in order (expression statement
/// first, so a keyword spelling usable as an identifier is still an
/// identifier where that parse succeeds); if all fail, the failure that
/// progressed furthest is reported.
pub open spec fn spec_stmt(s: Seq<u8>, pos: int) -> Parsed<ExprModel>
    decreases s.len() - pos, 19int,
{
    match spec_expr_stmt(s, pos) {
        Parsed::Found(v, p) => Parsed::Found(v, p),
        Parsed::Fail(e1) => match spec_return_stmt(s, pos) {
            Parsed::Found(v, p) => Parsed::Found(v, p),
            Parsed::Fail(e2) => match spec_if_stmt(s, pos) {
                Parsed::Found(v, p) => Parsed::Found(v, p),
                Parsed::Fail(e3) => match spec_while_stmt(s, pos) {
                    Parsed::Found(v, p) => Parsed::Found(v, p),
                    Parsed::Fail(e4) => match spec_for_stmt(s, pos) {
                        Parsed::Found(v, p) => Parsed::Found(v, p),
                        Parsed::Fail(e5) => Parsed::Fail(
                            merge_err(merge_err(merge_err(merge_err(e1, e2), e3), e4), e5),
                        ),
                    },
                },
            },
        },
    }
}

/// `program := stmt*`, to the end of the input: statements accumulate into
/// `acc` until only whitespace remains; anything else that fails to parse as
/// a statement (trailing input included) fails the program.
pub open spec fn spec_program_rest(s: Seq<u8>, pos: int, acc: Seq<ExprModel>) -> Parsed<
    Seq<ExprModel>,
>
    decreases s.len() - pos, 21int,
{
    let p = skip_ws(s, pos);
    if p >= s.len() {
        Parsed::Found(acc, s.len() as int)
    } else {
        match spec_stmt(s, pos) {
            Parsed::Fail(f) => Parsed::Fail(f),
            Parsed::Found(st, p1) => if p1 <= pos || p1 > s.len() {
                stuck(p1)
            } else {
                spec_program_rest(s, p1, acc.push(st))
            },
        }
    }
}

/// A whole program: the statement list from the start of the input.
pub open spec fn spec_program(s: Seq<u8>) -> Parsed<Seq<ExprModel>> {
    spec_program_rest(s, 0, Seq::empty())
}


/// Builds a single-production parse error.
fn perr(pos: usize, which: Prod) -> (e: ParseError)
    ensures
        e.model() == (ErrModel { pos: pos as int, expected: seq![which] }),
{
    let v: Vec<Prod> = vec![which];
    proof {
        assert(v@ =~= seq![which]);
    }
    ParseError { pos, expected: v }
}

/// Whether `s[start..end]` equals `kw`.
fn bytes_match(s: &Vec<u8>, start: usize, end: usize, kw: &Vec<u8>) -> (r: bool)
    requires
        start <= end <= s@.len(),
    ensures
        r == (s@.subrange(start as int, end as int) == kw@),
{
    let n = end - start;
    if n != kw.len() {
        proof {
            assert(s@.subrange(start as int, end as int).len() == n);
        }
        return false;
    }
    let mut i: usize = 0;
    while i < n
        invariant
            0 <= i <= n,
            n == end - start,
            start <= end <= s@.len(),
            n == kw@.len(),
            forall|j: int| 0 <= j < i ==> s@[start + j] == kw@[j],
        decreases n - i,
    {
        if s[start + i] != kw[i] {
            proof {
                assert(s@.subrange(start as int, end as int)[i as int] != kw@[i as int]);
            }
            return false;
        }
        i = i + 1;
    }
    proof {
        assert(s@.subrange(start as int, end as int) =~= kw@);
    }
    true
}

/// The bytes of a keyword, as a vector.
fn kw_vec(k: Kw) -> (v: Vec<u8>)
    ensures
        v@ == kw_bytes(k),
{
    match k {
        Kw::Return => {
            let v: Vec<u8> = vec![114, 101, 116, 117, 114, 110];
            proof {
                assert(v@ =~= kw_bytes(Kw::Return));
            }
            v
        },
        Kw::If => {
            let v: Vec<u8> = vec![105, 102];
            proof {
                assert(v@ =~= kw_bytes(Kw::If));
            }
            v
        },
        Kw::While => {
            let v: Vec<u8> = vec![119, 104, 105, 108, 101];
            proof {
                assert(v@ =~= kw_bytes(Kw::While));
            }
            v
        },
        Kw::For => {
            let v: Vec<u8> = vec![102, 111, 114];
            proof {
                assert(v@ =~= kw_bytes(Kw::For));
            }
            v
        },
        Kw::Else => {
            let v: Vec<u8> = vec![101, 108, 115, 101];
            proof {
                assert(v@ =~= kw_bytes(Kw::Else));
            }
            v
        },
    }
}

/// Recognizes the keyword `k` at `pos`: the executable `kw_at`.
fn kw_token(s: &Vec<u8>, pos: usize, k: Kw) -> (r: Option<usize>)
    requires
        pos <= s@.len(),
    ensures
        match r {
            Some(e) => kw_at(s@, pos as int, k) == Some(e as int) && pos < e <= s@.len(),
            None => kw_at(s@, pos as int, k) is None,
        },
{
    let p = ws(s, pos);
    let e = alnum_scan(s, p);
    let kv = kw_vec(k);
    if bytes_match(s, p, e, &kv) {
        proof {
            assert(s@.subrange(p as int, e as int).len() == e - p);
            assert(kw_bytes(k).len() >= 2);
        }
        Some(e)
    } else {
        None
    }
}

/// The executable `add_op_at`.
fn add_op(s: &Vec<u8>, pos: usize) -> (r: Option<(OperatorKind, usize)>)
    requires
        pos <= s@.len(),
    ensures
        match r {
            Some((op, e)) => add_op_at(s@, pos as int) == Some((op, e as int)) && pos < e
                <= s@.len(),
            None => add_op_at(s@, pos as int) is None,
        },
{
    let p = ws(s, pos);
    if p < s.len() && s[p] == B_PLUS {
        Some((OperatorKind::Add, p + 1))
    } else if p < s.len() && s[p] == B_MINUS {
        Some((OperatorKind::Substruct, p + 1))
    } else {
        None
    }
}

/// The executable `mul_op_at`.
fn mul_op(s: &Vec<u8>, pos: usize) -> (r: Option<(OperatorKind, usize)>)
    requires
        pos <= s@.len(),
    ensures
        match r {
            Some((op, e)) => mul_op_at(s@, pos as int) == Some((op, e as int)) && pos < e
                <= s@.len(),
            None => mul_op_at(s@, pos as int) is None,
        },
{
    let p = ws(s, pos);
    if p < s.len() && s[p] == B_STAR {
        Some((OperatorKind::Multiply, p + 1))
    } else if p < s.len() && s[p] == B_SLASH {
        Some((OperatorKind::Divide, p + 1))
    } else {
        None
    }
}

/// The executable `eq_op_at`.
fn eq_op(s: &Vec<u8>, pos: usize) -> (r: Option<(OperatorKind, usize)>)
    requires
        pos <= s@.len(),
    ensures
        match r {
            Some((op, e)) => eq_op_at(s@, pos as int) == Some((op, e as int)) && pos < e
                <= s@.len(),
            None => eq_op_at(s@, pos as int) is None,
        },
{
    let p = ws(s, pos);
    if p < s.len() && p + 1 < s.len() && s[p] == B_EQ && s[p + 1] == B_EQ {
        Some((OperatorKind::Equal, p + 2))
    } else if p < s.len() && p + 1 < s.len() && s[p] == B_BANG && s[p + 1] == B_EQ {
        Some((OperatorKind::NotEqual, p + 2))
    } else {
        None
    }
}

/// The executable `rel_op_at`.
fn rel_op(s: &Vec<u8>, pos: usize) -> (r: Option<(OperatorKind, usize)>)
    requires
        pos <= s@.len(),
    ensures
        match r {
            Some((op, e)) => rel_op_at(s@, pos as int) == Some((op, e as int)) && pos < e
                <= s@.len(),
            None => rel_op_at(s@, pos as int) is None,
        },
{
    let p = ws(s, pos);
    if p < s.len() && s[p] == B_LT {
        if p + 1 < s.len() && s[p + 1] == B_EQ {
            Some((OperatorKind::LessEqual, p + 2))
        } else {
            Some((OperatorKind::Less, p + 1))
        }
    } else if p < s.len() && s[p] == B_GT {
        if p + 1 < s.len() && s[p + 1] == B_EQ {
            Some((OperatorKind::GreaterEqual, p + 2))
        } else {
            Some((OperatorKind::Greater, p + 1))
        }
    } else {
        None
    }
}

/// The executable `assign_op_at`.
fn assign_op(s: &Vec<u8>, pos: usize) -> (r: Option<usize>)
    requires
        pos <= s@.len(),
    ensures
        match r {
            Some(e) => assign_op_at(s@, pos as int) == Some(e as int) && pos < e <= s@.len(),
            None => assign_op_at(s@, pos as int) is None,
        },
{
    let p = ws(s, pos);
    if p < s.len() && s[p] == B_EQ && !(p + 1 < s.len() && s[p + 1] == B_EQ) {
        Some(p + 1)
    } else {
        None
    }
}

/// The additive operators as a parser of their own: `+` or `-`, after
/// whitespace.
pub open spec fn spec_add_op(s: Seq<u8>, pos: int) -> Parsed<OperatorKind> {
    match add_op_at(s, pos) {
        Some((op, e)) => Parsed::Found(op, e),
        None => Parsed::Fail(ErrModel { pos: skip_ws(s, pos), expected: seq![Prod::Operator] }),
    }
}

/// Parses a `+` or `-` operator token.
pub fn add_op_parser(s: &Vec<u8>, pos: usize) -> (r: Result<(OperatorKind, usize), ParseError>)
    requires
        pos <= s@.len(),
    ensures
        parsed_op(r) == spec_add_op(s@, pos as int),
        match r {
            Ok((_, p)) => pos < p <= s@.len(),
            Err(_) => true,
        },
{
    match add_op(s, pos) {
        Some((op, e)) => Ok((op, e)),
        None => {
            let p = ws(s, pos);
            Err(perr(p, Prod::Operator))
        },
    }
}

/// Copies `s[start..end]` into a fresh vector.
fn copy_range(s: &Vec<u8>, start: usize, end: usize) -> (v: Vec<u8>)
    requires
        start <= end <= s@.len(),
    ensures
        v@ == s@.subrange(start as int, end as int),
{
    let mut v: Vec<u8> = Vec::new();
    let mut i = start;
    while i < end
        invariant
            start <= i <= end <= s@.len(),
            v@ == s@.subrange(start as int, i as int),
        decreases end - i,
    {
        v.push(s[i]);
        proof {
            assert(v@ =~= s@.subrange(start as int, i + 1));
        }
        i = i + 1;
    }
    v
}

/// Parses a numeric literal token: the executable `spec_num`.
pub fn num_parser(s: &Vec<u8>, pos: usize) -> (r: Result<(i64, usize), ParseError>)
    requires
        pos <= s@.len(),
    ensures
        parsed_num(r) == spec_num(s@, pos as int),
        match r {
            Ok((_, p)) => pos < p <= s@.len(),
            Err(_) => true,
        },
{
    let p = ws(s, pos);
    if p < s.len() && 48 <= s[p] && s[p] <= 57 {
        let e = digit_scan(s, p);
        proof {
            lemma_digit_end(s@, p as int);
            lemma_digit_end(s@, p as int + 1);
        }
        let mut acc: i64 = 0;
        let mut over = false;
        let mut i = p;
        while i < e
            invariant
                p <= i <= e <= s@.len(),
                e as int == digit_end(s@, p as int),
                forall|j: int| p <= j < e ==> is_digit_byte(#[trigger] s@[j]),
                !over ==> 0 <= acc && acc as int == digits_val(s@, p as int, i as int),
                over ==> digits_val(s@, p as int, i as int) > i64::MAX as int,
            decreases e - i,
        {
            let d = s[i] - 48;
            if over || acc > (i64::MAX - d as i64) / 10 {
                proof {
                    if !over {
                        let q = (i64::MAX - d) as int / 10;
                        assert(q * 10 + (i64::MAX - d) as int % 10 == i64::MAX - d);
                        assert(acc as int * 10 >= (q + 1) * 10);
                    } else {
                        lemma_digits_val_nonneg(s@, p as int, i as int);
                    }
                }
                over = true;
            } else {
                acc = acc * 10 + d as i64;
            }
            i = i + 1;
        }
        if over {
            proof {
                lemma_digits_val_nonneg(s@, p as int, e as int);
            }
            Err(perr(p, Prod::Num))
        } else {
            Ok((acc, e))
        }
    } else {
        Err(perr(p, Prod::Num))
    }
}

/// Parses an identifier token: the executable `spec_ident`.
pub fn ident_parser(s: &Vec<u8>, pos: usize) -> (r: Result<(Vec<u8>, usize), ParseError>)
    requires
        pos <= s@.len(),
    ensures
        parsed_ident(r) == spec_ident(s@, pos as int),
        match r {
            Ok((_, p)) => pos < p <= s@.len(),
            Err(_) => true,
        },
{
    let p = ws(s, pos);
    if p < s.len() && (
        (48 <= s[p] && s[p] <= 57) || (65 <= s[p] && s[p] <= 90) || (97 <= s[p] && s[p] <= 122)
    ) {
        let e = alnum_scan(s, p);
        proof {
            lemma_alnum_end(s@, p as int);
            lemma_alnum_end(s@, p as int + 1);
        }
        let name = copy_range(s, p, e);
        Ok((name, e))
    } else {
        Err(perr(p, Prod::Ident))
    }
}


/// What a successful expression parse guarantees: the position advanced, it
/// stayed within the input, and the tree is well formed (assignment targets
/// are identifiers).
pub open spec fn advances(r: Result<(Expr, usize), ParseError>, pos: int, s: Seq<u8>) -> bool {
    match r {
        Ok((e, p)) => pos < p <= s.len() && e.model().wf(),
        Err(_) => true,
    }
}

/// Whether an expression is an identifier node.
fn is_ident(e: &Expr) -> (r: bool)
    ensures
        r == (e.model() is Ident),
{
    match e {
        Expr::Ident(_) => true,
        _ => false,
    }
}

/// Parses `primary := num | ident | '(' expr ')'`.
pub fn primary_parser(s: &Vec<u8>, pos: usize) -> (r: Result<(Expr, usize), ParseError>)
    requires
        pos <= s@.len(),
    ensures
        parsed_expr(r) == spec_primary(s@, pos as int),
        advances(r, pos as int, s@),
    decreases s@.len() - pos, 2int,
{
    let p = ws(s, pos);
    if p < s.len() && (
        (48 <= s[p] && s[p] <= 57) || (65 <= s[p] && s[p] <= 90) || (97 <= s[p] && s[p] <= 122)
    ) {
        match num_parser(s, pos) {
            Ok((v, e)) => Ok((Expr::Num(v), e)),
            Err(_) => match ident_parser(s, pos) {
                Ok((name, e)) => Ok((Expr::Ident(name), e)),
                Err(f) => Err(f),
            },
        }
    } else if p < s.len() && s[p] == B_LPAREN {
        paren_expr_parser(s, pos)
    } else {
        Err(perr(p, Prod::Primary))
    }
}

/// Parses `'(' expr ')'`.
pub fn paren_expr_parser(s: &Vec<u8>, pos: usize) -> (r: Result<(Expr, usize), ParseError>)
    requires
        pos <= s@.len(),
    ensures
        parsed_expr(r) == spec_paren_expr(s@, pos as int),
        advances(r, pos as int, s@),
    decreases s@.len() - pos, 1int,
{
    let p = ws(s, pos);
    if p < s.len() && s[p] == B_LPAREN {
        match expr_parser(s, p + 1) {
            Err(f) => Err(f),
            Ok((e1, p1)) => {
                let p2 = ws(s, p1);
                if p2 < s.len() && s[p2] == B_RPAREN {
                    Ok((e1, p2 + 1))
                } else {
                    Err(perr(p2, Prod::CloseParen))
                }
            },
        }
    } else {
        Err(perr(p, Prod::Primary))
    }
}

/// Parses `unary := ('+' | '-')? primary`.
pub fn unary_parser(s: &Vec<u8>, pos: usize) -> (r: Result<(Expr, usize), ParseError>)
    requires
        pos <= s@.len(),
    ensures
        parsed_expr(r) == spec_unary(s@, pos as int),
        advances(r, pos as int, s@),
    decreases s@.len() - pos, 3int,
{
    let p = ws(s, pos);
    if p < s.len() && s[p] == B_PLUS {
        primary_parser(s, p + 1)
    } else if p < s.len() && s[p] == B_MINUS {
        match primary_parser(s, p + 1) {
            Err(f) => Err(f),
            Ok((e1, p1)) => {
                let node = Expr::BinaryOperation(
                    BinaryOperation {
                        op: OperatorKind::Substruct,
                        left: Box::new(Expr::Num(0)),
                        right: Box::new(e1),
                    },
                );
                proof {
                    reveal_with_fuel(Expr::model, 2);
                    reveal_with_fuel(ExprModel::wf, 2);
                }
                Ok((node, p1))
            },
        }
    } else {
        primary_parser(s, pos)
    }
}

/// Folds further `*` and `/` operands onto `acc`, left to right.
fn mul_parser_rest(s: &Vec<u8>, pos: usize, acc: Expr) -> (r: Result<(Expr, usize), ParseError>)
    requires
        pos <= s@.len(),
        acc.model().wf(),
    ensures
        parsed_expr(r) == spec_mul_rest(s@, pos as int, acc.model()),
        match r {
            Ok((e, p)) => pos <= p <= s@.len() && e.model().wf(),
            Err(_) => true,
        },
    decreases s@.len() - pos, 4int,
{
    match mul_op(s, pos) {
        None => Ok((acc, pos)),
        Some((op, p1)) => match unary_parser(s, p1) {
            Err(f) => Err(f),
            Ok((rhs, p2)) => {
                let node = Expr::BinaryOperation(
                    BinaryOperation { op, left: Box::new(acc), right: Box::new(rhs) },
                );
                proof {
                    reveal_with_fuel(Expr::model, 2);
                    reveal_with_fuel(ExprModel::wf, 2);
                }
                mul_parser_rest(s, p2, node)
            },
        },
    }
}

/// Parses `mul := unary (('*' | '/') unary)*`, folding left.
pub fn mul_parser(s: &Vec<u8>, pos: usize) -> (r: Result<(Expr, usize), ParseError>)
    requires
        pos <= s@.len(),
    ensures
        parsed_expr(r) == spec_mul(s@, pos as int),
        advances(r, pos as int, s@),
    decreases s@.len() - pos, 5int,
{
    match unary_parser(s, pos) {
        Err(f) => Err(f),
        Ok((e1, p1)) => mul_parser_rest(s, p1, e1),
    }
}

/// Folds further `+` and `-` operands onto `acc`, left to right.
fn add_parser_rest(s: &Vec<u8>, pos: usize, acc: Expr) -> (r: Result<(Expr, usize), ParseError>)
    requires
        pos <= s@.len(),
        acc.model().wf(),
    ensures
        parsed_expr(r) == spec_add_rest(s@, pos as int, acc.model()),
        match r {
            Ok((e, p)) => pos <= p <= s@.len() && e.model().wf(),
            Err(_) => true,
        },
    decreases s@.len() - pos, 6int,
{
    match add_op(s, pos) {
        None => Ok((acc, pos)),
        Some((op, p1)) => match mul_parser(s, p1) {
            Err(f) => Err(f),
            Ok((rhs, p2)) => {
                let node = Expr::BinaryOperation(
                    BinaryOperation { op, left: Box::new(acc), right: Box::new(rhs) },
                );
                proof {
                    reveal_with_fuel(Expr::model, 2);
                    reveal_with_fuel(ExprModel::wf, 2);
                }
                add_parser_rest(s, p2, node)
            },
        },
    }
}

/// Parses `add := mul (('+' | '-') mul)*`, folding left.
pub fn add_parser(s: &Vec<u8>, pos: usize) -> (r: Result<(Expr, usize), ParseError>)
    requires
        pos <= s@.len(),
    ensures
        parsed_expr(r) == spec_add(s@, pos as int),
        advances(r, pos as int, s@),
    decreases s@.len() - pos, 7int,
{
    match mul_parser(s, pos) {
        Err(f) => Err(f),
        Ok((e1, p1)) => add_parser_rest(s, p1, e1),
    }
}

/// Folds further relational operands onto `acc`, left to right.
fn relational_parser_rest(s: &Vec<u8>, pos: usize, acc: Expr) -> (r: Result<
    (Expr, usize),
    ParseError,
>)
    requires
        pos <= s@.len(),
        acc.model().wf(),
    ensures
        parsed_expr(r) == spec_relational_rest(s@, pos as int, acc.model()),
        match r {
            Ok((e, p)) => pos <= p <= s@.len() && e.model().wf(),
            Err(_) => true,
        },
    decreases s@.len() - pos, 8int,
{
    match rel_op(s, pos) {
        None => Ok((acc, pos)),
        Some((op, p1)) => match add_parser(s, p1) {
            Err(f) => Err(f),
            Ok((rhs, p2)) => {
                let node = Expr::BinaryOperation(
                    BinaryOperation { op, left: Box::new(acc), right: Box::new(rhs) },
                );
                proof {
                    reveal_with_fuel(Expr::model, 2);
                    reveal_with_fuel(ExprModel::wf, 2);
                }
                relational_parser_rest(s, p2, node)
            },
        },
    }
}

/// Parses `relational := add (('<' | '<=' | '>' | '>=') add)*`, folding left.
pub fn relational_parser(s: &Vec<u8>, pos: usize) -> (r: Result<(Expr, usize), ParseError>)
    requires
        pos <= s@.len(),
    ensures
        parsed_expr(r) == spec_relational(s@, pos as int),
        advances(r, pos as int, s@),
    decreases s@.len() - pos, 9int,
{
    match add_parser(s, pos) {
        Err(f) => Err(f),
        Ok((e1, p1)) => relational_parser_rest(s, p1, e1),
    }
}

/// Folds further `==` and `!=` operands onto `acc`, left to right.
fn equality_parser_rest(s: &Vec<u8>, pos: usize, acc: Expr) -> (r: Result<
    (Expr, usize),
    ParseError,
>)
    requires
        pos <= s@.len(),
        acc.model().wf(),
    ensures
        parsed_expr(r) == spec_equality_rest(s@, pos as int, acc.model()),
        match r {
            Ok((e, p)) => pos <= p <= s@.len() && e.model().wf(),
            Err(_) => true,
        },
    decreases s@.len() - pos, 10int,
{
    match eq_op(s, pos) {
        None => Ok((acc, pos)),
        Some((op, p1)) => match relational_parser(s, p1) {
            Err(f) => Err(f),
            Ok((rhs, p2)) => {
                let node = Expr::BinaryOperation(
                    BinaryOperation { op, left: Box::new(acc), right: Box::new(rhs) },
                );
                proof {
                    reveal_with_fuel(Expr::model, 2);
                    reveal_with_fuel(ExprModel::wf, 2);
                }
                equality_parser_rest(s, p2, node)
            },
        },
    }
}

/// Parses `equality := relational (('==' | '!=') relational)*`, folding left.
pub fn equality_parser(s: &Vec<u8>, pos: usize) -> (r: Result<(Expr, usize), ParseError>)
    requires
        pos <= s@.len(),
    ensures
        parsed_expr(r) == spec_equality(s@, pos as int),
        advances(r, pos as int, s@),
    decreases s@.len() - pos, 11int,
{
    match relational_parser(s, pos) {
        Err(f) => Err(f),
        Ok((e1, p1)) => equality_parser_rest(s, p1, e1),
    }
}

/// Parses `assign := equality ('=' assign)?`: right-associative, and the
/// left side of a `=` must be an identifier.
pub fn assign_parser(s: &Vec<u8>, pos: usize) -> (r: Result<(Expr, usize), ParseError>)
    requires
        pos <= s@.len(),
    ensures
        parsed_expr(r) == spec_assign(s@, pos as int),
        advances(r, pos as int, s@),
    decreases s@.len() - pos, 13int,
{
    match equality_parser(s, pos) {
        Err(f) => Err(f),
        Ok((e1, p1)) => match assign_op(s, p1) {
            None => Ok((e1, p1)),
            Some(pe) => {
                if is_ident(&e1) {
                    match assign_parser(s, pe) {
                        Err(f) => Err(f),
                        Ok((rhs, p2)) => {
                            let node = Expr::BinaryOperation(
                                BinaryOperation {
                                    op: OperatorKind::Assign,
                                    left: Box::new(e1),
                                    right: Box::new(rhs),
                                },
                            );
                            proof {
                                reveal_with_fuel(Expr::model, 2);
                                reveal_with_fuel(ExprModel::wf, 2);
                            }
                            Ok((node, p2))
                        },
                    }
                } else {
                    let pw = ws(s, p1);
                    Err(perr(pw, Prod::AssignTarget))
                }
            },
        },
    }
}

/// Parses `expr := assign`.
pub fn expr_parser(s: &Vec<u8>, pos: usize) -> (r: Result<(Expr, usize), ParseError>)
    requires
        pos <= s@.len(),
    ensures
        parsed_expr(r) == spec_expr(s@, pos as int),
        advances(r, pos as int, s@),
    decreases s@.len() - pos, 15int,
{
    assign_parser(s, pos)
}


/// Combines two alternatives' failures: the executable `merge_err`.
fn merge_parse_err(a: ParseError, b: ParseError) -> (r: ParseError)
    ensures
        r.model() == merge_err(a.model(), b.model()),
{
    if b.pos > a.pos {
        b
    } else if a.pos > b.pos {
        a
    } else {
        let ParseError { pos: apos, expected: mut av } = a;
        let ParseError { pos: _, expected: mut bv } = b;
        av.append(&mut bv);
        ParseError { pos: apos, expected: av }
    }
}

/// Parses an expression statement `expr ';'`.
pub fn expr_stmt_parser(s: &Vec<u8>, pos: usize) -> (r: Result<(Expr, usize), ParseError>)
    requires
        pos <= s@.len(),
    ensures
        parsed_expr(r) == spec_expr_stmt(s@, pos as int),
        advances(r, pos as int, s@),
{
    match expr_parser(s, pos) {
        Err(f) => Err(f),
        Ok((e1, p1)) => {
            let p2 = ws(s, p1);
            if p2 < s.len() && s[p2] == B_SEMI {
                Ok((e1, p2 + 1))
            } else {
                Err(perr(p2, Prod::Semicolon))
            }
        },
    }
}

/// Parses a return statement `'return' expr ';'`.
pub fn return_stmt_parser(s: &Vec<u8>, pos: usize) -> (r: Result<(Expr, usize), ParseError>)
    requires
        pos <= s@.len(),
    ensures
        parsed_expr(r) == spec_return_stmt(s@, pos as int),
        advances(r, pos as int, s@),
{
    match kw_token(s, pos, Kw::Return) {
        None => {
            let p = ws(s, pos);
            Err(perr(p, Prod::Stmt))
        },
        Some(pk) => match expr_parser(s, pk) {
            Err(f) => Err(f),
            Ok((e1, p1)) => {
                let p2 = ws(s, p1);
                if p2 < s.len() && s[p2] == B_SEMI {
                    let node = Expr::Return(Box::new(e1));
                    proof {
                        reveal_with_fuel(Expr::model, 2);
                        reveal_with_fuel(ExprModel::wf, 2);
                    }
                    Ok((node, p2 + 1))
                } else {
                    Err(perr(p2, Prod::Semicolon))
                }
            },
        },
    }
}

/// Parses a parenthesized condition `'(' expr ')'`.
fn cond_parser(s: &Vec<u8>, pos: usize) -> (r: Result<(Expr, usize), ParseError>)
    requires
        pos <= s@.len(),
    ensures
        parsed_expr(r) == spec_cond(s@, pos as int),
        advances(r, pos as int, s@),
{
    let p1 = ws(s, pos);
    if !(p1 < s.len() && s[p1] == B_LPAREN) {
        Err(perr(p1, Prod::OpenParen))
    } else {
        match expr_parser(s, p1 + 1) {
            Err(f) => Err(f),
            Ok((c, p2)) => {
                let p3 = ws(s, p2);
                if p3 < s.len() && s[p3] == B_RPAREN {
                    Ok((c, p3 + 1))
                } else {
                    Err(perr(p3, Prod::CloseParen))
                }
            },
        }
    }
}

/// Parses the optional `'else' stmt` tail of an if statement.
fn else_tail_parser(s: &Vec<u8>, prev: usize) -> (r: Result<(Option<Expr>, usize), ParseError>)
    requires
        prev <= s@.len(),
    ensures
        match r {
            Ok((oe, p6)) => spec_else_tail(s@, prev as int) == Parsed::Found(
                match oe {
                    Some(els) => Some(Box::new(els.model())),
                    None => None::<Box<ExprModel>>,
                },
                p6 as int,
            ) && prev <= p6 <= s@.len() && match oe {
                Some(els) => els.model().wf(),
                None => true,
            },
            Err(f) => spec_else_tail(s@, prev as int) == Parsed::<Option<Box<ExprModel>>>::Fail(
                f.model(),
            ),
        },
    decreases s@.len() - prev, 18int,
{
    match kw_token(s, prev, Kw::Else) {
        None => Ok((None, prev)),
        Some(pe) => match stmt_parser(s, pe) {
            Err(f) => Err(f),
            Ok((els, p6)) => Ok((Some(els), p6)),
        },
    }
}

/// Parses an if statement `'if' '(' expr ')' stmt ('else' stmt)?`.
#[verifier::rlimit(100)]
pub fn if_stmt_parser(s: &Vec<u8>, pos: usize) -> (r: Result<(Expr, usize), ParseError>)
    requires
        pos <= s@.len(),
    ensures
        parsed_expr(r) == spec_if_stmt(s@, pos as int),
        advances(r, pos as int, s@),
    decreases s@.len() - pos, 17int,
{
    match kw_token(s, pos, Kw::If) {
        None => {
            let p = ws(s, pos);
            Err(perr(p, Prod::Stmt))
        },
        Some(pk) => match cond_parser(s, pk) {
            Err(f) => Err(f),
            Ok((c, p4)) => match stmt_parser(s, p4) {
                Err(f) => Err(f),
                Ok((t, p5)) => match else_tail_parser(s, p5) {
                    Err(f) => Err(f),
                    Ok((oe, p6)) => match oe {
                        None => {
                            let node = Expr::If(Box::new(c), Box::new(t), None);
                            proof {
                                reveal_with_fuel(Expr::model, 2);
                                reveal_with_fuel(ExprModel::wf, 2);
                                assert(node.model() == ExprModel::If(
                                    Box::new(c.model()),
                                    Box::new(t.model()),
                                    None,
                                ));
                                assert(node.model().wf());
                                assert(spec_if_stmt(s@, pos as int) == Parsed::Found(
                                    node.model(),
                                    p6 as int,
                                ));
                            }
                            Ok((node, p6))
                        },
                        Some(els) => {
                            let node = Expr::If(Box::new(c), Box::new(t), Some(Box::new(els)));
                            proof {
                                reveal_with_fuel(Expr::model, 2);
                                reveal_with_fuel(ExprModel::wf, 2);
                                assert(node.model() == ExprModel::If(
                                    Box::new(c.model()),
                                    Box::new(t.model()),
                                    Some(Box::new(els.model())),
                                ));
                                assert(node.model().wf());
                                assert(spec_if_stmt(s@, pos as int) == Parsed::Found(
                                    node.model(),
                                    p6 as int,
                                ));
                            }
                            Ok((node, p6))
                        },
                    },
                },
            },
        },
    }
}

/// Parses a while statement `'while' '(' expr ')' stmt`.
pub fn while_stmt_parser(s: &Vec<u8>, pos: usize) -> (r: Result<(Expr, usize), ParseError>)
    requires
        pos <= s@.len(),
    ensures
        parsed_expr(r) == spec_while_stmt(s@, pos as int),
        advances(r, pos as int, s@),
    decreases s@.len() - pos, 17int,
{
    match kw_token(s, pos, Kw::While) {
        None => {
            let p = ws(s, pos);
            Err(perr(p, Prod::Stmt))
        },
        Some(pk) => match cond_parser(s, pk) {
            Err(f) => Err(f),
            Ok((c, p4)) => match stmt_parser(s, p4) {
                Err(f) => Err(f),
                Ok((b, p5)) => {
                    let node = Expr::While(Box::new(c), Box::new(b));
                    proof {
                        reveal_with_fuel(Expr::model, 2);
                        reveal_with_fuel(ExprModel::wf, 2);
                    }
                    Ok((node, p5))
                },
            },
        },
    }
}

/// Parses one optional header expression of a `for` statement, up to and
/// including its terminator.
fn for_part_parser(s: &Vec<u8>, pos: usize, term: u8) -> (r: Result<
    (Option<Expr>, usize),
    ParseError,
>)
    requires
        pos <= s@.len(),
    ensures
        match r {
            Ok((oe, p)) => spec_for_part(s@, pos as int, term) == Parsed::Found(
                match oe {
                    Some(e) => Some(Box::new(e.model())),
                    None => None::<Box<ExprModel>>,
                },
                p as int,
            ) && pos < p <= s@.len() && match oe {
                Some(e) => e.model().wf(),
                None => true,
            },
            Err(f) => spec_for_part(s@, pos as int, term) == Parsed::<Option<Box<ExprModel>>>::Fail(f.model()),
        },
{
    let q = ws(s, pos);
    if q < s.len() && s[q] == term {
        Ok((None, q + 1))
    } else {
        match expr_parser(s, pos) {
            Err(f) => Err(f),
            Ok((e1, q1)) => {
                let q2 = ws(s, q1);
                if q2 < s.len() && s[q2] == term {
                    Ok((Some(e1), q2 + 1))
                } else {
                    Err(perr(q2, if term == B_SEMI { Prod::Semicolon } else { Prod::CloseParen }))
                }
            },
        }
    }
}

/// Boxes an optional expression, keeping its model and well-formedness.
fn box_opt(oe: Option<Expr>) -> (r: Option<Box<Expr>>)
    ensures
        (match r {
            Some(e) => Some(Box::new(e.model())),
            None => None::<Box<ExprModel>>,
        }) == (match oe {
            Some(e) => Some(Box::new(e.model())),
            None => None::<Box<ExprModel>>,
        }),
        (match r {
            Some(e) => e.model().wf(),
            None => true,
        }) == (match oe {
            Some(e) => e.model().wf(),
            None => true,
        }),
{
    match oe {
        Some(e) => Some(Box::new(e)),
        None => None,
    }
}

/// Parses the header `'(' expr? ';' expr? ';' expr? ')'` of a for statement.
fn for_header_parser(s: &Vec<u8>, pos: usize) -> (r: Result<
    (Option<Expr>, Option<Expr>, Option<Expr>, usize),
    ParseError,
>)
    requires
        pos <= s@.len(),
    ensures
        match r {
            Ok((init, cond, step, c)) => spec_for_header(s@, pos as int) == Parsed::Found(
                (
                    match init {
                        Some(e) => Some(Box::new(e.model())),
                        None => None::<Box<ExprModel>>,
                    },
                    match cond {
                        Some(e) => Some(Box::new(e.model())),
                        None => None::<Box<ExprModel>>,
                    },
                    match step {
                        Some(e) => Some(Box::new(e.model())),
                        None => None::<Box<ExprModel>>,
                    },
                ),
                c as int,
            ) && pos < c <= s@.len() && (match init {
                Some(e) => e.model().wf(),
                None => true,
            }) && (match cond {
                Some(e) => e.model().wf(),
                None => true,
            }) && (match step {
                Some(e) => e.model().wf(),
                None => true,
            }),
            Err(f) => spec_for_header(s@, pos as int) == Parsed::<
                (Option<Box<ExprModel>>, Option<Box<ExprModel>>, Option<Box<ExprModel>>),
            >::Fail(f.model()),
        },
{
    proof {
        reveal(spec_for_header);
    }
    let p1 = ws(s, pos);
    if !(p1 < s.len() && s[p1] == B_LPAREN) {
        Err(perr(p1, Prod::OpenParen))
    } else {
        match for_part_parser(s, p1 + 1, B_SEMI) {
            Err(f) => Err(f),
            Ok((init, a)) => match for_part_parser(s, a, B_SEMI) {
                Err(f) => Err(f),
                Ok((cond, b)) => match for_part_parser(s, b, B_RPAREN) {
                    Err(f) => Err(f),
                    Ok((step, c)) => Ok((init, cond, step, c)),
                },
            },
        }
    }
}

/// Parses a for statement `'for' '(' expr? ';' expr? ';' expr? ')' stmt`.
#[verifier::rlimit(100)]
pub fn for_stmt_parser(s: &Vec<u8>, pos: usize) -> (r: Result<(Expr, usize), ParseError>)
    requires
        pos <= s@.len(),
    ensures
        parsed_expr(r) == spec_for_stmt(s@, pos as int),
        advances(r, pos as int, s@),
    decreases s@.len() - pos, 17int,
{
    match kw_token(s, pos, Kw::For) {
        None => {
            let p = ws(s, pos);
            Err(perr(p, Prod::Stmt))
        },
        Some(pk) => match for_header_parser(s, pk) {
            Err(f) => Err(f),
            Ok((init, cond, step, c)) => match stmt_parser(s, c) {
                Err(f) => Err(f),
                Ok((body, p5)) => {
                    let ib = box_opt(init);
                    let cb = box_opt(cond);
                    let sb = box_opt(step);
                    let node = Expr::For(ib, cb, sb, Box::new(body));
                    proof {
                        reveal_with_fuel(Expr::model, 2);
                        reveal_with_fuel(ExprModel::wf, 2);
                        assert(node.model().wf());
                        assert(spec_for_stmt(s@, pos as int) == Parsed::Found(
                            node.model(),
                            p5 as int,
                        ));
                    }
                    Ok((node, p5))
                },
            },
        },
    }
}

/// Parses a statement, trying the five forms in order and reporting the
/// furthest failure if none applies.
pub fn stmt_parser(s: &Vec<u8>, pos: usize) -> (r: Result<(Expr, usize), ParseError>)
    requires
        pos <= s@.len(),
    ensures
        parsed_expr(r) == spec_stmt(s@, pos as int),
        advances(r, pos as int, s@),
    decreases s@.len() - pos, 19int,
{
    match expr_stmt_parser(s, pos) {
        Ok(v) => Ok(v),
        Err(e1) => match return_stmt_parser(s, pos) {
            Ok(v) => Ok(v),
            Err(e2) => match if_stmt_parser(s, pos) {
                Ok(v) => Ok(v),
                Err(e3) => match while_stmt_parser(s, pos) {
                    Ok(v) => Ok(v),
                    Err(e4) => match for_stmt_parser(s, pos) {
                        Ok(v) => Ok(v),
                        Err(e5) => Err(
                            merge_parse_err(
                                merge_parse_err(
                                    merge_parse_err(merge_parse_err(e1, e2), e3),
                                    e4,
                                ),
                                e5,
                            ),
                        ),
                    },
                },
            },
        },
    }
}

impl Program {
    /// Parses a whole program: statements up to the end of the input. The
    /// result is exactly what the specification grammar derives, and every
    /// statement of a successful parse is well formed.
    #[verifier::rlimit(60)]
    pub fn parse(s: &Vec<u8>) -> (r: Result<Program, ParseError>)
        ensures
            match r {
                Ok(p) => spec_program(s@) == Parsed::Found(p.model(), s@.len() as int)
                    && crate::ast::prog_wf(p.model()),
                Err(f) => spec_program(s@) == Parsed::<Seq<ExprModel>>::Fail(f.model()),
            },
    {
        let mut stmts: Vec<Expr> = Vec::new();
        let mut pos: usize = 0;
        proof {
            assert(seq_model(stmts@) =~= Seq::<ExprModel>::empty());
        }
        let mut p = ws(s, pos);
        while p < s.len()
            invariant
                pos <= s@.len(),
                p as int == skip_ws(s@, pos as int),
                pos <= p <= s@.len(),
                spec_program_rest(s@, pos as int, seq_model(stmts@)) == spec_program(s@),
                crate::ast::seq_wf(seq_model(stmts@)),
            decreases s@.len() - pos,
        {
            match stmt_parser(s, pos) {
                Err(f) => {
                    return Err(f);
                },
                Ok((st, p1)) => {
                    proof {
                        crate::ast::lemma_seq_model_push(stmts@, st);
                        crate::ast::lemma_seq_wf_push(seq_model(stmts@), st.model());
                    }
                    stmts.push(st);
                    pos = p1;
                },
            }
            p = ws(s, pos);
        }
        Ok(Program { stmts })
    }
}

} // verus!
