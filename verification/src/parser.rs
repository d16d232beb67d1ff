//! The parser: recursive descent with one token of lookahead over the
//! lexer's tokens, building a single [`Value`] tree whose root is always an
//! object.
//!
//! The grammar:
//!
//! ```text
//! Document     := RecordOrCall* EndOfInput
//! RecordOrCall := Record | '#' Call
//! Record       := ID '=' Value
//! Call         := ID Value
//! Value        := Number ['.' Number]      // a Float if '.' is present
//!               | String
//!               | '{' RecordOrCall* '}'
//!               | '[' Value* ']'
//!               | '@' Call
//! ```
//!
//! Entries of an object are separated by zero or more separator tokens
//! (`;` or newline); array elements need no separator. Duplicate record
//! ids are legal: every binding survives, in source order. Every failure
//! is a typed [`Error`] carrying the offending token's position.

use vstd::prelude::*;

use crate::ast::call_view;
use crate::ast::entries_view;
use crate::ast::entry_view;
use crate::ast::record_view;
use crate::ast::value_view;
use crate::ast::values_view;
use crate::ast::Call;
use crate::ast::CallV;
use crate::ast::EntryV;
use crate::ast::Float;
use crate::ast::FloatV;
use crate::ast::Record;
use crate::ast::RecordOrCall;
use crate::ast::RecordV;
use crate::ast::Value;
use crate::ast::ValueV;
use crate::lexer::Token;
use crate::lexer::TokenKind;
use crate::lexer::TokenKindV;
use crate::lexer::TokenV;
use crate::lexer::FilePos;

verus! {

/// What the parser expected when it failed.
#[derive(Debug, Clone, Copy, PartialEq, Eq, Structural)]
pub enum ErrorTypes {
    EndOfInput,
    ExpectedIdentifier,
    ExpectedValue,
    ExpectedAssign,
    ExpectedNumber,
}

/// A parse failure: what was expected and the byte span of the offending
/// token (`start == end == 0` when the token sequence itself ran out).
#[derive(Debug, Clone, Copy, PartialEq, Eq, Structural)]
pub struct Error {
    pub error: ErrorTypes,
    pub pos: FilePos,
}

/// Ghost model of [`Error`].
#[verifier::ext_equal]
pub struct ErrorV {
    pub error: ErrorTypes,
    pub start: int,
    pub end: int,
}

impl View for Error {
    type V = ErrorV;

    open spec fn view(&self) -> ErrorV {
        ErrorV { error: self.error, start: self.pos.start as int, end: self.pos.end as int }
    }
}

/// The error used when the token sequence ends where a token was needed.
pub open spec fn end_of_input_err() -> ErrorV {
    ErrorV { error: ErrorTypes::EndOfInput, start: 0, end: 0 }
}

pub open spec fn err_at(kind: ErrorTypes, t: TokenV) -> ErrorV {
    ErrorV { error: kind, start: t.start, end: t.end }
}

/// The token at index `i`, if any.
pub open spec fn tok_at(t: Seq<TokenV>, i: int) -> Option<TokenV> {
    if 0 <= i < t.len() {
        Some(t[i])
    } else {
        None
    }
}

/// Strips trailing zero digits from a fractional part `(frac, decimals)`,
/// stopping at one decimal: the canonical form of a [`crate::ast::Float`].
pub open spec fn norm_frac(frac: int, decimals: int) -> (int, int)
    decreases decimals,
    when decimals >= 0
{
    if decimals > 1 && frac % 10 == 0 {
        norm_frac(frac / 10, decimals - 1)
    } else {
        (frac, decimals)
    }
}

/// Number of fractional digits a fraction token stands for: the length of
/// its byte span (digits are one byte each, so leading zeros count), capped
/// defensively at `u32::MAX` for tokens the lexer never produces.
pub open spec fn span_decimals(t: TokenV) -> int {
    let d = if t.end >= t.start {
        t.end - t.start
    } else {
        0
    };
    if d > u32::MAX as int {
        u32::MAX as int
    } else {
        d
    }
}

/// The float denoted by integer part `whole` and fraction token `frac_tok`
/// carrying the digit value `frac`: `whole + frac / 10^decimals`, in
/// canonical form. A negative `frac`, which the lexer never produces, is
/// kept as it is.
pub open spec fn float_value(whole: int, frac: int, frac_tok: TokenV) -> FloatV {
    if frac >= 0 {
        let p = norm_frac(frac, span_decimals(frac_tok));
        FloatV { whole: whole, frac: p.0, decimals: p.1 }
    } else {
        FloatV { whole: whole, frac: frac, decimals: span_decimals(frac_tok) }
    }
}

/// Parses one `Value` starting at token index `i`; returns the parsed model
/// and the index just past it.
pub open spec fn spec_parse_value(t: Seq<TokenV>, i: int) -> Result<(ValueV, int), ErrorV>
    decreases t.len() - i, 0int,
    when 0 <= i
{
    match tok_at(t, i) {
        None => Err(end_of_input_err()),
        Some(tok) => match tok.kind {
            TokenKindV::Number(num) => match tok_at(t, i + 1) {
                Some(t1) => {
                    if t1.kind == TokenKindV::Dot {
                        match tok_at(t, i + 2) {
                            None => Err(err_at(ErrorTypes::EndOfInput, t1)),
                            Some(t2) => match t2.kind {
                                TokenKindV::Number(frac) => Ok(
                                    (ValueV::Float(float_value(num, frac, t2)), i + 3),
                                ),
                                _ => Err(err_at(ErrorTypes::ExpectedNumber, t2)),
                            },
                        }
                    } else {
                        Ok((ValueV::Number(num), i + 1))
                    }
                },
                None => Ok((ValueV::Number(num), i + 1)),
            },
            TokenKindV::Str(sv) => Ok((ValueV::Str(sv), i + 1)),
            TokenKindV::LeftBrace => match spec_parse_records(
                t,
                i + 1,
                TokenKindV::RightBrace,
            ) {
                Ok(p) => Ok((ValueV::ObjectWithCalls(p.0), p.1)),
                Err(e) => Err(e),
            },
            TokenKindV::LeftBracket => match spec_parse_values(t, i + 1) {
                Ok(p) => Ok((ValueV::Array(p.0), p.1)),
                Err(e) => Err(e),
            },
            TokenKindV::ValueCall => match spec_parse_call(t, i + 1) {
                Ok(p) => Ok((ValueV::Call(p.0), p.1)),
                Err(e) => Err(e),
            },
            _ => Err(err_at(ErrorTypes::ExpectedValue, tok)),
        },
    }
}

/// Parses one object entry `ID '=' Value` starting at `i`.
pub open spec fn spec_parse_record(t: Seq<TokenV>, i: int) -> Result<(EntryV, int), ErrorV>
    decreases t.len() - i, 1int,
    when 0 <= i
{
    match tok_at(t, i) {
        None => Err(end_of_input_err()),
        Some(tok) => match tok.kind {
            TokenKindV::Id(id) => match tok_at(t, i + 1) {
                None => Err(err_at(ErrorTypes::EndOfInput, tok)),
                Some(t1) => {
                    if t1.kind == TokenKindV::Assign {
                        match spec_parse_value(t, i + 2) {
                            Ok(p) => Ok(
                                (EntryV::Record(RecordV { id: id, value: p.0 }), p.1),
                            ),
                            Err(e) => Err(e),
                        }
                    } else {
                        Err(err_at(ErrorTypes::ExpectedAssign, t1))
                    }
                },
            },
            _ => Err(err_at(ErrorTypes::ExpectedIdentifier, tok)),
        },
    }
}

/// Parses one call `ID Value` starting at `i` (after its `@` or `#`).
pub open spec fn spec_parse_call(t: Seq<TokenV>, i: int) -> Result<(CallV, int), ErrorV>
    decreases t.len() - i, 1int,
    when 0 <= i
{
    match tok_at(t, i) {
        None => Err(end_of_input_err()),
        Some(tok) => match tok.kind {
            TokenKindV::Id(f) => match spec_parse_value(t, i + 1) {
                Ok(p) => Ok((CallV { function: f, value: Box::new(p.0) }, p.1)),
                Err(e) => Err(e),
            },
            _ => Err(err_at(ErrorTypes::ExpectedIdentifier, tok)),
        },
    }
}

/// Parses array elements up to a `]` (consumed) or `EndOfInput` (left in
/// place); elements need no separators between them.
///
/// The `i < p.1 <= t.len()` guards justify the termination measure; every
/// parse function advances past at least one token and never past the end,
/// so they always hold.
pub open spec fn spec_parse_values(t: Seq<TokenV>, i: int) -> Result<(Seq<ValueV>, int), ErrorV>
    decreases t.len() - i, 1int,
    when 0 <= i
{
    match tok_at(t, i) {
        None => Err(end_of_input_err()),
        Some(tok) => match tok.kind {
            TokenKindV::RightBracket => Ok((Seq::empty(), i + 1)),
            TokenKindV::EndOfInput => Ok((Seq::empty(), i)),
            _ => match spec_parse_value(t, i) {
                Ok(p) => {
                    if i < p.1 <= t.len() {
                        match spec_parse_values(t, p.1) {
                            Ok(q) => Ok((seq![p.0] + q.0, q.1)),
                            Err(e) => Err(e),
                        }
                    } else {
                        Err(end_of_input_err())
                    }
                },
                Err(e) => Err(e),
            },
        },
    }
}

/// Parses object entries up to the closing token `end` (consumed): plain
/// records, `#`-prefixed calls, and any number of separators in between.
///
/// The `i < p.1 <= t.len()` guards justify the termination measure; every
/// parse function advances past at least one token and never past the end,
/// so they always hold.
pub open spec fn spec_parse_records(t: Seq<TokenV>, i: int, end: TokenKindV) -> Result<
    (Seq<EntryV>, int),
    ErrorV,
>
    decreases t.len() - i, 2int,
    when 0 <= i
{
    match tok_at(t, i) {
        None => Err(end_of_input_err()),
        Some(tok) => {
            if tok.kind == end {
                Ok((Seq::empty(), i + 1))
            } else {
                match tok.kind {
                    TokenKindV::Separator => match spec_parse_records(t, i + 1, end) {
                        Ok(q) => Ok(q),
                        Err(e) => Err(e),
                    },
                    TokenKindV::Id(_) => match spec_parse_record(t, i) {
                        Ok(p) => {
                            if i < p.1 <= t.len() {
                                match spec_parse_records(t, p.1, end) {
                                    Ok(q) => Ok((seq![p.0] + q.0, q.1)),
                                    Err(e) => Err(e),
                                }
                            } else {
                                Err(end_of_input_err())
                            }
                        },
                        Err(e) => Err(e),
                    },
                    TokenKindV::RecordCall => match spec_parse_call(t, i + 1) {
                        Ok(p) => {
                            if i < p.1 <= t.len() {
                                match spec_parse_records(t, p.1, end) {
                                    Ok(q) => Ok((seq![EntryV::Call(p.0)] + q.0, q.1)),
                                    Err(e) => Err(e),
                                }
                            } else {
                                Err(end_of_input_err())
                            }
                        },
                        Err(e) => Err(e),
                    },
                    TokenKindV::EndOfInput => Err(err_at(ErrorTypes::EndOfInput, tok)),
                    _ => Err(err_at(ErrorTypes::ExpectedIdentifier, tok)),
                }
            }
        },
    }
}

/// Parses a whole document: top-level entries up to `EndOfInput`, as an
/// `ObjectWithCalls` root.
pub open spec fn spec_parse(t: Seq<TokenV>) -> Result<ValueV, ErrorV> {
    match spec_parse_records(t, 0, TokenKindV::EndOfInput) {
        Ok(p) => Ok(ValueV::ObjectWithCalls(p.0)),
        Err(e) => Err(e),
    }
}

/// When parsing a value succeeds, it consumes at least one token and never
/// runs past the end of the tokens.
pub proof fn lemma_value_progress(t: Seq<TokenV>, i: int)
    requires
        0 <= i,
    ensures
        spec_parse_value(t, i) matches Ok(p) ==> i < p.1 <= t.len(),
    decreases t.len() - i, 0int,
{
    match tok_at(t, i) {
        None => {},
        Some(tok) => match tok.kind {
            TokenKindV::LeftBrace => {
                lemma_records_progress(t, i + 1, TokenKindV::RightBrace);
            },
            TokenKindV::LeftBracket => {
                lemma_values_progress(t, i + 1);
            },
            TokenKindV::ValueCall => {
                lemma_call_progress(t, i + 1);
            },
            _ => {},
        },
    }
}

/// As [`lemma_value_progress`], for one object entry.
pub proof fn lemma_record_progress(t: Seq<TokenV>, i: int)
    requires
        0 <= i,
    ensures
        spec_parse_record(t, i) matches Ok(p) ==> i < p.1 <= t.len(),
    decreases t.len() - i, 1int,
{
    match tok_at(t, i) {
        None => {},
        Some(tok) => match tok.kind {
            TokenKindV::Id(_) => match tok_at(t, i + 1) {
                None => {},
                Some(t1) => {
                    if t1.kind == TokenKindV::Assign {
                        lemma_value_progress(t, i + 2);
                    }
                },
            },
            _ => {},
        },
    }
}

/// As [`lemma_value_progress`], for a call.
pub proof fn lemma_call_progress(t: Seq<TokenV>, i: int)
    requires
        0 <= i,
    ensures
        spec_parse_call(t, i) matches Ok(p) ==> i < p.1 <= t.len(),
    decreases t.len() - i, 1int,
{
    match tok_at(t, i) {
        None => {},
        Some(tok) => match tok.kind {
            TokenKindV::Id(_) => {
                lemma_value_progress(t, i + 1);
            },
            _ => {},
        },
    }
}

/// Parsing array elements never moves backwards nor past the end (it stays
/// in place exactly when it stops at `EndOfInput`).
pub proof fn lemma_values_progress(t: Seq<TokenV>, i: int)
    requires
        0 <= i,
    ensures
        spec_parse_values(t, i) matches Ok(p) ==> i <= p.1 <= t.len(),
    decreases t.len() - i, 1int,
{
    match tok_at(t, i) {
        None => {},
        Some(tok) => match tok.kind {
            TokenKindV::RightBracket => {},
            TokenKindV::EndOfInput => {},
            _ => {
                lemma_value_progress(t, i);
                if let Ok(p) = spec_parse_value(t, i) {
                    lemma_values_progress(t, p.1);
                }
            },
        },
    }
}

/// As [`lemma_value_progress`], for object entries up to their closer.
pub proof fn lemma_records_progress(t: Seq<TokenV>, i: int, end: TokenKindV)
    requires
        0 <= i,
    ensures
        spec_parse_records(t, i, end) matches Ok(p) ==> i < p.1 <= t.len(),
    decreases t.len() - i, 2int,
{
    match tok_at(t, i) {
        None => {},
        Some(tok) => {
            if tok.kind == end {
            } else {
                match tok.kind {
                    TokenKindV::Separator => {
                        lemma_records_progress(t, i + 1, end);
                    },
                    TokenKindV::Id(_) => {
                        lemma_record_progress(t, i);
                        if let Ok(p) = spec_parse_record(t, i) {
                            lemma_records_progress(t, p.1, end);
                        }
                    },
                    TokenKindV::RecordCall => {
                        lemma_call_progress(t, i + 1);
                        if let Ok(p) = spec_parse_call(t, i + 1) {
                            lemma_records_progress(t, p.1, end);
                        }
                    },
                    _ => {},
                }
            }
        },
    }
}

/// Compares two token kinds, contents included.
fn kind_eq(a: &TokenKind, b: &TokenKind) -> (r: bool)
    ensures
        r == (a@ == b@),
{
    match (a, b) {
        (TokenKind::ID(x), TokenKind::ID(y)) => x.eq(y),
        (TokenKind::Number(x), TokenKind::Number(y)) => x == y,
        (TokenKind::String(x), TokenKind::String(y)) => x.eq(y),
        (TokenKind::Separator, TokenKind::Separator) => true,
        (TokenKind::Assign, TokenKind::Assign) => true,
        (TokenKind::LeftBrace, TokenKind::LeftBrace) => true,
        (TokenKind::RightBrace, TokenKind::RightBrace) => true,
        (TokenKind::LeftBracket, TokenKind::LeftBracket) => true,
        (TokenKind::RightBracket, TokenKind::RightBracket) => true,
        (TokenKind::Dot, TokenKind::Dot) => true,
        (TokenKind::ValueCall, TokenKind::ValueCall) => true,
        (TokenKind::RecordCall, TokenKind::RecordCall) => true,
        (TokenKind::EndOfInput, TokenKind::EndOfInput) => true,
        _ => false,
    }
}

/// Builds the [`Float`] for integer part `whole` and a fraction token that
/// carried digit value `frac` over the byte span `pos`: the fraction's digit
/// count is the span's length, and the result is put in canonical form.
fn make_float(whole: i32, frac: i32, pos: FilePos) -> (f: Float)
    ensures
        f@ == float_value(
            whole as int,
            frac as int,
            TokenV { kind: TokenKindV::Number(frac as int), start: pos.start as int, end: pos.end as int },
        ),
{
    let du: usize = if pos.end >= pos.start {
        pos.end - pos.start
    } else {
        0
    };
    let mut d: u32 = if du > u32::MAX as usize {
        u32::MAX
    } else {
        du as u32
    };
    let mut m = frac;
    if m >= 0 {
        while d > 1 && m % 10 == 0
            invariant
                m >= 0,
                norm_frac(frac as int, span_decimals(
                    TokenV { kind: TokenKindV::Number(frac as int), start: pos.start as int, end: pos.end as int },
                )) == norm_frac(m as int, d as int),
            decreases d,
        {
            m = m / 10;
            d = d - 1;
        }
    }
    Float { whole, frac: m, decimals: d }
}

/// Parses one `Value` at token index `i`: a number (or a float, when a dot
/// and a further number follow), a string, a braced object, a bracketed
/// array, or an `@`-prefixed call. Returns the value and the index just
/// past it; the outcome is exactly [`spec_parse_value`].
pub fn parse_value(tokens: &[Token], i: usize) -> (r: Result<(Value, usize), Error>)
    ensures
        match (r, spec_parse_value(tokens.deep_view(), i as int)) {
            (Ok(p), Ok(q)) => p.0@ == q.0 && p.1 as int == q.1,
            (Err(e), Err(f)) => e@ == f,
            _ => false,
        },
    decreases tokens@.len() - i, 0int,
{
    let ghost t = tokens.deep_view();
    if i >= tokens.len() {
        return Err(Error { error: ErrorTypes::EndOfInput, pos: FilePos { start: 0, end: 0 } });
    }
    let tok = &tokens[i];
    match &tok.kind {
        TokenKind::Number(num) => {
            if i + 1 < tokens.len() {
                let t1 = &tokens[i + 1];
                if matches!(t1.kind, TokenKind::Dot) {
                    if i + 2 >= tokens.len() {
                        return Err(Error { error: ErrorTypes::EndOfInput, pos: t1.pos });
                    }
                    let t2 = &tokens[i + 2];
                    match &t2.kind {
                        TokenKind::Number(frac) => {
                            let f = make_float(*num, *frac, t2.pos);
                            return Ok((Value::Float(f), i + 3));
                        },
                        _ => {
                            return Err(Error { error: ErrorTypes::ExpectedNumber, pos: t2.pos });
                        },
                    }
                }
            }
            Ok((Value::Number(*num), i + 1))
        },
        TokenKind::String(sv) => Ok((Value::String(sv.clone()), i + 1)),
        TokenKind::LeftBrace => match parse_multiple_records(tokens, i + 1, &TokenKind::RightBrace) {
            Ok(p) => Ok((Value::ObjectWithCalls(p.0), p.1)),
            Err(e) => Err(e),
        },
        TokenKind::LeftBracket => match parse_multiple_values(tokens, i + 1) {
            Ok(p) => Ok((Value::Array(p.0), p.1)),
            Err(e) => Err(e),
        },
        TokenKind::ValueCall => match parse_call(tokens, i + 1) {
            Ok(p) => Ok((Value::Call(p.0), p.1)),
            Err(e) => Err(e),
        },
        _ => Err(Error { error: ErrorTypes::ExpectedValue, pos: tok.pos }),
    }
}

/// Parses one object entry `ID '=' Value` at `i`; the outcome is exactly
/// [`spec_parse_record`].
pub fn parse_record(tokens: &[Token], i: usize) -> (r: Result<(RecordOrCall, usize), Error>)
    ensures
        match (r, spec_parse_record(tokens.deep_view(), i as int)) {
            (Ok(p), Ok(q)) => p.0@ == q.0 && p.1 as int == q.1,
            (Err(e), Err(f)) => e@ == f,
            _ => false,
        },
    decreases tokens@.len() - i, 1int,
{
    if i >= tokens.len() {
        return Err(Error { error: ErrorTypes::EndOfInput, pos: FilePos { start: 0, end: 0 } });
    }
    let tok = &tokens[i];
    match &tok.kind {
        TokenKind::ID(id) => {
            if i + 1 >= tokens.len() {
                return Err(Error { error: ErrorTypes::EndOfInput, pos: tok.pos });
            }
            let t1 = &tokens[i + 1];
            if matches!(t1.kind, TokenKind::Assign) {
                match parse_value(tokens, i + 2) {
                    Ok(p) => Ok((RecordOrCall::Record(Record { id: id.clone(), value: p.0 }), p.1)),
                    Err(e) => Err(e),
                }
            } else {
                Err(Error { error: ErrorTypes::ExpectedAssign, pos: t1.pos })
            }
        },
        _ => Err(Error { error: ErrorTypes::ExpectedIdentifier, pos: tok.pos }),
    }
}

/// Parses one call `ID Value` at `i` (after its `@` or `#`); the outcome is
/// exactly [`spec_parse_call`].
pub fn parse_call(tokens: &[Token], i: usize) -> (r: Result<(Call, usize), Error>)
    ensures
        match (r, spec_parse_call(tokens.deep_view(), i as int)) {
            (Ok(p), Ok(q)) => p.0@ == q.0 && p.1 as int == q.1,
            (Err(e), Err(f)) => e@ == f,
            _ => false,
        },
    decreases tokens@.len() - i, 1int,
{
    if i >= tokens.len() {
        return Err(Error { error: ErrorTypes::EndOfInput, pos: FilePos { start: 0, end: 0 } });
    }
    let tok = &tokens[i];
    match &tok.kind {
        TokenKind::ID(f) => match parse_value(tokens, i + 1) {
            Ok(p) => Ok((Call { function: f.clone(), value: Box::new(p.0) }, p.1)),
            Err(e) => Err(e),
        },
        _ => Err(Error { error: ErrorTypes::ExpectedIdentifier, pos: tok.pos }),
    }
}

/// Parses array elements up to a `]` (consumed) or end-of-input; the
/// outcome is exactly [`spec_parse_values`].
pub fn parse_multiple_values(tokens: &[Token], i: usize) -> (r: Result<(Vec<Value>, usize), Error>)
    ensures
        match (r, spec_parse_values(tokens.deep_view(), i as int)) {
            (Ok(p), Ok(q)) => values_view(p.0@) == q.0 && p.1 as int == q.1,
            (Err(e), Err(f)) => e@ == f,
            _ => false,
        },
    decreases tokens@.len() - i, 1int,
{
    let ghost t = tokens.deep_view();
    if i >= tokens.len() {
        return Err(Error { error: ErrorTypes::EndOfInput, pos: FilePos { start: 0, end: 0 } });
    }
    let tok = &tokens[i];
    match &tok.kind {
        TokenKind::RightBracket => {
            proof {
                assert(values_view(Seq::<Value>::empty()) =~= Seq::<ValueV>::empty());
            }
            Ok((Vec::new(), i + 1))
        },
        TokenKind::EndOfInput => {
            proof {
                assert(values_view(Seq::<Value>::empty()) =~= Seq::<ValueV>::empty());
            }
            Ok((Vec::new(), i))
        },
        _ => {
            proof {
                lemma_value_progress(t, i as int);
            }
            match parse_value(tokens, i) {
                Ok(p) => {
                    let (v, i2) = p;
                    match parse_multiple_values(tokens, i2) {
                        Ok(q) => {
                            let (mut vs, i3) = q;
                            let ghost before = vs@;
                            vs.insert(0, v);
                            proof {
                                assert(values_view(vs@) =~= seq![value_view(v)] + values_view(
                                    before,
                                ));
                            }
                            Ok((vs, i3))
                        },
                        Err(e) => Err(e),
                    }
                },
                Err(e) => Err(e),
            }
        },
    }
}

/// Parses object entries (records, `#` calls, separators) up to the
/// closing kind `end`, which is consumed; the outcome is exactly
/// [`spec_parse_records`].
pub fn parse_multiple_records(tokens: &[Token], i: usize, end: &TokenKind) -> (r: Result<
    (Vec<RecordOrCall>, usize),
    Error,
>)
    ensures
        match (r, spec_parse_records(tokens.deep_view(), i as int, end@)) {
            (Ok(p), Ok(q)) => entries_view(p.0@) == q.0 && p.1 as int == q.1,
            (Err(e), Err(f)) => e@ == f,
            _ => false,
        },
    decreases tokens@.len() - i, 2int,
{
    let ghost t = tokens.deep_view();
    if i >= tokens.len() {
        return Err(Error { error: ErrorTypes::EndOfInput, pos: FilePos { start: 0, end: 0 } });
    }
    let tok = &tokens[i];
    if kind_eq(&tok.kind, end) {
        proof {
            assert(entries_view(Seq::<RecordOrCall>::empty()) =~= Seq::<EntryV>::empty());
        }
        return Ok((Vec::new(), i + 1));
    }
    match &tok.kind {
        TokenKind::Separator => parse_multiple_records(tokens, i + 1, end),
        TokenKind::ID(_) => {
            proof {
                lemma_record_progress(t, i as int);
            }
            match parse_record(tokens, i) {
                Ok(p) => {
                    let (entry, i2) = p;
                    match parse_multiple_records(tokens, i2, end) {
                        Ok(q) => {
                            let (mut es, i3) = q;
                            let ghost before = es@;
                            es.insert(0, entry);
                            proof {
                                assert(entries_view(es@) =~= seq![entry_view(entry)]
                                    + entries_view(before));
                            }
                            Ok((es, i3))
                        },
                        Err(e) => Err(e),
                    }
                },
                Err(e) => Err(e),
            }
        },
        TokenKind::RecordCall => {
            proof {
                lemma_call_progress(t, i as int + 1);
            }
            match parse_call(tokens, i + 1) {
                Ok(p) => {
                    let (call, i2) = p;
                    match parse_multiple_records(tokens, i2, end) {
                        Ok(q) => {
                            let (mut es, i3) = q;
                            let ghost before = es@;
                            es.insert(0, RecordOrCall::Call(call));
                            proof {
                                assert(entries_view(es@) =~= seq![EntryV::Call(call_view(call))]
                                    + entries_view(before));
                            }
                            Ok((es, i3))
                        },
                        Err(e) => Err(e),
                    }
                },
                Err(e) => Err(e),
            }
        },
        TokenKind::EndOfInput => Err(Error { error: ErrorTypes::EndOfInput, pos: tok.pos }),
        _ => Err(Error { error: ErrorTypes::ExpectedIdentifier, pos: tok.pos }),
    }
}

/// Parses a whole document: top-level entries up to `EndOfInput`, always as
/// an `ObjectWithCalls` root; the outcome is exactly [`spec_parse`].
pub fn parse(tokens: &[Token]) -> (r: Result<Value, Error>)
    ensures
        match (r, spec_parse(tokens.deep_view())) {
            (Ok(v), Ok(m)) => v@ == m,
            (Err(e), Err(f)) => e@ == f,
            _ => false,
        },
{
    match parse_multiple_records(tokens, 0, &TokenKind::EndOfInput) {
        Ok(p) => Ok(Value::ObjectWithCalls(p.0)),
        Err(e) => Err(e),
    }
}

/// Float canonicality: for a nonnegative fraction with at least one typed
/// digit — all the lexer ever produces — [`float_value`] is in canonical
/// form: at least one decimal is kept, and no trailing zero digit is,
/// so two written forms of the same number parse to the same [`Float`].
pub proof fn lemma_float_value_canonical(whole: int, frac: int, frac_tok: TokenV)
    requires
        frac >= 0,
        span_decimals(frac_tok) >= 1,
    ensures
        ({
            let f = float_value(whole, frac, frac_tok);
            &&& f.whole == whole
            &&& f.frac >= 0
            &&& f.decimals >= 1
            &&& f.decimals > 1 ==> f.frac % 10 != 0
        }),
{
    lemma_norm_frac_canonical(frac, span_decimals(frac_tok));
}

proof fn lemma_norm_frac_canonical(frac: int, decimals: int)
    requires
        frac >= 0,
        decimals >= 1,
    ensures
        ({
            let p = norm_frac(frac, decimals);
            &&& p.0 >= 0
            &&& p.1 >= 1
            &&& p.1 > 1 ==> p.0 % 10 != 0
        }),
    decreases decimals,
{
    if decimals > 1 && frac % 10 == 0 {
        lemma_norm_frac_canonical(frac / 10, decimals - 1);
    }
}

} // verus!
