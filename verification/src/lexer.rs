//! The lexer: scans source text into a flat sequence of positioned tokens.
//!
//! Token positions are half-open byte-offset ranges `[start, end)` into the
//! UTF-8 encoding of the source. The grammar itself is ASCII: identifiers
//! are `[A-Za-z0-9_-]+` starting with a letter or digit, numbers are decimal
//! digit runs, and the single-character symbols are `; \n = { } [ ] . @ #`.
//! Only string literals may carry arbitrary characters (verbatim, with no
//! escape processing). Any other character is a reported lexing error, never
//! a panic. Integer literals that exceed `i32::MAX` saturate to `i32::MAX`.

use vstd::prelude::*;
use vstd::string::StrSliceExecFns;
use vstd::utf8::char_is_scalar;
use vstd::utf8::encode_scalar;
use vstd::utf8::encode_utf8;

verus! {

broadcast use char_is_scalar;

/// Number of bytes the UTF-8 encoding of `c` takes.
pub open spec fn char_utf8_len(c: char) -> int {
    encode_scalar(c as u32).len() as int
}

/// Number of bytes of the UTF-8 encoding of `s`.
pub open spec fn byte_len(s: Seq<char>) -> int
    decreases s.len(),
{
    if s.len() == 0 {
        0
    } else {
        char_utf8_len(s[0]) + byte_len(s.drop_first())
    }
}

/// Byte offset of the character at index `i` of `s`.
pub open spec fn byte_at(s: Seq<char>, i: int) -> int
    recommends
        0 <= i <= s.len(),
{
    byte_len(s.take(i))
}

pub proof fn lemma_char_utf8_len_bounds(c: char)
    ensures
        1 <= char_utf8_len(c) <= 4,
        c as u32 <= 0x7f ==> char_utf8_len(c) == 1,
{
}

pub proof fn lemma_byte_len_encode(s: Seq<char>)
    ensures
        byte_len(s) == encode_utf8(s).len(),
    decreases s.len(),
{
    if s.len() == 0 {
    } else {
        lemma_byte_len_encode(s.drop_first());
    }
}

pub proof fn lemma_byte_len_nonneg(s: Seq<char>)
    ensures
        byte_len(s) >= s.len(),
    decreases s.len(),
{
    if s.len() == 0 {
    } else {
        lemma_char_utf8_len_bounds(s[0]);
        lemma_byte_len_nonneg(s.drop_first());
    }
}

proof fn lemma_byte_len_push(s: Seq<char>, c: char)
    ensures
        byte_len(s.push(c)) == byte_len(s) + char_utf8_len(c),
    decreases s.len(),
{
    let t = s.push(c);
    assert(t.len() == s.len() + 1);
    if s.len() == 0 {
        assert(t[0] == c);
        assert(t.drop_first() =~= Seq::<char>::empty());
        assert(byte_len(t) == char_utf8_len(c) + byte_len(t.drop_first()));
        assert(byte_len(t.drop_first()) == 0);
    } else {
        assert(t[0] == s[0]);
        assert(t.drop_first() =~= s.drop_first().push(c));
        lemma_byte_len_push(s.drop_first(), c);
        assert(byte_len(t) == char_utf8_len(s[0]) + byte_len(t.drop_first()));
        assert(byte_len(s) == char_utf8_len(s[0]) + byte_len(s.drop_first()));
    }
}

pub proof fn lemma_byte_at_step(s: Seq<char>, i: int)
    requires
        0 <= i < s.len(),
    ensures
        byte_at(s, i + 1) == byte_at(s, i) + char_utf8_len(s[i]),
{
    assert(s.take(i + 1) =~= s.take(i).push(s[i]));
    lemma_byte_len_push(s.take(i), s[i]);
}

pub proof fn lemma_byte_at_mono(s: Seq<char>, i: int, j: int)
    requires
        0 <= i <= j <= s.len(),
    ensures
        byte_at(s, i) + (j - i) <= byte_at(s, j),
    decreases j - i,
{
    if i < j {
        lemma_byte_at_step(s, j - 1);
        lemma_char_utf8_len_bounds(s[j - 1]);
        lemma_byte_at_mono(s, i, j - 1);
    }
}

pub proof fn lemma_byte_at_bounds(s: Seq<char>, i: int)
    requires
        0 <= i <= s.len(),
    ensures
        0 <= byte_at(s, i) <= byte_len(s),
        i <= byte_at(s, i),
    decreases s.len() - i,
{
    assert(s.take(0) =~= Seq::<char>::empty());
    lemma_byte_at_mono(s, 0, i);
    assert(s.take(s.len() as int) =~= s);
    lemma_byte_at_mono(s, i, s.len() as int);
    lemma_byte_len_nonneg(s.take(i));
}

/// A run of one-byte characters advances the byte offset by its char count.
pub proof fn lemma_byte_at_ascii_run(s: Seq<char>, i: int, j: int)
    requires
        0 <= i <= j <= s.len(),
        forall|k: int| i <= k < j ==> char_utf8_len(#[trigger] s[k]) == 1,
    ensures
        byte_at(s, j) == byte_at(s, i) + (j - i),
    decreases j - i,
{
    if i < j {
        lemma_byte_at_step(s, j - 1);
        lemma_byte_at_ascii_run(s, i, j - 1);
    }
}

/// Whitespace that separates tokens: every ASCII whitespace except `\n`,
/// which is significant (it is a separator token).
pub open spec fn is_space_char(c: char) -> bool {
    c == ' ' || c == '\t' || c == '\r' || c == '\u{b}' || c == '\u{c}'
}

pub open spec fn is_digit_char(c: char) -> bool {
    c == '0' || c == '1' || c == '2' || c == '3' || c == '4' || c == '5' || c == '6' || c == '7'
        || c == '8' || c == '9'
}

pub open spec fn is_letter_char(c: char) -> bool {
    ('a' <= c && c <= 'z') || ('A' <= c && c <= 'Z')
}

/// Characters an identifier may contain (its first character must satisfy
/// [`is_letter_char`] or [`is_digit_char`]).
pub open spec fn is_ident_char(c: char) -> bool {
    is_letter_char(c) || is_digit_char(c) || c == '-' || c == '_'
}

/// Numeric value of a decimal digit character.
pub open spec fn digit_of(c: char) -> int {
    c as u32 - '0' as u32
}

pub proof fn lemma_space_ascii(c: char)
    requires
        is_space_char(c),
    ensures
        char_utf8_len(c) == 1,
{
}

pub proof fn lemma_ident_ascii(c: char)
    requires
        is_ident_char(c),
    ensures
        char_utf8_len(c) == 1,
{
}

/// Index just past the run of insignificant whitespace starting at `i`.
pub open spec fn space_end(s: Seq<char>, i: int) -> int
    decreases s.len() - i,
    when 0 <= i <= s.len()
{
    if i == s.len() || !is_space_char(s[i]) {
        i
    } else {
        space_end(s, i + 1)
    }
}

/// Index just past the run of decimal digits starting at `i`.
pub open spec fn digit_end(s: Seq<char>, i: int) -> int
    decreases s.len() - i,
    when 0 <= i <= s.len()
{
    if i == s.len() || !is_digit_char(s[i]) {
        i
    } else {
        digit_end(s, i + 1)
    }
}

/// Index just past the run of identifier characters starting at `i`.
pub open spec fn ident_end(s: Seq<char>, i: int) -> int
    decreases s.len() - i,
    when 0 <= i <= s.len()
{
    if i == s.len() || !is_ident_char(s[i]) {
        i
    } else {
        ident_end(s, i + 1)
    }
}

/// Index of the first `"` at or after `i`, or `s.len()` if there is none.
pub open spec fn close_quote(s: Seq<char>, i: int) -> int
    decreases s.len() - i,
    when 0 <= i <= s.len()
{
    if i == s.len() || s[i] == '"' {
        i
    } else {
        close_quote(s, i + 1)
    }
}

pub proof fn lemma_space_end(s: Seq<char>, i: int)
    requires
        0 <= i <= s.len(),
    ensures
        i <= space_end(s, i) <= s.len(),
        forall|k: int| i <= k < space_end(s, i) ==> is_space_char(#[trigger] s[k]),
        space_end(s, i) < s.len() ==> !is_space_char(s[space_end(s, i)]),
    decreases s.len() - i,
{
    if i < s.len() && is_space_char(s[i]) {
        lemma_space_end(s, i + 1);
    }
}

pub proof fn lemma_digit_end(s: Seq<char>, i: int)
    requires
        0 <= i <= s.len(),
    ensures
        i <= digit_end(s, i) <= s.len(),
        forall|k: int| i <= k < digit_end(s, i) ==> is_digit_char(#[trigger] s[k]),
        digit_end(s, i) < s.len() ==> !is_digit_char(s[digit_end(s, i)]),
    decreases s.len() - i,
{
    if i < s.len() && is_digit_char(s[i]) {
        lemma_digit_end(s, i + 1);
    }
}

pub proof fn lemma_ident_end(s: Seq<char>, i: int)
    requires
        0 <= i <= s.len(),
    ensures
        i <= ident_end(s, i) <= s.len(),
        forall|k: int| i <= k < ident_end(s, i) ==> is_ident_char(#[trigger] s[k]),
        ident_end(s, i) < s.len() ==> !is_ident_char(s[ident_end(s, i)]),
    decreases s.len() - i,
{
    if i < s.len() && is_ident_char(s[i]) {
        lemma_ident_end(s, i + 1);
    }
}

pub proof fn lemma_close_quote(s: Seq<char>, i: int)
    requires
        0 <= i <= s.len(),
    ensures
        i <= close_quote(s, i) <= s.len(),
        close_quote(s, i) < s.len() ==> s[close_quote(s, i)] == '"',
        forall|k: int| i <= k < close_quote(s, i) ==> #[trigger] s[k] != '"',
    decreases s.len() - i,
{
    if i < s.len() && s[i] != '"' {
        lemma_close_quote(s, i + 1);
    }
}

/// Value of the digit run `s[i..j]` as a 32-bit accumulator that saturates
/// at `i32::MAX`.
pub open spec fn digits_value(s: Seq<char>, i: int, j: int) -> int
    decreases j - i,
    when i <= j
{
    if j <= i {
        0
    } else {
        sat_append_digit(digits_value(s, i, j - 1), digit_of(s[j - 1]))
    }
}

/// One step of the saturating decimal accumulator.
pub open spec fn sat_append_digit(acc: int, d: int) -> int {
    if acc * 10 + d > i32::MAX {
        i32::MAX as int
    } else {
        acc * 10 + d
    }
}

pub proof fn lemma_digits_value_bounds(s: Seq<char>, i: int, j: int)
    requires
        i <= j,
        forall|k: int| i <= k < j ==> is_digit_char(#[trigger] s[k]),
    ensures
        0 <= digits_value(s, i, j) <= i32::MAX,
    decreases j - i,
{
    if i < j {
        lemma_digits_value_bounds(s, i, j - 1);
    }
}

/// The kind of a token. `ID`, `Number` and `String` carry the scanned
/// content; the rest are symbols, plus the final `EndOfInput`.
#[derive(Debug, PartialEq, Eq)]
pub enum TokenKind {
    ID(String),
    Number(i32),
    String(String),
    Separator,
    Assign,
    LeftBrace,
    RightBrace,
    LeftBracket,
    RightBracket,
    Dot,
    ValueCall,
    RecordCall,
    EndOfInput,
}

/// Ghost model of [`TokenKind`].
#[verifier::ext_equal]
pub enum TokenKindV {
    Id(Seq<char>),
    Number(int),
    Str(Seq<char>),
    Separator,
    Assign,
    LeftBrace,
    RightBrace,
    LeftBracket,
    RightBracket,
    Dot,
    ValueCall,
    RecordCall,
    EndOfInput,
}

impl View for TokenKind {
    type V = TokenKindV;

    open spec fn view(&self) -> TokenKindV {
        match self {
            TokenKind::ID(s) => TokenKindV::Id(s@),
            TokenKind::Number(n) => TokenKindV::Number(*n as int),
            TokenKind::String(s) => TokenKindV::Str(s@),
            TokenKind::Separator => TokenKindV::Separator,
            TokenKind::Assign => TokenKindV::Assign,
            TokenKind::LeftBrace => TokenKindV::LeftBrace,
            TokenKind::RightBrace => TokenKindV::RightBrace,
            TokenKind::LeftBracket => TokenKindV::LeftBracket,
            TokenKind::RightBracket => TokenKindV::RightBracket,
            TokenKind::Dot => TokenKindV::Dot,
            TokenKind::ValueCall => TokenKindV::ValueCall,
            TokenKind::RecordCall => TokenKindV::RecordCall,
            TokenKind::EndOfInput => TokenKindV::EndOfInput,
        }
    }
}

impl Clone for TokenKind {
    /// A deep copy: the copy has the same model as the original.
    fn clone(&self) -> (r: Self)
        ensures
            r@ == self@,
    {
        match self {
            TokenKind::ID(s) => TokenKind::ID(s.clone()),
            TokenKind::Number(n) => TokenKind::Number(*n),
            TokenKind::String(s) => TokenKind::String(s.clone()),
            TokenKind::Separator => TokenKind::Separator,
            TokenKind::Assign => TokenKind::Assign,
            TokenKind::LeftBrace => TokenKind::LeftBrace,
            TokenKind::RightBrace => TokenKind::RightBrace,
            TokenKind::LeftBracket => TokenKind::LeftBracket,
            TokenKind::RightBracket => TokenKind::RightBracket,
            TokenKind::Dot => TokenKind::Dot,
            TokenKind::ValueCall => TokenKind::ValueCall,
            TokenKind::RecordCall => TokenKind::RecordCall,
            TokenKind::EndOfInput => TokenKind::EndOfInput,
        }
    }
}

impl Default for TokenKind {
    fn default() -> (r: Self)
        ensures
            r@ == TokenKindV::EndOfInput,
    {
        TokenKind::EndOfInput
    }
}

/// A half-open byte-offset range `[start, end)` into the source text.
#[derive(Debug, PartialEq, Eq, Clone, Copy, Structural)]
pub struct FilePos {
    pub start: usize,
    pub end: usize,
}

impl Default for FilePos {
    fn default() -> (r: Self)
        ensures
            r.start == 0 && r.end == 0,
    {
        FilePos { start: 0, end: 0 }
    }
}

/// A token: a kind plus the byte span it was scanned from.
#[derive(Debug, PartialEq, Eq)]
pub struct Token {
    pub kind: TokenKind,
    pub pos: FilePos,
}

/// Ghost model of [`Token`].
#[verifier::ext_equal]
pub struct TokenV {
    pub kind: TokenKindV,
    pub start: int,
    pub end: int,
}

impl View for Token {
    type V = TokenV;

    open spec fn view(&self) -> TokenV {
        TokenV { kind: self.kind@, start: self.pos.start as int, end: self.pos.end as int }
    }
}

impl DeepView for Token {
    type V = TokenV;

    open spec fn deep_view(&self) -> TokenV {
        self.view()
    }
}

impl Clone for Token {
    /// A deep copy: the copy has the same model as the original.
    fn clone(&self) -> (r: Self)
        ensures
            r@ == self@,
    {
        Token { kind: self.kind.clone(), pos: self.pos }
    }
}

impl Default for Token {
    fn default() -> (r: Self)
        ensures
            r@ == (TokenV { kind: TokenKindV::EndOfInput, start: 0, end: 0 }),
    {
        Token { kind: TokenKind::EndOfInput, pos: FilePos { start: 0, end: 0 } }
    }
}

/// A character the lexer cannot accept: its byte position and the character
/// itself. An unterminated string reports the opening quote.
#[derive(Debug, PartialEq, Eq, Clone, Copy)]
pub struct LexError {
    pub pos: usize,
    pub ch: char,
}

/// Ghost model of [`LexError`].
pub struct LexErrorV {
    pub pos: int,
    pub ch: char,
}

impl View for LexError {
    type V = LexErrorV;

    open spec fn view(&self) -> LexErrorV {
        LexErrorV { pos: self.pos as int, ch: self.ch }
    }
}

fn is_space(c: char) -> (r: bool)
    ensures
        r == is_space_char(c),
{
    c == ' ' || c == '\t' || c == '\r' || c == '\u{b}' || c == '\u{c}'
}

fn is_digit(c: char) -> (r: bool)
    ensures
        r == is_digit_char(c),
{
    c == '0' || c == '1' || c == '2' || c == '3' || c == '4' || c == '5' || c == '6' || c == '7'
        || c == '8' || c == '9'
}

fn is_letter(c: char) -> (r: bool)
    ensures
        r == is_letter_char(c),
{
    (c >= 'a' && c <= 'z') || (c >= 'A' && c <= 'Z')
}

fn is_ident(c: char) -> (r: bool)
    ensures
        r == is_ident_char(c),
{
    is_letter(c) || is_digit(c) || c == '-' || c == '_'
}

/// Number of bytes of the UTF-8 encoding of `c`, by code-point range.
fn char_len(c: char) -> (n: usize)
    ensures
        n as int == char_utf8_len(c),
{
    let u = c as u32;
    if u < 0x80 {
        1
    } else if u < 0x800 {
        2
    } else if u < 0x10000 {
        3
    } else {
        4
    }
}

/// Advances past insignificant whitespace starting at character index `i`.
pub fn skip_spaces(s: &str, i: usize) -> (j: usize)
    requires
        i <= s@.len(),
    ensures
        j == space_end(s@, i as int),
        i <= j <= s@.len(),
{
    let n = s.unicode_len();
    let mut j = i;
    loop
        invariant
            i <= j <= n,
            n == s@.len(),
            space_end(s@, i as int) == space_end(s@, j as int),
        ensures
            i <= j <= n,
            n == s@.len(),
            j == space_end(s@, i as int),
        decreases n - j,
    {
        if j == n {
            break ;
        }
        let c = s.get_char(j);
        if !is_space(c) {
            break ;
        }
        j = j + 1;
    }
    proof {
        lemma_space_end(s@, i as int);
    }
    j
}

/// Scans the maximal digit run starting at `i` into a `Number` token.
///
/// `b` must be the byte offset of `i`; the result carries the token, the
/// character index just past the run, and its byte offset. The accumulated
/// value saturates at `i32::MAX`.
pub fn lex_number(s: &str, i: usize, b: usize) -> (r: (Token, usize, usize))
    requires
        i < s@.len(),
        is_digit_char(s@[i as int]),
        b as int == byte_at(s@, i as int),
        byte_len(s@) <= usize::MAX,
    ensures
        ({
            let k = digit_end(s@, i as int);
            &&& r.1 == k
            &&& r.2 as int == byte_at(s@, k)
            &&& r.0@ == (TokenV {
                kind: TokenKindV::Number(digits_value(s@, i as int, k)),
                start: b as int,
                end: r.2 as int,
            })
        }),
{
    let n = s.unicode_len();
    proof {
        lemma_digit_end(s@, i as int);
        lemma_byte_at_bounds(s@, i as int);
    }
    let ghost k = digit_end(s@, i as int);
    let mut j = i;
    let mut x: i32 = 0;
    loop
        invariant
            i <= j <= k,
            k <= n,
            n == s@.len(),
            forall|t: int| i <= t < k ==> is_digit_char(#[trigger] s@[t]),
            k < n ==> !is_digit_char(s@[k]),
            x as int == digits_value(s@, i as int, j as int),
            x >= 0,
        ensures
            j == k,
            x as int == digits_value(s@, i as int, k),
            x >= 0,
        decreases n - j,
    {
        if j == n {
            break ;
        }
        let c = s.get_char(j);
        if !is_digit(c) {
            break ;
        }
        let u = c as u32;
        let d = (u - 48) as i32;
        proof {
            let m = i32::MAX as int;
            let xi = x as int;
            let di = d as int;
            assert(xi > (m - di) / 10 <==> xi * 10 + di > m) by (nonlinear_arith)
                requires
                    0 <= di <= 9,
                    xi >= 0,
                    m == i32::MAX as int,
            ;
        }
        if x > (i32::MAX - d) / 10 {
            x = i32::MAX;
        } else {
            x = x * 10 + d;
        }
        j = j + 1;
    }
    proof {
        assert(forall|t: int|
            i <= t < k ==> char_utf8_len(#[trigger] s@[t]) == 1) by {
            assert forall|t: int| i <= t < k implies char_utf8_len(#[trigger] s@[t]) == 1 by {
                lemma_ident_ascii(s@[t]);
            }
        }
        lemma_byte_at_ascii_run(s@, i as int, k);
        lemma_byte_at_bounds(s@, k);
    }
    let b2 = b + (j - i);
    (Token { kind: TokenKind::Number(x), pos: FilePos { start: b, end: b2 } }, j, b2)
}

/// Scans the maximal identifier run starting at `i` into an `ID` token.
///
/// `b` must be the byte offset of `i`; the result carries the token, the
/// character index just past the run, and its byte offset.
pub fn lex_ident(s: &str, i: usize, b: usize) -> (r: (Token, usize, usize))
    requires
        i < s@.len(),
        is_ident_char(s@[i as int]),
        b as int == byte_at(s@, i as int),
        byte_len(s@) <= usize::MAX,
    ensures
        ({
            let k = ident_end(s@, i as int);
            &&& r.1 == k
            &&& r.2 as int == byte_at(s@, k)
            &&& r.0@ == (TokenV {
                kind: TokenKindV::Id(s@.subrange(i as int, k)),
                start: b as int,
                end: r.2 as int,
            })
        }),
{
    let n = s.unicode_len();
    proof {
        lemma_ident_end(s@, i as int);
        lemma_byte_at_bounds(s@, i as int);
    }
    let ghost k = ident_end(s@, i as int);
    let mut j = i;
    loop
        invariant
            i <= j <= k,
            k <= n,
            n == s@.len(),
            forall|t: int| i <= t < k ==> is_ident_char(#[trigger] s@[t]),
            k < n ==> !is_ident_char(s@[k]),
        ensures
            j == k,
        decreases n - j,
    {
        if j == n {
            break ;
        }
        let c = s.get_char(j);
        if !is_ident(c) {
            break ;
        }
        j = j + 1;
    }
    proof {
        assert(forall|t: int|
            i <= t < k ==> char_utf8_len(#[trigger] s@[t]) == 1) by {
            assert forall|t: int| i <= t < k implies char_utf8_len(#[trigger] s@[t]) == 1 by {
                lemma_ident_ascii(s@[t]);
            }
        }
        lemma_byte_at_ascii_run(s@, i as int, k);
        lemma_byte_at_bounds(s@, k);
    }
    let text = s.substring_char(i, j).to_owned();
    let b2 = b + (j - i);
    (Token { kind: TokenKind::ID(text), pos: FilePos { start: b, end: b2 } }, j, b2)
}

/// Scans the string literal whose opening `"` sits at `i`.
///
/// `b` must be the byte offset of `i`. On success the token's span runs from
/// the opening quote to the closing quote (exclusive), its content is every
/// character in between, verbatim, and the result carries the character
/// index and byte offset just past the closing quote. An unterminated
/// string is a [`LexError`] at the opening quote.
pub fn lex_string(s: &str, i: usize, b: usize) -> (r: Result<(Token, usize, usize), LexError>)
    requires
        i < s@.len(),
        s@[i as int] == '"',
        b as int == byte_at(s@, i as int),
        byte_len(s@) <= usize::MAX,
    ensures
        ({
            let q = close_quote(s@, i as int + 1);
            match r {
                Ok(t) => {
                    &&& q < s@.len()
                    &&& t.1 == q + 1
                    &&& t.2 as int == byte_at(s@, q + 1)
                    &&& t.0@ == (TokenV {
                        kind: TokenKindV::Str(s@.subrange(i as int + 1, q)),
                        start: b as int,
                        end: byte_at(s@, q),
                    })
                },
                Err(e) => q == s@.len() && e@ == (LexErrorV { pos: b as int, ch: '"' }),
            }
        }),
{
    let n = s.unicode_len();
    proof {
        lemma_close_quote(s@, i as int + 1);
        lemma_byte_at_bounds(s@, i as int);
        lemma_byte_at_step(s@, i as int);
        lemma_byte_at_bounds(s@, i as int + 1);
        lemma_char_utf8_len_bounds('"');
    }
    let ghost q = close_quote(s@, i as int + 1);
    let mut j = i + 1;
    let mut w = b + 1;
    loop
        invariant
            i < j <= q,
            q <= n,
            n == s@.len(),
            byte_len(s@) <= usize::MAX,
            forall|t: int| i + 1 <= t < q ==> #[trigger] s@[t] != '"',
            q < n ==> s@[q] == '"',
            w as int == byte_at(s@, j as int),
        ensures
            j == q,
            w as int == byte_at(s@, q),
        decreases n - j,
    {
        proof {
            lemma_byte_at_bounds(s@, j as int);
        }
        if j == n {
            break ;
        }
        let c = s.get_char(j);
        if c == '"' {
            break ;
        }
        proof {
            lemma_byte_at_step(s@, j as int);
            lemma_byte_at_bounds(s@, j as int + 1);
        }
        w = w + char_len(c);
        j = j + 1;
    }
    if j == n {
        return Err(LexError { pos: b, ch: '"' });
    }
    let text = s.substring_char(i + 1, j).to_owned();
    proof {
        lemma_byte_at_step(s@, q);
        lemma_byte_at_bounds(s@, q + 1);
    }
    Ok((Token { kind: TokenKind::String(text), pos: FilePos { start: b, end: w } }, j + 1, w + 1))
}

/// The token kind of a single-character symbol, or `None` for any other
/// character.
pub open spec fn symbol_kind(c: char) -> Option<TokenKindV> {
    if c == ';' || c == '\n' {
        Some(TokenKindV::Separator)
    } else if c == '=' {
        Some(TokenKindV::Assign)
    } else if c == '{' {
        Some(TokenKindV::LeftBrace)
    } else if c == '}' {
        Some(TokenKindV::RightBrace)
    } else if c == '[' {
        Some(TokenKindV::LeftBracket)
    } else if c == ']' {
        Some(TokenKindV::RightBracket)
    } else if c == '.' {
        Some(TokenKindV::Dot)
    } else if c == '@' {
        Some(TokenKindV::ValueCall)
    } else if c == '#' {
        Some(TokenKindV::RecordCall)
    } else {
        None
    }
}

proof fn lemma_symbol_ascii(c: char)
    requires
        symbol_kind(c) is Some,
    ensures
        char_utf8_len(c) == 1,
{
}

fn symbol_token(c: char) -> (r: Option<TokenKind>)
    ensures
        match r {
            Some(k) => symbol_kind(c) == Some(k@),
            None => symbol_kind(c) is None,
        },
{
    if c == ';' || c == '\n' {
        Some(TokenKind::Separator)
    } else if c == '=' {
        Some(TokenKind::Assign)
    } else if c == '{' {
        Some(TokenKind::LeftBrace)
    } else if c == '}' {
        Some(TokenKind::RightBrace)
    } else if c == '[' {
        Some(TokenKind::LeftBracket)
    } else if c == ']' {
        Some(TokenKind::RightBracket)
    } else if c == '.' {
        Some(TokenKind::Dot)
    } else if c == '@' {
        Some(TokenKind::ValueCall)
    } else if c == '#' {
        Some(TokenKind::RecordCall)
    } else {
        None
    }
}

/// Prepends a token to the outcome of lexing the rest of the input.
pub open spec fn cons_tok(t: TokenV, rest: Result<Seq<TokenV>, LexErrorV>) -> Result<
    Seq<TokenV>,
    LexErrorV,
> {
    match rest {
        Ok(ts) => Ok(seq![t] + ts),
        Err(e) => Err(e),
    }
}

/// The token sequence of `s` from character index `i` on: skip whitespace,
/// then scan one token by the first character's class and continue, ending
/// with a single `EndOfInput` token; or the first lexing error.
pub open spec fn spec_tokenize_from(s: Seq<char>, i: int) -> Result<Seq<TokenV>, LexErrorV>
    decreases s.len() - i,
    when 0 <= i <= s.len()
{
    let j = space_end(s, i);
    proof {
        lemma_space_end(s, i);
    }
    if j >= s.len() {
        Ok(seq![TokenV { kind: TokenKindV::EndOfInput, start: byte_len(s), end: byte_len(s) }])
    } else {
        let c = s[j];
        let b = byte_at(s, j);
        if symbol_kind(c) is Some {
            cons_tok(
                TokenV { kind: symbol_kind(c)->0, start: b, end: b + 1 },
                spec_tokenize_from(s, j + 1),
            )
        } else if c == '"' {
            let q = close_quote(s, j + 1);
            proof {
                lemma_close_quote(s, j + 1);
            }
            if q >= s.len() {
                Err(LexErrorV { pos: b, ch: '"' })
            } else {
                cons_tok(
                    TokenV {
                        kind: TokenKindV::Str(s.subrange(j + 1, q)),
                        start: b,
                        end: byte_at(s, q),
                    },
                    spec_tokenize_from(s, q + 1),
                )
            }
        } else if is_digit_char(c) {
            let k = digit_end(s, j);
            proof {
                lemma_digit_end(s, j);
            }
            cons_tok(
                TokenV {
                    kind: TokenKindV::Number(digits_value(s, j, k)),
                    start: b,
                    end: byte_at(s, k),
                },
                spec_tokenize_from(s, k),
            )
        } else if is_letter_char(c) {
            let k = ident_end(s, j);
            proof {
                lemma_ident_end(s, j);
            }
            cons_tok(
                TokenV { kind: TokenKindV::Id(s.subrange(j, k)), start: b, end: byte_at(s, k) },
                spec_tokenize_from(s, k),
            )
        } else {
            Err(LexErrorV { pos: b, ch: c })
        }
    }
}

/// The token sequence of a whole source text, or its first lexing error.
pub open spec fn spec_tokenize(s: Seq<char>) -> Result<Seq<TokenV>, LexErrorV> {
    spec_tokenize_from(s, 0)
}

/// `done` tokens followed by the outcome `rest` together form `total`.
pub open spec fn tok_rel(
    total: Result<Seq<TokenV>, LexErrorV>,
    done: Seq<TokenV>,
    rest: Result<Seq<TokenV>, LexErrorV>,
) -> bool {
    match rest {
        Ok(ts) => total == Ok::<Seq<TokenV>, LexErrorV>(done + ts),
        Err(e) => total == Err::<Seq<TokenV>, LexErrorV>(e),
    }
}

proof fn lemma_tok_rel_step(
    total: Result<Seq<TokenV>, LexErrorV>,
    done: Seq<TokenV>,
    t: TokenV,
    rest: Result<Seq<TokenV>, LexErrorV>,
    rest2: Result<Seq<TokenV>, LexErrorV>,
)
    requires
        tok_rel(total, done, rest),
        rest == cons_tok(t, rest2),
    ensures
        tok_rel(total, done.push(t), rest2),
{
    match rest2 {
        Ok(ts2) => {
            assert(done + (seq![t] + ts2) =~= done.push(t) + ts2);
        },
        Err(_) => {},
    }
}

/// Scans a whole source text into tokens.
///
/// On success the tokens are exactly [`spec_tokenize`] of the text: every
/// token carries its byte span, and a final `EndOfInput` token with an
/// empty span at the text's byte length is always present. On failure the
/// error is the first unrecognized character or unterminated string.
pub fn tokenize(s: &str) -> (r: Result<Vec<Token>, LexError>)
    ensures
        match r {
            Ok(toks) => spec_tokenize(s@) matches Ok(ts) && toks.deep_view() == ts,
            Err(e) => spec_tokenize(s@) == Err::<Seq<TokenV>, LexErrorV>(e@),
        },
{
    let n = s.unicode_len();
    let total_bytes = s.as_bytes().len();
    proof {
        lemma_byte_len_encode(s@);
        assert(s@.take(0int) =~= Seq::<char>::empty());
        match spec_tokenize(s@) {
            Ok(ts) => {
                assert(Seq::<TokenV>::empty() + ts =~= ts);
            },
            Err(_) => {},
        }
    }
    let mut toks: Vec<Token> = Vec::new();
    let mut i: usize = 0;
    let mut b: usize = 0;
    loop
        invariant
            i <= n,
            n == s@.len(),
            b as int == byte_at(s@, i as int),
            byte_len(s@) == total_bytes as int,
            tok_rel(spec_tokenize(s@), toks.deep_view(), spec_tokenize_from(s@, i as int)),
        decreases n - i,
    {
        let j = skip_spaces(s, i);
        proof {
            lemma_space_end(s@, i as int);
            assert forall|t: int| i <= t < j implies char_utf8_len(#[trigger] s@[t]) == 1 by {
                lemma_space_ascii(s@[t]);
            }
            lemma_byte_at_ascii_run(s@, i as int, j as int);
            lemma_byte_at_bounds(s@, j as int);
        }
        let bj = b + (j - i);
        let ghost done = toks.deep_view();
        let ghost rest0 = spec_tokenize_from(s@, i as int);
        if j == n {
            let tok = Token {
                kind: TokenKind::EndOfInput,
                pos: FilePos { start: total_bytes, end: total_bytes },
            };
            proof {
                assert(s@.take(n as int) =~= s@);
                assert(rest0 == Ok::<Seq<TokenV>, LexErrorV>(seq![tok@]));
            }
            toks.push(tok);
            proof {
                assert(toks.deep_view() =~= done.push(tok@));
                assert(done + seq![tok@] =~= done.push(tok@));
            }
            return Ok(toks);
        }
        let c = s.get_char(j);
        let sym = symbol_token(c);
        match sym {
            Some(kind) => {
                proof {
                    lemma_symbol_ascii(c);
                    lemma_byte_at_step(s@, j as int);
                    lemma_byte_at_bounds(s@, j as int + 1);
                }
                let tok = Token { kind, pos: FilePos { start: bj, end: bj + 1 } };
                proof {
                    assert(rest0 == cons_tok(tok@, spec_tokenize_from(s@, j as int + 1)));
                    lemma_tok_rel_step(
                        spec_tokenize(s@),
                        done,
                        tok@,
                        rest0,
                        spec_tokenize_from(s@, j as int + 1),
                    );
                }
                toks.push(tok);
                proof {
                    assert(toks.deep_view() =~= done.push(tok@));
                }
                i = j + 1;
                b = bj + 1;
            },
            None => {
                if c == '"' {
                    match lex_string(s, j, bj) {
                        Ok(scanned) => {
                            let (tok, k, b2) = scanned;
                            proof {
                                lemma_close_quote(s@, j as int + 1);
                                assert(rest0 == cons_tok(
                                    tok@,
                                    spec_tokenize_from(s@, k as int),
                                ));
                                lemma_tok_rel_step(
                                    spec_tokenize(s@),
                                    done,
                                    tok@,
                                    rest0,
                                    spec_tokenize_from(s@, k as int),
                                );
                            }
                            toks.push(tok);
                            proof {
                                assert(toks.deep_view() =~= done.push(tok@));
                            }
                            i = k;
                            b = b2;
                        },
                        Err(e) => {
                            proof {
                                assert(rest0 == Err::<Seq<TokenV>, LexErrorV>(e@));
                            }
                            return Err(e);
                        },
                    }
                } else if is_digit(c) {
                    let (tok, k, b2) = lex_number(s, j, bj);
                    proof {
                        lemma_digit_end(s@, j as int);
                        assert(rest0 == cons_tok(tok@, spec_tokenize_from(s@, k as int)));
                        lemma_tok_rel_step(
                            spec_tokenize(s@),
                            done,
                            tok@,
                            rest0,
                            spec_tokenize_from(s@, k as int),
                        );
                    }
                    toks.push(tok);
                    proof {
                        assert(toks.deep_view() =~= done.push(tok@));
                    }
                    i = k;
                    b = b2;
                } else if is_letter(c) {
                    let (tok, k, b2) = lex_ident(s, j, bj);
                    proof {
                        lemma_ident_end(s@, j as int);
                        assert(rest0 == cons_tok(tok@, spec_tokenize_from(s@, k as int)));
                        lemma_tok_rel_step(
                            spec_tokenize(s@),
                            done,
                            tok@,
                            rest0,
                            spec_tokenize_from(s@, k as int),
                        );
                    }
                    toks.push(tok);
                    proof {
                        assert(toks.deep_view() =~= done.push(tok@));
                    }
                    i = k;
                    b = b2;
                } else {
                    proof {
                        assert(rest0 == Err::<Seq<TokenV>, LexErrorV>(
                            LexErrorV { pos: bj as int, ch: c },
                        ));
                    }
                    return Err(LexError { pos: bj, ch: c });
                }
            },
        }
    }
}

/// The end-of-input token is always present, exactly once, as the final
/// token — even for empty input.
pub proof fn lemma_end_of_input_token(s: Seq<char>, i: int)
    requires
        0 <= i <= s.len(),
        spec_tokenize_from(s, i) is Ok,
    ensures
        ({
            let ts = spec_tokenize_from(s, i)->Ok_0;
            &&& ts.len() >= 1
            &&& ts.last().kind == TokenKindV::EndOfInput
            &&& forall|k: int| 0 <= k < ts.len() - 1 ==> (#[trigger] ts[k].kind)
                != TokenKindV::EndOfInput
        }),
    decreases s.len() - i,
{
    let j = space_end(s, i);
    lemma_space_end(s, i);
    if j >= s.len() {
    } else {
        let c = s[j];
        if symbol_kind(c) is Some {
            lemma_end_of_input_token(s, j + 1);
        } else if c == '"' {
            let q = close_quote(s, j + 1);
            lemma_close_quote(s, j + 1);
            if q < s.len() {
                lemma_end_of_input_token(s, q + 1);
            }
        } else if is_digit_char(c) {
            lemma_digit_end(s, j);
            lemma_end_of_input_token(s, digit_end(s, j));
        } else if is_letter_char(c) {
            lemma_ident_end(s, j);
            lemma_end_of_input_token(s, ident_end(s, j));
        }
    }
}

/// Number tokens are well formed: the scanned value lies in
/// `0 ..= i32::MAX`, and the token's byte span covers its digits — at
/// least one. (With the parser's float canonicality law, every float a
/// document can denote parses to its canonical form.)
pub proof fn lemma_number_tokens_wf(s: Seq<char>, i: int)
    requires
        0 <= i <= s.len(),
        spec_tokenize_from(s, i) is Ok,
    ensures
        ({
            let ts = spec_tokenize_from(s, i)->Ok_0;
            forall|k: int|
                0 <= k < ts.len() ==> (#[trigger] ts[k].kind matches TokenKindV::Number(n) ==> (0
                    <= n <= i32::MAX && ts[k].end - ts[k].start >= 1))
        }),
    decreases s.len() - i,
{
    let j = space_end(s, i);
    lemma_space_end(s, i);
    if j >= s.len() {
    } else {
        let c = s[j];
        if symbol_kind(c) is Some {
            lemma_number_tokens_wf(s, j + 1);
        } else if c == '"' {
            let q = close_quote(s, j + 1);
            lemma_close_quote(s, j + 1);
            if q < s.len() {
                lemma_number_tokens_wf(s, q + 1);
            }
        } else if is_digit_char(c) {
            let k = digit_end(s, j);
            lemma_digit_end(s, j);
            lemma_digits_value_bounds(s, j, k);
            assert forall|t: int| j <= t < k implies char_utf8_len(#[trigger] s[t]) == 1 by {
                lemma_ident_ascii(s[t]);
            }
            lemma_byte_at_ascii_run(s, j, k);
            lemma_number_tokens_wf(s, k);
        } else if is_letter_char(c) {
            lemma_ident_end(s, j);
            lemma_number_tokens_wf(s, ident_end(s, j));
        }
    }
}

} // verus!
