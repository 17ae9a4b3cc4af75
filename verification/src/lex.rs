//! The tokenizer: bytes to tokens, each with its place in the input.

use vstd::prelude::*;
use crate::error::PdfError;
use crate::filters::hex_value;
use crate::objects::Real;
use crate::text::{cat, cat_ascii, cat_nat, ascii_text, dec};

verus! {

/// One token, from byte `start` up to byte `end` of the input.
#[derive(Debug, Clone, PartialEq)]
pub struct Token<'a> {
    pub start: usize,
    pub end: usize,
    pub kind: TokenKind<'a>,
}

/// What a token is.
#[derive(Debug, Clone, PartialEq)]
pub enum TokenKind<'a> {
    /// A number without a decimal point.
    Integer(i64),
    /// A number with a decimal point, as written.
    Real(Real),
    /// The bytes of a name behind its `/`, with every `#xx` decoded.
    Name(Vec<u8>),
    /// The bytes of a string in parentheses, with its escapes decoded.
    LiteralString(Vec<u8>),
    /// The bytes that a hexadecimal string stands for.
    HexString(Vec<u8>),
    /// A bare word.
    Keyword(&'a [u8]),
    /// `[`
    ArrayStart,
    /// `]`
    ArrayEnd,
    /// `<<`
    DictStart,
    /// `>>`
    DictEnd,
}

/// What a token is, as a mathematical value.
pub enum KindV {
    Integer(i64),
    Real(Seq<u8>),
    Name(Seq<u8>),
    LiteralString(Seq<u8>),
    HexString(Seq<u8>),
    Keyword(Seq<u8>),
    ArrayStart,
    ArrayEnd,
    DictStart,
    DictEnd,
}

/// A token as a mathematical value.
pub struct TokV {
    pub start: int,
    pub end: int,
    pub kind: KindV,
}

impl<'a> View for TokenKind<'a> {
    type V = KindV;

    open spec fn view(&self) -> KindV {
        match *self {
            TokenKind::Integer(n) => KindV::Integer(n),
            TokenKind::Real(r) => KindV::Real(r@),
            TokenKind::Name(b) => KindV::Name(b@),
            TokenKind::LiteralString(b) => KindV::LiteralString(b@),
            TokenKind::HexString(b) => KindV::HexString(b@),
            TokenKind::Keyword(b) => KindV::Keyword(b@),
            TokenKind::ArrayStart => KindV::ArrayStart,
            TokenKind::ArrayEnd => KindV::ArrayEnd,
            TokenKind::DictStart => KindV::DictStart,
            TokenKind::DictEnd => KindV::DictEnd,
        }
    }
}

impl<'a> View for Token<'a> {
    type V = TokV;

    open spec fn view(&self) -> TokV {
        TokV { start: self.start as int, end: self.end as int, kind: self.kind@ }
    }
}

/// What an optional token stands for.
pub open spec fn opt_tok(t: Option<Token>) -> Option<TokV> {
    match t {
        Some(t) => Some(t@),
        None => None,
    }
}

// ------------------------------------------------------------- characters

/// White space: NUL, HT, LF, FF, CR and space.
pub open spec fn is_space(b: u8) -> bool {
    b == 0 || b == 9 || b == 10 || b == 12 || b == 13 || b == 32
}

/// The characters that end a word: `( ) < > [ ] { } / %`.
pub open spec fn is_delim(b: u8) -> bool {
    b == 40 || b == 41 || b == 60 || b == 62 || b == 91 || b == 93 || b == 123 || b == 125 || b
        == 47 || b == 37
}

/// A decimal digit.
pub open spec fn is_digit(b: u8) -> bool {
    48 <= b <= 57
}

/// An octal digit.
pub open spec fn is_octal(b: u8) -> bool {
    48 <= b <= 55
}

pub(crate) fn is_whitespace(b: u8) -> (r: bool)
    ensures
        r == is_space(b),
{
    b == 0 || b == 9 || b == 10 || b == 12 || b == 13 || b == 32
}

pub(crate) fn is_delimiter(b: u8) -> (r: bool)
    ensures
        r == is_delim(b),
{
    b == 40 || b == 41 || b == 60 || b == 62 || b == 91 || b == 93 || b == 123 || b == 125 || b
        == 47 || b == 37
}

/// The value of a hexadecimal digit.
pub(crate) fn hex_digit(b: u8) -> (r: Option<u8>)
    ensures
        r == hex_value(b),
        r matches Some(d) ==> d < 16,
{
    if 48 <= b && b <= 57 {
        Some(b - 48)
    } else if 97 <= b && b <= 102 {
        Some(b - 87)
    } else if 65 <= b && b <= 70 {
        Some(b - 55)
    } else {
        None
    }
}

// ------------------------------------------------------------------ space

/// The next line end at or after `p`, or the end of the input.
pub open spec fn line_end(s: Seq<u8>, p: int) -> int
    decreases s.len() - p,
{
    if p < 0 || p >= s.len() || s[p] == 10 || s[p] == 13 {
        p
    } else {
        line_end(s, p + 1)
    }
}

/// A line end does not come before the place it is looked for from.
proof fn lemma_line_end(s: Seq<u8>, p: int)
    requires
        0 <= p <= s.len(),
    ensures
        p <= line_end(s, p) <= s.len(),
    decreases s.len() - p,
{
    if p < s.len() && s[p] != 10 && s[p] != 13 {
        lemma_line_end(s, p + 1);
    }
}

/// The first byte at or after `p` that is neither white space nor part of a
/// comment, or the end of the input.
pub open spec fn skip_space(s: Seq<u8>, p: int) -> int
    decreases s.len() - p,
    via skip_space_decreases
{
    if p < 0 || p >= s.len() {
        p
    } else if is_space(s[p]) {
        skip_space(s, p + 1)
    } else if s[p] == 37 {
        skip_space(s, line_end(s, p))
    } else {
        p
    }
}

#[via_fn]
proof fn skip_space_decreases(s: Seq<u8>, p: int) {
    if 0 <= p < s.len() && s[p] == 37 {
        lemma_line_end(s, p + 1);
        assert(line_end(s, p) == line_end(s, p + 1));
    }
}

/// Where white space and comments end.
pub proof fn lemma_skip_space(s: Seq<u8>, p: int)
    requires
        0 <= p <= s.len(),
    ensures
        p <= skip_space(s, p) <= s.len(),
        skip_space(s, p) < s.len() ==> !is_space(s[skip_space(s, p)]) && s[skip_space(s, p)] != 37,
    decreases s.len() - p,
{
    if p < s.len() {
        if is_space(s[p]) {
            lemma_skip_space(s, p + 1);
        } else if s[p] == 37 {
            lemma_line_end(s, p + 1);
            assert(line_end(s, p) == line_end(s, p + 1));
            lemma_skip_space(s, line_end(s, p));
        }
    }
}

// ---------------------------------------------------------------- numbers

/// Scanning a number from `p` on: where it ends, whether a point occurred,
/// and whether a digit did.
pub open spec fn number_scan(s: Seq<u8>, p: int, dot: bool, digit: bool) -> (int, bool, bool)
    decreases s.len() - p,
{
    if p < 0 || p >= s.len() {
        (p, dot, digit)
    } else if is_digit(s[p]) {
        number_scan(s, p + 1, dot, true)
    } else if s[p] == 46 && !dot {
        number_scan(s, p + 1, true, digit)
    } else {
        (p, dot, digit)
    }
}

/// The number that decimal digits spell.
pub open spec fn digits_value(d: Seq<u8>) -> int
    decreases d.len(),
{
    if d.len() == 0 {
        0
    } else {
        digits_value(d.drop_last()) * 10 + (d.last() - 48)
    }
}

/// A leading sign.
pub open spec fn has_sign(t: Seq<u8>) -> bool {
    t.len() > 0 && (t[0] == 43 || t[0] == 45)
}

/// The number that digits behind an optional sign spell.
pub open spec fn integer_value(t: Seq<u8>) -> int {
    if has_sign(t) {
        if t[0] == 45 {
            -digits_value(t.skip(1))
        } else {
            digits_value(t.skip(1))
        }
    } else {
        digits_value(t)
    }
}

/// What a number token from `start` on is, and where it ends.
pub open spec fn number_token(s: Seq<u8>, start: int) -> LexV {
    let first = if start < s.len() && (s[start] == 43 || s[start] == 45) {
        start + 1
    } else {
        start
    };
    let (end, dot, digit) = number_scan(s, first, false, false);
    let t = s.subrange(start, end);
    if !digit {
        keyword_token(s, start)
    } else if dot {
        LexV::token(start, end, KindV::Real(t))
    } else if i64::MIN <= integer_value(t) <= i64::MAX {
        LexV::token(start, end, KindV::Integer(integer_value(t) as i64))
    } else {
        LexV {
            result: Err(
                "PDF lexer: invalid integer `"@ + ascii_text(t) + "` at byte "@ + dec(start),
            ),
            pos: end,
        }
    }
}

// ------------------------------------------------------------------ names

/// Bytes and where they end, or the description of an error.
pub type Span = Result<(Seq<u8>, int), Seq<char>>;

/// `r` with a byte put in front.
pub open spec fn span_cons(b: u8, r: Span) -> Span {
    match r {
        Ok((t, e)) => Ok((seq![b] + t, e)),
        Err(m) => Err(m),
    }
}

/// `r` with bytes put in front.
pub open spec fn span_prepend(p: Seq<u8>, r: Span) -> Span {
    match r {
        Ok((t, e)) => Ok((p + t, e)),
        Err(m) => Err(m),
    }
}

/// The bytes of a name from `p` on, with `#xx` decoded.
pub open spec fn name_span(s: Seq<u8>, p: int) -> Span
    decreases s.len() - p,
{
    if p < 0 || p >= s.len() || is_delim(s[p]) || is_space(s[p]) {
        Ok((Seq::empty(), p))
    } else if s[p] != 35 {
        span_cons(s[p], name_span(s, p + 1))
    } else if p + 2 >= s.len() {
        Err("PDF lexer: truncated #xx escape at byte "@ + dec(p))
    } else {
        match (hex_value(s[p + 1]), hex_value(s[p + 2])) {
            (None, _) => Err(
                "PDF lexer: bad hex digit `"@ + dec(s[p + 1] as int) + "` in name #xx at byte "@
                    + dec(p),
            ),
            (_, None) => Err(
                "PDF lexer: bad hex digit `"@ + dec(s[p + 2] as int) + "` in name #xx at byte "@
                    + dec(p),
            ),
            (Some(hi), Some(lo)) => span_cons((hi * 16 + lo) as u8, name_span(s, p + 3)),
        }
    }
}

// ---------------------------------------------------------------- strings

/// Where the octal escape whose first digit is at `p` ends: after three
/// digits at most.
pub open spec fn octal_end(s: Seq<u8>, p: int) -> int {
    if p + 1 < s.len() && is_octal(s[p + 1]) {
        if p + 2 < s.len() && is_octal(s[p + 2]) {
            p + 3
        } else {
            p + 2
        }
    } else {
        p + 1
    }
}

/// The number that octal digits spell.
pub open spec fn octal_value(d: Seq<u8>) -> int
    decreases d.len(),
{
    if d.len() == 0 {
        0
    } else {
        octal_value(d.drop_last()) * 8 + (d.last() - 48)
    }
}

/// What the escaped character `c` stands for, if it stands for one byte.
pub open spec fn escaped(c: u8) -> u8 {
    if c == 110 {
        10
    } else if c == 114 {
        13
    } else if c == 116 {
        9
    } else if c == 98 {
        8
    } else if c == 102 {
        12
    } else {
        c
    }
}

/// The bytes of a string in parentheses from `p` on, `depth` parentheses
/// deep; `None` where the input ends first.
pub open spec fn literal_span(s: Seq<u8>, p: int, depth: int) -> Option<(Seq<u8>, int)>
    decreases s.len() - p,
{
    if p < 0 || p >= s.len() {
        None
    } else if s[p] == 92 {
        if p + 1 >= s.len() {
            None
        } else if s[p + 1] == 10 {
            literal_span(s, p + 2, depth)
        } else if s[p + 1] == 13 {
            if p + 2 < s.len() && s[p + 2] == 10 {
                literal_span(s, p + 3, depth)
            } else {
                literal_span(s, p + 2, depth)
            }
        } else if is_octal(s[p + 1]) {
            let e = octal_end(s, p + 1);
            literal_cons(
                (octal_value(s.subrange(p + 1, e)) % 256) as u8,
                literal_span(s, e, depth),
            )
        } else {
            literal_cons(escaped(s[p + 1]), literal_span(s, p + 2, depth))
        }
    } else if s[p] == 40 {
        literal_cons(40, literal_span(s, p + 1, depth + 1))
    } else if s[p] == 41 {
        if depth == 1 {
            Some((Seq::empty(), p + 1))
        } else {
            literal_cons(41, literal_span(s, p + 1, depth - 1))
        }
    } else if s[p] == 13 {
        if p + 1 < s.len() && s[p + 1] == 10 {
            literal_cons(10, literal_span(s, p + 2, depth))
        } else {
            literal_cons(10, literal_span(s, p + 1, depth))
        }
    } else {
        literal_cons(s[p], literal_span(s, p + 1, depth))
    }
}

/// `r` with a byte put in front.
pub open spec fn literal_cons(b: u8, r: Option<(Seq<u8>, int)>) -> Option<(Seq<u8>, int)> {
    match r {
        Some((t, e)) => Some((seq![b] + t, e)),
        None => None,
    }
}

/// `r` with bytes put in front.
pub open spec fn literal_prepend(p: Seq<u8>, r: Option<(Seq<u8>, int)>) -> Option<(Seq<u8>, int)> {
    match r {
        Some((t, e)) => Some((p + t, e)),
        None => None,
    }
}

/// The bytes of a hexadecimal string from `p` on, with the digit `high` still
/// waiting for its partner. `start` is where the string began.
pub open spec fn hex_span(s: Seq<u8>, p: int, high: Option<u8>, start: int) -> Span
    decreases s.len() - p,
{
    if p < 0 || p >= s.len() {
        Err("PDF lexer: unterminated hex string starting at byte "@ + dec(start))
    } else if s[p] == 62 {
        match high {
            None => Ok((Seq::empty(), p + 1)),
            Some(h) => Ok((seq![(h * 16) as u8], p + 1)),
        }
    } else if is_space(s[p]) {
        hex_span(s, p + 1, high, start)
    } else {
        match hex_value(s[p]) {
            None => Err(
                "PDF lexer: bad hex digit `"@ + dec(s[p] as int) + "` in hex string at byte "@
                    + dec(p),
            ),
            Some(d) => match high {
                None => hex_span(s, p + 1, Some(d), start),
                Some(h) => span_cons((h * 16 + d) as u8, hex_span(s, p + 1, None, start)),
            },
        }
    }
}

// --------------------------------------------------------------- keywords

/// Where the word that holds byte `p` ends.
pub open spec fn word_end(s: Seq<u8>, p: int) -> int
    decreases s.len() - p,
{
    if p < 0 || p >= s.len() || is_space(s[p]) || is_delim(s[p]) {
        p
    } else {
        word_end(s, p + 1)
    }
}

/// What a word from `start` on is.
pub open spec fn keyword_token(s: Seq<u8>, start: int) -> LexV {
    let end = word_end(s, start);
    if end == start {
        LexV {
            result: Err(
                "PDF lexer: unrecognised byte `"@ + dec(s[start] as int) + "` at byte "@ + dec(
                    start,
                ),
            ),
            pos: start + 1,
        }
    } else {
        LexV::token(start, end, KindV::Keyword(s.subrange(start, end)))
    }
}

// ----------------------------------------------------------------- tokens

/// What reading a token gives: the token, `None` at the end of the input or
/// the description of an error; and where the cursor stands afterwards.
pub struct LexV {
    pub result: Result<Option<TokV>, Seq<char>>,
    pub pos: int,
}

impl LexV {
    /// A token was read.
    pub open spec fn token(start: int, end: int, kind: KindV) -> LexV {
        LexV { result: Ok(Some(TokV { start, end, kind })), pos: end }
    }

    /// A token made from bytes, or an error that leaves the cursor at `start`.
    pub open spec fn of_span(start: int, r: Span, hex: bool) -> LexV {
        match r {
            Ok((t, e)) => LexV::token(
                start,
                e,
                if hex {
                    KindV::HexString(t)
                } else {
                    KindV::Name(t)
                },
            ),
            Err(m) => LexV { result: Err(m), pos: start },
        }
    }
}

/// The token that begins at `start`, which is neither space nor comment.
pub open spec fn token_at(s: Seq<u8>, start: int) -> LexV {
    let b = s[start];
    if b == 91 {
        LexV::token(start, start + 1, KindV::ArrayStart)
    } else if b == 93 {
        LexV::token(start, start + 1, KindV::ArrayEnd)
    } else if b == 60 {
        if start + 1 < s.len() && s[start + 1] == 60 {
            LexV::token(start, start + 2, KindV::DictStart)
        } else {
            LexV::of_span(start, hex_span(s, start + 1, None, start), true)
        }
    } else if b == 62 {
        if start + 1 < s.len() && s[start + 1] == 62 {
            LexV::token(start, start + 2, KindV::DictEnd)
        } else {
            LexV {
                result: Err(
                    "PDF lexer: unexpected `>` at byte "@ + dec(start)
                        + " (need `>>` for dict end)"@,
                ),
                pos: start,
            }
        }
    } else if b == 40 {
        match literal_span(s, start + 1, 1) {
            Some((t, e)) => LexV::token(start, e, KindV::LiteralString(t)),
            None => LexV {
                result: Err(
                    "PDF lexer: unterminated literal string starting at byte "@ + dec(start),
                ),
                pos: start,
            },
        }
    } else if b == 47 {
        LexV::of_span(start, name_span(s, start + 1), false)
    } else if b == 43 || b == 45 || b == 46 || is_digit(b) {
        number_token(s, start)
    } else {
        keyword_token(s, start)
    }
}

/// What reading a token at byte `pos` of `s` gives.
#[verifier::opaque]
pub open spec fn lexed(s: Seq<u8>, pos: int) -> LexV {
    let start = skip_space(s, pos);
    if start >= s.len() {
        LexV { result: Ok(None), pos: start }
    } else {
        token_at(s, start)
    }
}

/// A tokenizer: a cursor over the input.
pub struct Lexer<'a> {
    input: &'a [u8],
    pos: usize,
}

impl<'a> Lexer<'a> {
    /// The bytes that the tokenizer reads.
    pub closed spec fn bytes(&self) -> Seq<u8> {
        self.input@
    }

    /// Where the cursor stands.
    pub closed spec fn at(&self) -> int {
        self.pos as int
    }

    /// The cursor lies within the input.
    pub closed spec fn wf(&self) -> bool {
        self.pos <= self.input@.len()
    }

    /// The cursor lies within the input.
    pub proof fn lemma_wf(&self)
        requires
            self.wf(),
        ensures
            0 <= self.at() <= self.bytes().len() <= usize::MAX,
    {
        let n: usize = self.input.len();
    }

    /// A tokenizer at the start of `input`.
    pub fn new(input: &'a [u8]) -> (r: Lexer<'a>)
        ensures
            r.wf(),
            r.bytes() == input@,
            r.at() == 0,
    {
        Lexer { input, pos: 0 }
    }

    /// Where the cursor stands.
    pub fn position(&self) -> (r: usize)
        ensures
            r == self.at(),
    {
        self.pos
    }

    /// Move the cursor to byte `pos`, or to the end of the input if that
    /// comes first.
    pub fn seek(&mut self, pos: usize)
        ensures
            final(self).wf(),
            final(self).bytes() == old(self).bytes(),
            final(self).at() == if pos < old(self).bytes().len() {
                pos as int
            } else {
                old(self).bytes().len() as int
            },
    {
        self.pos = if pos < self.input.len() {
            pos
        } else {
            self.input.len()
        };
    }

    /// The byte `offset` places after the cursor.
    pub fn peek_byte(&self, offset: usize) -> (r: Option<u8>)
        requires
            self.wf(),
        ensures
            r == if self.at() + offset < self.bytes().len() {
                Some(self.bytes()[self.at() + offset])
            } else {
                None
            },
    {
        if offset < self.input.len() - self.pos {
            Some(self.input[self.pos + offset])
        } else {
            None
        }
    }

    /// The input from byte `start` up to byte `end`, as far as it reaches.
    pub fn slice(&self, start: usize, end: usize) -> (r: &'a [u8])
        ensures
            r@ == clamped(self.bytes(), start as int, end as int),
    {
        let n: usize = self.input.len();
        let s: usize = if start < n {
            start
        } else {
            n
        };
        let e: usize = if end < n {
            end
        } else {
            n
        };
        let e: usize = if e < s {
            s
        } else {
            e
        };
        vstd::slice::slice_subrange(self.input, s, e)
    }

    /// The whole input.
    pub fn input(&self) -> (r: &'a [u8])
        ensures
            r@ == self.bytes(),
    {
        self.input
    }
}

/// The part of `s` from `start` up to `end`, as far as it reaches.
pub open spec fn clamped(s: Seq<u8>, start: int, end: int) -> Seq<u8> {
    let n = s.len() as int;
    let a = if start < n {
        start
    } else {
        n
    };
    let b = if end < n {
        end
    } else {
        n
    };
    if b < a {
        Seq::empty()
    } else {
        s.subrange(a, b)
    }
}

/// `r` and the cursor `pos` are what `v` says.
pub open spec fn agrees(r: Result<Token, PdfError>, pos: int, v: LexV) -> bool {
    &&& pos == v.pos
    &&& match r {
        Ok(t) => v.result == Ok::<Option<TokV>, Seq<char>>(Some(t@)),
        Err(e) => v.result == Err::<Option<TokV>, Seq<char>>(e@),
    }
}

/// The number that digits behind an optional sign spell, if it fits.
pub(crate) fn parse_integer(t: &[u8]) -> (r: Option<i64>)
    requires
        forall|i: int|
            (if has_sign(t@) {
                1int
            } else {
                0int
            }) <= i < t@.len() ==> is_digit(#[trigger] t@[i]),
    ensures
        r == if i64::MIN <= integer_value(t@) <= i64::MAX {
            Some(integer_value(t@) as i64)
        } else {
            None
        },
{
    let negative: bool = t.len() > 0 && t[0] == 45;
    let first: usize = if t.len() > 0 && (t[0] == 43 || t[0] == 45) {
        1
    } else {
        0
    };
    let ghost d = t@.skip(first as int);
    let mut over: bool = false;
    let mut mag: u64 = 0;
    let mut i: usize = first;
    proof {
        assert(d.take(0) =~= Seq::empty());
    }
    while i < t.len()
        invariant
            first <= i <= t@.len(),
            first <= 1,
            d == t@.skip(first as int),
            forall|k: int| first <= k < t@.len() ==> is_digit(#[trigger] t@[k]),
            !over ==> mag == digits_value(d.take(i - first)),
            over ==> digits_value(d.take(i - first)) > 9223372036854775809,
            mag <= 9223372036854775809,
        decreases t.len() - i,
    {
        let ghost k = i - first;
        proof {
            assert(d.take(k + 1).drop_last() =~= d.take(k));
            assert(d.take(k + 1).last() == t@[i as int]);
        }
        if mag > 922337203685477580 {
            over = true;
        }
        if !over {
            mag = mag * 10 + (t[i] - 48) as u64;
        }
        i = i + 1;
    }
    proof {
        assert(d.take(t@.len() - first) =~= d);
        assert(first == 0 ==> d =~= t@);
    }
    if over {
        None
    } else if negative {
        if mag > 9223372036854775808 {
            None
        } else if mag == 9223372036854775808 {
            Some(i64::MIN)
        } else {
            Some(-(mag as i64))
        }
    } else if mag > 9223372036854775807 {
        None
    } else {
        Some(mag as i64)
    }
}

/// What lies between the sign and the end of a scanned number.
proof fn lemma_number_scan(s: Seq<u8>, p: int, dot: bool, digit: bool)
    requires
        0 <= p <= s.len(),
    ensures
        ({
            let (e, d, g) = number_scan(s, p, dot, digit);
            &&& p <= e <= s.len()
            &&& (!d ==> !dot && forall|i: int| p <= i < e ==> is_digit(#[trigger] s[i]))
            &&& (digit ==> g)
            &&& (g && !digit ==> e > p)
        }),
    decreases s.len() - p,
{
    if p < s.len() {
        if is_digit(s[p]) {
            lemma_number_scan(s, p + 1, dot, true);
        } else if s[p] == 46 && !dot {
            lemma_number_scan(s, p + 1, true, digit);
        }
    }
}

impl<'a> Lexer<'a> {
    /// Move the cursor past white space and comments.
    fn skip_whitespace_and_comments(&mut self)
        requires
            old(self).wf(),
        ensures
            final(self).wf(),
            final(self).bytes() == old(self).bytes(),
            final(self).at() == skip_space(old(self).bytes(), old(self).at()),
    {
        let ghost s = self.input@;
        let ghost p = self.pos as int;
        while self.pos < self.input.len()
            invariant_except_break
                skip_space(s, p) == skip_space(s, self.pos as int),
            invariant
                s == old(self).bytes(),
                p == old(self).at(),
                self.input@ == s,
                self.pos <= s.len(),
            ensures
                self.pos as int == skip_space(s, p),
                self.input@ == s,
                self.pos <= s.len(),
            decreases self.input.len() - self.pos,
        {
            let b: u8 = self.input[self.pos];
            if is_whitespace(b) {
                self.pos = self.pos + 1;
            } else if b == 37 {
                let ghost q = self.pos as int;
                self.pos = self.pos + 1;
                proof {
                    assert(line_end(s, q) == line_end(s, q + 1));
                }
                while self.pos < self.input.len() && self.input[self.pos] != 10
                    && self.input[self.pos] != 13
                    invariant
                        self.input@ == s,
                        q < self.pos <= s.len(),
                        line_end(s, q) == line_end(s, self.pos as int),
                    decreases self.input.len() - self.pos,
                {
                    self.pos = self.pos + 1;
                }
            } else {
                break;
            }
        }
    }

    fn read_number(&mut self, start: usize) -> (r: Result<Token<'a>, PdfError>)
        requires
            old(self).wf(),
            start == old(self).at(),
            start < old(self).bytes().len(),
            !is_space(old(self).bytes()[start as int]),
            !is_delim(old(self).bytes()[start as int]),
        ensures
            final(self).wf(),
            final(self).bytes() == old(self).bytes(),
            agrees(r, final(self).at(), number_token(old(self).bytes(), start as int)),
    {
        let ghost s = self.input@;
        let first: usize = if self.input[start] == 43 || self.input[start] == 45 {
            start + 1
        } else {
            start
        };
        let mut end: usize = first;
        let mut saw_dot: bool = false;
        let mut saw_digit: bool = false;
        while end < self.input.len()
            invariant_except_break
                number_scan(s, first as int, false, false) == number_scan(
                    s,
                    end as int,
                    saw_dot,
                    saw_digit,
                ),
            invariant
                self.input@ == s,
                first <= end <= s.len(),
            ensures
                first <= end <= s.len(),
                number_scan(s, first as int, false, false) == (end as int, saw_dot, saw_digit),
            decreases self.input.len() - end,
        {
            let b: u8 = self.input[end];
            if 48 <= b && b <= 57 {
                saw_digit = true;
                end = end + 1;
            } else if b == 46 && !saw_dot {
                saw_dot = true;
                end = end + 1;
            } else {
                break;
            }
        }
        if !saw_digit {
            return self.read_keyword(start);
        }
        self.pos = end;
        let text: &'a [u8] = vstd::slice::slice_subrange(self.input, start, end);
        if saw_dot {
            return Ok(
                Token {
                    start,
                    end,
                    kind: TokenKind::Real(Real { text: vstd::slice::slice_to_vec(text) }),
                },
            );
        }
        proof {
            lemma_number_scan(s, first as int, false, false);
            assert forall|i: int|
                (if has_sign(text@) {
                    1int
                } else {
                    0int
                }) <= i < text@.len() implies is_digit(#[trigger] text@[i]) by {
                assert(text@[i] == s[start + i]);
            }
        }
        match parse_integer(text) {
            Some(n) => Ok(Token { start, end, kind: TokenKind::Integer(n) }),
            None => {
                let m: String = cat_ascii("PDF lexer: invalid integer `".to_owned(), text);
                let m: String = cat_nat(cat(m, "` at byte "), start as u64);
                Err(PdfError::Other(m))
            },
        }
    }

    fn read_name(&mut self, start: usize) -> (r: Result<Token<'a>, PdfError>)
        requires
            old(self).wf(),
            start == old(self).at(),
            start < old(self).bytes().len(),
        ensures
            final(self).wf(),
            final(self).bytes() == old(self).bytes(),
            agrees(
                r,
                final(self).at(),
                LexV::of_span(
                    start as int,
                    name_span(old(self).bytes(), start + 1),
                    false,
                ),
            ),
    {
        let ghost s = self.input@;
        proof {
            assert(s.len() == self.input.len());
        }
        let mut end: usize = start + 1;
        let mut decoded: Vec<u8> = Vec::new();
        let ghost goal = name_span(s, start + 1);
        proof {
            lemma_span_prepend_nothing(goal);
        }
        while end < self.input.len()
            invariant_except_break
                goal == span_prepend(decoded@, name_span(s, end as int)),
            invariant
                self.input@ == s,
                s == old(self).bytes(),
                self.pos == start,
                start < s.len(),
                start < end <= s.len(),
                goal == name_span(s, start + 1),
            ensures
                start < end <= s.len(),
                self.pos == start,
                self.input@ == s,
                goal == Ok::<(Seq<u8>, int), Seq<char>>((decoded@, end as int)),
            decreases self.input.len() - end,
        {
            let b: u8 = self.input[end];
            let ghost before = decoded@;
            if is_delimiter(b) || is_whitespace(b) {
                proof {
                    assert(decoded@ + Seq::<u8>::empty() =~= decoded@);
                }
                break;
            }
            if b == 35 {
                if self.input.len() - end <= 2 {
                    return Err(
                        PdfError::Other(
                            cat_nat(
                                "PDF lexer: truncated #xx escape at byte ".to_owned(),
                                end as u64,
                            ),
                        ),
                    );
                }
                let h1: u8 = self.input[end + 1];
                let h2: u8 = self.input[end + 2];
                let hi: u8 = match hex_digit(h1) {
                    Some(d) => d,
                    None => {
                        let m: String = cat_nat("PDF lexer: bad hex digit `".to_owned(), h1 as u64);
                        let m: String = cat_nat(cat(m, "` in name #xx at byte "), end as u64);
                        return Err(PdfError::Other(m));
                    },
                };
                let lo: u8 = match hex_digit(h2) {
                    Some(d) => d,
                    None => {
                        let m: String = cat_nat("PDF lexer: bad hex digit `".to_owned(), h2 as u64);
                        let m: String = cat_nat(cat(m, "` in name #xx at byte "), end as u64);
                        return Err(PdfError::Other(m));
                    },
                };
                decoded.push(hi * 16 + lo);
                proof {
                    lemma_span_step(before, (hi * 16 + lo) as u8, name_span(s, end + 3));
                }
                end = end + 3;
            } else {
                decoded.push(b);
                proof {
                    lemma_span_step(before, b, name_span(s, end + 1));
                }
                end = end + 1;
            }
            proof {
                if end >= s.len() {
                    assert(decoded@ + Seq::<u8>::empty() =~= decoded@);
                }
            }
        }
        self.pos = end;
        Ok(Token { start, end, kind: TokenKind::Name(decoded) })
    }

    fn read_hex_string(&mut self, start: usize) -> (r: Result<Token<'a>, PdfError>)
        requires
            old(self).wf(),
            start == old(self).at(),
            start < old(self).bytes().len(),
        ensures
            final(self).wf(),
            final(self).bytes() == old(self).bytes(),
            agrees(
                r,
                final(self).at(),
                LexV::of_span(
                    start as int,
                    hex_span(old(self).bytes(), start + 1, None, start as int),
                    true,
                ),
            ),
    {
        let ghost s = self.input@;
        proof {
            assert(s.len() == self.input.len());
        }
        let mut end: usize = start + 1;
        let mut high: Option<u8> = None;
        let mut decoded: Vec<u8> = Vec::new();
        let ghost goal = hex_span(s, start + 1, None, start as int);
        proof {
            lemma_span_prepend_nothing(goal);
        }
        while end < self.input.len()
            invariant
                self.input@ == s,
                s == old(self).bytes(),
                self.pos == start,
                start < s.len(),
                start < end <= s.len(),
                high matches Some(h) ==> h < 16,
                goal == hex_span(s, start + 1, None, start as int),
                goal == span_prepend(decoded@, hex_span(s, end as int, high, start as int)),
            decreases self.input.len() - end,
        {
            let b: u8 = self.input[end];
            let ghost before = decoded@;
            if b == 62 {
                if let Some(h) = high {
                    decoded.push(h * 16);
                    proof {
                        assert(decoded@ =~= before + seq![(h * 16) as u8]);
                    }
                } else {
                    proof {
                        assert(decoded@ =~= before + Seq::<u8>::empty());
                    }
                }
                end = end + 1;
                self.pos = end;
                return Ok(Token { start, end, kind: TokenKind::HexString(decoded) });
            }
            if is_whitespace(b) {
                end = end + 1;
                continue;
            }
            let h: u8 = match hex_digit(b) {
                Some(d) => d,
                None => {
                    let m: String = cat_nat("PDF lexer: bad hex digit `".to_owned(), b as u64);
                    let m: String = cat_nat(cat(m, "` in hex string at byte "), end as u64);
                    return Err(PdfError::Other(m));
                },
            };
            match high {
                None => {
                    high = Some(h);
                },
                Some(hi) => {
                    decoded.push(hi * 16 + h);
                    proof {
                        lemma_span_step(
                            before,
                            (hi * 16 + h) as u8,
                            hex_span(s, end + 1, None, start as int),
                        );
                    }
                    high = None;
                },
            }
            end = end + 1;
        }
        Err(
            PdfError::Other(
                cat_nat(
                    "PDF lexer: unterminated hex string starting at byte ".to_owned(),
                    start as u64,
                ),
            ),
        )
    }

    fn read_keyword(&mut self, start: usize) -> (r: Result<Token<'a>, PdfError>)
        requires
            old(self).wf(),
            start == old(self).at(),
            start < old(self).bytes().len(),
        ensures
            final(self).wf(),
            final(self).bytes() == old(self).bytes(),
            agrees(r, final(self).at(), keyword_token(old(self).bytes(), start as int)),
    {
        let ghost s = self.input@;
        let mut end: usize = start;
        while end < self.input.len() && !is_whitespace(self.input[end]) && !is_delimiter(
            self.input[end],
        )
            invariant
                self.input@ == s,
                start <= end <= s.len(),
                word_end(s, start as int) == word_end(s, end as int),
            decreases self.input.len() - end,
        {
            end = end + 1;
        }
        if end == start {
            self.pos = self.pos + 1;
            let m: String = cat_nat(
                "PDF lexer: unrecognised byte `".to_owned(),
                self.input[start] as u64,
            );
            let m: String = cat_nat(cat(m, "` at byte "), start as u64);
            return Err(PdfError::Other(m));
        }
        self.pos = end;
        Ok(
            Token {
                start,
                end,
                kind: TokenKind::Keyword(vstd::slice::slice_subrange(self.input, start, end)),
            },
        )
    }
}

/// Putting nothing in front.
proof fn lemma_span_prepend_nothing(r: Span)
    ensures
        span_prepend(Seq::empty(), r) == r,
{
    match r {
        Ok((t, e)) => {
            assert(Seq::<u8>::empty() + t =~= t);
        },
        Err(_) => {},
    }
}

/// One byte more in front.
proof fn lemma_span_step(p: Seq<u8>, b: u8, r: Span)
    ensures
        span_prepend(p, span_cons(b, r)) == span_prepend(p.push(b), r),
{
    match r {
        Ok((t, e)) => {
            assert(p + (seq![b] + t) =~= p.push(b) + t);
        },
        Err(_) => {},
    }
}

/// Putting nothing in front.
proof fn lemma_literal_prepend_nothing(r: Option<(Seq<u8>, int)>)
    ensures
        literal_prepend(Seq::empty(), r) == r,
{
    match r {
        Some((t, e)) => {
            assert(Seq::<u8>::empty() + t =~= t);
        },
        None => {},
    }
}

/// One byte more in front.
proof fn lemma_literal_step(p: Seq<u8>, b: u8, r: Option<(Seq<u8>, int)>)
    ensures
        literal_prepend(p, literal_cons(b, r)) == literal_prepend(p.push(b), r),
{
    match r {
        Some((t, e)) => {
            assert(p + (seq![b] + t) =~= p.push(b) + t);
        },
        None => {},
    }
}

impl<'a> Lexer<'a> {
    fn read_literal_string(&mut self, start: usize) -> (r: Result<Token<'a>, PdfError>)
        requires
            old(self).wf(),
            start == old(self).at(),
            start < old(self).bytes().len(),
            old(self).bytes()[start as int] == 40,
        ensures
            final(self).wf(),
            final(self).bytes() == old(self).bytes(),
            agrees(r, final(self).at(), token_at(old(self).bytes(), start as int)),
    {
        let ghost s = self.input@;
        proof {
            assert(s.len() == self.input.len());
        }
        let n: usize = self.input.len();
        let mut end: usize = start + 1;
        let mut depth: usize = 1;
        let mut decoded: Vec<u8> = Vec::new();
        let ghost goal = literal_span(s, start + 1, 1);
        proof {
            lemma_literal_prepend_nothing(goal);
        }
        while end < n
            invariant
                self.input@ == s,
                s == old(self).bytes(),
                s.len() == n,
                self.pos == start,
                start < n,
                s[start as int] == 40,
                start < end <= n,
                1 <= depth <= end,
                goal == literal_span(s, start + 1, 1),
                goal == literal_prepend(decoded@, literal_span(s, end as int, depth as int)),
            decreases n - end,
        {
            let b: u8 = self.input[end];
            let ghost before = decoded@;
            let ghost p = end as int;
            if b == 92 {
                if n - end <= 1 {
                    end = n;
                    continue;
                }
                let esc: u8 = self.input[end + 1];
                if esc == 10 {
                    end = end + 2;
                } else if esc == 13 {
                    end = end + 2;
                    if end < n && self.input[end] == 10 {
                        end = end + 1;
                    }
                } else if 48 <= esc && esc <= 55 {
                    let (v, e) = self.read_octal(end + 1);
                    decoded.push(v);
                    proof {
                        lemma_literal_step(before, v, literal_span(s, e as int, depth as int));
                    }
                    end = e;
                } else {
                    let v: u8 = if esc == 110 {
                        10
                    } else if esc == 114 {
                        13
                    } else if esc == 116 {
                        9
                    } else if esc == 98 {
                        8
                    } else if esc == 102 {
                        12
                    } else {
                        esc
                    };
                    decoded.push(v);
                    proof {
                        lemma_literal_step(before, v, literal_span(s, p + 2, depth as int));
                    }
                    end = end + 2;
                }
                continue;
            }
            if b == 40 {
                depth = depth + 1;
                decoded.push(40);
                end = end + 1;
                proof {
                    lemma_literal_step(before, 40, literal_span(s, p + 1, depth as int));
                }
                continue;
            }
            if b == 41 {
                depth = depth - 1;
                if depth == 0 {
                    end = end + 1;
                    self.pos = end;
                    proof {
                        assert(decoded@ + Seq::<u8>::empty() =~= decoded@);
                    }
                    return Ok(Token { start, end, kind: TokenKind::LiteralString(decoded) });
                }
                decoded.push(41);
                end = end + 1;
                proof {
                    lemma_literal_step(before, 41, literal_span(s, p + 1, depth as int));
                }
                continue;
            }
            if b == 13 {
                decoded.push(10);
                end = end + 1;
                if end < n && self.input[end] == 10 {
                    end = end + 1;
                }
                proof {
                    lemma_literal_step(before, 10, literal_span(s, end as int, depth as int));
                }
                continue;
            }
            decoded.push(b);
            end = end + 1;
            proof {
                lemma_literal_step(before, b, literal_span(s, p + 1, depth as int));
            }
        }
        Err(
            PdfError::Other(
                cat_nat(
                    "PDF lexer: unterminated literal string starting at byte ".to_owned(),
                    start as u64,
                ),
            ),
        )
    }

    /// The byte that the octal digits from `p` on stand for, and where they end.
    fn read_octal(&self, p: usize) -> (r: (u8, usize))
        requires
            p < self.input@.len(),
            is_octal(self.input@[p as int]),
        ensures
            r.1 == octal_end(self.input@, p as int),
            p < r.1 <= self.input@.len(),
            r.0 == octal_value(self.input@.subrange(p as int, r.1 as int)) % 256,
    {
        let ghost s = self.input@;
        proof {
            assert(s.len() == self.input.len());
            reveal_with_fuel(octal_value, 4);
        }
        let n: usize = self.input.len();
        let a: u16 = (self.input[p] - 48) as u16;
        proof {
            assert(s.subrange(p as int, p + 1).drop_last() =~= Seq::empty());
        }
        if n - p > 1 && 48 <= self.input[p + 1] && self.input[p + 1] <= 55 {
            let b: u16 = (self.input[p + 1] - 48) as u16;
            proof {
                assert(s.subrange(p as int, p + 2).drop_last() =~= s.subrange(p as int, p + 1));
            }
            if n - p > 2 && 48 <= self.input[p + 2] && self.input[p + 2] <= 55 {
                let c: u16 = (self.input[p + 2] - 48) as u16;
                proof {
                    assert(s.subrange(p as int, p + 3).drop_last() =~= s.subrange(p as int, p + 2));
                }
                ((((a * 8 + b) * 8 + c) % 256) as u8, p + 3)
            } else {
                ((a * 8 + b) as u8, p + 2)
            }
        } else {
            (a as u8, p + 1)
        }
    }

    /// Read the next token; `None` at the end of the input.
    pub fn next_token(&mut self) -> (r: Result<Option<Token<'a>>, PdfError>)
        requires
            old(self).wf(),
        ensures
            final(self).wf(),
            final(self).bytes() == old(self).bytes(),
            final(self).at() == lexed(old(self).bytes(), old(self).at()).pos,
            match r {
                Ok(t) => lexed(old(self).bytes(), old(self).at()).result == Ok::<
                    Option<TokV>,
                    Seq<char>,
                >(opt_tok(t)),
                Err(e) => lexed(old(self).bytes(), old(self).at()).result == Err::<
                    Option<TokV>,
                    Seq<char>,
                >(e@),
            },
    {
        let ghost p = self.pos as int;
        let ghost s = self.input@;
        self.skip_whitespace_and_comments();
        proof {
            reveal(lexed);
            lemma_skip_space(s, p);
            assert(s.len() == self.input.len());
        }
        if self.pos >= self.input.len() {
            return Ok(None);
        }
        let start: usize = self.pos;
        let b: u8 = self.input[start];
        let twice: bool = self.input.len() - start > 1 && self.input[start + 1] == b;
        let read: Result<Token<'a>, PdfError> = if b == 91 {
            self.pos = start + 1;
            Ok(Token { start, end: start + 1, kind: TokenKind::ArrayStart })
        } else if b == 93 {
            self.pos = start + 1;
            Ok(Token { start, end: start + 1, kind: TokenKind::ArrayEnd })
        } else if b == 60 {
            if twice {
                self.pos = start + 2;
                Ok(Token { start, end: start + 2, kind: TokenKind::DictStart })
            } else {
                self.read_hex_string(start)
            }
        } else if b == 62 {
            if twice {
                self.pos = start + 2;
                Ok(Token { start, end: start + 2, kind: TokenKind::DictEnd })
            } else {
                let m: String = cat_nat("PDF lexer: unexpected `>` at byte ".to_owned(), start as u64);
                Err(PdfError::Other(cat(m, " (need `>>` for dict end)")))
            }
        } else if b == 40 {
            self.read_literal_string(start)
        } else if b == 47 {
            self.read_name(start)
        } else if b == 43 || b == 45 || b == 46 || (48 <= b && b <= 57) {
            self.read_number(start)
        } else {
            self.read_keyword(start)
        };
        match read {
            Ok(t) => Ok(Some(t)),
            Err(e) => Err(e),
        }
    }
}

// ------------------------------------------------------------------- laws

/// A token lies where the cursor was or after it, takes at least one byte,
/// and leaves the cursor at its end, within the input. An error leaves the
/// cursor within the input too and never moves it back.
pub proof fn law_token_place(s: Seq<u8>, pos: int)
    requires
        0 <= pos <= s.len(),
    ensures
        pos <= lexed(s, pos).pos <= s.len(),
        lexed(s, pos).result matches Ok(Some(t)) ==> {
            &&& pos <= t.start < t.end <= s.len()
            &&& t.start == skip_space(s, pos)
            &&& lexed(s, pos).pos == t.end
        },
        lexed(s, pos).result matches Ok(None) ==> lexed(s, pos).pos == s.len(),
{
    reveal(lexed);
    lemma_skip_space(s, pos);
    let start = skip_space(s, pos);
    if start < s.len() {
        lemma_token_at(s, start);
    }
}

/// No token is found exactly where only white space and comments are left.
pub proof fn law_end_of_input(s: Seq<u8>, pos: int)
    requires
        0 <= pos <= s.len(),
    ensures
        (lexed(s, pos).result == Ok::<Option<TokV>, Seq<char>>(None)) <==> skip_space(s, pos)
            == s.len(),
{
    reveal(lexed);
    lemma_skip_space(s, pos);
}

proof fn lemma_token_at(s: Seq<u8>, start: int)
    requires
        0 <= start < s.len(),
    ensures
        start <= token_at(s, start).pos <= s.len(),
        token_at(s, start).result is Ok ==> (token_at(s, start).result matches Ok(Some(t)) && t.start
            == start && start < t.end && t.end == token_at(s, start).pos),
{
    lemma_name_span(s, start + 1);
    lemma_hex_span(s, start + 1, None, start);
    lemma_literal_span(s, start + 1, 1);
    lemma_word_end(s, start);
    let first = if s[start] == 43 || s[start] == 45 {
        start + 1
    } else {
        start
    };
    lemma_number_scan(s, first, false, false);
}

proof fn lemma_word_end(s: Seq<u8>, p: int)
    requires
        0 <= p <= s.len(),
    ensures
        p <= word_end(s, p) <= s.len(),
    decreases s.len() - p,
{
    if p < s.len() && !is_space(s[p]) && !is_delim(s[p]) {
        lemma_word_end(s, p + 1);
    }
}

proof fn lemma_name_span(s: Seq<u8>, p: int)
    requires
        0 <= p <= s.len(),
    ensures
        name_span(s, p) matches Ok((t, e)) ==> p <= e <= s.len(),
    decreases s.len() - p,
{
    if p < s.len() {
        lemma_name_span(s, p + 1);
        if p + 3 <= s.len() {
            lemma_name_span(s, p + 3);
        }
    }
}

proof fn lemma_hex_span(s: Seq<u8>, p: int, high: Option<u8>, start: int)
    requires
        0 <= p <= s.len(),
    ensures
        hex_span(s, p, high, start) matches Ok((t, e)) ==> p < e <= s.len(),
    decreases s.len() - p,
{
    if p < s.len() {
        lemma_hex_span(s, p + 1, high, start);
        lemma_hex_span(s, p + 1, None, start);
        lemma_hex_span(s, p + 1, hex_value(s[p]), start);
    }
}

proof fn lemma_literal_span(s: Seq<u8>, p: int, depth: int)
    requires
        0 <= p <= s.len(),
    ensures
        literal_span(s, p, depth) matches Some((t, e)) ==> p < e <= s.len(),
    decreases s.len() - p,
{
    if p < s.len() {
        lemma_literal_span(s, p + 1, depth);
        lemma_literal_span(s, p + 1, depth + 1);
        lemma_literal_span(s, p + 1, depth - 1);
        if p + 2 <= s.len() {
            lemma_literal_span(s, p + 2, depth);
        }
        if p + 3 <= s.len() {
            lemma_literal_span(s, p + 3, depth);
        }
        if p + 4 <= s.len() {
            lemma_literal_span(s, p + 4, depth);
        }
    }
}

} // verus!
