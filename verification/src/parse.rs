//! The object parser: tokens to objects.

use vstd::prelude::*;
use vstd::utf8::{decode_utf8, valid_utf8};
use crate::describe::{
    cat_got_token, cat_token, got, got_token, token_text, unexpected,
};
use crate::error::PdfError;
use crate::lex::{law_token_place, lemma_skip_space, lexed, opt_tok, KindV, LexV, Lexer, TokV, Token, TokenKind};
use crate::objects::{
    dict_get, dict_set, distinct_keys, law_set_keeps_distinct, objs_view, Dict, DictV, ObjV, Object,
    ObjectId, Stream,
};
use crate::text::{cat, cat_int, cat_nat, dec, decode_utf8_lossy, decode_utf8_strict, utf8_lossy};

verus! {

/// How deep arrays and dictionaries may be nested: a hard ceiling, without which
/// a file of brackets alone would exhaust the stack.
pub const MAX_PARSE_DEPTH: usize = 1024;

/// Where the length of a stream comes from when its `/Length` is an indirect
/// reference.
pub trait LengthSource {
    /// The length that object `id` holds, or why there is none.
    spec fn length_of(&self, id: ObjectId) -> Result<i64, Seq<char>>;

    /// Find the length that object `id` holds.
    fn find_length(&self, id: ObjectId) -> (r: Result<i64, PdfError>)
        ensures
            match r {
                Ok(n) => self.length_of(id) == Ok::<i64, Seq<char>>(n),
                Err(e) => self.length_of(id) == Err::<i64, Seq<char>>(e@),
            },
    ;
}

/// No lengths at all: an indirect `/Length` is an error.
pub struct NoLengths;

impl LengthSource for NoLengths {
    open spec fn length_of(&self, id: ObjectId) -> Result<i64, Seq<char>> {
        Err("PDF parser: stream /Length is an indirect reference, which only a document can resolve"@)
    }

    fn find_length(&self, id: ObjectId) -> (r: Result<i64, PdfError>) {
        Err(
            PdfError::other(
                "PDF parser: stream /Length is an indirect reference, which only a document can resolve",
            ),
        )
    }
}

/// The lengths of a source, as a function.
pub type Lengths = spec_fn(ObjectId) -> Result<i64, Seq<char>>;

/// The lengths that `l` knows.
pub open spec fn lengths_of<L: LengthSource>(l: L) -> Lengths {
    |id: ObjectId| l.length_of(id)
}

/// A value and where it ends, or the description of an error.
pub type Parsed = Result<(ObjV, int), Seq<char>>;

/// Reading went on from `p` to `q` within the input, as it always does.
pub open spec fn ahead(s: Seq<u8>, p: int, q: int) -> bool {
    0 <= p < q <= s.len()
}

/// The bytes of an ASCII word.
pub open spec fn word(k: KindV, w: Seq<char>) -> bool {
    k matches KindV::Keyword(b) && b.len() == w.len() && forall|i: int|
        0 <= i < b.len() ==> #[trigger] b[i] as char == w[i]
}

/// An integer that may be the front of an indirect reference: what it turns
/// out to be, given what follows it from `p` on.
pub open spec fn integer_or_reference(s: Seq<u8>, n: i64, p: int) -> Parsed {
    match lexed(s, p).result {
        Err(e) => Err(e),
        Ok(None) => Ok((ObjV::Integer(n), s.len() as int)),
        Ok(Some(t2)) => match t2.kind {
            KindV::Integer(g) => match lexed(s, t2.end).result {
                Err(e) => Err(e),
                Ok(None) => Ok((ObjV::Integer(n), p)),
                Ok(Some(t3)) => if !word(t3.kind, "R"@) {
                    Ok((ObjV::Integer(n), p))
                } else if n < 1 || n > u32::MAX || g < 0 || g > u16::MAX {
                    Err(
                        "PDF parser: indirect ref out of range `"@ + dec(n as int) + " "@ + dec(
                            g as int,
                        ) + " R`"@,
                    )
                } else {
                    Ok(
                        (
                            ObjV::Reference(
                                ObjectId { number: n as u32, generation: g as u16 },
                            ),
                            t3.end,
                        ),
                    )
                },
            },
            _ => Ok((ObjV::Integer(n), t2.start)),
        },
    }
}

/// The object that begins with token `t`, `depth` levels deep.
pub open spec fn object_from(s: Seq<u8>, t: TokV, depth: int, lens: Lengths) -> Parsed
    decreases s.len() - t.end, 2int,
{
    match t.kind {
        KindV::Integer(n) => integer_or_reference(s, n, t.end),
        KindV::Real(r) => Ok((ObjV::Real(r), t.end)),
        KindV::Name(b) => if valid_utf8(b) {
            Ok((ObjV::Name(decode_utf8(b)), t.end))
        } else {
            Err("PDF parser: non-UTF-8 name at byte "@ + dec(t.start))
        },
        KindV::LiteralString(b) => Ok((ObjV::LiteralString(b), t.end)),
        KindV::HexString(b) => Ok((ObjV::HexString(b), t.end)),
        KindV::ArrayStart => if depth >= MAX_PARSE_DEPTH {
            too_deep()
        } else {
            array_from(s, t.end, depth + 1, lens, Seq::empty())
        },
        KindV::DictStart => if depth >= MAX_PARSE_DEPTH {
            too_deep()
        } else {
            dict_from(s, t.end, depth + 1, lens, t.start, Seq::empty())
        },
        KindV::Keyword(b) => if word(t.kind, "true"@) {
            Ok((ObjV::Bool(true), t.end))
        } else if word(t.kind, "false"@) {
            Ok((ObjV::Bool(false), t.end))
        } else if word(t.kind, "null"@) {
            Ok((ObjV::Null, t.end))
        } else {
            Err(
                "PDF parser: unexpected keyword `"@ + utf8_lossy(b) + "` at byte "@ + dec(t.start),
            )
        },
        KindV::ArrayEnd => Err("PDF parser: unexpected `]` at byte "@ + dec(t.start)),
        KindV::DictEnd => Err("PDF parser: unexpected `>>` at byte "@ + dec(t.start)),
    }
}

/// Arrays and dictionaries are nested too deeply.
pub open spec fn too_deep() -> Parsed {
    Err("PDF parser: objects are nested too deeply"@)
}

/// The rest of an array from `p` on, behind the items `items`.
pub open spec fn array_from(
    s: Seq<u8>,
    p: int,
    depth: int,
    lens: Lengths,
    items: Seq<ObjV>,
) -> Parsed
    decreases s.len() - p, 1int,
{
    match lexed(s, p).result {
        Err(e) => Err(e),
        Ok(None) => Err("PDF parser: unterminated array (EOF before `]`)"@),
        Ok(Some(t)) => if t.kind == KindV::ArrayEnd {
            Ok((ObjV::Array(items), t.end))
        } else if !ahead(s, p, t.end) {
            too_deep()
        } else {
            match object_from(s, t, depth, lens) {
                Err(e) => Err(e),
                Ok((o, q)) => if ahead(s, p, q) {
                    array_from(s, q, depth, lens, items.push(o))
                } else {
                    too_deep()
                },
            }
        },
    }
}

/// The rest of a dictionary from `p` on, behind the entries `d`; `start` is
/// where it began.
pub open spec fn dict_from(
    s: Seq<u8>,
    p: int,
    depth: int,
    lens: Lengths,
    start: int,
    d: DictV,
) -> Parsed
    decreases s.len() - p, 1int,
{
    match lexed(s, p).result {
        Err(e) => Err(e),
        Ok(None) => Err(
            "PDF parser: unterminated dict starting at byte "@ + dec(start)
                + " (EOF before `>>`)"@,
        ),
        Ok(Some(t)) => match t.kind {
            KindV::DictEnd => dict_or_stream(s, t.end, lens, d),
            KindV::Name(k) => if !valid_utf8(k) {
                Err("PDF parser: non-UTF-8 dict key at byte "@ + dec(t.start))
            } else {
                match lexed(s, t.end).result {
                    Err(e) => Err(e),
                    Ok(None) => Err(
                        "PDF parser: dict key `"@ + decode_utf8(k) + "` at byte "@ + dec(t.start)
                            + " has no value"@,
                    ),
                    Ok(Some(v)) => if !ahead(s, p, v.end) {
                        too_deep()
                    } else {
                        match object_from(s, v, depth, lens) {
                            Err(e) => Err(e),
                            Ok((o, q)) => if ahead(s, p, q) {
                                dict_from(
                                    s,
                                    q,
                                    depth,
                                    lens,
                                    start,
                                    dict_set(d, decode_utf8(k), o),
                                )
                            } else {
                                too_deep()
                            },
                        }
                    },
                }
            },
            _ => Err(
                "PDF parser: dict key must be a Name at byte "@ + dec(t.start) + got_token(t.kind),
            ),
        },
    }
}

/// Where the data of a stream begins whose keyword ends at `p`: behind one
/// CR, one LF or both.
pub open spec fn data_start(s: Seq<u8>, p: int) -> int {
    let q = if p < s.len() && s[p] == 13 {
        p + 1
    } else {
        p
    };
    if q < s.len() && s[q] == 10 {
        q + 1
    } else {
        q
    }
}

/// The number of bytes that a stream's dictionary gives it.
pub open spec fn stream_length(d: DictV, lens: Lengths) -> Result<i64, Seq<char>> {
    match dict_get(d, "Length"@) {
        Some(ObjV::Integer(n)) => checked_length(Ok(n)),
        Some(ObjV::Reference(id)) => checked_length(lens(id)),
        Some(o) => Err("PDF parser: stream /Length must be a non-negative integer"@ + got(o)),
        None => Err("PDF parser: stream object missing required /Length entry"@),
    }
}

/// A length must not be negative.
pub open spec fn checked_length(r: Result<i64, Seq<char>>) -> Result<i64, Seq<char>> {
    match r {
        Ok(n) => if n >= 0 {
            Ok(n)
        } else {
            Err(
                "PDF parser: stream /Length must be a non-negative integer"@ + got(
                    ObjV::Integer(n),
                ),
            )
        },
        Err(e) => Err(e),
    }
}

/// A dictionary that has ended at `p`, or the stream that it is the front of.
pub open spec fn dict_or_stream(s: Seq<u8>, p: int, lens: Lengths, d: DictV) -> Parsed {
    match lexed(s, p).result {
        Err(e) => Err(e),
        Ok(None) => Ok((ObjV::Dict(d), s.len() as int)),
        Ok(Some(t)) => if !word(t.kind, "stream"@) {
            Ok((ObjV::Dict(d), t.start))
        } else {
            match stream_length(d, lens) {
                Err(e) => Err(e),
                Ok(n) => {
                    let a = data_start(s, t.end);
                    let b = if a + n < s.len() {
                        a + n
                    } else {
                        s.len() as int
                    };
                    match lexed(s, b).result {
                        Err(e) => Err(e),
                        Ok(None) => Err("PDF parser: stream missing `endstream`"@),
                        Ok(Some(e)) => if word(e.kind, "endstream"@) {
                            Ok((ObjV::Stream(d, s.subrange(a, b)), e.end))
                        } else {
                            Err(
                                "PDF parser: expected `endstream` after stream body at byte "@
                                    + dec(e.start) + got_token(e.kind),
                            )
                        },
                    }
                },
            }
        },
    }
}

/// The object at `p`, if the input has one there.
#[verifier::opaque]
pub open spec fn object_at(s: Seq<u8>, p: int, lens: Lengths) -> Result<
    Option<(ObjV, int)>,
    Seq<char>,
> {
    match lexed(s, p).result {
        Err(e) => Err(e),
        Ok(None) => Ok(None),
        Ok(Some(t)) => match object_from(s, t, 0, lens) {
            Err(e) => Err(e),
            Ok(v) => Ok(Some(v)),
        },
    }
}

/// A parsed object ends behind the token it began with, within the input.
pub proof fn lemma_object_from(s: Seq<u8>, t: TokV, depth: int, lens: Lengths)
    requires
        0 <= t.start < t.end <= s.len(),
    ensures
        object_from(s, t, depth, lens) matches Ok((o, q)) ==> t.end <= q <= s.len(),
    decreases s.len() - t.end, 2int,
{
    match t.kind {
        KindV::Integer(n) => {
            law_token_place(s, t.end);
            match lexed(s, t.end).result {
                Ok(Some(t2)) => {
                    law_token_place(s, t2.end);
                },
                _ => {},
            }
        },
        KindV::ArrayStart => {
            lemma_array_from(s, t.end, depth + 1, lens, Seq::empty());
        },
        KindV::DictStart => {
            lemma_dict_from(s, t.end, depth + 1, lens, t.start, Seq::empty());
        },
        _ => {},
    }
}

proof fn lemma_array_from(s: Seq<u8>, p: int, depth: int, lens: Lengths, items: Seq<ObjV>)
    requires
        0 <= p <= s.len(),
    ensures
        array_from(s, p, depth, lens, items) matches Ok((o, q)) ==> p < q <= s.len(),
    decreases s.len() - p, 1int,
{
    law_token_place(s, p);
    match lexed(s, p).result {
        Ok(Some(t)) => {
            if t.kind != KindV::ArrayEnd {
                lemma_object_from(s, t, depth, lens);
                match object_from(s, t, depth, lens) {
                    Ok((o, q)) => {
                        lemma_array_from(s, q, depth, lens, items.push(o));
                    },
                    _ => {},
                }
            }
        },
        _ => {},
    }
}

proof fn lemma_dict_from(s: Seq<u8>, p: int, depth: int, lens: Lengths, start: int, d: DictV)
    requires
        0 <= p <= s.len(),
    ensures
        dict_from(s, p, depth, lens, start, d) matches Ok((o, q)) ==> p < q <= s.len(),
    decreases s.len() - p, 1int,
{
    law_token_place(s, p);
    match lexed(s, p).result {
        Ok(Some(t)) => match t.kind {
            KindV::DictEnd => {
                lemma_dict_or_stream(s, t.end, lens, d);
            },
            KindV::Name(k) => {
                law_token_place(s, t.end);
                match lexed(s, t.end).result {
                    Ok(Some(v)) => {
                        lemma_object_from(s, v, depth, lens);
                        match object_from(s, v, depth, lens) {
                            Ok((o, q)) => {
                                lemma_dict_from(
                                    s,
                                    q,
                                    depth,
                                    lens,
                                    start,
                                    dict_set(d, decode_utf8(k), o),
                                );
                            },
                            _ => {},
                        }
                    },
                    _ => {},
                }
            },
            _ => {},
        },
        _ => {},
    }
}

proof fn lemma_dict_or_stream(s: Seq<u8>, p: int, lens: Lengths, d: DictV)
    requires
        0 <= p <= s.len(),
    ensures
        dict_or_stream(s, p, lens, d) matches Ok((o, q)) ==> p <= q <= s.len(),
{
    law_token_place(s, p);
    match lexed(s, p).result {
        Ok(Some(t)) => {
            match stream_length(d, lens) {
                Ok(n) => {
                    let a = data_start(s, t.end);
                    let b = if a + n < s.len() {
                        a + n
                    } else {
                        s.len() as int
                    };
                    law_token_place(s, b);
                },
                _ => {},
            }
        },
        _ => {},
    }
}

/// The bytes are those of an ASCII word.
pub(crate) fn is_word(b: &[u8], w: &str) -> (r: bool)
    ensures
        r == word(KindV::Keyword(b@), w@),
{
    if b.len() != w.unicode_len() {
        return false;
    }
    let mut i: usize = 0;
    while i < b.len()
        invariant
            i <= b@.len(),
            b@.len() == w@.len(),
            forall|k: int| 0 <= k < i ==> #[trigger] b@[k] as char == w@[k],
        decreases b.len() - i,
    {
        if b[i] as char != w.get_char(i) {
            proof {
                assert(b@[i as int] as char != w@[i as int]);
            }
            return false;
        }
        i = i + 1;
    }
    true
}

/// The token is a given ASCII word.
fn is_keyword(t: &Token, w: &str) -> (r: bool)
    ensures
        r == word(t@.kind, w@),
{
    match &t.kind {
        TokenKind::Keyword(b) => is_word(*b, w),
        _ => false,
    }
}

/// A parser: a tokenizer and at most one token read ahead.
pub struct Parser<'a> {
    lex: Lexer<'a>,
    peeked: Option<Token<'a>>,
}

impl<'a> Parser<'a> {
    /// The bytes that the parser reads.
    pub closed spec fn bytes(&self) -> Seq<u8> {
        self.lex.bytes()
    }

    /// Where the next token is looked for.
    pub closed spec fn at(&self) -> int {
        match self.peeked {
            Some(t) => t.start as int,
            None => self.lex.at(),
        }
    }

    /// A token read ahead is the one that stands at its place, and the
    /// tokenizer stands behind it.
    pub closed spec fn wf(&self) -> bool {
        &&& self.lex.wf()
        &&& self.peeked matches Some(t) ==> {
            &&& lexed(self.lex.bytes(), t.start as int) == LexV::token(
                t.start as int,
                t.end as int,
                t.kind@,
            )
            &&& self.lex.at() == t.end
            &&& t.start < t.end <= self.lex.bytes().len()
        }
    }

    /// Nothing is read ahead.
    pub closed spec fn fresh(&self) -> bool {
        self.peeked is None
    }

    proof fn lemma_at(&self)
        requires
            self.wf(),
        ensures
            0 <= self.at() <= self.bytes().len() <= usize::MAX,
    {
        self.lex.lemma_wf();
    }

    /// A parser at the start of `input`.
    pub fn new(input: &'a [u8]) -> (r: Parser<'a>)
        ensures
            r.wf(),
            r.bytes() == input@,
            r.at() == 0,
    {
        Parser { lex: Lexer::new(input), peeked: None }
    }

    /// A parser that goes on where a tokenizer stands.
    pub fn from_lexer(lex: Lexer<'a>) -> (r: Parser<'a>)
        requires
            lex.wf(),
        ensures
            r.wf(),
            r.bytes() == lex.bytes(),
            r.at() == lex.at(),
    {
        Parser { lex, peeked: None }
    }

    /// The tokenizer, to be moved. What was read ahead is forgotten, so the
    /// parser goes on wherever the tokenizer is left.
    pub fn lexer_mut(&mut self) -> (r: &mut Lexer<'a>)
        requires
            old(self).wf(),
        ensures
            r.wf(),
            r.bytes() == old(self).bytes(),
            final(r).wf() ==> final(self).wf(),
            final(self).bytes() == final(r).bytes(),
            final(self).at() == final(r).at(),
    {
        self.peeked = None;
        &mut self.lex
    }

    /// Where the next token is looked for.
    pub fn position(&self) -> (r: usize)
        ensures
            r == self.at(),
    {
        match &self.peeked {
            Some(t) => t.start,
            None => self.lex.position(),
        }
    }

    fn next(&mut self) -> (r: Result<Option<Token<'a>>, PdfError>)
        requires
            old(self).wf(),
        ensures
            final(self).wf(),
            final(self).fresh(),
            final(self).bytes() == old(self).bytes(),
            final(self).at() == lexed(old(self).bytes(), old(self).at()).pos,
            match r {
                Ok(t) => {
                    &&& lexed(old(self).bytes(), old(self).at()).result == Ok::<
                        Option<TokV>,
                        Seq<char>,
                    >(opt_tok(t))
                    &&& t matches Some(tok) ==> {
                        &&& old(self).at() <= tok.start < tok.end <= old(self).bytes().len()
                        &&& final(self).at() == tok.end
                        &&& tok.start == crate::lex::skip_space(old(self).bytes(), old(self).at())
                    }
                },
                Err(e) => lexed(old(self).bytes(), old(self).at()).result == Err::<
                    Option<TokV>,
                    Seq<char>,
                >(e@),
            },
    {
        proof {
            self.lemma_at();
            law_token_place(self.bytes(), self.at());
        }
        match self.peeked.take() {
            Some(t) => Ok(Some(t)),
            None => self.lex.next_token(),
        }
    }

    /// Put a token back that was just read from `from`.
    fn put_back(&mut self, t: Token<'a>, from: Ghost<int>)
        requires
            old(self).wf(),
            old(self).fresh(),
            old(self).at() == t.end,
            0 <= from@ <= old(self).bytes().len(),
            lexed(old(self).bytes(), from@).result == Ok::<Option<TokV>, Seq<char>>(Some(t@)),
        ensures
            final(self).wf(),
            final(self).bytes() == old(self).bytes(),
            final(self).at() == t.start,
    {
        proof {
            reveal(lexed);
            law_token_place(self.bytes(), from@);
            lemma_skip_space(self.bytes(), from@);
            let s = self.bytes();
            assert(crate::lex::skip_space(s, t.start as int) == t.start);
        }
        self.peeked = Some(t);
    }

    /// Parse one object; `None` where the input has no more.
    pub fn parse_object(&mut self) -> (r: Result<Option<Object>, PdfError>)
        requires
            old(self).wf(),
        ensures
            final(self).wf(),
            final(self).bytes() == old(self).bytes(),
            match r {
                Ok(Some(o)) => object_at(
                    old(self).bytes(),
                    old(self).at(),
                    lengths_of(NoLengths),
                ) == Ok::<Option<(ObjV, int)>, Seq<char>>(Some((o@, final(self).at()))),
                Ok(None) => object_at(
                    old(self).bytes(),
                    old(self).at(),
                    lengths_of(NoLengths),
                ) == Ok::<Option<(ObjV, int)>, Seq<char>>(None),
                Err(e) => object_at(
                    old(self).bytes(),
                    old(self).at(),
                    lengths_of(NoLengths),
                ) == Err::<Option<(ObjV, int)>, Seq<char>>(e@),
            },
    {
        proof {
            reveal(object_at);
        }
        match self.next() {
            Err(e) => Err(e),
            Ok(None) => Ok(None),
            Ok(Some(t)) => match self.object_from_token(t, 0, &NoLengths) {
                Ok(o) => Ok(Some(o)),
                Err(e) => Err(e),
            },
        }
    }

    fn object_from_token<L: LengthSource>(
        &mut self,
        tok: Token<'a>,
        depth: usize,
        lengths: &L,
    ) -> (r: Result<Object, PdfError>)
        requires
            old(self).wf(),
            old(self).fresh(),
            old(self).at() == tok.end,
            tok.start < tok.end <= old(self).bytes().len(),
            depth <= MAX_PARSE_DEPTH,
        ensures
            final(self).wf(),
            final(self).bytes() == old(self).bytes(),
            match r {
                Ok(o) => object_from(
                    old(self).bytes(),
                    tok@,
                    depth as int,
                    lengths_of(*lengths),
                ) == Ok::<(ObjV, int), Seq<char>>((o@, final(self).at())),
                Err(e) => object_from(
                    old(self).bytes(),
                    tok@,
                    depth as int,
                    lengths_of(*lengths),
                ) == Err::<(ObjV, int), Seq<char>>(e@),
            },
        decreases old(self).bytes().len() - tok.end, 2int,
    {
        let start: usize = tok.start;
        match tok.kind {
            TokenKind::Integer(n) => self.maybe_indirect_ref(n),
            TokenKind::Real(x) => Ok(Object::Real(x)),
            TokenKind::Name(bytes) => match decode_utf8_strict(bytes) {
                Some(s) => Ok(Object::Name(s)),
                None => Err(
                    PdfError::Other(
                        cat_nat("PDF parser: non-UTF-8 name at byte ".to_owned(), start as u64),
                    ),
                ),
            },
            TokenKind::LiteralString(bytes) => Ok(Object::LiteralString(bytes)),
            TokenKind::HexString(bytes) => Ok(Object::HexString(bytes)),
            TokenKind::ArrayStart => {
                if depth >= MAX_PARSE_DEPTH {
                    return Err(PdfError::other("PDF parser: objects are nested too deeply"));
                }
                self.parse_array(depth + 1, lengths)
            },
            TokenKind::DictStart => {
                if depth >= MAX_PARSE_DEPTH {
                    return Err(PdfError::other("PDF parser: objects are nested too deeply"));
                }
                self.parse_dict_or_stream(start, depth + 1, lengths)
            },
            TokenKind::Keyword(kw) => {
                if is_word(kw, "true") {
                    Ok(Object::Bool(true))
                } else if is_word(kw, "false") {
                    Ok(Object::Bool(false))
                } else if is_word(kw, "null") {
                    Ok(Object::Null)
                } else {
                    let m: String = cat(
                        "PDF parser: unexpected keyword `".to_owned(),
                        decode_utf8_lossy(kw).as_str(),
                    );
                    Err(PdfError::Other(cat_nat(cat(m, "` at byte "), start as u64)))
                }
            },
            TokenKind::ArrayEnd => Err(
                PdfError::Other(
                    cat_nat("PDF parser: unexpected `]` at byte ".to_owned(), start as u64),
                ),
            ),
            TokenKind::DictEnd => Err(
                PdfError::Other(
                    cat_nat("PDF parser: unexpected `>>` at byte ".to_owned(), start as u64),
                ),
            ),
        }
    }

    /// An integer that was just read: a reference, if a generation and `R`
    /// follow it.
    fn maybe_indirect_ref(&mut self, n: i64) -> (r: Result<Object, PdfError>)
        requires
            old(self).wf(),
            old(self).fresh(),
        ensures
            final(self).wf(),
            final(self).bytes() == old(self).bytes(),
            match r {
                Ok(o) => integer_or_reference(old(self).bytes(), n, old(self).at()) == Ok::<
                    (ObjV, int),
                    Seq<char>,
                >((o@, final(self).at())),
                Err(e) => integer_or_reference(old(self).bytes(), n, old(self).at()) == Err::<
                    (ObjV, int),
                    Seq<char>,
                >(e@),
            },
    {
        proof {
            self.lemma_at();
            law_token_place(self.bytes(), self.at());
        }
        let ghost from = self.at();
        let saved: usize = self.lex.position();
        let t2: Token<'a> = match self.next() {
            Err(e) => {
                return Err(e);
            },
            Ok(None) => {
                return Ok(Object::Integer(n));
            },
            Ok(Some(t)) => t,
        };
        let g: i64 = match &t2.kind {
            TokenKind::Integer(g) => *g,
            _ => {
                self.put_back(t2, Ghost(from));
                return Ok(Object::Integer(n));
            },
        };
        let t3: Token<'a> = match self.next() {
            Err(e) => {
                return Err(e);
            },
            Ok(None) => {
                self.lex.seek(saved);
                return Ok(Object::Integer(n));
            },
            Ok(Some(t)) => t,
        };
        if !is_keyword(&t3, "R") {
            self.lex.seek(saved);
            return Ok(Object::Integer(n));
        }
        if n < 1 || n > u32::MAX as i64 || g < 0 || g > u16::MAX as i64 {
            let m: String = cat_int("PDF parser: indirect ref out of range `".to_owned(), n);
            let m: String = cat_int(cat(m, " "), g);
            return Err(PdfError::Other(cat(m, " R`")));
        }
        Ok(Object::Reference(ObjectId { number: n as u32, generation: g as u16 }))
    }

    fn parse_array<L: LengthSource>(&mut self, depth: usize, lengths: &L) -> (r: Result<
        Object,
        PdfError,
    >)
        requires
            old(self).wf(),
            depth <= MAX_PARSE_DEPTH,
        ensures
            final(self).wf(),
            final(self).bytes() == old(self).bytes(),
            match r {
                Ok(o) => array_from(
                    old(self).bytes(),
                    old(self).at(),
                    depth as int,
                    lengths_of(*lengths),
                    Seq::empty(),
                ) == Ok::<(ObjV, int), Seq<char>>((o@, final(self).at())),
                Err(e) => array_from(
                    old(self).bytes(),
                    old(self).at(),
                    depth as int,
                    lengths_of(*lengths),
                    Seq::empty(),
                ) == Err::<(ObjV, int), Seq<char>>(e@),
            },
        decreases old(self).bytes().len() - old(self).at(), 1int,
    {
        let mut items: Vec<Object> = Vec::new();
        let ghost s = self.bytes();
        let ghost lens = lengths_of(*lengths);
        let ghost goal = array_from(s, self.at(), depth as int, lens, Seq::empty());
        let ghost first = self.at();
        proof {
            assert(objs_view(items@) =~= Seq::empty());
        }
        loop
            invariant
                self.wf(),
                self.bytes() == s,
                s == old(self).bytes(),
                first == old(self).at(),
                first <= self.at(),
                depth <= MAX_PARSE_DEPTH,
                lens == lengths_of(*lengths),
                goal == array_from(s, first, depth as int, lens, Seq::empty()),
                goal == array_from(s, self.at(), depth as int, lens, objs_view(items@)),
            decreases s.len() - self.at(),
        {
            let ghost p = self.at();
            proof {
                self.lemma_at();
            }
            let t: Token<'a> = match self.next() {
                Err(e) => {
                    return Err(e);
                },
                Ok(None) => {
                    return Err(PdfError::other("PDF parser: unterminated array (EOF before `]`)"));
                },
                Ok(Some(t)) => t,
            };
            if let TokenKind::ArrayEnd = &t.kind {
                proof {
                    crate::objects::lemma_array_view(items);
                }
                return Ok(Object::Array(items));
            }
            proof {
                assert(t@.kind != KindV::ArrayEnd);
                lemma_object_from(s, t@, depth as int, lens);
            }
            let ghost before = objs_view(items@);
            match self.object_from_token(t, depth, lengths) {
                Err(e) => {
                    return Err(e);
                },
                Ok(o) => {
                    items.push(o);
                    proof {
                        assert(objs_view(items@) =~= before.push(o@));
                    }
                },
            }
        }
    }

    fn parse_dict_or_stream<L: LengthSource>(
        &mut self,
        start: usize,
        depth: usize,
        lengths: &L,
    ) -> (r: Result<Object, PdfError>)
        requires
            old(self).wf(),
            depth <= MAX_PARSE_DEPTH,
        ensures
            final(self).wf(),
            final(self).bytes() == old(self).bytes(),
            match r {
                Ok(o) => dict_from(
                    old(self).bytes(),
                    old(self).at(),
                    depth as int,
                    lengths_of(*lengths),
                    start as int,
                    Seq::empty(),
                ) == Ok::<(ObjV, int), Seq<char>>((o@, final(self).at())),
                Err(e) => dict_from(
                    old(self).bytes(),
                    old(self).at(),
                    depth as int,
                    lengths_of(*lengths),
                    start as int,
                    Seq::empty(),
                ) == Err::<(ObjV, int), Seq<char>>(e@),
            },
        decreases old(self).bytes().len() - old(self).at(), 1int,
    {
        let mut dict: Dict = Dict::new();
        let ghost s = self.bytes();
        let ghost lens = lengths_of(*lengths);
        let ghost first = self.at();
        let ghost goal = dict_from(s, first, depth as int, lens, start as int, Seq::empty());
        loop
            invariant_except_break
                goal == dict_from(s, self.at(), depth as int, lens, start as int, dict@),
            invariant
                self.wf(),
                self.bytes() == s,
                s == old(self).bytes(),
                first == old(self).at(),
                first <= self.at(),
                depth <= MAX_PARSE_DEPTH,
                lens == lengths_of(*lengths),
                goal == dict_from(s, first, depth as int, lens, start as int, Seq::empty()),
            ensures
                self.wf(),
                self.fresh(),
                self.bytes() == s,
                goal == dict_or_stream(s, self.at(), lens, dict@),
            decreases s.len() - self.at(),
        {
            let ghost p = self.at();
            proof {
                self.lemma_at();
            }
            let t: Token<'a> = match self.next() {
                Err(e) => {
                    return Err(e);
                },
                Ok(None) => {
                    let m: String = cat_nat(
                        "PDF parser: unterminated dict starting at byte ".to_owned(),
                        start as u64,
                    );
                    return Err(PdfError::Other(cat(m, " (EOF before `>>`)")));
                },
                Ok(Some(t)) => t,
            };
            let at: usize = t.start;
            let key_bytes: Vec<u8> = match t.kind {
                TokenKind::DictEnd => {
                    break;
                },
                TokenKind::Name(b) => b,
                other => {
                    let m: String = cat_nat(
                        "PDF parser: dict key must be a Name at byte ".to_owned(),
                        at as u64,
                    );
                    return Err(PdfError::Other(cat_got_token(m, &other)));
                },
            };
            let key: String = match decode_utf8_strict(key_bytes) {
                Some(k) => k,
                None => {
                    return Err(
                        PdfError::Other(
                            cat_nat(
                                "PDF parser: non-UTF-8 dict key at byte ".to_owned(),
                                at as u64,
                            ),
                        ),
                    );
                },
            };
            let v: Token<'a> = match self.next() {
                Err(e) => {
                    return Err(e);
                },
                Ok(None) => {
                    let m: String = cat("PDF parser: dict key `".to_owned(), key.as_str());
                    let m: String = cat_nat(cat(m, "` at byte "), at as u64);
                    return Err(PdfError::Other(cat(m, " has no value")));
                },
                Ok(Some(t)) => t,
            };
            proof {
                lemma_object_from(s, v@, depth as int, lens);
            }
            match self.object_from_token(v, depth, lengths) {
                Err(e) => {
                    return Err(e);
                },
                Ok(o) => {
                    dict.set(key.as_str(), o);
                },
            }
        }
        self.finish_dict(dict, lengths)
    }

    /// A dictionary whose `>>` was just read: itself, or the stream that it
    /// is the front of.
    fn finish_dict<L: LengthSource>(&mut self, dict: Dict, lengths: &L) -> (r: Result<
        Object,
        PdfError,
    >)
        requires
            old(self).wf(),
            old(self).fresh(),
        ensures
            final(self).wf(),
            final(self).bytes() == old(self).bytes(),
            match r {
                Ok(o) => dict_or_stream(
                    old(self).bytes(),
                    old(self).at(),
                    lengths_of(*lengths),
                    dict@,
                ) == Ok::<(ObjV, int), Seq<char>>((o@, final(self).at())),
                Err(e) => dict_or_stream(
                    old(self).bytes(),
                    old(self).at(),
                    lengths_of(*lengths),
                    dict@,
                ) == Err::<(ObjV, int), Seq<char>>(e@),
            },
    {
        proof {
            self.lemma_at();
            law_token_place(self.bytes(), self.at());
        }
        let ghost from = self.at();
        let ghost s = self.bytes();
        let t: Token<'a> = match self.next() {
            Err(e) => {
                return Err(e);
            },
            Ok(None) => {
                return Ok(Object::Dict(dict));
            },
            Ok(Some(t)) => t,
        };
        if !is_keyword(&t, "stream") {
            self.put_back(t, Ghost(from));
            return Ok(Object::Dict(dict));
        }
        let raw: &'a [u8] = self.lex.input();
        let mut begin: usize = t.end;
        if begin < raw.len() && raw[begin] == 13 {
            begin = begin + 1;
        }
        if begin < raw.len() && raw[begin] == 10 {
            begin = begin + 1;
        }
        let found: Result<i64, PdfError> = match dict.get("Length") {
            Some(Object::Integer(n)) => Ok(*n),
            Some(Object::Reference(id)) => lengths.find_length(*id),
            Some(o) => Err(
                unexpected("PDF parser: stream /Length must be a non-negative integer", o),
            ),
            None => Err(
                PdfError::other("PDF parser: stream object missing required /Length entry"),
            ),
        };
        let len: i64 = match found {
            Ok(n) => n,
            Err(e) => {
                return Err(e);
            },
        };
        if len < 0 {
            return Err(
                unexpected(
                    "PDF parser: stream /Length must be a non-negative integer",
                    &Object::Integer(len),
                ),
            );
        }
        let end: usize = if (len as u64) < (raw.len() - begin) as u64 {
            begin + len as usize
        } else {
            raw.len()
        };
        let data: Vec<u8> = vstd::slice::slice_to_vec(
            vstd::slice::slice_subrange(raw, begin, end),
        );
        self.lex.seek(end);
        match self.next() {
            Err(e) => Err(e),
            Ok(None) => Err(PdfError::other("PDF parser: stream missing `endstream`")),
            Ok(Some(e)) => {
                if is_keyword(&e, "endstream") {
                    Ok(Object::Stream(Stream::new(dict, data)))
                } else {
                    let m: String = cat_nat(
                        "PDF parser: expected `endstream` after stream body at byte ".to_owned(),
                        e.start as u64,
                    );
                    Err(PdfError::Other(cat_got_token(m, &e.kind)))
                }
            },
        }
    }
}

/// The integer token at `p` and where it ends; `what` names it in an error.
pub open spec fn integer_at(s: Seq<u8>, p: int, what: Seq<char>) -> Result<(i64, int), Seq<char>> {
    match lexed(s, p).result {
        Err(e) => Err(e),
        Ok(None) => Err("PDF parser: expected "@ + what + ", got EOF"@),
        Ok(Some(t)) => match t.kind {
            KindV::Integer(n) => Ok((n, t.end)),
            _ => Err(
                "PDF parser: expected "@ + what + " (integer), got "@ + token_text(t.kind)
                    + " at byte "@ + dec(t.start),
            ),
        },
    }
}

/// The keyword `w` at `p` and where it ends. `missing` describes the end of
/// the input in its place, `wrong` another token.
pub open spec fn keyword_at(
    s: Seq<u8>,
    p: int,
    w: Seq<char>,
    missing: Seq<char>,
    wrong: Seq<char>,
) -> Result<int, Seq<char>> {
    match lexed(s, p).result {
        Err(e) => Err(e),
        Ok(None) => Err(missing),
        Ok(Some(t)) => if word(t.kind, w) {
            Ok(t.end)
        } else {
            Err(wrong + dec(t.start) + got_token(t.kind))
        },
    }
}

/// The indirect object at `p`: its number and generation, `obj`, its body and
/// `endobj`.
#[verifier::opaque]
pub open spec fn indirect_at(s: Seq<u8>, p: int, lens: Lengths) -> Result<
    (ObjectId, ObjV, int),
    Seq<char>,
> {
    match integer_at(s, p, "indirect-object number"@) {
        Err(e) => Err(e),
        Ok((n, p1)) => match integer_at(s, p1, "indirect-object generation"@) {
            Err(e) => Err(e),
            Ok((g, p2)) => match keyword_at(
                s,
                p2,
                "obj"@,
                "PDF parser: unexpected EOF before `obj` keyword"@,
                "PDF parser: expected `obj` keyword at byte "@,
            ) {
                Err(e) => Err(e),
                Ok(p3) => match object_at(s, p3, lens) {
                    Err(e) => Err(e),
                    Ok(None) => Err("PDF parser: indirect object missing body"@),
                    Ok(Some((o, p4))) => match keyword_at(
                        s,
                        p4,
                        "endobj"@,
                        "PDF parser: indirect object missing `endobj`"@,
                        "PDF parser: expected `endobj` at byte "@,
                    ) {
                        Err(e) => Err(e),
                        Ok(p5) => if n < 1 || n > u32::MAX || g < 0 || g > u16::MAX {
                            Err(
                                "PDF parser: indirect-object id `"@ + dec(n as int) + " "@ + dec(
                                    g as int,
                                ) + "` out of range"@,
                            )
                        } else {
                            Ok((ObjectId { number: n as u32, generation: g as u16 }, o, p5))
                        },
                    },
                },
            },
        },
    }
}

impl<'a> Parser<'a> {
    fn expect_integer(&mut self, what: &str) -> (r: Result<i64, PdfError>)
        requires
            old(self).wf(),
        ensures
            final(self).wf(),
            final(self).bytes() == old(self).bytes(),
            match r {
                Ok(n) => integer_at(old(self).bytes(), old(self).at(), what@) == Ok::<
                    (i64, int),
                    Seq<char>,
                >((n, final(self).at())),
                Err(e) => integer_at(old(self).bytes(), old(self).at(), what@) == Err::<
                    (i64, int),
                    Seq<char>,
                >(e@),
            },
    {
        match self.next() {
            Err(e) => Err(e),
            Ok(None) => {
                let m: String = cat("PDF parser: expected ".to_owned(), what);
                Err(PdfError::Other(cat(m, ", got EOF")))
            },
            Ok(Some(t)) => match t.kind {
                TokenKind::Integer(n) => Ok(n),
                other => {
                    let m: String = cat("PDF parser: expected ".to_owned(), what);
                    let m: String = cat_token(cat(m, " (integer), got "), &other);
                    Err(PdfError::Other(cat_nat(cat(m, " at byte "), t.start as u64)))
                },
            },
        }
    }

    fn expect_keyword(&mut self, w: &str, missing: &str, wrong: &str) -> (r: Result<(), PdfError>)
        requires
            old(self).wf(),
        ensures
            final(self).wf(),
            final(self).bytes() == old(self).bytes(),
            match r {
                Ok(_) => keyword_at(old(self).bytes(), old(self).at(), w@, missing@, wrong@)
                    == Ok::<int, Seq<char>>(final(self).at()),
                Err(e) => keyword_at(old(self).bytes(), old(self).at(), w@, missing@, wrong@)
                    == Err::<int, Seq<char>>(e@),
            },
    {
        match self.next() {
            Err(e) => Err(e),
            Ok(None) => Err(PdfError::other(missing)),
            Ok(Some(t)) => {
                if is_keyword(&t, w) {
                    Ok(())
                } else {
                    let m: String = cat_nat(wrong.to_owned(), t.start as u64);
                    Err(PdfError::Other(cat_got_token(m, &t.kind)))
                }
            },
        }
    }

    /// Parse the indirect object (`n g obj … endobj`) that the parser stands
    /// at. A stream in it must have a direct `/Length`.
    pub fn parse_indirect(&mut self) -> (r: Result<(ObjectId, Object), PdfError>)
        requires
            old(self).wf(),
        ensures
            final(self).wf(),
            final(self).bytes() == old(self).bytes(),
            match r {
                Ok((id, o)) => indirect_at(
                    old(self).bytes(),
                    old(self).at(),
                    lengths_of(NoLengths),
                ) == Ok::<(ObjectId, ObjV, int), Seq<char>>((id, o@, final(self).at())),
                Err(e) => indirect_at(
                    old(self).bytes(),
                    old(self).at(),
                    lengths_of(NoLengths),
                ) == Err::<(ObjectId, ObjV, int), Seq<char>>(e@),
            },
    {
        self.parse_indirect_with_lengths(&NoLengths)
    }

    /// Parse the indirect object that the parser stands at, with the lengths
    /// of its streams looked up in `lengths` where they are indirect.
    pub fn parse_indirect_with_lengths<L: LengthSource>(&mut self, lengths: &L) -> (r: Result<
        (ObjectId, Object),
        PdfError,
    >)
        requires
            old(self).wf(),
        ensures
            final(self).wf(),
            final(self).bytes() == old(self).bytes(),
            match r {
                Ok((id, o)) => indirect_at(
                    old(self).bytes(),
                    old(self).at(),
                    lengths_of(*lengths),
                ) == Ok::<(ObjectId, ObjV, int), Seq<char>>((id, o@, final(self).at())),
                Err(e) => indirect_at(
                    old(self).bytes(),
                    old(self).at(),
                    lengths_of(*lengths),
                ) == Err::<(ObjectId, ObjV, int), Seq<char>>(e@),
            },
    {
        proof {
            reveal(object_at);
            reveal(indirect_at);
        }
        let n: i64 = match self.expect_integer("indirect-object number") {
            Ok(n) => n,
            Err(e) => {
                return Err(e);
            },
        };
        let g: i64 = match self.expect_integer("indirect-object generation") {
            Ok(n) => n,
            Err(e) => {
                return Err(e);
            },
        };
        match self.expect_keyword(
            "obj",
            "PDF parser: unexpected EOF before `obj` keyword",
            "PDF parser: expected `obj` keyword at byte ",
        ) {
            Ok(_) => {},
            Err(e) => {
                return Err(e);
            },
        }
        let body: Object = match self.next() {
            Err(e) => {
                return Err(e);
            },
            Ok(None) => {
                return Err(PdfError::other("PDF parser: indirect object missing body"));
            },
            Ok(Some(t)) => match self.object_from_token(t, 0, lengths) {
                Ok(o) => o,
                Err(e) => {
                    return Err(e);
                },
            },
        };
        match self.expect_keyword(
            "endobj",
            "PDF parser: indirect object missing `endobj`",
            "PDF parser: expected `endobj` at byte ",
        ) {
            Ok(_) => {},
            Err(e) => {
                return Err(e);
            },
        }
        if n < 1 || n > u32::MAX as i64 || g < 0 || g > u16::MAX as i64 {
            let m: String = cat_int("PDF parser: indirect-object id `".to_owned(), n);
            let m: String = cat_int(cat(m, " "), g);
            return Err(PdfError::Other(cat(m, "` out of range")));
        }
        Ok((ObjectId { number: n as u32, generation: g as u16 }, body))
    }
}

// ------------------------------------------------------------------- laws

/// An object that was parsed ends within the input, behind the place where it
/// was looked for.
pub proof fn law_object_place(s: Seq<u8>, p: int, lens: Lengths)
    requires
        0 <= p <= s.len(),
    ensures
        object_at(s, p, lens) matches Ok(Some((o, q))) ==> p < q <= s.len(),
{
    reveal(object_at);
    law_token_place(s, p);
    match lexed(s, p).result {
        Ok(Some(t)) => {
            lemma_object_from(s, t, 0, lens);
        },
        _ => {},
    }
}

/// The arrays and dictionaries of a value are nested at most `n` deep.
pub open spec fn nested_within(o: ObjV, n: int) -> bool
    decreases o,
{
    match o {
        ObjV::Array(v) => n >= 1 && forall|i: int|
            0 <= i < v.len() ==> nested_within(#[trigger] v[i], n - 1),
        ObjV::Dict(d) => n >= 1 && forall|i: int|
            0 <= i < d.len() ==> nested_within((#[trigger] d[i]).1, n - 1),
        ObjV::Stream(d, b) => n >= 1 && forall|i: int|
            0 <= i < d.len() ==> nested_within((#[trigger] d[i]).1, n - 1),
        _ => true,
    }
}

/// No object that is parsed is nested deeper than the ceiling.
pub proof fn law_parse_depth(s: Seq<u8>, p: int, lens: Lengths)
    ensures
        object_at(s, p, lens) matches Ok(Some((o, q))) ==> nested_within(o, MAX_PARSE_DEPTH as int),
{
    reveal(object_at);
    match lexed(s, p).result {
        Ok(Some(t)) => {
            lemma_object_depth(s, t, 0, lens);
        },
        _ => {},
    }
}

proof fn lemma_object_depth(s: Seq<u8>, t: TokV, depth: int, lens: Lengths)
    requires
        0 <= depth <= MAX_PARSE_DEPTH,
    ensures
        object_from(s, t, depth, lens) matches Ok((o, q)) ==> nested_within(
            o,
            MAX_PARSE_DEPTH - depth,
        ),
    decreases s.len() - t.end, 2int,
{
    match t.kind {
        KindV::ArrayStart => {
            if depth < MAX_PARSE_DEPTH {
                lemma_array_depth(s, t.end, depth + 1, lens, Seq::empty());
            }
        },
        KindV::DictStart => {
            if depth < MAX_PARSE_DEPTH {
                lemma_dict_depth(s, t.end, depth + 1, lens, t.start, Seq::empty());
            }
        },
        _ => {},
    }
}

proof fn lemma_array_depth(s: Seq<u8>, p: int, depth: int, lens: Lengths, items: Seq<ObjV>)
    requires
        0 <= depth <= MAX_PARSE_DEPTH,
        forall|i: int|
            0 <= i < items.len() ==> nested_within(#[trigger] items[i], MAX_PARSE_DEPTH - depth),
    ensures
        array_from(s, p, depth, lens, items) matches Ok((o, q)) ==> nested_within(
            o,
            MAX_PARSE_DEPTH - depth + 1,
        ),
    decreases s.len() - p, 1int,
{
    match lexed(s, p).result {
        Ok(Some(t)) => {
            if t.kind != KindV::ArrayEnd && ahead(s, p, t.end) {
                lemma_object_depth(s, t, depth, lens);
                match object_from(s, t, depth, lens) {
                    Ok((o, q)) => {
                        if ahead(s, p, q) {
                            lemma_array_depth(s, q, depth, lens, items.push(o));
                        }
                    },
                    _ => {},
                }
            }
        },
        _ => {},
    }
}

proof fn lemma_dict_depth(s: Seq<u8>, p: int, depth: int, lens: Lengths, start: int, d: DictV)
    requires
        0 <= depth <= MAX_PARSE_DEPTH,
        forall|i: int|
            0 <= i < d.len() ==> nested_within((#[trigger] d[i]).1, MAX_PARSE_DEPTH - depth),
    ensures
        dict_from(s, p, depth, lens, start, d) matches Ok((o, q)) ==> nested_within(
            o,
            MAX_PARSE_DEPTH - depth + 1,
        ),
    decreases s.len() - p, 1int,
{
    match lexed(s, p).result {
        Ok(Some(t)) => match t.kind {
            KindV::Name(k) => match lexed(s, t.end).result {
                Ok(Some(v)) => {
                    if ahead(s, p, v.end) {
                        lemma_object_depth(s, v, depth, lens);
                        match object_from(s, v, depth, lens) {
                            Ok((o, q)) => {
                                if ahead(s, p, q) {
                                    crate::objects::lemma_key_pos(d, decode_utf8(k), 0);
                                    lemma_dict_depth(
                                        s,
                                        q,
                                        depth,
                                        lens,
                                        start,
                                        dict_set(d, decode_utf8(k), o),
                                    );
                                }
                            },
                            _ => {},
                        }
                    }
                },
                _ => {},
            },
            _ => {},
        },
        _ => {},
    }
}

/// No dictionary within a value holds a key twice.
pub open spec fn keys_once(o: ObjV) -> bool
    decreases o,
{
    match o {
        ObjV::Array(v) => forall|i: int| 0 <= i < v.len() ==> keys_once(#[trigger] v[i]),
        ObjV::Dict(d) => distinct_keys(d) && forall|i: int|
            0 <= i < d.len() ==> keys_once((#[trigger] d[i]).1),
        ObjV::Stream(d, b) => distinct_keys(d) && forall|i: int|
            0 <= i < d.len() ==> keys_once((#[trigger] d[i]).1),
        _ => true,
    }
}

/// No dictionary that is parsed holds a key twice.
pub proof fn law_parsed_keys_once(s: Seq<u8>, p: int, lens: Lengths)
    ensures
        object_at(s, p, lens) matches Ok(Some((o, q))) ==> keys_once(o),
{
    reveal(object_at);
    match lexed(s, p).result {
        Ok(Some(t)) => {
            lemma_object_keys(s, t, 0, lens);
        },
        _ => {},
    }
}

proof fn lemma_object_keys(s: Seq<u8>, t: TokV, depth: int, lens: Lengths)
    ensures
        object_from(s, t, depth, lens) matches Ok((o, q)) ==> keys_once(o),
    decreases s.len() - t.end, 2int,
{
    match t.kind {
        KindV::ArrayStart => {
            if depth < MAX_PARSE_DEPTH {
                lemma_array_keys(s, t.end, depth + 1, lens, Seq::empty());
            }
        },
        KindV::DictStart => {
            if depth < MAX_PARSE_DEPTH {
                lemma_dict_keys(s, t.end, depth + 1, lens, t.start, Seq::empty());
            }
        },
        _ => {},
    }
}

proof fn lemma_array_keys(s: Seq<u8>, p: int, depth: int, lens: Lengths, items: Seq<ObjV>)
    requires
        forall|i: int| 0 <= i < items.len() ==> keys_once(#[trigger] items[i]),
    ensures
        array_from(s, p, depth, lens, items) matches Ok((o, q)) ==> keys_once(o),
    decreases s.len() - p, 1int,
{
    match lexed(s, p).result {
        Ok(Some(t)) => {
            if t.kind != KindV::ArrayEnd && ahead(s, p, t.end) {
                lemma_object_keys(s, t, depth, lens);
                match object_from(s, t, depth, lens) {
                    Ok((o, q)) => {
                        if ahead(s, p, q) {
                            lemma_array_keys(s, q, depth, lens, items.push(o));
                        }
                    },
                    _ => {},
                }
            }
        },
        _ => {},
    }
}

proof fn lemma_dict_keys(s: Seq<u8>, p: int, depth: int, lens: Lengths, start: int, d: DictV)
    requires
        distinct_keys(d),
        forall|i: int| 0 <= i < d.len() ==> keys_once((#[trigger] d[i]).1),
    ensures
        dict_from(s, p, depth, lens, start, d) matches Ok((o, q)) ==> keys_once(o),
    decreases s.len() - p, 1int,
{
    match lexed(s, p).result {
        Ok(Some(t)) => match t.kind {
            KindV::Name(k) => match lexed(s, t.end).result {
                Ok(Some(v)) => {
                    if ahead(s, p, v.end) {
                        lemma_object_keys(s, v, depth, lens);
                        match object_from(s, v, depth, lens) {
                            Ok((o, q)) => {
                                if ahead(s, p, q) {
                                    let key = decode_utf8(k);
                                    crate::objects::lemma_key_pos(d, key, 0);
                                    law_set_keeps_distinct(d, key, o);
                                    lemma_dict_keys(s, q, depth, lens, start, dict_set(d, key, o));
                                }
                            },
                            _ => {},
                        }
                    }
                },
                _ => {},
            },
            _ => {},
        },
        _ => {},
    }
}

} // verus!
