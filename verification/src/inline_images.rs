//! Images that stand in the content of a page, between the operators `BI`, `ID`
//! and `EI`.

use vstd::prelude::*;
use crate::document::{DocV, DocumentReader};
use crate::error::PdfError;
use crate::images::{ColorSpace, ColorV};
use crate::lex::{
    has_sign, integer_value, is_delim, is_delimiter, is_digit, is_space, is_whitespace,
    lemma_skip_space, line_end, number_scan, parse_integer, skip_space, word_end,
};
use crate::number::{real_is_nonneg, real_to_i64};
use crate::objects::{ObjV, Object, ObjectId, Real};
use crate::page::{page_contents, page_data};
use crate::pages::{document_pages, page_leaves};
use crate::stream::{apply_filter, byte_filter, either, filtered, is_byte_filter, is_either};
use crate::text::{
    ascii_text, cat, cat_ascii, cat_hex, cat_nat, dec, decode_utf8_lossy, hex_text, texts,
    utf8_lossy,
};

verus! {

// ------------------------------------------------------------------ values

/// The filter of an image that is left for a codec.
#[derive(Debug, Clone, Copy, PartialEq, Eq, Structural)]
pub enum InlineImageFilter {
    /// None: the data are samples.
    Raw,
    DctDecode,
    JpxDecode,
    Jbig2Decode,
    CcittFaxDecode,
}

/// An image that stands in content.
#[derive(Debug, Clone, PartialEq, Eq)]
pub struct PdfInlineImage {
    /// The data, with all filters undone but that for a codec.
    pub data: Vec<u8>,
    pub width: u32,
    pub height: u32,
    pub color_space: ColorSpace,
    pub bits_per_component: u8,
    pub filter: InlineImageFilter,
    /// Whether the image is a stencil.
    pub image_mask: bool,
    /// The number of the page, from 1 on.
    pub source_page_index: u32,
    /// The object of the page.
    pub source_page_obj: ObjectId,
}

/// The same as a mathematical value.
pub struct InlineV {
    pub data: Seq<u8>,
    pub width: u32,
    pub height: u32,
    pub color_space: ColorV,
    pub bits_per_component: u8,
    pub filter: InlineImageFilter,
    pub image_mask: bool,
    pub source_page_index: u32,
    pub source_page_obj: ObjectId,
}

impl View for PdfInlineImage {
    type V = InlineV;

    open spec fn view(&self) -> InlineV {
        InlineV {
            data: self.data@,
            width: self.width,
            height: self.height,
            color_space: self.color_space@,
            bits_per_component: self.bits_per_component,
            filter: self.filter,
            image_mask: self.image_mask,
            source_page_index: self.source_page_index,
            source_page_obj: self.source_page_obj,
        }
    }
}

/// Images as mathematical values.
pub open spec fn inlines_view(s: Seq<PdfInlineImage>) -> Seq<InlineV> {
    s.map_values(|i: PdfInlineImage| i@)
}

/// A value in the dictionary of an image.
enum DictValue {
    Name(String),
    Integer(i64),
    Real(Real),
    Bool(bool),
    NameList(Vec<String>),
    /// Any other, which says nothing here.
    Other,
}

/// A value in the dictionary of an image, as a mathematical value.
pub enum ValV {
    Name(Seq<char>),
    Integer(i64),
    Real(Seq<u8>),
    Bool(bool),
    NameList(Seq<Seq<char>>),
    Other,
}

impl View for DictValue {
    type V = ValV;

    closed spec fn view(&self) -> ValV {
        match *self {
            DictValue::Name(n) => ValV::Name(n@),
            DictValue::Integer(n) => ValV::Integer(n),
            DictValue::Real(r) => ValV::Real(r@),
            DictValue::Bool(b) => ValV::Bool(b),
            DictValue::NameList(v) => ValV::NameList(texts(v@)),
            DictValue::Other => ValV::Other,
        }
    }
}

// ---------------------------------------------------------------- operators

/// White space, or a character that ends a word.
pub open spec fn is_boundary(b: u8) -> bool {
    is_space(b) || is_delim(b)
}

fn boundary(b: u8) -> (r: bool)
    ensures
        r == is_boundary(b),
{
    is_whitespace(b) || is_delimiter(b)
}

/// The bytes `w` stand at place `p`.
pub open spec fn stands_at(s: Seq<u8>, w: Seq<u8>, p: int) -> bool {
    0 <= p && p + w.len() <= s.len() && s.subrange(p, p + w.len()) == w
}

fn is_at(s: &[u8], w: &[u8], p: usize) -> (r: bool)
    requires
        p <= s@.len(),
    ensures
        r == stands_at(s@, w@, p as int),
{
    if s.len() - p < w.len() {
        return false;
    }
    crate::crypt::same_bytes(vstd::slice::slice_subrange(s, p, p + w.len()), w)
}

/// The word `w` stands at place `p`, and no longer word around it.
pub open spec fn word_at(s: Seq<u8>, w: Seq<u8>, p: int) -> bool {
    &&& stands_at(s, w, p)
    &&& p == 0 || is_boundary(s[p - 1])
    &&& p + w.len() == s.len() || is_boundary(s[p + w.len()])
}

/// The first place at or behind `p` at which the word `w` stands.
pub open spec fn word_from(s: Seq<u8>, w: Seq<u8>, p: int) -> Option<int>
    decreases s.len() + 1 - p,
{
    if p < 0 || p + w.len() > s.len() {
        None
    } else if word_at(s, w, p) {
        Some(p)
    } else {
        word_from(s, w, p + 1)
    }
}

/// The first place at or behind `from` at which a word stands.
pub fn find_keyword(bytes: &[u8], kw: &[u8], from: usize) -> (r: Option<usize>)
    ensures
        match r {
            Some(p) => word_from(bytes@, kw@, from as int) == Some(p as int) && from <= p && p
                + kw@.len() <= bytes@.len(),
            None => word_from(bytes@, kw@, from as int) is None,
        },
{
    let mut i: usize = from;
    while i <= bytes.len() && kw.len() <= bytes.len() - i
        invariant
            from <= i,
            from <= bytes@.len() ==> i <= bytes@.len() + 1,
            word_from(bytes@, kw@, from as int) == word_from(bytes@, kw@, i as int),
        decreases bytes.len() + 1 - i,
    {
        if is_at(bytes, kw, i) {
            let prev: bool = i == 0 || boundary(bytes[i - 1]);
            let next: bool = i + kw.len() == bytes.len() || boundary(bytes[i + kw.len()]);
            if prev && next {
                return Some(i);
            }
        }
        if i == bytes.len() {
            proof {
                assert(word_from(bytes@, kw@, i + 1) is None);
            }
            return None;
        }
        i = i + 1;
    }
    None
}

/// `EI` at place `p` ends an image: white space stands in front of it, and white
/// space or nothing behind it.
pub open spec fn ends_at(s: Seq<u8>, p: int) -> bool {
    &&& 0 < p && p + 2 <= s.len() && s[p] == 69 && s[p + 1] == 73
    &&& is_space(s[p - 1])
    &&& p + 2 == s.len() || is_space(s[p + 2])
}

/// The first place at or behind `p` at which `EI` ends an image.
pub open spec fn end_from(s: Seq<u8>, p: int) -> Option<int>
    decreases s.len() - p,
{
    if p < 0 || p + 2 > s.len() {
        None
    } else if ends_at(s, p) {
        Some(p)
    } else {
        end_from(s, p + 1)
    }
}

/// The first place at or behind `from` at which `EI` ends an image.
pub fn find_inline_image_ei(bytes: &[u8], from: usize) -> (r: Option<usize>)
    ensures
        match r {
            Some(p) => end_from(bytes@, from as int) == Some(p as int) && from <= p && p + 2
                <= bytes@.len(),
            None => end_from(bytes@, from as int) is None,
        },
{
    let mut i: usize = from;
    while i < bytes.len() && bytes.len() - i >= 2
        invariant
            from <= i,
            end_from(bytes@, from as int) == end_from(bytes@, i as int),
        decreases bytes.len() - i,
    {
        if bytes[i] == 69 && bytes[i + 1] == 73 && i > 0 && is_whitespace(bytes[i - 1]) && (i + 2
            == bytes.len() || is_whitespace(bytes[i + 2])) {
            return Some(i);
        }
        i = i + 1;
    }
    None
}

// ------------------------------------------------------------------- tokens

/// A word does not end before it begins, nor behind the input.
proof fn lemma_word_end(s: Seq<u8>, p: int)
    requires
        0 <= p <= s.len(),
    ensures
        p <= word_end(s, p) <= s.len(),
    decreases s.len() - p,
{
    if p < s.len() && !is_space(s[p]) && !is_delim(s[p]) {
        lemma_word_end(s, p + 1);
    }
}

fn end_of_word(s: &[u8], from: usize) -> (r: usize)
    requires
        from <= s@.len(),
    ensures
        r == word_end(s@, from as int),
        from <= r <= s@.len(),
{
    let mut p: usize = from;
    while p < s.len() && !is_whitespace(s[p]) && !is_delimiter(s[p])
        invariant
            from <= p <= s@.len(),
            word_end(s@, from as int) == word_end(s@, p as int),
        decreases s.len() - p,
    {
        p = p + 1;
    }
    p
}

/// Past white space and comments.
fn skip_ws_and_comments(s: &[u8], from: usize) -> (r: usize)
    requires
        from <= s@.len(),
    ensures
        r == skip_space(s@, from as int),
        from <= r <= s@.len(),
{
    let mut p: usize = from;
    while p < s.len()
        invariant
            from <= p <= s@.len(),
            skip_space(s@, from as int) == skip_space(s@, p as int),
        decreases s.len() - p,
    {
        if is_whitespace(s[p]) {
            p = p + 1;
        } else if s[p] == 37 {
            let ghost q = p as int;
            p = p + 1;
            proof {
                assert(line_end(s@, q) == line_end(s@, q + 1));
            }
            while p < s.len() && s[p] != 10 && s[p] != 13
                invariant
                    q < p <= s@.len(),
                    line_end(s@, q) == line_end(s@, p as int),
                decreases s.len() - p,
            {
                p = p + 1;
            }
        } else {
            return p;
        }
    }
    p
}

/// The name that begins at place `p`, without its slash.
pub open spec fn name_at(s: Seq<u8>, p: int) -> Seq<char> {
    utf8_lossy(s.subrange(p + 1, word_end(s, p + 1)))
}

fn read_name(s: &[u8], p: usize) -> (r: (String, usize))
    requires
        p < s@.len() <= usize::MAX,
    ensures
        r.0@ == name_at(s@, p as int),
        r.1 == word_end(s@, p + 1),
        p < r.1 <= s@.len(),
{
    let end: usize = end_of_word(s, p + 1);
    (decode_utf8_lossy(vstd::slice::slice_subrange(s, p + 1, end)), end)
}

/// The end of what is neither white space nor one of `/ [ ] ( ) < >`.
pub open spec fn token_end(s: Seq<u8>, p: int) -> int
    decreases s.len() - p,
{
    if p < 0 || p >= s.len() || is_space(s[p]) || s[p] == 47 || s[p] == 91 || s[p] == 93 || s[p]
        == 40 || s[p] == 41 || s[p] == 60 || s[p] == 62 {
        p
    } else {
        token_end(s, p + 1)
    }
}

proof fn lemma_token_end(s: Seq<u8>, p: int)
    requires
        0 <= p <= s.len(),
    ensures
        p <= token_end(s, p) <= s.len(),
    decreases s.len() - p,
{
    if p < s.len() {
        lemma_token_end(s, p + 1);
    }
}

fn skip_token(s: &[u8], from: usize) -> (r: usize)
    requires
        from <= s@.len(),
    ensures
        r == token_end(s@, from as int),
        from <= r <= s@.len(),
{
    let mut p: usize = from;
    while p < s.len() && !is_whitespace(s[p]) && s[p] != 47 && s[p] != 91 && s[p] != 93 && s[p]
        != 40 && s[p] != 41 && s[p] != 60 && s[p] != 62
        invariant
            from <= p <= s@.len(),
            token_end(s@, from as int) == token_end(s@, p as int),
        decreases s.len() - p,
    {
        p = p + 1;
    }
    p
}

/// Behind the parenthesis that closes the last of `depth` open ones. A backslash
/// takes the byte behind it along, which may lie behind the input.
pub open spec fn string_end(s: Seq<u8>, p: int, depth: nat) -> int
    decreases s.len() + 1 - p,
{
    if p < 0 || p >= s.len() || depth == 0 {
        p
    } else if s[p] == 92 {
        string_end(s, p + 2, depth)
    } else if s[p] == 40 {
        string_end(s, p + 1, depth + 1)
    } else if s[p] == 41 {
        string_end(s, p + 1, (depth - 1) as nat)
    } else {
        string_end(s, p + 1, depth)
    }
}

/// `p`, or the end of the input where that comes first.
pub open spec fn at_most(p: int, s: Seq<u8>) -> int {
    if p < s.len() {
        p
    } else {
        s.len() as int
    }
}

proof fn lemma_string_end(s: Seq<u8>, p: int, depth: nat)
    requires
        0 <= p,
    ensures
        p <= string_end(s, p, depth),
    decreases s.len() + 1 - p,
{
    if p < s.len() && depth > 0 {
        if s[p] == 92 {
            lemma_string_end(s, p + 2, depth);
        } else if s[p] == 40 {
            lemma_string_end(s, p + 1, depth + 1);
        } else if s[p] == 41 {
            lemma_string_end(s, p + 1, (depth - 1) as nat);
        } else {
            lemma_string_end(s, p + 1, depth);
        }
    }
}

/// Past a string whose opening parenthesis stands before `from`; not past the
/// end of the input.
fn skip_string(s: &[u8], from: usize) -> (r: usize)
    requires
        1 <= from <= s@.len(),
    ensures
        r == at_most(string_end(s@, from as int, 1), s@),
        from <= r <= s@.len(),
{
    let mut p: usize = from;
    let mut depth: usize = 1;
    while p < s.len() && depth > 0
        invariant
            1 <= from <= p <= s@.len(),
            depth <= p - from + 1,
            at_most(string_end(s@, from as int, 1), s@) == at_most(
                string_end(s@, p as int, depth as nat),
                s@,
            ),
        decreases s.len() - p,
    {
        let b: u8 = s[p];
        if b == 92 {
            if s.len() - p < 2 {
                proof {
                    assert(string_end(s@, p + 2, depth as nat) == p + 2);
                    assert(string_end(s@, p as int, depth as nat) == p + 2);
                }
                return s.len();
            }
            p = p + 2;
        } else {
            if b == 40 {
                depth = depth + 1;
            } else if b == 41 {
                depth = depth - 1;
            }
            p = p + 1;
        }
    }
    p
}

/// Behind the `>>` that closes the last of `depth` open dictionaries, if there
/// is one.
pub open spec fn dict_end(s: Seq<u8>, p: int, depth: nat) -> Option<int>
    decreases s.len() - p,
    via dict_end_decreases
{
    if depth == 0 {
        Some(p)
    } else if p < 0 || p + 1 >= s.len() {
        None
    } else if s[p] == 60 && s[p + 1] == 60 {
        dict_end(s, p + 2, depth + 1)
    } else if s[p] == 62 && s[p + 1] == 62 {
        dict_end(s, p + 2, (depth - 1) as nat)
    } else if s[p] == 40 {
        dict_end(s, at_most(string_end(s, p + 1, 1), s), depth)
    } else {
        dict_end(s, p + 1, depth)
    }
}

#[via_fn]
proof fn dict_end_decreases(s: Seq<u8>, p: int, depth: nat) {
    if 0 <= p && p + 1 < s.len() {
        lemma_string_end(s, p + 1, 1);
    }
}

fn skip_balanced_dict(s: &[u8], from: usize) -> (r: Option<usize>)
    requires
        1 <= from <= s@.len(),
    ensures
        match r {
            Some(p) => dict_end(s@, from as int, 1) == Some(p as int) && from <= p <= s@.len(),
            None => dict_end(s@, from as int, 1) is None,
        },
{
    let mut p: usize = from;
    let mut depth: usize = 1;
    while p < s.len() && s.len() - p >= 2 && depth > 0
        invariant
            1 <= from <= p <= s@.len(),
            depth <= p - from + 1,
            dict_end(s@, from as int, 1) == dict_end(s@, p as int, depth as nat),
        decreases s.len() - p,
    {
        if s[p] == 60 && s[p + 1] == 60 {
            depth = depth + 1;
            p = p + 2;
        } else if s[p] == 62 && s[p + 1] == 62 {
            depth = depth - 1;
            p = p + 2;
        } else if s[p] == 40 {
            p = skip_string(s, p + 1);
        } else {
            p = p + 1;
        }
    }
    if depth == 0 {
        Some(p)
    } else {
        None
    }
}

// ------------------------------------------------------------------- values

/// A value and where it ends, or the description of an error.
pub type ValueV = Result<(ValV, int), Seq<char>>;

/// The rest of an array from place `i` on, behind names that were read. An
/// array that holds anything but names says nothing here.
pub open spec fn array_from(s: Seq<u8>, i: int, names: Seq<Seq<char>>, other: bool) -> ValueV
    decreases s.len() - i,
    via array_from_decreases
{
    let j = skip_space(s, i);
    if i < 0 || j >= s.len() {
        Err("PDF inline image: unterminated `[` in BI dict"@)
    } else if s[j] == 93 {
        Ok(
            (
                if other {
                    ValV::Other
                } else {
                    ValV::NameList(names)
                },
                j + 1,
            ),
        )
    } else if s[j] == 47 {
        array_from(s, word_end(s, j + 1), names.push(name_at(s, j)), other)
    } else if token_end(s, j) <= j {
        Err("PDF inline image: unexpected byte "@ + hex_text(s[j]) + " in BI dict array"@)
    } else {
        array_from(s, token_end(s, j), names, true)
    }
}

#[via_fn]
proof fn array_from_decreases(s: Seq<u8>, i: int, names: Seq<Seq<char>>, other: bool) {
    if 0 <= i <= s.len() {
        lemma_skip_space(s, i);
        let j = skip_space(s, i);
        if j < s.len() {
            lemma_word_end(s, j + 1);
            lemma_token_end(s, j);
        }
    }
}

/// The first `>` at or behind `p`, or the end of the input.
pub open spec fn hex_end(s: Seq<u8>, p: int) -> int
    decreases s.len() - p,
{
    if p < 0 || p >= s.len() || s[p] == 62 {
        p
    } else {
        hex_end(s, p + 1)
    }
}

/// The number that begins at place `p`.
pub open spec fn number_value(s: Seq<u8>, p: int) -> ValueV {
    let first = if s[p] == 43 || s[p] == 45 {
        p + 1
    } else {
        p
    };
    let (end, dot, digit) = number_scan(s, first, false, false);
    let t = s.subrange(p, end);
    if !digit {
        Err("PDF inline image: malformed number at byte "@ + dec(p))
    } else if dot {
        Ok((ValV::Real(t), end))
    } else if i64::MIN <= integer_value(t) <= i64::MAX {
        Ok((ValV::Integer(integer_value(t) as i64), end))
    } else {
        Err("PDF inline image: bad integer `"@ + ascii_text(t) + "`"@)
    }
}

/// The word `true`.
pub open spec fn word_true() -> Seq<u8> {
    seq![116u8, 114, 117, 101]
}

/// The word `false`.
pub open spec fn word_false() -> Seq<u8> {
    seq![102u8, 97, 108, 115, 101]
}

/// A character that a number begins with.
pub open spec fn begins_number(b: u8) -> bool {
    b == 43 || b == 45 || b == 46 || is_digit(b)
}

/// The value that begins at place `p`.
pub open spec fn value_at(s: Seq<u8>, p: int) -> ValueV {
    let b = s[p];
    if b == 47 {
        Ok((ValV::Name(name_at(s, p)), word_end(s, p + 1)))
    } else if stands_at(s, word_true(), p) {
        Ok((ValV::Bool(true), p + 4))
    } else if stands_at(s, word_false(), p) {
        Ok((ValV::Bool(false), p + 5))
    } else if b == 91 {
        array_from(s, p + 1, Seq::empty(), false)
    } else if b == 60 && p + 1 < s.len() && s[p + 1] == 60 {
        match dict_end(s, p + 2, 1) {
            Some(end) => Ok((ValV::Other, end)),
            None => Err("PDF inline image: unterminated `<<` in BI dict"@),
        }
    } else if b == 60 {
        Ok((ValV::Other, at_most(hex_end(s, p + 1) + 1, s)))
    } else if b == 40 {
        Ok((ValV::Other, at_most(string_end(s, p + 1, 1), s)))
    } else if begins_number(b) {
        number_value(s, p)
    } else {
        Err(
            "PDF inline image: unrecognised value token starting with "@ + hex_text(b)
                + " at byte "@ + dec(p),
        )
    }
}

proof fn lemma_array_end(s: Seq<u8>, i: int, names: Seq<Seq<char>>, other: bool)
    requires
        0 <= i <= s.len(),
    ensures
        array_from(s, i, names, other) matches Ok((_, e)) ==> i < e <= s.len(),
    decreases s.len() - i,
{
    lemma_skip_space(s, i);
    let j = skip_space(s, i);
    if j < s.len() && s[j] != 93 {
        lemma_word_end(s, j + 1);
        lemma_token_end(s, j);
        if s[j] == 47 {
            lemma_array_end(s, word_end(s, j + 1), names.push(name_at(s, j)), other);
        } else if token_end(s, j) > j {
            lemma_array_end(s, token_end(s, j), names, true);
        }
    }
}

proof fn lemma_dict_end(s: Seq<u8>, p: int, depth: nat)
    requires
        0 <= p <= s.len(),
    ensures
        dict_end(s, p, depth) matches Some(e) ==> p <= e <= s.len(),
    decreases s.len() - p,
{
    if depth > 0 && p + 1 < s.len() {
        lemma_string_end(s, p + 1, 1);
        if s[p] == 60 && s[p + 1] == 60 {
            lemma_dict_end(s, p + 2, depth + 1);
        } else if s[p] == 62 && s[p + 1] == 62 {
            lemma_dict_end(s, p + 2, (depth - 1) as nat);
        } else if s[p] == 40 {
            lemma_dict_end(s, at_most(string_end(s, p + 1, 1), s), depth);
        } else {
            lemma_dict_end(s, p + 1, depth);
        }
    }
}

proof fn lemma_hex_end(s: Seq<u8>, p: int)
    requires
        0 <= p <= s.len(),
    ensures
        p <= hex_end(s, p) <= s.len(),
    decreases s.len() - p,
{
    if p < s.len() && s[p] != 62 {
        lemma_hex_end(s, p + 1);
    }
}

proof fn lemma_number_end(s: Seq<u8>, p: int, dot: bool, digit: bool)
    requires
        0 <= p <= s.len(),
    ensures
        ({
            let (end, d, g) = number_scan(s, p, dot, digit);
            &&& p <= end <= s.len()
            &&& g && !digit ==> p < end
        }),
    decreases s.len() - p,
{
    if p < s.len() {
        if is_digit(s[p]) {
            lemma_number_end(s, p + 1, dot, true);
        } else if s[p] == 46 && !dot {
            lemma_number_end(s, p + 1, true, digit);
        }
    }
}

/// A value ends behind where it begins, and within the input.
proof fn lemma_value_end(s: Seq<u8>, p: int)
    requires
        0 <= p < s.len(),
    ensures
        value_at(s, p) matches Ok((_, e)) ==> p < e <= s.len(),
{
    lemma_word_end(s, p + 1);
    lemma_array_end(s, p + 1, Seq::empty(), false);
    lemma_hex_end(s, p + 1);
    lemma_string_end(s, p + 1, 1);
    lemma_number_end(s, p, false, false);
    lemma_number_end(s, p + 1, false, false);
    if p + 2 <= s.len() {
        lemma_dict_end(s, p + 2, 1);
    }
}

/// The scan of a number, as the tokenizer makes it.
fn scan_number(s: &[u8], from: usize) -> (r: (usize, bool, bool))
    requires
        from <= s@.len(),
    ensures
        number_scan(s@, from as int, false, false) == (r.0 as int, r.1, r.2),
        from <= r.0 <= s@.len(),
        !r.1 ==> forall|i: int| from <= i < r.0 ==> is_digit(#[trigger] s@[i]),
{
    let mut p: usize = from;
    let mut dot: bool = false;
    let mut digit: bool = false;
    while p < s.len()
        invariant
            from <= p <= s@.len(),
            number_scan(s@, from as int, false, false) == number_scan(s@, p as int, dot, digit),
            !dot ==> forall|i: int| from <= i < p ==> is_digit(#[trigger] s@[i]),
        decreases s.len() - p,
    {
        let c: u8 = s[p];
        if 48 <= c && c <= 57 {
            digit = true;
        } else if c == 46 && !dot {
            dot = true;
        } else {
            return (p, dot, digit);
        }
        p = p + 1;
    }
    (p, dot, digit)
}

/// `r` is what `w` says.
spec fn value_agrees(r: Result<(DictValue, usize), PdfError>, w: ValueV) -> bool {
    match r {
        Ok((v, e)) => w == Ok::<(ValV, int), Seq<char>>((v@, e as int)),
        Err(e) => w == Err::<(ValV, int), Seq<char>>(e@),
    }
}

fn read_array(s: &[u8], from: usize) -> (r: Result<(DictValue, usize), PdfError>)
    requires
        from <= s@.len() <= usize::MAX,
    ensures
        value_agrees(r, array_from(s@, from as int, Seq::empty(), false)),
{
    let mut names: Vec<String> = Vec::new();
    let mut other: bool = false;
    let mut i: usize = from;
    let ghost goal = array_from(s@, from as int, Seq::empty(), false);
    proof {
        assert(texts(names@) =~= Seq::empty());
    }
    loop
        invariant
            from <= i <= s@.len() <= usize::MAX,
            goal == array_from(s@, from as int, Seq::empty(), false),
            goal == array_from(s@, i as int, texts(names@), other),
        decreases s@.len() - i,
    {
        let j: usize = skip_ws_and_comments(s, i);
        if j >= s.len() {
            return Err(PdfError::other("PDF inline image: unterminated `[` in BI dict"));
        }
        if s[j] == 93 {
            let v: DictValue = if other {
                DictValue::Other
            } else {
                DictValue::NameList(names)
            };
            return Ok((v, j + 1));
        }
        if s[j] == 47 {
            let ghost before = texts(names@);
            let (name, end): (String, usize) = read_name(s, j);
            let ghost g = name@;
            names.push(name);
            proof {
                assert(texts(names@) =~= before.push(g));
            }
            i = end;
        } else {
            let end: usize = skip_token(s, j);
            if end <= j {
                let m: String = cat_hex("PDF inline image: unexpected byte ".to_owned(), s[j]);
                return Err(PdfError::Other(cat(m, " in BI dict array")));
            }
            other = true;
            i = end;
        }
    }
}

fn read_number(s: &[u8], p: usize) -> (r: Result<(DictValue, usize), PdfError>)
    requires
        p < s@.len() <= usize::MAX,
    ensures
        value_agrees(r, number_value(s@, p as int)),
{
    let first: usize = if s[p] == 43 || s[p] == 45 {
        p + 1
    } else {
        p
    };
    let (end, dot, digit): (usize, bool, bool) = scan_number(s, first);
    if !digit {
        return Err(
            PdfError::Other(
                cat_nat("PDF inline image: malformed number at byte ".to_owned(), p as u64),
            ),
        );
    }
    let t: &[u8] = vstd::slice::slice_subrange(s, p, end);
    if dot {
        return Ok((DictValue::Real(Real::new(t)), end));
    }
    proof {
        lemma_number_end(s@, first as int, false, false);
        assert(t@[0] == s@[p as int]);
        assert(has_sign(t@) == (first == p + 1));
        assert forall|i: int|
            (if has_sign(t@) {
                1int
            } else {
                0int
            }) <= i < t@.len() implies is_digit(#[trigger] t@[i]) by {
            assert(t@[i] == s@[p + i]);
        }
    }
    match parse_integer(t) {
        Some(n) => Ok((DictValue::Integer(n), end)),
        None => {
            let m: String = cat_ascii("PDF inline image: bad integer `".to_owned(), t);
            Err(PdfError::Other(cat(m, "`")))
        },
    }
}

/// Read the value that begins at a place.
fn read_dict_value(s: &[u8], p: usize) -> (r: Result<(DictValue, usize), PdfError>)
    requires
        p < s@.len() <= usize::MAX,
    ensures
        value_agrees(r, value_at(s@, p as int)),
{
    let b: u8 = s[p];
    let yes: [u8; 4] = [116, 114, 117, 101];
    let no: [u8; 5] = [102, 97, 108, 115, 101];
    proof {
        assert(yes@ =~= word_true());
        assert(no@ =~= word_false());
    }
    if b == 47 {
        let (name, end): (String, usize) = read_name(s, p);
        Ok((DictValue::Name(name), end))
    } else if is_at(s, &yes, p) {
        Ok((DictValue::Bool(true), p + 4))
    } else if is_at(s, &no, p) {
        Ok((DictValue::Bool(false), p + 5))
    } else if b == 91 {
        read_array(s, p + 1)
    } else if b == 60 && s.len() - p > 1 && s[p + 1] == 60 {
        match skip_balanced_dict(s, p + 2) {
            Some(end) => Ok((DictValue::Other, end)),
            None => Err(PdfError::other("PDF inline image: unterminated `<<` in BI dict")),
        }
    } else if b == 60 {
        let mut end: usize = p + 1;
        while end < s.len() && s[end] != 62
            invariant
                p < end <= s@.len(),
                hex_end(s@, p + 1) == hex_end(s@, end as int),
            decreases s.len() - end,
        {
            end = end + 1;
        }
        if end < s.len() {
            end = end + 1;
        }
        Ok((DictValue::Other, end))
    } else if b == 40 {
        Ok((DictValue::Other, skip_string(s, p + 1)))
    } else if b == 43 || b == 45 || b == 46 || (48 <= b && b <= 57) {
        read_number(s, p)
    } else {
        let m: String = cat_hex(
            "PDF inline image: unrecognised value token starting with ".to_owned(),
            b,
        );
        Err(PdfError::Other(cat_nat(cat(m, " at byte "), p as u64)))
    }
}

// -------------------------------------------------------------- dictionaries

/// The entries of the dictionary of an image from place `i` on, behind `out`,
/// and where its data begin.
pub open spec fn entries_from(s: Seq<u8>, i: int, out: Seq<(Seq<char>, ValV)>) -> Result<
    (Seq<(Seq<char>, ValV)>, int),
    Seq<char>,
>
    decreases s.len() - i,
    via entries_from_decreases
{
    let j = skip_space(s, i);
    if 0 <= i && j + 2 <= s.len() && s[j] == 73 && s[j + 1] == 68 {
        if j + 2 >= s.len() || !is_space(s[j + 2]) {
            Err("PDF inline image: `ID` must be followed by exactly one whitespace byte"@)
        } else {
            Ok((out, j + 3))
        }
    } else if i < 0 || j >= s.len() {
        Err("PDF inline image: stream ended before `ID` keyword"@)
    } else if s[j] != 47 {
        Err(
            "PDF inline image: expected `/Key` in BI dict at byte "@ + dec(j) + " (got "@
                + hex_text(s[j]) + ")"@,
        )
    } else {
        let key = name_at(s, j);
        let k = skip_space(s, word_end(s, j + 1));
        if k >= s.len() {
            Err("PDF inline image: stream ended after key `"@ + key + "` in BI dict"@)
        } else {
            match value_at(s, k) {
                Err(e) => Err(e),
                Ok((v, end)) => entries_from(s, end, out.push((key, v))),
            }
        }
    }
}

#[via_fn]
proof fn entries_from_decreases(s: Seq<u8>, i: int, out: Seq<(Seq<char>, ValV)>) {
    if 0 <= i <= s.len() {
        lemma_skip_space(s, i);
        let j = skip_space(s, i);
        if j < s.len() {
            lemma_word_end(s, j + 1);
            lemma_skip_space(s, word_end(s, j + 1));
            let k = skip_space(s, word_end(s, j + 1));
            if k < s.len() {
                lemma_value_end(s, k);
            }
        }
    }
}

/// Entries as mathematical values.
spec fn entries_view(s: Seq<(String, DictValue)>) -> Seq<(Seq<char>, ValV)> {
    s.map_values(|e: (String, DictValue)| (e.0@, e.1@))
}

/// Read the dictionary of an image; also where its data begin.
fn read_dict(s: &[u8], from: usize) -> (r: Result<(Vec<(String, DictValue)>, usize), PdfError>)
    requires
        from <= s@.len() <= usize::MAX,
    ensures
        match r {
            Ok((v, e)) => entries_from(s@, from as int, Seq::empty()) == Ok::<
                (Seq<(Seq<char>, ValV)>, int),
                Seq<char>,
            >((entries_view(v@), e as int)) && from <= e <= s@.len(),
            Err(e) => entries_from(s@, from as int, Seq::empty()) == Err::<
                (Seq<(Seq<char>, ValV)>, int),
                Seq<char>,
            >(e@),
        },
{
    let mut out: Vec<(String, DictValue)> = Vec::new();
    let mut i: usize = from;
    let ghost goal = entries_from(s@, from as int, Seq::empty());
    proof {
        assert(entries_view(out@) =~= Seq::empty());
    }
    loop
        invariant
            from <= i <= s@.len() <= usize::MAX,
            goal == entries_from(s@, from as int, Seq::empty()),
            goal == entries_from(s@, i as int, entries_view(out@)),
        decreases s@.len() - i,
    {
        let j: usize = skip_ws_and_comments(s, i);
        if s.len() - j >= 2 && s[j] == 73 && s[j + 1] == 68 {
            if s.len() - j < 3 || !is_whitespace(s[j + 2]) {
                return Err(
                    PdfError::other(
                        "PDF inline image: `ID` must be followed by exactly one whitespace byte",
                    ),
                );
            }
            return Ok((out, j + 3));
        }
        if j >= s.len() {
            return Err(PdfError::other("PDF inline image: stream ended before `ID` keyword"));
        }
        if s[j] != 47 {
            let m: String = cat_nat(
                "PDF inline image: expected `/Key` in BI dict at byte ".to_owned(),
                j as u64,
            );
            let m: String = cat_hex(cat(m, " (got "), s[j]);
            return Err(PdfError::Other(cat(m, ")")));
        }
        let (key, after): (String, usize) = read_name(s, j);
        let k: usize = skip_ws_and_comments(s, after);
        if k >= s.len() {
            let m: String = cat(
                "PDF inline image: stream ended after key `".to_owned(),
                key.as_str(),
            );
            return Err(PdfError::Other(cat(m, "` in BI dict")));
        }
        match read_dict_value(s, k) {
            Err(e) => {
                return Err(e);
            },
            Ok((v, end)) => {
                proof {
                    lemma_value_end(s@, k as int);
                }
                let ghost before = entries_view(out@);
                let ghost g = (key@, v@);
                out.push((key, v));
                proof {
                    assert(entries_view(out@) =~= before.push(g));
                }
                i = end;
            },
        }
    }
}

/// The last value among the first `n` entries that goes by either name.
pub open spec fn last_value(
    entries: Seq<(Seq<char>, ValV)>,
    n: int,
    a: Seq<char>,
    b: Seq<char>,
) -> Option<ValV>
    decreases n,
{
    if n <= 0 || n > entries.len() {
        None
    } else if either(entries[n - 1].0, a, b) {
        Some(entries[n - 1].1)
    } else {
        last_value(entries, n - 1, a, b)
    }
}

/// The value of an entry by either of its names; of several the last.
pub open spec fn entry_value(
    entries: Seq<(Seq<char>, ValV)>,
    a: Seq<char>,
    b: Seq<char>,
) -> Option<ValV> {
    last_value(entries, entries.len() as int, a, b)
}

spec fn opt_value(v: Option<&DictValue>) -> Option<ValV> {
    match v {
        Some(v) => Some(v@),
        None => None,
    }
}

fn find_value<'a>(entries: &'a Vec<(String, DictValue)>, a: &str, b: &str) -> (r: Option<
    &'a DictValue,
>)
    ensures
        opt_value(r) == entry_value(entries_view(entries@), a@, b@),
{
    let mut n: usize = entries.len();
    let ghost view = entries_view(entries@);
    while n > 0
        invariant
            n <= entries@.len(),
            view == entries_view(entries@),
            entry_value(view, a@, b@) == last_value(view, n as int, a@, b@),
        decreases n,
    {
        proof {
            assert(view[n - 1] == (entries@[n - 1].0@, entries@[n - 1].1@));
        }
        if is_either(entries[n - 1].0.as_str(), a, b) {
            return Some(&entries[n - 1].1);
        }
        n = n - 1;
    }
    None
}

/// A value as a size: an integer that is not negative, or a real without its
/// fraction, as near as the range allows.
pub open spec fn size_of_value(v: Option<ValV>) -> Option<u32> {
    match v {
        Some(ValV::Integer(n)) => if n >= 0 {
            Some((n % 0x1_0000_0000) as u32)
        } else {
            None
        },
        Some(ValV::Real(t)) => if real_is_nonneg(t) {
            Some(clamp_u32(real_to_i64(t)))
        } else {
            None
        },
        _ => None,
    }
}

/// A number as near as the range of `u32` allows.
pub open spec fn clamp_u32(n: i64) -> u32 {
    if n < 0 {
        0
    } else if n > u32::MAX {
        u32::MAX
    } else {
        n as u32
    }
}

fn as_u32(v: Option<&DictValue>) -> (r: Option<u32>)
    ensures
        r == size_of_value(opt_value(v)),
{
    match v {
        Some(DictValue::Integer(n)) => if *n >= 0 {
            Some((*n % 0x1_0000_0000) as u32)
        } else {
            None
        },
        Some(DictValue::Real(x)) => if x.is_nonneg() {
            let n: i64 = x.to_i64();
            if n < 0 {
                Some(0)
            } else if n > u32::MAX as i64 {
                Some(u32::MAX)
            } else {
                Some(n as u32)
            }
        } else {
            None
        },
        _ => None,
    }
}

/// A value as a depth: an integer from 1 to 16.
pub open spec fn depth_of_value(v: Option<ValV>) -> Option<u8> {
    match v {
        Some(ValV::Integer(n)) => if 1 <= n <= 16 {
            Some(n as u8)
        } else {
            None
        },
        _ => None,
    }
}

fn as_u8(v: Option<&DictValue>) -> (r: Option<u8>)
    ensures
        r == depth_of_value(opt_value(v)),
{
    match v {
        Some(DictValue::Integer(n)) => if 1 <= *n && *n <= 16 {
            Some(*n as u8)
        } else {
            None
        },
        _ => None,
    }
}

/// A value as the kind of a colour space, by its long or its short name.
pub open spec fn color_of_value(v: Option<ValV>) -> Option<ColorV> {
    match v {
        Some(ValV::Name(n)) => Some(
            if either(n, "G"@, "DeviceGray"@) {
                ColorV::DeviceGray
            } else if either(n, "RGB"@, "DeviceRGB"@) {
                ColorV::DeviceRGB
            } else if either(n, "CMYK"@, "DeviceCMYK"@) {
                ColorV::DeviceCMYK
            } else if either(n, "I"@, "Indexed"@) {
                ColorV::Indexed
            } else {
                ColorV::Other(n)
            },
        ),
        _ => None,
    }
}

fn as_color_space(v: Option<&DictValue>) -> (r: Option<ColorSpace>)
    ensures
        match r {
            Some(c) => color_of_value(opt_value(v)) == Some(c@),
            None => color_of_value(opt_value(v)) is None,
        },
{
    match v {
        Some(DictValue::Name(n)) => {
            let t: &str = n.as_str();
            Some(
                if is_either(t, "G", "DeviceGray") {
                    ColorSpace::DeviceGray
                } else if is_either(t, "RGB", "DeviceRGB") {
                    ColorSpace::DeviceRGB
                } else if is_either(t, "CMYK", "DeviceCMYK") {
                    ColorSpace::DeviceCMYK
                } else if is_either(t, "I", "Indexed") {
                    ColorSpace::Indexed
                } else {
                    ColorSpace::Other(n.clone())
                },
            )
        },
        _ => None,
    }
}

/// A value as a list of names.
pub open spec fn names_of_value(v: Option<ValV>) -> Seq<Seq<char>> {
    match v {
        Some(ValV::Name(n)) => seq![n],
        Some(ValV::NameList(s)) => s,
        _ => Seq::empty(),
    }
}

fn as_name_list(v: Option<&DictValue>) -> (r: Vec<String>)
    ensures
        texts(r@) == names_of_value(opt_value(v)),
{
    let mut out: Vec<String> = Vec::new();
    match v {
        Some(DictValue::Name(n)) => {
            out.push(n.clone());
            proof {
                assert(texts(out@) =~= seq![n@]);
            }
        },
        Some(DictValue::NameList(names)) => {
            let mut i: usize = 0;
            while i < names.len()
                invariant
                    i <= names@.len(),
                    out@.len() == i,
                    forall|k: int| 0 <= k < i ==> (#[trigger] out@[k])@ == names@[k]@,
                decreases names.len() - i,
            {
                out.push(names[i].clone());
                i = i + 1;
            }
            proof {
                assert(texts(out@) =~= texts(names@));
            }
        },
        _ => {
            proof {
                assert(texts(out@) =~= Seq::empty());
            }
        },
    }
    out
}

// ------------------------------------------------------------------ filters

/// The filter that is left for a codec: the last, if it is one of those.
pub open spec fn codec_of(names: Seq<Seq<char>>) -> InlineImageFilter {
    if names.len() == 0 {
        InlineImageFilter::Raw
    } else if either(names.last(), "DCT"@, "DCTDecode"@) {
        InlineImageFilter::DctDecode
    } else if either(names.last(), "JPX"@, "JPXDecode"@) {
        InlineImageFilter::JpxDecode
    } else if either(names.last(), "JBIG2"@, "JBIG2Decode"@) {
        InlineImageFilter::Jbig2Decode
    } else if either(names.last(), "CCF"@, "CCITTFaxDecode"@) {
        InlineImageFilter::CcittFaxDecode
    } else {
        InlineImageFilter::Raw
    }
}

/// How many filters are undone: all, but for that of a codec.
pub open spec fn undone_count(names: Seq<Seq<char>>) -> int {
    if codec_of(names) == InlineImageFilter::Raw {
        names.len() as int
    } else {
        names.len() - 1
    }
}

/// Data with the first `n` filters undone, in order.
pub open spec fn undone(names: Seq<Seq<char>>, n: int, data: Seq<u8>) -> Result<Seq<u8>, Seq<char>>
    decreases n,
{
    if n <= 0 || n > names.len() {
        Ok(data)
    } else {
        match undone(names, n - 1, data) {
            Err(e) => Err(e),
            Ok(d) => if is_byte_filter(names[n - 1]) {
                filtered(names[n - 1], d, None)
            } else {
                Err("PDF inline image: unsupported wrapping filter `"@ + names[n - 1] + "`"@)
            },
        }
    }
}

proof fn lemma_undone_error(names: Seq<Seq<char>>, n: int, m: int, data: Seq<u8>)
    requires
        0 <= n <= m <= names.len(),
        undone(names, n, data) is Err,
    ensures
        undone(names, m, data) == undone(names, n, data),
    decreases m - n,
{
    if n < m {
        lemma_undone_error(names, n, m - 1, data);
    }
}

/// Undo the filters of an image, but for that of a codec.
fn peel_inline_filters(payload: Vec<u8>, chain: &Vec<String>) -> (r: Result<
    (Vec<u8>, InlineImageFilter),
    PdfError,
>)
    ensures
        match r {
            Ok((d, f)) => undone(texts(chain@), undone_count(texts(chain@)), payload@) == Ok::<
                Seq<u8>,
                Seq<char>,
            >(d@) && f == codec_of(texts(chain@)),
            Err(e) => undone(texts(chain@), undone_count(texts(chain@)), payload@) == Err::<
                Seq<u8>,
                Seq<char>,
            >(e@),
        },
{
    let ghost names = texts(chain@);
    let ghost start = payload@;
    let mut codec: InlineImageFilter = InlineImageFilter::Raw;
    if chain.len() > 0 {
        let last: &str = chain[chain.len() - 1].as_str();
        proof {
            assert(names.last() == last@);
        }
        if is_either(last, "DCT", "DCTDecode") {
            codec = InlineImageFilter::DctDecode;
        } else if is_either(last, "JPX", "JPXDecode") {
            codec = InlineImageFilter::JpxDecode;
        } else if is_either(last, "JBIG2", "JBIG2Decode") {
            codec = InlineImageFilter::Jbig2Decode;
        } else if is_either(last, "CCF", "CCITTFaxDecode") {
            codec = InlineImageFilter::CcittFaxDecode;
        }
    }
    let count: usize = if codec == InlineImageFilter::Raw {
        chain.len()
    } else {
        chain.len() - 1
    };
    proof {
        assert(codec == codec_of(names));
        assert(count == undone_count(names));
    }
    let mut cur: Vec<u8> = payload;
    let mut i: usize = 0;
    while i < count
        invariant
            i <= count <= chain@.len(),
            names == texts(chain@),
            count == undone_count(names),
            start == payload@,
            undone(names, i as int, start) == Ok::<Seq<u8>, Seq<char>>(cur@),
        decreases count - i,
    {
        let name: &str = chain[i].as_str();
        proof {
            assert(names[i as int] == name@);
        }
        if !byte_filter(name) {
            proof {
                lemma_undone_error(names, i + 1, count as int, start);
            }
            let m: String = cat(
                "PDF inline image: unsupported wrapping filter `".to_owned(),
                name,
            );
            return Err(PdfError::Other(cat(m, "`")));
        }
        match apply_filter(name, cur.as_slice(), None) {
            Ok(v) => {
                cur = v;
            },
            Err(e) => {
                proof {
                    lemma_undone_error(names, i + 1, count as int, start);
                }
                return Err(e);
            },
        }
        i = i + 1;
    }
    Ok((cur, codec))
}

// ------------------------------------------------------------------- images

/// An object that is no object of any file.
pub open spec fn no_object() -> ObjectId {
    ObjectId { number: 0, generation: 0 }
}

/// Whether the dictionary of an image says that it is a stencil.
pub open spec fn is_stencil(entries: Seq<(Seq<char>, ValV)>) -> bool {
    entry_value(entries, "IM"@, "ImageMask"@) == Some(ValV::Bool(true))
}

/// The depth of an image: 8 where its codec knows better, what the dictionary
/// says, or 1 for a stencil and 8 for any other.
pub open spec fn image_depth(entries: Seq<(Seq<char>, ValV)>, filter: InlineImageFilter) -> u8 {
    if filter == InlineImageFilter::JpxDecode {
        8
    } else {
        match depth_of_value(entry_value(entries, "BPC"@, "BitsPerComponent"@)) {
            Some(n) => n,
            None => if is_stencil(entries) {
                1
            } else {
                8
            },
        }
    }
}

/// The kind of the colour space of an image: that of a stencil is gray, and RGB
/// where nothing is said.
pub open spec fn image_color(entries: Seq<(Seq<char>, ValV)>) -> ColorV {
    if is_stencil(entries) {
        ColorV::DeviceGray
    } else {
        match color_of_value(entry_value(entries, "CS"@, "ColorSpace"@)) {
            Some(c) => c,
            None => ColorV::DeviceRGB,
        }
    }
}

/// The image with this dictionary and these data.
pub open spec fn image_value(entries: Seq<(Seq<char>, ValV)>, payload: Seq<u8>) -> Result<
    InlineV,
    Seq<char>,
> {
    match size_of_value(entry_value(entries, "W"@, "Width"@)) {
        None => Err("PDF inline image: missing /W"@),
        Some(width) => match size_of_value(entry_value(entries, "H"@, "Height"@)) {
            None => Err("PDF inline image: missing /H"@),
            Some(height) => {
                let names = names_of_value(entry_value(entries, "F"@, "Filter"@));
                match undone(names, undone_count(names), payload) {
                    Err(e) => Err(e),
                    Ok(data) => Ok(
                        InlineV {
                            data,
                            width,
                            height,
                            color_space: image_color(entries),
                            bits_per_component: image_depth(entries, codec_of(names)),
                            filter: codec_of(names),
                            image_mask: is_stencil(entries),
                            source_page_index: 0,
                            source_page_obj: no_object(),
                        },
                    ),
                }
            },
        },
    }
}

/// The image whose dictionary begins at place `p`, and where it ends. One white
/// space in front of `EI` does not belong to the data.
#[verifier::opaque]
pub open spec fn image_at(s: Seq<u8>, p: int) -> Result<(InlineV, int), Seq<char>> {
    match entries_from(s, p, Seq::empty()) {
        Err(e) => Err(e),
        Ok((entries, start)) => match end_from(s, start) {
            None => Err("PDF inline image: no terminating `EI` keyword found"@),
            Some(ei) => {
                let end = if ei > start {
                    ei - 1
                } else {
                    ei
                };
                match image_value(entries, s.subrange(start, end)) {
                    Err(e) => Err(e),
                    Ok(image) => Ok((image, ei + 2)),
                }
            },
        },
    }
}

fn decode_image(entries: &Vec<(String, DictValue)>, payload: Vec<u8>) -> (r: Result<
    PdfInlineImage,
    PdfError,
>)
    ensures
        crate::error::outcome(r) == image_value(entries_view(entries@), payload@),
{
    let width: u32 = match as_u32(find_value(entries, "W", "Width")) {
        Some(n) => n,
        None => {
            return Err(PdfError::other("PDF inline image: missing /W"));
        },
    };
    let height: u32 = match as_u32(find_value(entries, "H", "Height")) {
        Some(n) => n,
        None => {
            return Err(PdfError::other("PDF inline image: missing /H"));
        },
    };
    let image_mask: bool = match find_value(entries, "IM", "ImageMask") {
        Some(DictValue::Bool(b)) => *b,
        _ => false,
    };
    let names: Vec<String> = as_name_list(find_value(entries, "F", "Filter"));
    let (data, filter): (Vec<u8>, InlineImageFilter) = match peel_inline_filters(payload, &names) {
        Ok(v) => v,
        Err(e) => {
            return Err(e);
        },
    };
    let bits_per_component: u8 = if filter == InlineImageFilter::JpxDecode {
        8
    } else {
        match as_u8(find_value(entries, "BPC", "BitsPerComponent")) {
            Some(n) => n,
            None => if image_mask {
                1
            } else {
                8
            },
        }
    };
    let color_space: ColorSpace = if image_mask {
        ColorSpace::DeviceGray
    } else {
        match as_color_space(find_value(entries, "CS", "ColorSpace")) {
            Some(c) => c,
            None => ColorSpace::DeviceRGB,
        }
    };
    Ok(
        PdfInlineImage {
            data,
            width,
            height,
            color_space,
            bits_per_component,
            filter,
            image_mask,
            source_page_index: 0,
            source_page_obj: ObjectId { number: 0, generation: 0 },
        },
    )
}

/// Read the image whose dictionary begins at a place; also where it ends.
fn parse_one_inline_image(s: &[u8], p: usize) -> (r: Result<(PdfInlineImage, usize), PdfError>)
    requires
        p <= s@.len() <= usize::MAX,
    ensures
        match r {
            Ok((i, e)) => image_at(s@, p as int) == Ok::<(InlineV, int), Seq<char>>((i@, e as int))
                && p < e <= s@.len(),
            Err(e) => image_at(s@, p as int) == Err::<(InlineV, int), Seq<char>>(e@),
        },
{
    proof {
        reveal(image_at);
    }
    let (entries, start): (Vec<(String, DictValue)>, usize) = match read_dict(s, p) {
        Ok(v) => v,
        Err(e) => {
            return Err(e);
        },
    };
    let ei: usize = match find_inline_image_ei(s, start) {
        Some(n) => n,
        None => {
            return Err(PdfError::other("PDF inline image: no terminating `EI` keyword found"));
        },
    };
    let end: usize = if ei > start {
        ei - 1
    } else {
        ei
    };
    let mut payload: Vec<u8> = Vec::new();
    payload.extend_from_slice(vstd::slice::slice_subrange(s, start, end));
    proof {
        assert(payload@ =~= s@.subrange(start as int, end as int));
    }
    match decode_image(&entries, payload) {
        Err(e) => Err(e),
        Ok(i) => Ok((i, ei + 2)),
    }
}

/// The operator `BI`.
pub open spec fn word_bi() -> Seq<u8> {
    seq![66u8, 73]
}

/// An image with the number and the object of the page on which it stands.
pub open spec fn placed(image: InlineV, number: u32, page: ObjectId) -> InlineV {
    InlineV { source_page_index: number, source_page_obj: page, ..image }
}

/// The images of the content of a page from place `i` on, behind `out`.
pub open spec fn images_from(
    s: Seq<u8>,
    i: int,
    number: u32,
    page: ObjectId,
    out: Seq<InlineV>,
) -> Result<Seq<InlineV>, Seq<char>>
    decreases s.len() - i,
    via images_from_decreases
{
    if i < 0 || i >= s.len() {
        Ok(out)
    } else {
        match word_from(s, word_bi(), i) {
            None => Ok(out),
            Some(bi) => match image_at(s, bi + 2) {
                Err(e) => Err(e),
                Ok((image, end)) => images_from(
                    s,
                    end,
                    number,
                    page,
                    out.push(placed(image, number, page)),
                ),
            },
        }
    }
}

#[via_fn]
proof fn images_from_decreases(
    s: Seq<u8>,
    i: int,
    number: u32,
    page: ObjectId,
    out: Seq<InlineV>,
) {
    if 0 <= i < s.len() {
        if let Some(bi) = word_from(s, word_bi(), i) {
            law_first_word(s, word_bi(), i, bi);
            lemma_image_end(s, bi + 2);
        }
    }
}

proof fn lemma_entries_end(s: Seq<u8>, i: int, out: Seq<(Seq<char>, ValV)>)
    requires
        0 <= i <= s.len(),
    ensures
        entries_from(s, i, out) matches Ok((_, e)) ==> i < e <= s.len(),
    decreases s.len() - i,
{
    lemma_skip_space(s, i);
    let j = skip_space(s, i);
    if j < s.len() && s[j] == 47 {
        lemma_word_end(s, j + 1);
        lemma_skip_space(s, word_end(s, j + 1));
        let k = skip_space(s, word_end(s, j + 1));
        if k < s.len() {
            lemma_value_end(s, k);
            if let Ok((v, end)) = value_at(s, k) {
                lemma_entries_end(s, end, out.push((name_at(s, j), v)));
            }
        }
    }
}

/// An image ends behind where it begins, and within the content.
proof fn lemma_image_end(s: Seq<u8>, p: int)
    requires
        0 <= p <= s.len(),
    ensures
        image_at(s, p) matches Ok((_, e)) ==> p < e <= s.len(),
{
    reveal(image_at);
    lemma_entries_end(s, p, Seq::empty());
    if let Ok((_, start)) = entries_from(s, p, Seq::empty()) {
        if let Some(ei) = end_from(s, start) {
            law_ei_in_data(s, start, ei);
        }
    }
}

/// The images of the content of a page.
pub open spec fn images_of(s: Seq<u8>, number: u32, page: ObjectId) -> Result<
    Seq<InlineV>,
    Seq<char>,
> {
    images_from(s, 0, number, page, Seq::empty())
}

/// `r` is what `w` says.
pub open spec fn inlines_agree(
    r: Result<Vec<PdfInlineImage>, PdfError>,
    w: Result<Seq<InlineV>, Seq<char>>,
) -> bool {
    match r {
        Ok(v) => w == Ok::<Seq<InlineV>, Seq<char>>(inlines_view(v@)),
        Err(e) => w == Err::<Seq<InlineV>, Seq<char>>(e@),
    }
}

fn extract_on_page(bytes: &[u8], number: u32, page: ObjectId) -> (r: Result<
    Vec<PdfInlineImage>,
    PdfError,
>)
    ensures
        inlines_agree(r, images_of(bytes@, number, page)),
{
    let bi: [u8; 2] = [66, 73];
    let mut out: Vec<PdfInlineImage> = Vec::new();
    let mut i: usize = 0;
    let ghost goal = images_of(bytes@, number, page);
    proof {
        assert(inlines_view(out@) =~= Seq::empty());
        assert(bi@ =~= word_bi());
    }
    while i < bytes.len()
        invariant
            i <= bytes@.len(),
            bi@ == word_bi(),
            goal == images_of(bytes@, number, page),
            goal == images_from(bytes@, i as int, number, page, inlines_view(out@)),
        decreases bytes.len() - i,
    {
        let start: usize = match find_keyword(bytes, &bi, i) {
            Some(p) => p,
            None => {
                return Ok(out);
            },
        };
        match parse_one_inline_image(bytes, start + 2) {
            Err(e) => {
                return Err(e);
            },
            Ok((image, end)) => {
                let ghost before = inlines_view(out@);
                let ghost v = placed(image@, number, page);
                let mut image: PdfInlineImage = image;
                image.source_page_index = number;
                image.source_page_obj = page;
                out.push(image);
                proof {
                    assert(inlines_view(out@) =~= before.push(v));
                }
                i = end;
            },
        }
    }
    Ok(out)
}

/// The images that stand in content, in order; on no page.
pub fn extract_inline_images_from_stream(bytes: &[u8]) -> (r: Result<
    Vec<PdfInlineImage>,
    PdfError,
>)
    ensures
        inlines_agree(r, images_of(bytes@, 0, no_object())),
{
    extract_on_page(bytes, 0, ObjectId { number: 0, generation: 0 })
}

// -------------------------------------------------------------- the document

/// The number of the page at a place, from 1 on.
pub open spec fn page_number(index: int) -> u32 {
    ((index + 1) % 0x1_0000_0000) as u32
}

/// The images of the page at place `index`.
pub open spec fn images_of_page(doc: DocV, pages: Seq<ObjectId>, index: int) -> Result<
    Seq<InlineV>,
    Seq<char>,
> {
    match doc.resolve(pages[index]) {
        Err(e) => Err(e),
        Ok(ObjV::Dict(page)) => match page_data(doc, page) {
            Err(e) => Err(e),
            Ok(content) => images_of(content, page_number(index), pages[index]),
        },
        Ok(_) => Ok(Seq::empty()),
    }
}

/// The images of the first `n` pages.
pub open spec fn images_of_pages(doc: DocV, pages: Seq<ObjectId>, n: int) -> Result<
    Seq<InlineV>,
    Seq<char>,
>
    decreases n,
{
    if n <= 0 || n > pages.len() {
        Ok(Seq::empty())
    } else {
        match images_of_pages(doc, pages, n - 1) {
            Err(e) => Err(e),
            Ok(before) => match images_of_page(doc, pages, n - 1) {
                Err(e) => Err(e),
                Ok(images) => Ok(before + images),
            },
        }
    }
}

proof fn lemma_pages_error(doc: DocV, pages: Seq<ObjectId>, n: int, m: int)
    requires
        0 <= n <= m <= pages.len(),
        images_of_pages(doc, pages, n) is Err,
    ensures
        images_of_pages(doc, pages, m) == images_of_pages(doc, pages, n),
    decreases m - n,
{
    if n < m {
        lemma_pages_error(doc, pages, n, m - 1);
    }
}

/// The images that stand in the content of the pages of a document.
pub open spec fn document_inlines(doc: DocV) -> Result<Seq<InlineV>, Seq<char>> {
    match document_pages(doc) {
        Err(e) => Err(e),
        Ok(pages) => images_of_pages(doc, pages, pages.len() as int),
    }
}

fn read_page_images(reader: &mut DocumentReader, pages: &Vec<ObjectId>, index: usize) -> (r: Result<
    Vec<PdfInlineImage>,
    PdfError,
>)
    requires
        old(reader).wf(),
        index < pages@.len(),
    ensures
        final(reader).wf(),
        final(reader).doc() == old(reader).doc(),
        inlines_agree(r, images_of_page(old(reader).doc(), pages@, index as int)),
{
    let id: ObjectId = pages[index];
    match reader.resolve(id) {
        Err(e) => Err(e),
        Ok(Object::Dict(page)) => match page_contents(reader, &page) {
            Err(e) => Err(e),
            Ok(content) => {
                let number: u32 = ((index as u64 % 0x1_0000_0000 + 1) % 0x1_0000_0000) as u32;
                proof {
                    let n = index as int;
                    assert((n % 0x1_0000_0000 + 1) % 0x1_0000_0000 == (n + 1) % 0x1_0000_0000) by {
                        vstd::arithmetic::div_mod::lemma_add_mod_noop(n, 1, 0x1_0000_0000);
                    }
                }
                extract_on_page(content.as_slice(), number, id)
            },
        },
        Ok(_) => {
            let none: Vec<PdfInlineImage> = Vec::new();
            proof {
                assert(inlines_view(none@) =~= Seq::empty());
            }
            Ok(none)
        },
    }
}

/// The images that stand in the content of the pages of a document, in order.
pub fn inline_images(reader: &mut DocumentReader) -> (r: Result<Vec<PdfInlineImage>, PdfError>)
    requires
        old(reader).wf(),
    ensures
        final(reader).wf(),
        final(reader).doc() == old(reader).doc(),
        inlines_agree(r, document_inlines(old(reader).doc())),
{
    let ghost doc = reader.doc();
    let pages: Vec<ObjectId> = match page_leaves(reader) {
        Ok(v) => v,
        Err(e) => {
            return Err(e);
        },
    };
    let mut out: Vec<PdfInlineImage> = Vec::new();
    proof {
        assert(inlines_view(out@) =~= Seq::empty());
    }
    let mut i: usize = 0;
    while i < pages.len()
        invariant
            i <= pages@.len(),
            reader.wf(),
            reader.doc() == doc,
            doc == old(reader).doc(),
            document_pages(doc) == Ok::<Seq<ObjectId>, Seq<char>>(pages@),
            images_of_pages(doc, pages@, i as int) == Ok::<Seq<InlineV>, Seq<char>>(
                inlines_view(out@),
            ),
        decreases pages.len() - i,
    {
        match read_page_images(reader, &pages, i) {
            Err(e) => {
                proof {
                    lemma_pages_error(doc, pages@, i + 1, pages@.len() as int);
                }
                return Err(e);
            },
            Ok(images) => {
                let mut images: Vec<PdfInlineImage> = images;
                let ghost a = out@;
                let ghost b = images@;
                out.append(&mut images);
                proof {
                    assert(out@ =~= a + b);
                    assert(inlines_view(out@) =~= inlines_view(a) + inlines_view(b));
                }
            },
        }
        i = i + 1;
    }
    Ok(out)
}

impl<'a> DocumentReader<'a> {
    /// The images that stand in the content of the pages, in order.
    pub fn inline_images(&mut self) -> (r: Result<Vec<PdfInlineImage>, PdfError>)
        requires
            old(self).wf(),
        ensures
            final(self).wf(),
            final(self).doc() == old(self).doc(),
            inlines_agree(r, document_inlines(old(self).doc())),
    {
        inline_images(self)
    }
}

// ---------------------------------------------------------------------- laws

/// Data that hold `EI` between other bytes are kept whole: `EI` ends an image
/// only with white space on both sides.
pub proof fn law_ei_in_data(s: Seq<u8>, from: int, ei: int)
    requires
        0 <= from,
        end_from(s, from) == Some(ei),
    ensures
        from <= ei,
        ends_at(s, ei),
        forall|p: int| from <= p < ei ==> !#[trigger] ends_at(s, p),
    decreases s.len() - from,
{
    if !ends_at(s, from) {
        law_ei_in_data(s, from + 1, ei);
    }
}

/// The word that is found stands alone, and is the first that does.
pub proof fn law_first_word(s: Seq<u8>, w: Seq<u8>, from: int, p: int)
    requires
        0 <= from,
        word_from(s, w, from) == Some(p),
    ensures
        from <= p,
        word_at(s, w, p),
        forall|q: int| from <= q < p ==> !#[trigger] word_at(s, w, q),
    decreases s.len() + 1 - from,
{
    if !word_at(s, w, from) {
        law_first_word(s, w, from + 1, p);
    }
}

/// Images with the number and the object of the page on which they stand.
pub open spec fn all_placed(images: Seq<InlineV>, number: u32, page: ObjectId) -> Seq<InlineV> {
    images.map_values(|i: InlineV| placed(i, number, page))
}

/// `r` with its images on a page.
pub open spec fn on_page(
    r: Result<Seq<InlineV>, Seq<char>>,
    number: u32,
    page: ObjectId,
) -> Result<Seq<InlineV>, Seq<char>> {
    match r {
        Ok(images) => Ok(all_placed(images, number, page)),
        Err(e) => Err(e),
    }
}

/// The images of a page are those of its content alone, with the number and the
/// object of the page set and nothing else changed.
pub proof fn law_images_placed(s: Seq<u8>, number: u32, page: ObjectId)
    ensures
        images_of(s, number, page) == on_page(images_of(s, 0, no_object()), number, page),
{
    assert(all_placed(Seq::empty(), number, page) =~= Seq::empty());
    lemma_placed_from(s, 0, number, page, Seq::empty());
}

proof fn lemma_placed_from(s: Seq<u8>, i: int, number: u32, page: ObjectId, out: Seq<InlineV>)
    ensures
        images_from(s, i, number, page, all_placed(out, number, page)) == on_page(
            images_from(s, i, 0, no_object(), out),
            number,
            page,
        ),
    decreases s.len() - i,
{
    if 0 <= i < s.len() {
        if let Some(bi) = word_from(s, word_bi(), i) {
            law_first_word(s, word_bi(), i, bi);
            lemma_image_end(s, bi + 2);
            if let Ok((image, end)) = image_at(s, bi + 2) {
                let plain = placed(image, 0, no_object());
                assert(placed(plain, number, page) == placed(image, number, page));
                assert(all_placed(out.push(plain), number, page) =~= all_placed(
                    out,
                    number,
                    page,
                ).push(placed(image, number, page)));
                lemma_placed_from(s, end, number, page, out.push(plain));
            }
        }
    }
}

/// The images of a document come page by page, each with the number of its page,
/// counted from 1, and its object; the numbers never decrease. Where there are
/// images at all, no page was refused.
pub proof fn law_images_by_page(doc: DocV, pages: Seq<ObjectId>, n: int, images: Seq<InlineV>)
    requires
        0 <= n <= pages.len(),
        n <= u32::MAX,
        images_of_pages(doc, pages, n) == Ok::<Seq<InlineV>, Seq<char>>(images),
    ensures
        forall|k: int|
            0 <= k < images.len() ==> 1 <= (#[trigger] images[k]).source_page_index <= n
                && images[k].source_page_obj == pages[images[k].source_page_index - 1],
        forall|j: int, k: int|
            0 <= j < k < images.len() ==> (#[trigger] images[j]).source_page_index <= (
            #[trigger] images[k]).source_page_index,
        forall|i: int| 0 <= i < n ==> (#[trigger] images_of_page(doc, pages, i)) is Ok,
    decreases n,
{
    if n > 0 {
        let before = images_of_pages(doc, pages, n - 1)->Ok_0;
        let last = images_of_page(doc, pages, n - 1)->Ok_0;
        law_images_by_page(doc, pages, n - 1, before);
        assert(page_number(n - 1) == n);
        assert forall|k: int| 0 <= k < last.len() implies (#[trigger] last[k]).source_page_index
            == n && last[k].source_page_obj == pages[n - 1] by {
            if let Ok(ObjV::Dict(page)) = doc.resolve(pages[n - 1]) {
                if let Ok(content) = page_data(doc, page) {
                    law_images_placed(content, page_number(n - 1), pages[n - 1]);
                }
            }
        }
        assert forall|k: int| 0 <= k < images.len() implies 1 <= (
        #[trigger] images[k]).source_page_index <= n && images[k].source_page_obj
            == pages[images[k].source_page_index - 1] by {
            if k < before.len() {
                assert(images[k] == before[k]);
            } else {
                assert(images[k] == last[k - before.len()]);
            }
        }
        assert forall|j: int, k: int| 0 <= j < k < images.len() implies (
        #[trigger] images[j]).source_page_index <= (#[trigger] images[k]).source_page_index by {
            if k < before.len() {
                assert(images[j] == before[j] && images[k] == before[k]);
            } else {
                assert(images[k] == last[k - before.len()]);
            }
        }
    }
}

/// With a codec as the only filter, the data are handed out as they are.
pub proof fn law_codec_data_unchanged(names: Seq<Seq<char>>, data: Seq<u8>)
    requires
        names.len() == 1,
        codec_of(names) != InlineImageFilter::Raw,
    ensures
        undone(names, undone_count(names), data) == Ok::<Seq<u8>, Seq<char>>(data),
{
}

/// A stencil has one bit a pixel where nothing else is said, and is gray.
pub proof fn law_stencil_defaults(entries: Seq<(Seq<char>, ValV)>, payload: Seq<u8>, i: InlineV)
    requires
        is_stencil(entries),
        entry_value(entries, "BPC"@, "BitsPerComponent"@) is None,
        image_value(entries, payload) == Ok::<InlineV, Seq<char>>(i),
        i.filter != InlineImageFilter::JpxDecode,
    ensures
        i.image_mask,
        i.bits_per_component == 1,
        i.color_space == ColorV::DeviceGray,
{
}

} // verus!
