//! What a document says of itself: its title, its author and the like.

use vstd::prelude::*;
use crate::describe::{got, unexpected};
use crate::document::{DocV, DocumentReader};
use crate::encoding::opt_text;
use crate::error::PdfError;
use crate::objects::{Dict, DictV, ObjV, Object};
use crate::text::{chars_of, same_text, texts};
use crate::textstring::{decode_text, info_text, iso_date, pdf_date_to_iso8601};

verus! {

// ------------------------------------------------------------------ values

/// What a document says of itself.
#[derive(Debug, Clone, PartialEq, Eq)]
pub struct DocumentInfo {
    pub title: Option<String>,
    pub author: Option<String>,
    pub subject: Option<String>,
    pub keywords: Vec<String>,
    pub creator: Option<String>,
    pub producer: Option<String>,
    /// When it was made, in the form of ISO 8601.
    pub created_at: Option<String>,
    /// When it was changed, in the form of ISO 8601.
    pub modified_at: Option<String>,
    /// All other entries, by their keys.
    pub custom: Vec<(String, String)>,
}

/// The same as a mathematical value.
pub struct InfoV {
    pub title: Option<Seq<char>>,
    pub author: Option<Seq<char>>,
    pub subject: Option<Seq<char>>,
    pub keywords: Seq<Seq<char>>,
    pub creator: Option<Seq<char>>,
    pub producer: Option<Seq<char>>,
    pub created_at: Option<Seq<char>>,
    pub modified_at: Option<Seq<char>>,
    pub custom: Seq<(Seq<char>, Seq<char>)>,
}

/// Pairs of texts as mathematical values.
pub open spec fn pairs_view(s: Seq<(String, String)>) -> Seq<(Seq<char>, Seq<char>)> {
    s.map_values(|p: (String, String)| (p.0@, p.1@))
}

impl View for DocumentInfo {
    type V = InfoV;

    open spec fn view(&self) -> InfoV {
        InfoV {
            title: opt_text(self.title),
            author: opt_text(self.author),
            subject: opt_text(self.subject),
            keywords: texts(self.keywords@),
            creator: opt_text(self.creator),
            producer: opt_text(self.producer),
            created_at: opt_text(self.created_at),
            modified_at: opt_text(self.modified_at),
            custom: pairs_view(self.custom@),
        }
    }
}

/// What a document says that says nothing of itself.
pub open spec fn no_info() -> InfoV {
    InfoV {
        title: None,
        author: None,
        subject: None,
        keywords: Seq::empty(),
        creator: None,
        producer: None,
        created_at: None,
        modified_at: None,
        custom: Seq::empty(),
    }
}

impl Default for DocumentInfo {
    fn default() -> (r: DocumentInfo)
        ensures
            r@ == no_info(),
    {
        let r: DocumentInfo = DocumentInfo {
            title: None,
            author: None,
            subject: None,
            keywords: Vec::new(),
            creator: None,
            producer: None,
            created_at: None,
            modified_at: None,
            custom: Vec::new(),
        };
        proof {
            assert(r@.keywords =~= Seq::empty());
            assert(r@.custom =~= Seq::empty());
        }
        r
    }
}

// ---------------------------------------------------------------- keywords

/// White space, as Unicode has it.
pub open spec fn is_white(c: char) -> bool {
    let n = c as u32;
    9 <= n <= 13 || n == 0x20 || n == 0x85 || n == 0xA0 || n == 0x1680 || 0x2000 <= n <= 0x200A || n
        == 0x2028 || n == 0x2029 || n == 0x202F || n == 0x205F || n == 0x3000
}

fn white(c: char) -> (r: bool)
    ensures
        r == is_white(c),
{
    let n: u32 = c as u32;
    (9 <= n && n <= 13) || n == 0x20 || n == 0x85 || n == 0xA0 || n == 0x1680 || (0x2000 <= n && n
        <= 0x200A) || n == 0x2028 || n == 0x2029 || n == 0x202F || n == 0x205F || n == 0x3000
}

/// The first place at or behind `a` and before `b` that holds no white space,
/// or `b`.
pub open spec fn first_solid(t: Seq<char>, a: int, b: int) -> int
    decreases b - a,
{
    if 0 <= a < b <= t.len() && is_white(t[a]) {
        first_solid(t, a + 1, b)
    } else {
        a
    }
}

/// The place behind the last one before `b` and not before `a` that holds no
/// white space, or `a`.
pub open spec fn last_solid(t: Seq<char>, a: int, b: int) -> int
    decreases b - a,
{
    if 0 <= a < b <= t.len() && is_white(t[b - 1]) {
        last_solid(t, a, b - 1)
    } else {
        b
    }
}

/// The characters from `a` to `b` without white space at either end.
pub open spec fn trimmed(t: Seq<char>, a: int, b: int) -> Seq<char> {
    let x = first_solid(t, a, b);
    t.subrange(x, last_solid(t, x, b))
}

/// The parts between the commas at or behind `i`, each without white space at
/// either end; the first begins at `start`.
pub open spec fn keywords_from(t: Seq<char>, start: int, i: int) -> Seq<Seq<char>>
    decreases t.len() - i,
{
    if i < 0 || i >= t.len() {
        seq![trimmed(t, start, t.len() as int)]
    } else if t[i] == ',' {
        seq![trimmed(t, start, i)] + keywords_from(t, i + 1, i + 1)
    } else {
        keywords_from(t, start, i + 1)
    }
}

/// The keywords in a text: its parts between commas.
pub open spec fn keywords_of(t: Seq<char>) -> Seq<Seq<char>> {
    keywords_from(t, 0, 0)
}

proof fn lemma_solid_bounds(t: Seq<char>, a: int, b: int)
    requires
        0 <= a <= b <= t.len(),
    ensures
        a <= first_solid(t, a, b) <= b,
        a <= last_solid(t, a, b) <= b,
    decreases b - a,
{
    if a < b {
        if is_white(t[a]) {
            lemma_solid_bounds(t, a + 1, b);
        }
        if is_white(t[b - 1]) {
            lemma_solid_bounds(t, a, b - 1);
        }
    }
}

fn trim(t: &Vec<char>, a: usize, b: usize) -> (r: String)
    requires
        a <= b <= t@.len(),
    ensures
        r@ == trimmed(t@, a as int, b as int),
{
    let mut x: usize = a;
    while x < b && white(t[x])
        invariant
            a <= x <= b <= t@.len(),
            first_solid(t@, a as int, b as int) == first_solid(t@, x as int, b as int),
        decreases b - x,
    {
        x = x + 1;
    }
    let mut y: usize = b;
    while x < y && white(t[y - 1])
        invariant
            x <= y <= b <= t@.len(),
            last_solid(t@, x as int, b as int) == last_solid(t@, x as int, y as int),
        decreases y,
    {
        y = y - 1;
    }
    let mut out: String = String::new();
    let mut i: usize = x;
    proof {
        assert(t@.subrange(x as int, x as int) =~= Seq::<char>::empty());
        assert(out@ =~= Seq::<char>::empty());
    }
    while i < y
        invariant
            x <= i <= y <= t@.len(),
            out@ == t@.subrange(x as int, i as int),
        decreases y - i,
    {
        out.push(t[i]);
        i = i + 1;
        proof {
            assert(t@.subrange(x as int, i as int) =~= t@.subrange(x as int, i - 1).push(
                t@[i - 1],
            ));
        }
    }
    out
}

/// The keywords in a text.
pub fn split_keywords(s: &str) -> (r: Vec<String>)
    ensures
        texts(r@) == keywords_of(s@),
{
    let t: Vec<char> = chars_of(s);
    let mut out: Vec<String> = Vec::new();
    let mut start: usize = 0;
    let mut i: usize = 0;
    let ghost goal = keywords_of(t@);
    proof {
        assert(texts(out@) + goal =~= goal);
    }
    while i < t.len()
        invariant
            start <= i <= t@.len(),
            goal == texts(out@) + keywords_from(t@, start as int, i as int),
        decreases t.len() - i,
    {
        if t[i] == ',' {
            let ghost before = texts(out@);
            let w: String = trim(&t, start, i);
            let ghost g = w@;
            out.push(w);
            proof {
                assert(texts(out@) =~= before.push(g));
                let rest = keywords_from(t@, i + 1, i + 1);
                assert(before + (seq![g] + rest) =~= before.push(g) + rest);
            }
            start = i + 1;
        }
        i = i + 1;
    }
    let ghost before = texts(out@);
    let w: String = trim(&t, start, t.len());
    let ghost g = w@;
    out.push(w);
    proof {
        assert(texts(out@) =~= before.push(g));
        assert(before + seq![g] =~= before.push(g));
    }
    out
}

// ----------------------------------------------------------------- entries

/// The place of a key among the pairs from place `from` on, or their number.
pub open spec fn pair_pos(s: Seq<(Seq<char>, Seq<char>)>, key: Seq<char>, from: int) -> int
    decreases s.len() - from,
{
    if from < 0 || from >= s.len() {
        s.len() as int
    } else if s[from].0 == key {
        from
    } else {
        pair_pos(s, key, from + 1)
    }
}

/// Pairs with one set: in place of one with the same key, or behind all.
pub open spec fn pair_set(s: Seq<(Seq<char>, Seq<char>)>, key: Seq<char>, value: Seq<char>) -> Seq<
    (Seq<char>, Seq<char>),
> {
    let p = pair_pos(s, key, 0);
    if p < s.len() {
        s.update(p, (key, value))
    } else {
        s.push((key, value))
    }
}

fn set_pair(out: &mut Vec<(String, String)>, key: &str, value: String)
    ensures
        pairs_view(final(out)@) == pair_set(pairs_view(old(out)@), key@, value@),
{
    let ghost before = pairs_view(out@);
    let mut i: usize = 0;
    while i < out.len()
        invariant
            i <= out@.len(),
            out@ == old(out)@,
            before == pairs_view(out@),
            pair_pos(before, key@, 0) == pair_pos(before, key@, i as int),
        decreases out.len() - i,
    {
        proof {
            assert(before[i as int] == (out@[i as int].0@, out@[i as int].1@));
        }
        if same_text(out[i].0.as_str(), key) {
            let pair: (String, String) = (key.to_owned(), value);
            out[i] = pair;
            proof {
                assert(pairs_view(out@) =~= before.update(i as int, (key@, value@)));
            }
            return;
        }
        i = i + 1;
    }
    out.push((key.to_owned(), value));
    proof {
        assert(pairs_view(out@) =~= before.push((key@, value@)));
    }
}

/// A date as text in the form of ISO 8601.
pub open spec fn date_of(o: ObjV) -> Option<Seq<char>> {
    match info_text(o) {
        Some(t) => Some(iso_date(t, vstd::utf8::encode_utf8(t))),
        None => None,
    }
}

fn decode_date(o: &Object) -> (r: Option<String>)
    ensures
        opt_text(r) == date_of(o@),
{
    match decode_text(o) {
        Some(t) => Some(pdf_date_to_iso8601(t)),
        None => None,
    }
}

/// `m` with one entry of the information dictionary. An entry with a key that
/// is not known is kept if it is a text.
pub open spec fn with_entry(m: InfoV, key: Seq<char>, v: ObjV) -> InfoV {
    if key == "Title"@ {
        InfoV { title: info_text(v), ..m }
    } else if key == "Author"@ {
        InfoV { author: info_text(v), ..m }
    } else if key == "Subject"@ {
        InfoV { subject: info_text(v), ..m }
    } else if key == "Keywords"@ {
        match info_text(v) {
            Some(t) => InfoV { keywords: keywords_of(t), ..m },
            None => m,
        }
    } else if key == "Creator"@ {
        InfoV { creator: info_text(v), ..m }
    } else if key == "Producer"@ {
        InfoV { producer: info_text(v), ..m }
    } else if key == "CreationDate"@ {
        InfoV { created_at: date_of(v), ..m }
    } else if key == "ModDate"@ {
        InfoV { modified_at: date_of(v), ..m }
    } else {
        match info_text(v) {
            Some(t) => InfoV { custom: pair_set(m.custom, key, t), ..m },
            None => m,
        }
    }
}

/// What the first `n` entries of an information dictionary say.
pub open spec fn info_among(d: DictV, n: int) -> InfoV
    decreases n,
{
    if n <= 0 || n > d.len() {
        no_info()
    } else {
        with_entry(info_among(d, n - 1), d[n - 1].0, d[n - 1].1)
    }
}

fn set_entry(m: &mut DocumentInfo, key: &str, v: &Object)
    ensures
        final(m)@ == with_entry(old(m)@, key@, v@),
{
    if same_text(key, "Title") {
        m.title = decode_text(v);
    } else if same_text(key, "Author") {
        m.author = decode_text(v);
    } else if same_text(key, "Subject") {
        m.subject = decode_text(v);
    } else if same_text(key, "Keywords") {
        if let Some(t) = decode_text(v) {
            m.keywords = split_keywords(t.as_str());
        }
    } else if same_text(key, "Creator") {
        m.creator = decode_text(v);
    } else if same_text(key, "Producer") {
        m.producer = decode_text(v);
    } else if same_text(key, "CreationDate") {
        m.created_at = decode_date(v);
    } else if same_text(key, "ModDate") {
        m.modified_at = decode_date(v);
    } else if let Some(t) = decode_text(v) {
        set_pair(&mut m.custom, key, t);
    }
}

/// What an information dictionary says.
pub open spec fn info_of(o: ObjV) -> Result<InfoV, Seq<char>> {
    match o {
        ObjV::Dict(d) => Ok(info_among(d, d.len() as int)),
        _ => Err("PDF reader: /Info must be a dict"@ + got(o)),
    }
}

/// Read an information dictionary.
pub fn decode_metadata(info: &Object) -> (r: Result<DocumentInfo, PdfError>)
    ensures
        crate::error::outcome(r) == info_of(info@),
{
    let d: &Dict = match info {
        Object::Dict(d) => d,
        o => {
            return Err(unexpected("PDF reader: /Info must be a dict", o));
        },
    };
    let mut m: DocumentInfo = DocumentInfo::default();
    let mut i: usize = 0;
    while i < d.entries.len()
        invariant
            i <= d.entries@.len(),
            d@.len() == d.entries@.len(),
            m@ == info_among(d@, i as int),
        decreases d.entries.len() - i,
    {
        let entry: &(String, Object) = &d.entries[i];
        proof {
            assert(d@[i as int] == (entry.0@, entry.1@));
        }
        set_entry(&mut m, entry.0.as_str(), &entry.1);
        i = i + 1;
    }
    Ok(m)
}

/// What a document says of itself; nothing where it has no information
/// dictionary.
pub open spec fn document_info(doc: DocV) -> Result<InfoV, Seq<char>> {
    match doc.xref.info() {
        None => Ok(no_info()),
        Some(id) => match doc.resolve(id) {
            Err(e) => Err(e),
            Ok(o) => info_of(o),
        },
    }
}

/// Read what a document says of itself.
pub fn read_info(reader: &mut DocumentReader) -> (r: Result<DocumentInfo, PdfError>)
    requires
        old(reader).wf(),
    ensures
        final(reader).wf(),
        final(reader).doc() == old(reader).doc(),
        crate::error::outcome(r) == document_info(old(reader).doc()),
{
    match reader.xref().info() {
        None => Ok(DocumentInfo::default()),
        Some(id) => match reader.resolve(id) {
            Err(e) => Err(e),
            Ok(o) => decode_metadata(&o),
        },
    }
}

// ------------------------------------------------------------------- laws

/// Keywords joined by a comma and a space.
pub open spec fn joined(words: Seq<Seq<char>>) -> Seq<char>
    decreases words.len(),
{
    if words.len() == 0 {
        Seq::empty()
    } else if words.len() == 1 {
        words[0]
    } else {
        words[0] + seq![',', ' '] + joined(words.skip(1))
    }
}

/// A keyword that can be told apart: it holds no comma, and no white space at
/// either end.
pub open spec fn plain_keyword(w: Seq<char>) -> bool {
    &&& forall|i: int| 0 <= i < w.len() ==> #[trigger] w[i] != ','
    &&& w.len() > 0 ==> !is_white(w[0]) && !is_white(w.last())
}

/// Keywords that were joined are found again.
pub proof fn law_keywords_round_trip(words: Seq<Seq<char>>)
    requires
        words.len() > 0,
        forall|i: int| 0 <= i < words.len() ==> plain_keyword(#[trigger] words[i]),
    ensures
        keywords_of(joined(words)) == words,
{
    let t = joined(words);
    assert(t.skip(0) =~= t);
    lemma_words_found(words, t, 0);
}

/// A stretch of text without a comma is one part, up to the comma or the end.
proof fn lemma_to_comma(t: Seq<char>, start: int, i: int, end: int)
    requires
        0 <= start <= i <= end <= t.len(),
        forall|k: int| i <= k < end ==> #[trigger] t[k] != ',',
    ensures
        keywords_from(t, start, i) == keywords_from(t, start, end),
    decreases end - i,
{
    if i < end {
        assert(t[i] != ',');
        lemma_to_comma(t, start, i + 1, end);
    }
}

/// A keyword with at most one space in front of it is trimmed to itself.
proof fn lemma_trimmed_word(t: Seq<char>, a: int, b: int, w: Seq<char>)
    requires
        0 <= a <= b <= t.len(),
        plain_keyword(w),
        t.subrange(a, b) == w || (a < b && t[a] == ' ' && t.subrange(a + 1, b) == w),
    ensures
        trimmed(t, a, b) == w,
{
    let x = if t.subrange(a, b) == w {
        a
    } else {
        a + 1
    };
    assert(is_white(' '));
    if w.len() > 0 {
        assert(t.subrange(x, b)[0] == t[x]);
        assert(t.subrange(x, b).last() == t[b - 1]);
        assert(first_solid(t, x, b) == x);
        assert(first_solid(t, a, b) == x) by {
            if x == a + 1 {
                assert(first_solid(t, a, b) == first_solid(t, a + 1, b));
            }
        }
        assert(last_solid(t, x, b) == b);
    } else {
        assert(x == b);
        assert(first_solid(t, b, b) == b);
        assert(first_solid(t, a, b) == b) by {
            if x == a + 1 {
                assert(first_solid(t, a, b) == first_solid(t, a + 1, b));
            }
        }
        assert(last_solid(t, b, b) == b);
        assert(t.subrange(b, b) =~= w);
    }
}

/// Joined keywords behind a place, or behind a space at it, are found from it.
proof fn lemma_words_found(words: Seq<Seq<char>>, t: Seq<char>, start: int)
    requires
        words.len() > 0,
        forall|i: int| 0 <= i < words.len() ==> plain_keyword(#[trigger] words[i]),
        0 <= start <= t.len(),
        t.skip(start) == joined(words) || (start < t.len() && t[start] == ' ' && t.skip(start + 1)
            == joined(words)),
    ensures
        keywords_from(t, start, start) == words,
    decreases words.len(),
{
    let x = if t.skip(start) == joined(words) {
        start
    } else {
        start + 1
    };
    let w = words[0];
    let end = x + w.len();
    let j = joined(words);
    assert(plain_keyword(w));
    assert(t.skip(x) == j);
    assert(j.len() == t.len() - x);
    if words.len() == 1 {
        assert(j == w);
        assert(end == t.len());
        assert(t.subrange(x, end) =~= t.skip(x));
    } else {
        let rest = joined(words.skip(1));
        assert(j == w + seq![',', ' '] + rest);
        assert(t.subrange(x, end) =~= w) by {
            assert forall|k: int| 0 <= k < w.len() implies t[x + k] == w[k] by {
                assert(t.skip(x)[k] == j[k]);
            }
        }
    }
    assert forall|k: int| start <= k < end implies #[trigger] t[k] != ',' by {
        if k >= x {
            assert(t.subrange(x, end)[k - x] == t[k]);
            assert(w[k - x] != ',');
        }
    }
    lemma_to_comma(t, start, start, end);
    lemma_trimmed_word(t, start, end, w);
    if words.len() == 1 {
        assert(keywords_from(t, start, end) == seq![w]);
        assert(seq![w] =~= words);
    } else {
        let rest = joined(words.skip(1));
        assert(t.skip(x)[w.len() as int] == j[w.len() as int]);
        assert(t.skip(x)[w.len() as int + 1] == j[w.len() as int + 1]);
        assert(t[end] == ',');
        assert(t[end + 1] == ' ');
        assert(t.skip(end + 2) =~= rest) by {
            assert forall|k: int| 0 <= k < rest.len() implies t.skip(end + 2)[k] == rest[k] by {
                assert(t.skip(x)[w.len() as int + 2 + k] == j[w.len() as int + 2 + k]);
            }
        }
        assert forall|i: int| 0 <= i < words.skip(1).len() implies plain_keyword(
            #[trigger] words.skip(1)[i],
        ) by {
            assert(words.skip(1)[i] == words[i + 1]);
        }
        lemma_words_found(words.skip(1), t, end + 1);
        assert(seq![w] + words.skip(1) =~= words);
    }
}

/// A document without an information dictionary says nothing of itself.
pub proof fn law_no_info(doc: DocV)
    requires
        doc.xref.info() is None,
    ensures
        document_info(doc) == Ok::<InfoV, Seq<char>>(no_info()),
{
}

} // verus!
