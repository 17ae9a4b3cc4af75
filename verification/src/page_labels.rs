//! Page labels: how a document numbers its pages.

use std::collections::HashMap;
use vstd::prelude::*;
use crate::document::{DocV, DocumentReader};
use crate::error::PdfError;
use crate::nametree::{entries_view, number_tree_entries, tree_entries};
use crate::objects::{dict_get, Dict, DictV, ObjV, Object};
use crate::pages::{build_page_index_map, index_of_pages, listed_pages, page_index};
use crate::stream::dict_integer;
use crate::text::{cat, dec, int_text, same_text, texts};
use crate::textstring::{decode_text_bytes, text_of_bytes};

verus! {

broadcast use vstd::std_specs::hash::group_hash_axioms;

/// The form of the number in a label.
#[derive(Debug, Clone, Copy, PartialEq, Eq, Structural)]
pub enum PageLabelStyle {
    /// `D`: decimal.
    Decimal,
    /// `R`: Roman, in capitals.
    RomanUpper,
    /// `r`: Roman, in small letters.
    RomanLower,
    /// `A`: capital letters.
    AlphaUpper,
    /// `a`: small letters.
    AlphaLower,
}

/// The style that a name stands for.
pub open spec fn style_named(name: Seq<char>) -> Option<PageLabelStyle> {
    if name == "D"@ {
        Some(PageLabelStyle::Decimal)
    } else if name == "R"@ {
        Some(PageLabelStyle::RomanUpper)
    } else if name == "r"@ {
        Some(PageLabelStyle::RomanLower)
    } else if name == "A"@ {
        Some(PageLabelStyle::AlphaUpper)
    } else if name == "a"@ {
        Some(PageLabelStyle::AlphaLower)
    } else {
        None
    }
}

impl PageLabelStyle {
    /// The style that a name stands for.
    pub fn from_name(name: &str) -> (r: Option<PageLabelStyle>)
        ensures
            r == style_named(name@),
    {
        if same_text(name, "D") {
            Some(PageLabelStyle::Decimal)
        } else if same_text(name, "R") {
            Some(PageLabelStyle::RomanUpper)
        } else if same_text(name, "r") {
            Some(PageLabelStyle::RomanLower)
        } else if same_text(name, "A") {
            Some(PageLabelStyle::AlphaUpper)
        } else if same_text(name, "a") {
            Some(PageLabelStyle::AlphaLower)
        } else {
            None
        }
    }
}

// ---------------------------------------------------------------- numbers

/// `n` copies of a character.
pub open spec fn repeated(c: char, n: int) -> Seq<char> {
    Seq::new(n as nat, |i: int| c)
}

/// A decimal digit in Roman form, with the letters for one, five and ten.
pub open spec fn roman_digit(d: int, one: char, five: char, ten: char) -> Seq<char> {
    if d == 9 {
        seq![one, ten]
    } else if d >= 5 {
        seq![five] + repeated(one, d - 5)
    } else if d == 4 {
        seq![one, five]
    } else {
        repeated(one, d)
    }
}

/// A number in Roman form: thousands, hundreds, tens and ones. A number below
/// one has none and is written in decimal.
pub open spec fn roman_text(n: int, upper: bool) -> Seq<char> {
    if n < 1 {
        dec(n)
    } else if upper {
        repeated('M', n / 1000) + roman_digit((n / 100) % 10, 'C', 'D', 'M') + roman_digit(
            (n / 10) % 10,
            'X',
            'L',
            'C',
        ) + roman_digit(n % 10, 'I', 'V', 'X')
    } else {
        repeated('m', n / 1000) + roman_digit((n / 100) % 10, 'c', 'd', 'm') + roman_digit(
            (n / 10) % 10,
            'x',
            'l',
            'c',
        ) + roman_digit(n % 10, 'i', 'v', 'x')
    }
}

/// A number in letters: A to Z, then AA to ZZ, and so on. A number below one
/// is written in decimal.
pub open spec fn alpha_text(n: int, base: u8) -> Seq<char> {
    if n < 1 {
        dec(n)
    } else {
        repeated(((base + (n - 1) % 26) as u8) as char, (n - 1) / 26 + 1)
    }
}

/// The number `n` in a style.
pub open spec fn number_text(style: PageLabelStyle, n: int) -> Seq<char> {
    match style {
        PageLabelStyle::Decimal => dec(n),
        PageLabelStyle::RomanUpper => roman_text(n, true),
        PageLabelStyle::RomanLower => roman_text(n, false),
        PageLabelStyle::AlphaUpper => alpha_text(n, 65),
        PageLabelStyle::AlphaLower => alpha_text(n, 97),
    }
}

/// Append `n` copies of a character.
fn push_repeated(out: &mut String, c: char, n: u64)
    ensures
        final(out)@ == old(out)@ + repeated(c, n as int),
{
    let mut k: u64 = 0;
    let ghost before = out@;
    while k < n
        invariant
            k <= n,
            out@ =~= before + repeated(c, k as int),
        decreases n - k,
    {
        out.push(c);
        k = k + 1;
    }
}

/// Append a decimal digit in Roman form.
fn push_roman_digit(out: &mut String, d: u64, one: char, five: char, ten: char)
    requires
        d < 10,
    ensures
        final(out)@ == old(out)@ + roman_digit(d as int, one, five, ten),
{
    let ghost before = out@;
    if d == 9 {
        out.push(one);
        out.push(ten);
    } else if d >= 5 {
        out.push(five);
        push_repeated(out, one, d - 5);
    } else if d == 4 {
        out.push(one);
        out.push(five);
    } else {
        push_repeated(out, one, d);
    }
    proof {
        assert(out@ =~= before + roman_digit(d as int, one, five, ten));
    }
}

/// A number in Roman form.
pub fn roman(value: i64, upper: bool) -> (r: String)
    ensures
        r@ == roman_text(value as int, upper),
{
    if value < 1 {
        return int_text(value);
    }
    let n: u64 = value as u64;
    let mut out: String = String::new();
    if upper {
        push_repeated(&mut out, 'M', n / 1000);
        push_roman_digit(&mut out, (n / 100) % 10, 'C', 'D', 'M');
        push_roman_digit(&mut out, (n / 10) % 10, 'X', 'L', 'C');
        push_roman_digit(&mut out, n % 10, 'I', 'V', 'X');
    } else {
        push_repeated(&mut out, 'm', n / 1000);
        push_roman_digit(&mut out, (n / 100) % 10, 'c', 'd', 'm');
        push_roman_digit(&mut out, (n / 10) % 10, 'x', 'l', 'c');
        push_roman_digit(&mut out, n % 10, 'i', 'v', 'x');
    }
    proof {
        assert(out@ =~= roman_text(value as int, upper));
    }
    out
}

/// A number in letters, from the letter `base` on.
pub fn alpha(value: i64, base: u8) -> (r: String)
    requires
        base <= 230,
    ensures
        r@ == alpha_text(value as int, base),
{
    if value < 1 {
        return int_text(value);
    }
    let n: u64 = value as u64 - 1;
    let letter: u8 = base + (n % 26) as u8;
    let mut out: String = String::new();
    push_repeated(&mut out, letter as char, n / 26 + 1);
    proof {
        assert(out@ =~= alpha_text(value as int, base));
    }
    out
}

/// The number `n` in a style.
pub fn numeric_portion(style: PageLabelStyle, value: i64) -> (r: String)
    ensures
        r@ == number_text(style, value as int),
{
    match style {
        PageLabelStyle::Decimal => int_text(value),
        PageLabelStyle::RomanUpper => roman(value, true),
        PageLabelStyle::RomanLower => roman(value, false),
        PageLabelStyle::AlphaUpper => alpha(value, 65),
        PageLabelStyle::AlphaLower => alpha(value, 97),
    }
}

// ----------------------------------------------------------------- ranges

/// A run of pages that are labelled alike.
#[derive(Debug, Clone, PartialEq)]
pub struct PageLabelRange {
    /// The index of its first page, from 0 on.
    pub start_index: i64,
    /// The form of the number; `None` where labels have none.
    pub style: Option<PageLabelStyle>,
    /// What every label begins with.
    pub prefix: String,
    /// The number of its first page.
    pub start_value: i64,
}

/// A run of pages as a mathematical value.
pub struct RangeV {
    pub start_index: i64,
    pub style: Option<PageLabelStyle>,
    pub prefix: Seq<char>,
    pub start_value: i64,
}

impl View for PageLabelRange {
    type V = RangeV;

    open spec fn view(&self) -> RangeV {
        RangeV {
            start_index: self.start_index,
            style: self.style,
            prefix: self.prefix@,
            start_value: self.start_value,
        }
    }
}

/// Runs of pages as mathematical values.
pub open spec fn ranges_view(s: Seq<PageLabelRange>) -> Seq<RangeV> {
    s.map_values(|r: PageLabelRange| r@)
}

impl RangeV {
    /// The label of the page `offset` pages into the run: the prefix, and the
    /// number if the run has a style.
    pub open spec fn label(self, offset: i64) -> Seq<char> {
        match self.style {
            Some(style) => self.prefix + number_text(
                style,
                crate::number::clamp_i64(self.start_value + offset) as int,
            ),
            None => self.prefix,
        }
    }
}

impl PageLabelRange {
    /// The label of the page `offset` pages into the run.
    pub fn label_at(&self, offset: i64) -> (r: String)
        ensures
            r@ == self@.label(offset),
    {
        match self.style {
            Some(style) => {
                let v: i64 = saturating_sum(self.start_value, offset);
                let n: String = numeric_portion(style, v);
                cat(self.prefix.clone(), n.as_str())
            },
            None => self.prefix.clone(),
        }
    }
}

/// The sum of two numbers, as near as the range allows.
fn saturating_sum(a: i64, b: i64) -> (r: i64)
    ensures
        r == crate::number::clamp_i64(a + b),
{
    match a.checked_add(b) {
        Some(v) => v,
        None => if b < 0 {
            i64::MIN
        } else {
            i64::MAX
        },
    }
}

/// The run that a label dictionary describes.
pub open spec fn range_of(start_index: i64, d: DictV) -> RangeV {
    RangeV {
        start_index,
        style: match dict_get(d, "S"@) {
            Some(ObjV::Name(n)) => style_named(n),
            _ => None,
        },
        prefix: match dict_get(d, "P"@) {
            Some(ObjV::LiteralString(b)) => text_of_bytes(b),
            Some(ObjV::HexString(b)) => text_of_bytes(b),
            _ => Seq::empty(),
        },
        start_value: match dict_integer(d, "St"@) {
            Some(n) => if n < 1 {
                1
            } else {
                n
            },
            None => 1,
        },
    }
}

fn range_from_dict(start_index: i64, d: &Dict) -> (r: PageLabelRange)
    ensures
        r@ == range_of(start_index, d@),
{
    let style: Option<PageLabelStyle> = match d.get("S") {
        Some(Object::Name(n)) => PageLabelStyle::from_name(n.as_str()),
        _ => None,
    };
    let prefix: String = match d.get("P") {
        Some(Object::LiteralString(b)) => decode_text_bytes(b.as_slice()),
        Some(Object::HexString(b)) => decode_text_bytes(b.as_slice()),
        _ => String::new(),
    };
    let start_value: i64 = match d.get("St") {
        Some(Object::Integer(n)) => if *n < 1 {
            1
        } else {
            *n
        },
        _ => 1,
    };
    PageLabelRange { start_index, style, prefix, start_value }
}

/// The runs with `r` at its place by first page; of two runs with the same
/// first page the earlier one stays.
pub open spec fn with_range(s: Seq<RangeV>, r: RangeV) -> Seq<RangeV>
    decreases s.len(),
{
    if s.len() == 0 || s.last().start_index < r.start_index {
        s.push(r)
    } else if s.last().start_index == r.start_index {
        s
    } else {
        with_range(s.drop_last(), r).push(s.last())
    }
}

/// The runs that the entries of a label tree from place `i` on describe,
/// added to the runs `s`. An entry for a page below 0, or whose value is no
/// dictionary, is left out.
pub open spec fn ranges_from(
    doc: DocV,
    entries: Seq<(i64, ObjV)>,
    i: int,
    s: Seq<RangeV>,
) -> Result<Seq<RangeV>, Seq<char>>
    decreases entries.len() - i,
{
    if i < 0 || i >= entries.len() {
        Ok(s)
    } else if entries[i].0 < 0 {
        ranges_from(doc, entries, i + 1, s)
    } else {
        match doc.deref(entries[i].1) {
            Err(e) => Err(e),
            Ok(ObjV::Dict(d)) => ranges_from(
                doc,
                entries,
                i + 1,
                with_range(s, range_of(entries[i].0, d)),
            ),
            Ok(_) => ranges_from(doc, entries, i + 1, s),
        }
    }
}

/// The label runs of a document; `None` where it has no labels.
pub open spec fn label_ranges(doc: DocV) -> Result<Option<Seq<RangeV>>, Seq<char>> {
    match doc.catalog() {
        Err(e) => Err(e),
        Ok(ObjV::Dict(catalog)) => match dict_get(catalog, "PageLabels"@) {
            None => Ok(None),
            Some(o) => match doc.deref(o) {
                Err(e) => Err(e),
                Ok(ObjV::Dict(root)) => match tree_entries::<i64>(doc, root, "Nums"@) {
                    Err(e) => Err(e),
                    Ok(entries) => match ranges_from(doc, entries, 0, Seq::empty()) {
                        Err(e) => Err(e),
                        Ok(s) => Ok(Some(s)),
                    },
                },
                Ok(_) => Ok(None),
            },
        },
        Ok(_) => Ok(None),
    }
}

/// Put a run at its place.
fn add_range(ranges: &mut Vec<PageLabelRange>, r: PageLabelRange)
    ensures
        ranges_view(final(ranges)@) == with_range(ranges_view(old(ranges)@), r@),
{
    let ghost before = ranges_view(ranges@);
    let n: usize = ranges.len();
    let mut p: usize = n;
    proof {
        assert(before.take(n as int) =~= before);
        assert(before.skip(n as int) =~= Seq::empty());
        assert(with_range(before, r@) + Seq::<RangeV>::empty() =~= with_range(before, r@));
    }
    while p > 0 && ranges[p - 1].start_index > r.start_index
        invariant
            p <= n,
            n == ranges@.len(),
            before == ranges_view(ranges@),
            with_range(before, r@) == with_range(before.take(p as int), r@) + before.skip(p as int),
        decreases p,
    {
        proof {
            let t = before.take(p as int);
            assert(t.last() == before[p - 1]);
            assert(t.drop_last() =~= before.take(p - 1));
            assert(before.skip(p - 1) =~= seq![before[p - 1]] + before.skip(p as int));
            let w = with_range(before.take(p - 1), r@);
            assert(w.push(before[p - 1]) + before.skip(p as int) =~= w + before.skip(p - 1));
        }
        p = p - 1;
    }
    if p > 0 && ranges[p - 1].start_index == r.start_index {
        proof {
            assert(before.take(p as int).last() == before[p - 1]);
            assert(before.take(p as int) + before.skip(p as int) =~= before);
        }
        return;
    }
    ranges.insert(p, r);
    proof {
        if p > 0 {
            assert(before.take(p as int).last() == before[p - 1]);
        }
        assert(ranges_view(ranges@) =~= before.take(p as int).push(r@) + before.skip(p as int));
    }
}

/// The label runs of a document by first page; `None` where it has no labels.
pub fn page_label_ranges(reader: &mut DocumentReader) -> (r: Result<
    Option<Vec<PageLabelRange>>,
    PdfError,
>)
    requires
        old(reader).wf(),
    ensures
        final(reader).wf(),
        final(reader).doc() == old(reader).doc(),
        match r {
            Ok(Some(v)) => label_ranges(old(reader).doc()) == Ok::<
                Option<Seq<RangeV>>,
                Seq<char>,
            >(Some(ranges_view(v@))),
            Ok(None) => label_ranges(old(reader).doc()) == Ok::<Option<Seq<RangeV>>, Seq<char>>(
                None,
            ),
            Err(e) => label_ranges(old(reader).doc()) == Err::<Option<Seq<RangeV>>, Seq<char>>(
                e@,
            ),
        },
{
    let ghost doc = reader.doc();
    let catalog: Dict = match reader.catalog() {
        Err(e) => {
            return Err(e);
        },
        Ok(Object::Dict(d)) => d,
        Ok(_) => {
            return Ok(None);
        },
    };
    let labels: Object = match catalog.get("PageLabels") {
        Some(o) => o.clone(),
        None => {
            return Ok(None);
        },
    };
    let root: Dict = match reader.deref(labels) {
        Err(e) => {
            return Err(e);
        },
        Ok(Object::Dict(d)) => d,
        Ok(_) => {
            return Ok(None);
        },
    };
    let entries: Vec<(i64, Object)> = match number_tree_entries(reader, &root) {
        Ok(v) => v,
        Err(e) => {
            return Err(e);
        },
    };
    let ghost view = entries_view(entries@);
    let ghost goal = ranges_from(doc, view, 0, Seq::empty());
    let mut ranges: Vec<PageLabelRange> = Vec::new();
    proof {
        assert(ranges_view(ranges@) =~= Seq::empty());
    }
    let mut i: usize = 0;
    while i < entries.len()
        invariant
            i <= entries@.len(),
            view == entries_view(entries@),
            reader.wf(),
            reader.doc() == doc,
            doc == old(reader).doc(),
            label_ranges(doc) == match goal {
                Ok(s) => Ok::<Option<Seq<RangeV>>, Seq<char>>(Some(s)),
                Err(e) => Err(e),
            },
            goal == ranges_from(doc, view, i as int, ranges_view(ranges@)),
        decreases entries.len() - i,
    {
        proof {
            assert(view[i as int] == (entries@[i as int].0@, entries@[i as int].1@));
        }
        let start: i64 = entries[i].0;
        if start >= 0 {
            match reader.deref(entries[i].1.clone()) {
                Err(e) => {
                    return Err(e);
                },
                Ok(Object::Dict(d)) => {
                    add_range(&mut ranges, range_from_dict(start, &d));
                },
                Ok(_) => {},
            }
        }
        i = i + 1;
    }
    Ok(Some(ranges))
}

// ----------------------------------------------------------------- labels

/// The first run from place `k` on that begins behind page `index`.
pub open spec fn first_beyond(ranges: Seq<RangeV>, index: int, k: int) -> int
    decreases ranges.len() - k,
{
    if k < 0 || k >= ranges.len() || ranges[k].start_index > index {
        k
    } else {
        first_beyond(ranges, index, k + 1)
    }
}

/// The label of page `index`: that of the run before the first one that
/// begins behind the page, or its place from 1 on where there is none.
pub open spec fn page_label(ranges: Seq<RangeV>, index: int) -> Seq<char> {
    let k = first_beyond(ranges, index, 0);
    if k == 0 {
        dec(index + 1)
    } else {
        ranges[k - 1].label((index - ranges[k - 1].start_index) as i64)
    }
}

/// The labels of `count` pages.
pub open spec fn all_labels(ranges: Seq<RangeV>, count: int) -> Seq<Seq<char>> {
    Seq::new(count as nat, |i: int| page_label(ranges, i))
}

/// The labels of `page_count` pages.
pub fn labels_for_pages(ranges: &Vec<PageLabelRange>, page_count: usize) -> (r: Vec<String>)
    requires
        page_count <= i64::MAX,
        forall|k: int|
            0 <= k < ranges@.len() ==> page_count - (#[trigger] ranges@[k]).start_index <= i64::MAX,
    ensures
        texts(r@) == all_labels(ranges_view(ranges@), page_count as int),
{
    let ghost view = ranges_view(ranges@);
    let mut out: Vec<String> = Vec::new();
    let mut next: usize = 0;
    let mut index: usize = 0;
    while index < page_count
        invariant
            page_count <= i64::MAX,
            forall|k: int|
                0 <= k < ranges@.len() ==> page_count - (#[trigger] ranges@[k]).start_index
                    <= i64::MAX,
            view == ranges_view(ranges@),
            index <= page_count,
            next <= ranges@.len(),
            forall|k: int| 0 <= k < next ==> (#[trigger] ranges@[k]).start_index <= index,
            out@.len() == index,
            forall|i: int| 0 <= i < index ==> (#[trigger] out@[i])@ == page_label(view, i),
        decreases page_count - index,
    {
        while next < ranges.len() && ranges[next].start_index <= index as i64
            invariant
                index < page_count <= i64::MAX,
                next <= ranges@.len(),
                forall|k: int| 0 <= k < next ==> (#[trigger] ranges@[k]).start_index <= index,
            decreases ranges.len() - next,
        {
            next = next + 1;
        }
        proof {
            lemma_first_beyond(view, index as int, 0, next as int);
        }
        if next == 0 {
            out.push(int_text(index as i64 + 1));
        } else {
            let r: &PageLabelRange = &ranges[next - 1];
            out.push(r.label_at(index as i64 - r.start_index));
        }
        index = index + 1;
    }
    proof {
        assert(texts(out@) =~= all_labels(view, page_count as int));
    }
    out
}

proof fn lemma_first_beyond(ranges: Seq<RangeV>, index: int, k: int, n: int)
    requires
        0 <= k <= n <= ranges.len(),
        forall|j: int| k <= j < n ==> (#[trigger] ranges[j]).start_index <= index,
        n < ranges.len() ==> ranges[n].start_index > index,
    ensures
        first_beyond(ranges, index, k) == n,
    decreases n - k,
{
    if k < n {
        lemma_first_beyond(ranges, index, k + 1, n);
    }
}

/// The labels of a document's pages; `None` where it has no labels.
pub open spec fn document_labels(doc: DocV) -> Result<Option<Seq<Seq<char>>>, Seq<char>> {
    match label_ranges(doc) {
        Err(e) => Err(e),
        Ok(None) => Ok(None),
        Ok(Some(ranges)) => match page_index(doc) {
            Err(e) => Err(e),
            Ok(map) => Ok(Some(all_labels(ranges, map.len() as int))),
        },
    }
}

/// The runs are in order of their first pages, which all differ and are 0 or
/// more.
pub open spec fn in_order(s: Seq<RangeV>) -> bool {
    &&& forall|i: int| 0 <= i < s.len() ==> (#[trigger] s[i]).start_index >= 0
    &&& forall|i: int, j: int|
        0 <= i < j < s.len() ==> (#[trigger] s[i]).start_index < (#[trigger] s[j]).start_index
}

/// The runs of a document are in order.
pub proof fn law_ranges_in_order(doc: DocV)
    ensures
        label_ranges(doc) matches Ok(Some(s)) ==> in_order(s),
{
    match doc.catalog() {
        Ok(ObjV::Dict(catalog)) => match dict_get(catalog, "PageLabels"@) {
            Some(o) => match doc.deref(o) {
                Ok(ObjV::Dict(root)) => match tree_entries::<i64>(doc, root, "Nums"@) {
                    Ok(entries) => {
                        lemma_ranges_in_order(doc, entries, 0, Seq::empty());
                    },
                    _ => {},
                },
                _ => {},
            },
            _ => {},
        },
        _ => {},
    }
}

proof fn lemma_ranges_in_order(doc: DocV, entries: Seq<(i64, ObjV)>, i: int, s: Seq<RangeV>)
    requires
        in_order(s),
    ensures
        ranges_from(doc, entries, i, s) matches Ok(t) ==> in_order(t),
    decreases entries.len() - i,
{
    if 0 <= i < entries.len() {
        if entries[i].0 < 0 {
            lemma_ranges_in_order(doc, entries, i + 1, s);
        } else {
            match doc.deref(entries[i].1) {
                Ok(ObjV::Dict(d)) => {
                    let r = range_of(entries[i].0, d);
                    lemma_with_range(s, r);
                    lemma_ranges_in_order(doc, entries, i + 1, with_range(s, r));
                },
                Ok(_) => {
                    lemma_ranges_in_order(doc, entries, i + 1, s);
                },
                _ => {},
            }
        }
    }
}

/// A run that is added stands at its place, and the others stay.
proof fn lemma_with_range(s: Seq<RangeV>, r: RangeV)
    requires
        in_order(s),
        r.start_index >= 0,
    ensures
        in_order(with_range(s, r)),
        forall|x: RangeV|
            #[trigger] with_range(s, r).contains(x) ==> x == r || s.contains(x),
    decreases s.len(),
{
    if s.len() == 0 || s.last().start_index < r.start_index {
        assert forall|x: RangeV| #[trigger] s.push(r).contains(x) implies x == r || s.contains(
            x,
        ) by {
            let k = choose|k: int| 0 <= k < s.push(r).len() && s.push(r)[k] == x;
            if k < s.len() {
                assert(s[k] == x);
            }
        }
        assert forall|i: int, j: int| 0 <= i < j < s.push(r).len() implies (
        #[trigger] s.push(r)[i]).start_index < (#[trigger] s.push(r)[j]).start_index by {
            if j == s.len() && i < s.len() - 1 {
                assert(s[i].start_index < s[s.len() - 1].start_index);
            }
        }
    } else if s.last().start_index > r.start_index {
        let t = s.drop_last();
        lemma_with_range(t, r);
        let w = with_range(t, r);
        let z = w.push(s.last());
        assert forall|i: int| 0 <= i < w.len() implies (#[trigger] w[i]).start_index
            < s.last().start_index by {
            assert(w.contains(w[i]));
            if w[i] != r {
                let k = choose|k: int| 0 <= k < t.len() && t[k] == w[i];
                assert(s[k].start_index < s[s.len() - 1].start_index);
            }
        }
        assert forall|x: RangeV| #[trigger] z.contains(x) implies x == r || s.contains(x) by {
            let k = choose|k: int| 0 <= k < z.len() && z[k] == x;
            if k < w.len() {
                assert(w.contains(x));
                if x != r {
                    let m = choose|m: int| 0 <= m < t.len() && t[m] == x;
                    assert(s[m] == x);
                }
            } else {
                assert(s[s.len() - 1] == x);
            }
        }
    }
}

/// A run labels its first page with its first number.
pub proof fn law_first_page_of_range(ranges: Seq<RangeV>, k: int)
    requires
        in_order(ranges),
        0 <= k < ranges.len(),
    ensures
        page_label(ranges, ranges[k].start_index as int) == ranges[k].label(0),
{
    let index = ranges[k].start_index as int;
    assert forall|j: int| 0 <= j < k + 1 implies (#[trigger] ranges[j]).start_index <= index by {
        if j < k {
            assert(ranges[j].start_index < ranges[k].start_index);
        }
    }
    if k + 1 < ranges.len() {
        assert(ranges[k].start_index < ranges[k + 1].start_index);
    }
    lemma_first_beyond(ranges, index, 0, k + 1);
}

/// Pages before the first run, or in a document whose runs are all empty, are
/// labelled with their places from 1 on.
pub proof fn law_unlabelled_pages(ranges: Seq<RangeV>, index: int)
    requires
        ranges.len() == 0 || ranges[0].start_index > index,
    ensures
        page_label(ranges, index) == dec(index + 1),
{
}

/// No more numbers than 32 bits can tell apart.
proof fn lemma_u32_keys(m: Map<u32, usize>)
    requires
        m.dom().finite(),
    ensures
        m.len() <= 0x1_0000_0000,
{
    let s = m.dom();
    let f = |k: u32| k as int;
    let t = s.map(f);
    let all = vstd::set_lib::set_int_range(0, 0x1_0000_0000);
    vstd::set_lib::lemma_int_range(0, 0x1_0000_0000);
    assert(vstd::relations::injective_on(f, s));
    vstd::set_lib::lemma_map_size(s, t, f);
    assert(t.subset_of(all));
    vstd::set_lib::lemma_len_subset(t, all);
}

proof fn lemma_index_finite(pages: Seq<u32>)
    ensures
        index_of_pages(pages).dom().finite(),
    decreases pages.len(),
{
    if pages.len() > 0 {
        lemma_index_finite(pages.drop_last());
    }
}

/// The labels of a document's pages, one for each; `None` where it has no
/// labels.
pub fn page_labels(reader: &mut DocumentReader) -> (r: Result<Option<Vec<String>>, PdfError>)
    requires
        old(reader).wf(),
    ensures
        final(reader).wf(),
        final(reader).doc() == old(reader).doc(),
        match r {
            Ok(Some(v)) => document_labels(old(reader).doc()) == Ok::<
                Option<Seq<Seq<char>>>,
                Seq<char>,
            >(Some(texts(v@))),
            Ok(None) => document_labels(old(reader).doc()) == Ok::<
                Option<Seq<Seq<char>>>,
                Seq<char>,
            >(None),
            Err(e) => document_labels(old(reader).doc()) == Err::<
                Option<Seq<Seq<char>>>,
                Seq<char>,
            >(e@),
        },
{
    let ranges: Vec<PageLabelRange> = match page_label_ranges(reader) {
        Err(e) => {
            return Err(e);
        },
        Ok(None) => {
            return Ok(None);
        },
        Ok(Some(v)) => v,
    };
    let map: HashMap<u32, usize> = match build_page_index_map(reader) {
        Err(e) => {
            return Err(e);
        },
        Ok(m) => m,
    };
    let count: usize = map.len();
    proof {
        law_ranges_in_order(reader.doc());
        lemma_index_finite(listed_pages(reader.doc())->Ok_0);
        lemma_u32_keys(map@);
        assert forall|k: int| 0 <= k < ranges@.len() implies count - (
        #[trigger] ranges@[k]).start_index <= i64::MAX by {
            assert(ranges_view(ranges@)[k].start_index >= 0);
        }
    }
    Ok(Some(labels_for_pages(&ranges, count)))
}

/// The labels of a document's pages by page index; `None` where it has no
/// labels.
pub fn page_label_map(reader: &mut DocumentReader) -> (r: Result<
    Option<HashMap<usize, String>>,
    PdfError,
>)
    requires
        old(reader).wf(),
    ensures
        final(reader).wf(),
        final(reader).doc() == old(reader).doc(),
        match r {
            Ok(Some(m)) => document_labels(old(reader).doc()) matches Ok(Some(labels)) && (forall|
                i: usize,
            |
                #[trigger] m@.contains_key(i) <==> i < labels.len()) && (forall|i: usize|
                m@.contains_key(i) ==> (#[trigger] m@[i])@ == labels[i as int]),
            Ok(None) => document_labels(old(reader).doc()) == Ok::<
                Option<Seq<Seq<char>>>,
                Seq<char>,
            >(None),
            Err(e) => document_labels(old(reader).doc()) == Err::<
                Option<Seq<Seq<char>>>,
                Seq<char>,
            >(e@),
        },
{
    let labels: Vec<String> = match page_labels(reader) {
        Err(e) => {
            return Err(e);
        },
        Ok(None) => {
            return Ok(None);
        },
        Ok(Some(v)) => v,
    };
    let ghost view = texts(labels@);
    let mut map: HashMap<usize, String> = HashMap::new();
    let mut i: usize = 0;
    while i < labels.len()
        invariant
            i <= labels@.len(),
            view == texts(labels@),
            forall|k: usize| #[trigger] map@.contains_key(k) <==> k < i,
            forall|k: usize| map@.contains_key(k) ==> (#[trigger] map@[k])@ == view[k as int],
        decreases labels.len() - i,
    {
        map.insert(i, labels[i].clone());
        i = i + 1;
    }
    Ok(Some(map))
}

} // verus!
