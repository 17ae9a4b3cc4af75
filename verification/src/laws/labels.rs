//! Laws of page labels: how numbers are written, and which run a page is in.

use vstd::prelude::*;
use crate::document::DocV;
use crate::nametree::tree_entries;
use crate::pages::page_index;
use crate::objects::{dict_get, DictV, ObjV};
use crate::page_labels::{
    alpha_text, document_labels, first_beyond, in_order, label_ranges, number_text, page_label, range_of, ranges_from, repeated,
    roman_text, style_named, with_range, PageLabelStyle, RangeV,
};
use crate::text::{dec, dec_nat};
use crate::textstring::text_of_bytes;

verus! {

// ----------------------------------------------------------------- numbers

/// The number that decimal digits stand for.
pub open spec fn digits_value(t: Seq<char>) -> int
    decreases t.len(),
{
    if t.len() == 0 {
        0
    } else {
        10 * digits_value(t.drop_last()) + (t.last() as int - 0x30)
    }
}

/// Decimal digits alone.
pub open spec fn all_digits(t: Seq<char>) -> bool {
    forall|i: int| 0 <= i < t.len() ==> 0x30 <= #[trigger] t[i] as int <= 0x39
}

/// A number is written in digits that stand for it, without a zero in front; one
/// below zero has a minus sign.
#[verifier::rlimit(50)]
pub proof fn law_decimal(n: nat)
    ensures
        dec(n as int) == dec_nat(n),
        n > 0 ==> dec(-(n as int)) == seq!['-'] + dec_nat(n),
        digits_value(dec_nat(n)) == n,
        all_digits(dec_nat(n)),
        dec_nat(n).len() > 0,
        n > 0 ==> dec_nat(n)[0] as int != 0x30,
        n == 0 ==> dec_nat(n).len() == 1,
    decreases n,
{
    if n >= 10 {
        law_decimal(n / 10);
        assert(dec_nat(n).drop_last() =~= dec_nat(n / 10));
        assert(dec_nat(n).last() as int == 0x30 + n % 10);
        assert(10 * (n / 10) + n % 10 == n);
    } else {
        assert(dec_nat(n).drop_last() =~= Seq::empty());
        assert(dec_nat(n).last() as int == 0x30 + n);
        assert(digits_value(dec_nat(n).drop_last()) == 0);
    }
}

/// The digits from 0 to 9 in Roman form, with the letters for one, five and ten.
#[verifier::opaque]
pub open spec fn roman_table(i: char, v: char, x: char) -> Seq<Seq<char>> {
    seq![
        seq![],
        seq![i],
        seq![i, i],
        seq![i, i, i],
        seq![i, v],
        seq![v],
        seq![v, i],
        seq![v, i, i],
        seq![v, i, i, i],
        seq![i, x],
    ]
}

proof fn lemma_roman_digit(d: int, i: char, v: char, x: char)
    requires
        0 <= d <= 9,
    ensures
        crate::page_labels::roman_digit(d, i, v, x) == roman_table(i, v, x)[d],
{
    reveal(roman_table);
    assert(crate::page_labels::roman_digit(d, i, v, x) =~= roman_table(i, v, x)[d]);
}

#[verifier::rlimit(50)]
proof fn lemma_thousands(m: nat, c: int, x: int, i: int)
    requires
        0 <= c <= 9,
        0 <= x <= 9,
        0 <= i <= 9,
    ensures
        ({
            let n = 1000 * m + 100 * c + 10 * x + i;
            n / 1000 == m && (n / 100) % 10 == c && (n / 10) % 10 == x && n % 10 == i
        }),
{
    let n = 1000 * m + 100 * c + 10 * x + i;
    assert(n / 1000 == m);
    assert(n / 100 == 10 * m + c);
    assert(n / 10 == 100 * m + 10 * c + x);
}

/// A number is written in Roman form as its thousands, hundreds, tens and ones; zero
/// and numbers below it are written in decimal.
#[verifier::rlimit(50)]
pub proof fn law_roman(m: nat, c: int, x: int, i: int)
    requires
        0 <= c <= 9,
        0 <= x <= 9,
        0 <= i <= 9,
        1000 * m + 100 * c + 10 * x + i > 0,
    ensures
        roman_text(1000 * m + 100 * c + 10 * x + i, true) == Seq::new(m, |k: int| 'M')
            + roman_table('C', 'D', 'M')[c] + roman_table('X', 'L', 'C')[x] + roman_table(
            'I',
            'V',
            'X',
        )[i],
        roman_text(1000 * m + 100 * c + 10 * x + i, false) == Seq::new(m, |k: int| 'm')
            + roman_table('c', 'd', 'm')[c] + roman_table('x', 'l', 'c')[x] + roman_table(
            'i',
            'v',
            'x',
        )[i],
{
    lemma_thousands(m, c, x, i);
    let n = 1000 * m + 100 * c + 10 * x + i;
    assert(n >= 1);
    lemma_roman_digit(c, 'C', 'D', 'M');
    lemma_roman_digit(x, 'X', 'L', 'C');
    lemma_roman_digit(i, 'I', 'V', 'X');
    lemma_roman_digit(c, 'c', 'd', 'm');
    lemma_roman_digit(x, 'x', 'l', 'c');
    lemma_roman_digit(i, 'i', 'v', 'x');
    assert(repeated('M', m as int) =~= Seq::new(m, |k: int| 'M'));
    assert(repeated('m', m as int) =~= Seq::new(m, |k: int| 'm'));
}

/// Letters number from A to Z, then from AA to ZZ, and so on.
#[verifier::rlimit(50)]
pub proof fn law_letters(k: nat, j: int)
    requires
        0 <= j < 26,
    ensures
        number_text(PageLabelStyle::AlphaUpper, 26 * k + j + 1).len() == k + 1,
        forall|i: int|
            0 <= i <= k ==> #[trigger] number_text(
                PageLabelStyle::AlphaUpper,
                26 * k + j + 1,
            )[i] as int == 0x41 + j,
        number_text(PageLabelStyle::AlphaLower, 26 * k + j + 1).len() == k + 1,
        forall|i: int|
            0 <= i <= k ==> #[trigger] number_text(
                PageLabelStyle::AlphaLower,
                26 * k + j + 1,
            )[i] as int == 0x61 + j,
{
    let n = 26 * k + j + 1;
    assert((n - 1) % 26 == j && (n - 1) / 26 == k);
}

/// The styles by their names, and the form of each.
pub proof fn law_styles(n: int, name: Seq<char>)
    ensures
        style_named(seq!['D']) == Some(PageLabelStyle::Decimal),
        style_named(seq!['R']) == Some(PageLabelStyle::RomanUpper),
        style_named(seq!['r']) == Some(PageLabelStyle::RomanLower),
        style_named(seq!['A']) == Some(PageLabelStyle::AlphaUpper),
        style_named(seq!['a']) == Some(PageLabelStyle::AlphaLower),
        name.len() != 1 ==> style_named(name) is None,
        number_text(PageLabelStyle::Decimal, n) == dec(n),
        number_text(PageLabelStyle::RomanUpper, n) == roman_text(n, true),
        number_text(PageLabelStyle::RomanLower, n) == roman_text(n, false),
        n < 1 ==> roman_text(n, true) == dec(n) && roman_text(n, false) == dec(n) && alpha_text(
            n,
            65,
        ) == dec(n) && alpha_text(n, 97) == dec(n),
{
    reveal_strlit("D");
    reveal_strlit("R");
    reveal_strlit("r");
    reveal_strlit("A");
    reveal_strlit("a");
    assert("D"@ =~= seq!['D'] && "R"@ =~= seq!['R'] && "r"@ =~= seq!['r'] && "A"@ =~= seq!['A']
        && "a"@ =~= seq!['a']);
    assert(seq!['D'][0] == 'D' && seq!['R'][0] == 'R' && seq!['r'][0] == 'r' && seq!['A'][0] == 'A'
        && seq!['a'][0] == 'a');
}

// -------------------------------------------------------------------- runs

/// A run has its style, its prefix and its first number from its dictionary; the
/// first number is 1 where it is not given or below 1.
pub proof fn law_range_entries(start: i64, d: DictV, b: Seq<u8>, n: i64, style: PageLabelStyle)
    ensures
        range_of(start, d).start_index == start,
        style == PageLabelStyle::Decimal && dict_get(d, "S"@) == Some(ObjV::Name(seq!['D']))
            ==> range_of(start, d).style == Some(style),
        style == PageLabelStyle::RomanUpper && dict_get(d, "S"@) == Some(ObjV::Name(seq!['R']))
            ==> range_of(start, d).style == Some(style),
        style == PageLabelStyle::RomanLower && dict_get(d, "S"@) == Some(ObjV::Name(seq!['r']))
            ==> range_of(start, d).style == Some(style),
        style == PageLabelStyle::AlphaUpper && dict_get(d, "S"@) == Some(ObjV::Name(seq!['A']))
            ==> range_of(start, d).style == Some(style),
        style == PageLabelStyle::AlphaLower && dict_get(d, "S"@) == Some(ObjV::Name(seq!['a']))
            ==> range_of(start, d).style == Some(style),
        dict_get(d, "S"@) is None ==> range_of(start, d).style is None,
        dict_get(d, "P"@) == Some(ObjV::LiteralString(b)) || dict_get(d, "P"@) == Some(
            ObjV::HexString(b),
        ) ==> range_of(start, d).prefix == text_of_bytes(b),
        dict_get(d, "P"@) is None ==> range_of(start, d).prefix.len() == 0,
        dict_get(d, "St"@) == Some(ObjV::Integer(n)) && n >= 1 ==> range_of(start, d).start_value
            == n,
        dict_get(d, "St"@) == Some(ObjV::Integer(n)) && n < 1 ==> range_of(start, d).start_value
            == 1,
        dict_get(d, "St"@) is None ==> range_of(start, d).start_value == 1,
{
    law_styles(0, seq![]);
}

proof fn lemma_beyond(ranges: Seq<RangeV>, index: int, k: int, j: int)
    requires
        in_order(ranges),
        0 <= j <= k + 1 <= ranges.len(),
        ranges[k].start_index <= index,
        k + 1 < ranges.len() ==> index < ranges[k + 1].start_index,
        k >= 0,
    ensures
        first_beyond(ranges, index, j) == k + 1,
    decreases k + 1 - j,
{
    if j <= k {
        assert(ranges[j].start_index <= ranges[k].start_index);
        lemma_beyond(ranges, index, k, j + 1);
    }
}

/// A page is labelled by the last run that begins at or before it: with the prefix
/// of the run and the number that counts on from its first.
pub proof fn law_label(ranges: Seq<RangeV>, k: int, index: int)
    requires
        in_order(ranges),
        0 <= k < ranges.len(),
        ranges[k].start_index <= index,
        k + 1 < ranges.len() ==> index < ranges[k + 1].start_index,
        index <= i64::MAX,
        ranges[k].start_value + index - ranges[k].start_index <= i64::MAX,
        ranges[k].start_value >= 1,
    ensures
        ranges[k].style matches Some(style) ==> page_label(ranges, index) == ranges[k].prefix
            + number_text(style, ranges[k].start_value + (index - ranges[k].start_index)),
        ranges[k].style is None ==> page_label(ranges, index) == ranges[k].prefix,
{
    lemma_beyond(ranges, index, k, 0);
}

/// The runs of entries in order of their pages are the runs that the entries
/// describe, one by one.
pub proof fn law_runs(doc: DocV, entries: Seq<(i64, ObjV)>, dicts: Seq<DictV>, n: int)
    requires
        entries.len() == dicts.len(),
        0 <= n <= entries.len(),
        forall|i: int|
            0 <= i < entries.len() ==> (#[trigger] entries[i]).0 >= 0 && doc.deref(entries[i].1)
                == Ok::<ObjV, Seq<char>>(ObjV::Dict(dicts[i])),
        forall|i: int, j: int|
            0 <= i < j < entries.len() ==> (#[trigger] entries[i]).0 < (#[trigger] entries[j]).0,
    ensures
        ranges_from(
            doc,
            entries,
            n,
            Seq::new(n as nat, |i: int| range_of(entries[i].0, dicts[i])),
        ) == Ok::<Seq<RangeV>, Seq<char>>(
            Seq::new(entries.len(), |i: int| range_of(entries[i].0, dicts[i])),
        ),
    decreases entries.len() - n,
{
    let here = Seq::new(n as nat, |i: int| range_of(entries[i].0, dicts[i]));
    if n < entries.len() {
        assert(entries[n].0 >= 0);
        let r = range_of(entries[n].0, dicts[n]);
        if n > 0 {
            assert(here.last() == range_of(entries[n - 1].0, dicts[n - 1]));
            assert(entries[n - 1].0 < entries[n].0);
        }
        assert(with_range(here, r) == here.push(r));
        assert(here.push(r) =~= Seq::new(
            (n + 1) as nat,
            |i: int| range_of(entries[i].0, dicts[i]),
        ));
        law_runs(doc, entries, dicts, n + 1);
    } else {
        assert(here =~= Seq::new(entries.len(), |i: int| range_of(entries[i].0, dicts[i])));
    }
}

/// A run is put in its place by its first page: before it stand the runs that begin
/// before it, behind it those that begin behind it. Of two runs with one first page
/// the earlier stays.
pub proof fn law_run_in_place(a: Seq<RangeV>, b: Seq<RangeV>, r: RangeV, old_run: RangeV)
    requires
        forall|i: int| 0 <= i < a.len() ==> (#[trigger] a[i]).start_index < r.start_index,
        forall|i: int| 0 <= i < b.len() ==> (#[trigger] b[i]).start_index > r.start_index,
        old_run.start_index == r.start_index,
    ensures
        with_range(a + b, r) == a.push(r) + b,
        with_range(a.push(old_run) + b, r) == a.push(old_run) + b,
    decreases b.len(),
{
    let t = a + b;
    let u = a.push(old_run) + b;
    if b.len() == 0 {
        assert(t =~= a);
        assert(u =~= a.push(old_run));
        assert(a.push(r) + b =~= a.push(r));
    } else {
        let c = b.drop_last();
        assert(t.drop_last() =~= a + c);
        assert(u.drop_last() =~= a.push(old_run) + c);
        assert(t.last() == b.last() && u.last() == b.last());
        assert(b[b.len() - 1].start_index > r.start_index);
        assert forall|i: int| 0 <= i < c.len() implies (#[trigger] c[i]).start_index
            > r.start_index by {
            assert(c[i] == b[i]);
        }
        law_run_in_place(a, c, r, old_run);
        assert((a.push(r) + c).push(b.last()) =~= a.push(r) + b);
        assert((a.push(old_run) + c).push(b.last()) =~= u);
    }
}

/// The labels of a document come from its label tree, which may be referred to: one
/// for each page that is listed.
pub proof fn law_document_labels(
    doc: DocV,
    catalog: DictV,
    o: ObjV,
    root: DictV,
    entries: Seq<(i64, ObjV)>,
    ranges: Seq<RangeV>,
    pages: Map<u32, usize>,
)
    requires
        doc.catalog() == Ok::<ObjV, Seq<char>>(ObjV::Dict(catalog)),
        dict_get(catalog, "PageLabels"@) == Some(o),
        doc.deref(o) == Ok::<ObjV, Seq<char>>(ObjV::Dict(root)),
        tree_entries::<i64>(doc, root, "Nums"@) == Ok::<Seq<(i64, ObjV)>, Seq<char>>(entries),
        ranges_from(doc, entries, 0, Seq::empty()) == Ok::<Seq<RangeV>, Seq<char>>(ranges),
        page_index(doc) == Ok::<Map<u32, usize>, Seq<char>>(pages),
    ensures
        label_ranges(doc) == Ok::<Option<Seq<RangeV>>, Seq<char>>(Some(ranges)),
        document_labels(doc) matches Ok(Some(labels)) && labels.len() == pages.len() && forall|
            i: int,
        |
            0 <= i < labels.len() ==> #[trigger] labels[i] == page_label(ranges, i),
{
}

/// A document without `/PageLabels` has no labels.
pub proof fn law_no_labels(doc: DocV, catalog: DictV)
    requires
        doc.catalog() == Ok::<ObjV, Seq<char>>(ObjV::Dict(catalog)),
        dict_get(catalog, "PageLabels"@) is None,
    ensures
        document_labels(doc) == Ok::<Option<Seq<Seq<char>>>, Seq<char>>(None),
{
}

} // verus!
