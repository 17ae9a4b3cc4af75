//! Laws of text: strings that stand for text, dates, and what a document says of
//! itself.

use vstd::prelude::*;
use crate::document::DocV;
use crate::info::{
    date_of, document_info, info_among, info_of, is_white, keywords_of, pair_pos, pair_set,
    trimmed, with_entry, InfoV,
};
use crate::objects::{distinct_keys, DictV, ObjV};
use crate::text::{char_of, has_code, utf16_from, utf16_text, utf8_lossy};
use crate::textstring::{info_text, iso_date, iso_digits, text_of_bytes, units_behind_bom};

verus! {

// ------------------------------------------------------------------ UTF-16

/// A character in UTF-16.
pub open spec fn units_of(c: char) -> Seq<u16> {
    let n = c as int;
    if n < 0x10000 {
        seq![n as u16]
    } else {
        seq![(0xD800 + (n - 0x10000) / 0x400) as u16, (0xDC00 + (n - 0x10000) % 0x400) as u16]
    }
}

/// Text in UTF-16.
pub open spec fn text_units(t: Seq<char>) -> Seq<u16>
    decreases t.len(),
{
    if t.len() == 0 {
        Seq::empty()
    } else {
        units_of(t[0]) + text_units(t.skip(1))
    }
}

/// Units in bytes, the high one first, behind a byte order mark.
pub open spec fn marked_bytes(u: Seq<u16>) -> Seq<u8> {
    Seq::new(
        2 * u.len() + 2,
        |i: int|
            if i == 0 {
                0xFEu8
            } else if i == 1 {
                0xFFu8
            } else if i % 2 == 0 {
                (u[i / 2 - 1] / 256) as u8
            } else {
                (u[i / 2 - 1] % 256) as u8
            },
    )
}

proof fn lemma_char(c: char)
    ensures
        char_of(c as int) == c,
        !(0xD800 <= c as int <= 0xDFFF),
        0 <= (c as int) && (c as int) < 0x110000,
{
    assert(has_code(c, c as int));
    let d = char_of(c as int);
    assert(has_code(d, c as int));
    assert(c as u32 == d as u32);
}

proof fn lemma_utf16(all: Seq<u16>, i: int, t: Seq<char>)
    requires
        0 <= i <= all.len(),
        all.skip(i) == text_units(t),
    ensures
        utf16_from(all, i) == t,
    decreases t.len(),
{
    if t.len() == 0 {
        assert(all.skip(i).len() == 0);
        assert(utf16_from(all, i) =~= t);
    } else {
        let c = t[0];
        let u = units_of(c);
        let rest = text_units(t.skip(1));
        lemma_char(c);
        assert(all.skip(i)[0] == u[0]);
        assert(all[i] == u[0]);
        assert(all.skip(i + u.len()) =~= (u + rest).skip(u.len() as int));
        assert((u + rest).skip(u.len() as int) =~= rest);
        lemma_utf16(all, i + u.len(), t.skip(1));
        if c as int >= 0x10000 {
            assert(all.skip(i)[1] == u[1]);
            assert(all[i + 1] == u[1]);
        }
        assert(seq![c] + t.skip(1) =~= t);
    }
}

/// Text in UTF-16 behind a byte order mark is read back, whatever characters it
/// holds.
pub proof fn law_utf16_round_trip(t: Seq<char>)
    ensures
        text_of_bytes(marked_bytes(text_units(t))) == t,
        info_text(ObjV::HexString(marked_bytes(text_units(t)))) == Some(t),
{
    let u = text_units(t);
    let b = marked_bytes(u);
    assert forall|i: int| 0 <= i < u.len() implies units_behind_bom(b)[i] == #[trigger] u[i] by {
        assert(b[2 + 2 * i] == (u[i] / 256) as u8);
        assert(b[3 + 2 * i] == (u[i] % 256) as u8);
    }
    assert(units_behind_bom(b) =~= u);
    assert(u.skip(0) =~= u);
    lemma_utf16(u, 0, t);
}

/// Half of a pair without the other half is U+FFFD.
pub proof fn law_lone_half(u: u16, more: Seq<u16>)
    requires
        0xD800 <= u <= 0xDFFF,
        more.len() == 0 || !(0xDC00 <= more[0] <= 0xDFFF),
    ensures
        utf16_text(seq![u] + more) == seq![char_of(0xFFFD)] + utf16_text(more),
        char_of(0xFFFD) as int == 0xFFFD,
{
    let all = seq![u] + more;
    assert(all[0] == u);
    if more.len() > 0 {
        assert(all[1] == more[0]);
    }
    lemma_shifted(u, more, 0);
    let c = '\u{FFFD}';
    assert(has_code(c, 0xFFFD));
    lemma_char(c);
}

proof fn lemma_shifted(u: u16, more: Seq<u16>, i: int)
    requires
        0 <= i,
    ensures
        utf16_from(seq![u] + more, i + 1) == utf16_from(more, i),
    decreases more.len() - i,
{
    let all = seq![u] + more;
    if i < more.len() {
        assert(all[i + 1] == more[i]);
        if i + 1 < more.len() {
            assert(all[i + 2] == more[i + 1]);
            lemma_shifted(u, more, i + 2);
        }
        lemma_shifted(u, more, i + 1);
    }
}

/// Without a byte order mark bytes are UTF-8; a string in parentheses always is, and
/// what is no string is no text.
pub proof fn law_plain_text(b: Seq<u8>, o: ObjV)
    ensures
        b.len() < 2 || b[0] != 0xFE || b[1] != 0xFF ==> text_of_bytes(b) == utf8_lossy(b),
        info_text(ObjV::LiteralString(b)) == Some(utf8_lossy(b)),
        !(o is LiteralString) && !(o is HexString) ==> info_text(o) is None,
{
}

// ------------------------------------------------------------------- dates

/// A date without its zone: year, month, day, hour, minute and second, each in
/// digits.
pub open spec fn date_written(
    y: Seq<u8>,
    mo: Seq<u8>,
    d: Seq<u8>,
    h: Seq<u8>,
    mi: Seq<u8>,
    s: Seq<u8>,
) -> Seq<u8> {
    seq![0x44u8, 0x3A] + y + mo + d + h + mi + s
}

/// The same in ISO 8601.
pub open spec fn date_read(
    y: Seq<u8>,
    mo: Seq<u8>,
    d: Seq<u8>,
    h: Seq<u8>,
    mi: Seq<u8>,
    s: Seq<u8>,
) -> Seq<char> {
    utf8_lossy(y) + "-"@ + utf8_lossy(mo) + "-"@ + utf8_lossy(d) + "T"@ + utf8_lossy(h) + ":"@
        + utf8_lossy(mi) + ":"@ + utf8_lossy(s)
}

proof fn lemma_date_parts(
    y: Seq<u8>,
    mo: Seq<u8>,
    d: Seq<u8>,
    h: Seq<u8>,
    mi: Seq<u8>,
    s: Seq<u8>,
    zone: Seq<u8>,
)
    requires
        y.len() == 4,
        mo.len() == 2,
        d.len() == 2,
        h.len() == 2,
        mi.len() == 2,
        s.len() == 2,
    ensures
        ({
            let w = date_written(y, mo, d, h, mi, s) + zone;
            iso_digits(w) == date_read(y, mo, d, h, mi, s)
        }),
{
    let w = date_written(y, mo, d, h, mi, s) + zone;
    assert(w.subrange(2, 6) =~= y);
    assert(w.subrange(6, 8) =~= mo);
    assert(w.subrange(8, 10) =~= d);
    assert(w.subrange(10, 12) =~= h);
    assert(w.subrange(12, 14) =~= mi);
    assert(w.subrange(14, 16) =~= s);
}

/// A full date is read field by field, and its zone with it: none, `Z`, or a sign
/// with hours and, behind an apostrophe, minutes.
#[verifier::rlimit(50)]
pub proof fn law_full_date(
    text: Seq<char>,
    y: Seq<u8>,
    mo: Seq<u8>,
    d: Seq<u8>,
    h: Seq<u8>,
    mi: Seq<u8>,
    s: Seq<u8>,
    zh: Seq<u8>,
    zm: Seq<u8>,
    end: Seq<u8>,
)
    requires
        y.len() == 4,
        mo.len() == 2,
        d.len() == 2,
        h.len() == 2,
        mi.len() == 2,
        s.len() == 2,
        zh.len() == 2,
        zm.len() == 2,
    ensures
        ({
            let w = date_written(y, mo, d, h, mi, s);
            let r = date_read(y, mo, d, h, mi, s);
            &&& iso_date(text, w) == r
            &&& iso_date(text, w + seq![0x5Au8]) == r + "Z"@
            &&& iso_date(text, w + (seq![0x2Bu8] + zh)) == r + ("+"@ + utf8_lossy(zh))
            &&& iso_date(text, w + (seq![0x2Du8] + zh)) == r + ("-"@ + utf8_lossy(zh))
            &&& iso_date(text, w + (seq![0x2Bu8] + zh + seq![0x27u8] + zm + end)) == r + ("+"@
                + utf8_lossy(zh) + ":"@ + utf8_lossy(zm))
            &&& iso_date(text, w + (seq![0x2Du8] + zh + seq![0x27u8] + zm + end)) == r + ("-"@
                + utf8_lossy(zh) + ":"@ + utf8_lossy(zm))
        }),
{
    let w = date_written(y, mo, d, h, mi, s);
    let r = date_read(y, mo, d, h, mi, s);
    assert(w[0] == 0x44 && w[1] == 0x3A && w.len() == 16);
    reveal_strlit("");
    assert(w + Seq::<u8>::empty() =~= w);
    lemma_date_parts(y, mo, d, h, mi, s, Seq::empty());
    assert(r + ""@ =~= r);
    let z = seq![0x5Au8];
    lemma_date_parts(y, mo, d, h, mi, s, z);
    assert((w + z)[16] == 0x5A);
    lemma_zone(text, w, r, y, mo, d, h, mi, s, zh, zm, end, 0x2B);
    lemma_zone(text, w, r, y, mo, d, h, mi, s, zh, zm, end, 0x2D);
}

proof fn lemma_zone(
    text: Seq<char>,
    w: Seq<u8>,
    r: Seq<char>,
    y: Seq<u8>,
    mo: Seq<u8>,
    d: Seq<u8>,
    h: Seq<u8>,
    mi: Seq<u8>,
    s: Seq<u8>,
    zh: Seq<u8>,
    zm: Seq<u8>,
    end: Seq<u8>,
    sign: u8,
)
    requires
        y.len() == 4,
        mo.len() == 2,
        d.len() == 2,
        h.len() == 2,
        mi.len() == 2,
        s.len() == 2,
        zh.len() == 2,
        zm.len() == 2,
        w == date_written(y, mo, d, h, mi, s),
        r == date_read(y, mo, d, h, mi, s),
        sign == 0x2B || sign == 0x2D,
    ensures
        ({
            let m = if sign == 0x2B {
                "+"@
            } else {
                "-"@
            };
            &&& iso_date(text, w + (seq![sign] + zh)) == r + (m + utf8_lossy(zh))
            &&& iso_date(text, w + (seq![sign] + zh + seq![0x27u8] + zm + end)) == r + (m
                + utf8_lossy(zh) + ":"@ + utf8_lossy(zm))
        }),
{
    let a = seq![sign] + zh;
    let b = seq![sign] + zh + seq![0x27u8] + zm + end;
    assert(w.len() == 16 && w[0] == 0x44 && w[1] == 0x3A);
    lemma_date_parts(y, mo, d, h, mi, s, a);
    lemma_date_parts(y, mo, d, h, mi, s, b);
    assert((w + a)[16] == sign && (w + b)[16] == sign && (w + b)[19] == 0x27);
    assert((w + a).subrange(17, 19) =~= zh);
    assert((w + b).subrange(17, 19) =~= zh);
    assert((w + b).subrange(20, 22) =~= zm);
}

/// A date may end behind the year, the month, the day, the hour or the minute. What
/// does not begin with `D:` and a year is left as it is.
pub proof fn law_short_date(
    text: Seq<char>,
    y: Seq<u8>,
    mo: Seq<u8>,
    d: Seq<u8>,
    h: Seq<u8>,
    mi: Seq<u8>,
    other: Seq<u8>,
)
    requires
        y.len() == 4,
        mo.len() == 2,
        d.len() == 2,
        h.len() == 2,
        mi.len() == 2,
    ensures
        ({
            let m = seq![0x44u8, 0x3A];
            let t = utf8_lossy(y);
            &&& iso_date(text, m + y) == t
            &&& iso_date(text, m + y + mo) == t + "-"@ + utf8_lossy(mo)
            &&& iso_date(text, m + y + mo + d) == t + "-"@ + utf8_lossy(mo) + "-"@ + utf8_lossy(d)
            &&& iso_date(text, m + y + mo + d + h) == t + "-"@ + utf8_lossy(mo) + "-"@ + utf8_lossy(
                d,
            ) + "T"@ + utf8_lossy(h)
            &&& iso_date(text, m + y + mo + d + h + mi) == t + "-"@ + utf8_lossy(mo) + "-"@
                + utf8_lossy(d) + "T"@ + utf8_lossy(h) + ":"@ + utf8_lossy(mi)
        }),
        other.len() < 6 || other[0] != 0x44 || other[1] != 0x3A ==> iso_date(text, other) == text,
{
    reveal_strlit("");
    let m = seq![0x44u8, 0x3A];
    let w1 = m + y;
    let w2 = w1 + mo;
    let w3 = w2 + d;
    let w4 = w3 + h;
    let w5 = w4 + mi;
    assert(w1 =~= w5.take(w1.len() as int));
    lemma_short(text, w1, y, mo, d, h, mi);
    assert(w2 =~= w5.take(w2.len() as int));
    lemma_short(text, w2, y, mo, d, h, mi);
    assert(w3 =~= w5.take(w3.len() as int));
    lemma_short(text, w3, y, mo, d, h, mi);
    assert(w4 =~= w5.take(w4.len() as int));
    lemma_short(text, w4, y, mo, d, h, mi);
    assert(w5 =~= w5.take(w5.len() as int));
    lemma_short(text, w5, y, mo, d, h, mi);
}

proof fn lemma_short(
    text: Seq<char>,
    w: Seq<u8>,
    y: Seq<u8>,
    mo: Seq<u8>,
    d: Seq<u8>,
    h: Seq<u8>,
    mi: Seq<u8>,
)
    requires
        y.len() == 4,
        mo.len() == 2,
        d.len() == 2,
        h.len() == 2,
        mi.len() == 2,
        w == (seq![0x44u8, 0x3A] + y + mo + d + h + mi).take(w.len() as int),
        6 <= w.len() <= 14,
        w.len() % 2 == 0,
    ensures
        ({
            let t = utf8_lossy(y);
            let t = if w.len() >= 8 {
                t + "-"@ + utf8_lossy(mo)
            } else {
                t
            };
            let t = if w.len() >= 10 {
                t + "-"@ + utf8_lossy(d)
            } else {
                t
            };
            let t = if w.len() >= 12 {
                t + "T"@ + utf8_lossy(h)
            } else {
                t
            };
            let t = if w.len() >= 14 {
                t + ":"@ + utf8_lossy(mi)
            } else {
                t
            };
            iso_date(text, w) == t
        }),
{
    reveal_strlit("");
    let all = seq![0x44u8, 0x3A] + y + mo + d + h + mi;
    assert(w[0] == all[0] && w[1] == all[1]);
    assert(w.subrange(2, 6) =~= y);
    if w.len() >= 8 {
        assert(w.subrange(6, 8) =~= mo);
    }
    if w.len() >= 10 {
        assert(w.subrange(8, 10) =~= d);
    }
    if w.len() >= 12 {
        assert(w.subrange(10, 12) =~= h);
    }
    if w.len() >= 14 {
        assert(w.subrange(12, 14) =~= mi);
    }
    let t = iso_digits(w);
    assert(t + ""@ =~= t);
}

// ------------------------------------------------------------- information

/// The entries that have a meaning of their own.
pub open spec fn known_entry(key: Seq<char>) -> bool {
    key == "Title"@ || key == "Author"@ || key == "Subject"@ || key == "Keywords"@ || key
        == "Creator"@ || key == "Producer"@ || key == "CreationDate"@ || key == "ModDate"@
}

proof fn lemma_entry_names()
    ensures
        "Title"@.len() == 5,
        "Author"@.len() == 6,
        "Subject"@.len() == 7,
        "Keywords"@.len() == 8,
        "Creator"@.len() == 7,
        "Producer"@.len() == 8,
        "CreationDate"@.len() == 12,
        "ModDate"@.len() == 7,
        "Subject"@[0] == 'S',
        "Creator"@[0] == 'C',
        "ModDate"@[0] == 'M',
        "Keywords"@[0] == 'K',
        "Producer"@[0] == 'P',
{
    reveal_strlit("Title");
    reveal_strlit("Author");
    reveal_strlit("Subject");
    reveal_strlit("Keywords");
    reveal_strlit("Creator");
    reveal_strlit("Producer");
    reveal_strlit("CreationDate");
    reveal_strlit("ModDate");
}

/// What one entry says, and that it changes nothing else.
pub proof fn law_info_entry(m: InfoV, v: ObjV, key: Seq<char>, t: Seq<char>)
    requires
        info_text(v) == Some(t),
    ensures
        with_entry(m, "Title"@, v) == (InfoV { title: Some(t), ..m }),
        with_entry(m, "Author"@, v) == (InfoV { author: Some(t), ..m }),
        with_entry(m, "Subject"@, v) == (InfoV { subject: Some(t), ..m }),
        with_entry(m, "Keywords"@, v) == (InfoV { keywords: keywords_of(t), ..m }),
        with_entry(m, "Creator"@, v) == (InfoV { creator: Some(t), ..m }),
        with_entry(m, "Producer"@, v) == (InfoV { producer: Some(t), ..m }),
        with_entry(m, "CreationDate"@, v) == (InfoV {
            created_at: Some(iso_date(t, vstd::utf8::encode_utf8(t))),
            ..m
        }),
        with_entry(m, "ModDate"@, v) == (InfoV {
            modified_at: Some(iso_date(t, vstd::utf8::encode_utf8(t))),
            ..m
        }),
        !known_entry(key) ==> with_entry(m, key, v) == (InfoV {
            custom: pair_set(m.custom, key, t),
            ..m
        }),
{
    lemma_entry_names();
}

proof fn lemma_info(d: DictV, n: int, i: int)
    requires
        distinct_keys(d),
        0 <= n <= d.len(),
        0 <= i < d.len(),
    ensures
        d[i].0 == "Title"@ ==> info_among(d, n).title == (if i < n {
            info_text(d[i].1)
        } else {
            None
        }),
        d[i].0 == "Author"@ ==> info_among(d, n).author == (if i < n {
            info_text(d[i].1)
        } else {
            None
        }),
        d[i].0 == "Subject"@ ==> info_among(d, n).subject == (if i < n {
            info_text(d[i].1)
        } else {
            None
        }),
        d[i].0 == "Creator"@ ==> info_among(d, n).creator == (if i < n {
            info_text(d[i].1)
        } else {
            None
        }),
        d[i].0 == "Producer"@ ==> info_among(d, n).producer == (if i < n {
            info_text(d[i].1)
        } else {
            None
        }),
        d[i].0 == "CreationDate"@ ==> info_among(d, n).created_at == (if i < n {
            date_of(d[i].1)
        } else {
            None
        }),
        d[i].0 == "ModDate"@ ==> info_among(d, n).modified_at == (if i < n {
            date_of(d[i].1)
        } else {
            None
        }),
        i < n && d[i].0 == "Keywords"@ ==> (info_text(d[i].1) matches Some(t)
            ==> info_among(d, n).keywords == keywords_of(t)),
    decreases n,
{
    lemma_entry_names();
    if n > 0 {
        lemma_info(d, n - 1, i);
        if i != n - 1 {
            assert(d[i].0 != d[n - 1].0);
        }
    }
}

/// The information of a document is what the entries of its dictionary say, each
/// under its own name.
pub proof fn law_info(d: DictV, i: int)
    requires
        distinct_keys(d),
        0 <= i < d.len(),
    ensures
        info_of(ObjV::Dict(d)) matches Ok(m) && {
            &&& d[i].0 == "Title"@ ==> m.title == info_text(d[i].1)
            &&& d[i].0 == "Author"@ ==> m.author == info_text(d[i].1)
            &&& d[i].0 == "Subject"@ ==> m.subject == info_text(d[i].1)
            &&& d[i].0 == "Creator"@ ==> m.creator == info_text(d[i].1)
            &&& d[i].0 == "Producer"@ ==> m.producer == info_text(d[i].1)
            &&& d[i].0 == "CreationDate"@ ==> m.created_at == date_of(d[i].1)
            &&& d[i].0 == "ModDate"@ ==> m.modified_at == date_of(d[i].1)
            &&& d[i].0 == "Keywords"@ ==> (info_text(d[i].1) matches Some(t) ==> m.keywords
                == keywords_of(t))
        },
{
    lemma_info(d, d.len() as int, i);
}

proof fn lemma_pair_pos(s: Seq<(Seq<char>, Seq<char>)>, key: Seq<char>, from: int)
    requires
        0 <= from,
        forall|i: int| from <= i < s.len() ==> (#[trigger] s[i]).0 != key,
    ensures
        pair_pos(s, key, from) == s.len(),
    decreases s.len() - from,
{
    if from < s.len() {
        lemma_pair_pos(s, key, from + 1);
    }
}

/// The entries without a meaning of their own, with their texts, in order.
pub open spec fn other_entries(d: DictV, n: int) -> Seq<(Seq<char>, Seq<char>)>
    decreases n,
{
    if n <= 0 || n > d.len() {
        Seq::empty()
    } else if !known_entry(d[n - 1].0) && info_text(d[n - 1].1) is Some {
        other_entries(d, n - 1).push((d[n - 1].0, info_text(d[n - 1].1)->Some_0))
    } else {
        other_entries(d, n - 1)
    }
}

proof fn lemma_others(d: DictV, n: int, k: int)
    requires
        distinct_keys(d),
        0 <= n <= k < d.len(),
    ensures
        forall|i: int| 0 <= i < other_entries(d, n).len() ==> (#[trigger] other_entries(d, n)[i]).0
            != d[k].0,
    decreases n,
{
    if n > 0 {
        lemma_others(d, n - 1, k);
        assert(d[n - 1].0 != d[k].0);
        let before = other_entries(d, n - 1);
        assert forall|i: int| 0 <= i < other_entries(d, n).len() implies (
        #[trigger] other_entries(d, n)[i]).0 != d[k].0 by {
            if i < before.len() {
                assert(other_entries(d, n)[i] == before[i]);
            }
        }
    }
}

/// All other entries that are texts are kept by their names, in order.
pub proof fn law_other_entries(d: DictV, n: int)
    requires
        distinct_keys(d),
        0 <= n <= d.len(),
    ensures
        info_among(d, n).custom == other_entries(d, n),
    decreases n,
{
    lemma_entry_names();
    if n > 0 {
        law_other_entries(d, n - 1);
        lemma_others(d, n - 1, n - 1);
        lemma_pair_pos(other_entries(d, n - 1), d[n - 1].0, 0);
    }
}

/// Information that is referred to is read; what is no dictionary is refused.
pub proof fn law_document_info(doc: DocV, o: ObjV)
    ensures
        doc.xref.info() matches Some(id) ==> (doc.resolve(id) matches Ok(v) ==> document_info(doc)
            == info_of(v)),
        doc.xref.info() matches Some(id) ==> (doc.resolve(id) is Err ==> document_info(doc) is Err),
        !(o is Dict) ==> info_of(o) is Err,
{
}

// ---------------------------------------------------------------- keywords

/// The characters that are white space.
#[verifier::rlimit(50)]
pub proof fn law_white(c: char)
    ensures
        is_white(c) <==> seq![
            0x09int, 0x0A, 0x0B, 0x0C, 0x0D, 0x20, 0x85, 0xA0, 0x1680, 0x2000, 0x2001, 0x2002,
            0x2003, 0x2004, 0x2005, 0x2006, 0x2007, 0x2008, 0x2009, 0x200A, 0x2028, 0x2029, 0x202F,
            0x205F, 0x3000,
        ].contains(c as int),
{
    let s = seq![
        0x09int, 0x0A, 0x0B, 0x0C, 0x0D, 0x20, 0x85, 0xA0, 0x1680, 0x2000, 0x2001, 0x2002,
        0x2003, 0x2004, 0x2005, 0x2006, 0x2007, 0x2008, 0x2009, 0x200A, 0x2028, 0x2029, 0x202F,
        0x205F, 0x3000,
    ];
    let n = c as int;
    assert(s[0] == 0x09 && s[1] == 0x0A && s[2] == 0x0B && s[3] == 0x0C && s[4] == 0x0D && s[5]
        == 0x20 && s[6] == 0x85 && s[7] == 0xA0 && s[8] == 0x1680 && s[9] == 0x2000 && s[10]
        == 0x2001 && s[11] == 0x2002 && s[12] == 0x2003 && s[13] == 0x2004 && s[14] == 0x2005
        && s[15] == 0x2006 && s[16] == 0x2007 && s[17] == 0x2008 && s[18] == 0x2009 && s[19]
        == 0x200A && s[20] == 0x2028 && s[21] == 0x2029 && s[22] == 0x202F && s[23] == 0x205F
        && s[24] == 0x3000);
    assert(s.len() == 25);
}

/// White space at either end of a text does not count: what is left neither begins
/// nor ends with any, and all around it is white.
pub proof fn law_trimmed(a: Seq<char>, w: Seq<char>, b: Seq<char>)
    requires
        forall|i: int| 0 <= i < a.len() ==> is_white(#[trigger] a[i]),
        forall|i: int| 0 <= i < b.len() ==> is_white(#[trigger] b[i]),
        w.len() > 0,
        !is_white(w[0]),
        !is_white(w.last()),
    ensures
        trimmed(a + w + b, 0, (a + w + b).len() as int) == w,
{
    let t = a + w + b;
    lemma_first_solid(t, 0, t.len() as int, a.len() as int);
    lemma_last_solid(t, a.len() as int, t.len() as int, (a.len() + w.len()) as int);
    assert(t.subrange(a.len() as int, (a.len() + w.len()) as int) =~= w);
}

proof fn lemma_first_solid(t: Seq<char>, a: int, b: int, x: int)
    requires
        0 <= a <= x < b <= t.len(),
        forall|i: int| a <= i < x ==> is_white(#[trigger] t[i]),
        !is_white(t[x]),
    ensures
        crate::info::first_solid(t, a, b) == x,
    decreases x - a,
{
    if a < x {
        lemma_first_solid(t, a + 1, b, x);
    }
}

proof fn lemma_last_solid(t: Seq<char>, a: int, b: int, x: int)
    requires
        0 <= a < x <= b <= t.len(),
        forall|i: int| x <= i < b ==> is_white(#[trigger] t[i]),
        !is_white(t[x - 1]),
    ensures
        crate::info::last_solid(t, a, b) == x,
    decreases b - x,
{
    if x < b {
        lemma_last_solid(t, a, b - 1, x);
    }
}

} // verus!
