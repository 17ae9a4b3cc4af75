//! Laws of LZW decoding.

use vstd::prelude::*;
use crate::filters::{
    bits, lemma_bits_split, lemma_byte_bits, lemma_two_values, lzw, lzw_entry, lzw_grown,
    lzw_stream, lzw_width, two,
};

verus! {

/// Bits are read from the high bit of each byte on: eight of them spell a byte,
/// and bits that follow one another spell a number in two parts.
pub proof fn law_bits_high_first(s: Seq<u8>, k: int, from: int, mid: int, to: int)
    requires
        0 <= k < s.len(),
        0 <= from <= mid <= to <= 8 * s.len(),
        to - mid == 8,
    ensures
        bits(s, 8 * k, 8 * k + 8) == s[k],
        bits(s, from, to) == 256 * bits(s, from, mid) + bits(s, mid, to),
        forall|i: int|
            0 <= i <= 8 && mid + i <= to ==> bits(s, from, #[trigger] (mid + i)) == bits(
                s,
                from,
                mid,
            ) * two(i) + bits(s, mid, mid + i),
        two(1) == 2 && two(2) == 4 && two(4) == 16 && two(8) == 256,
{
    lemma_two_values();
    lemma_byte_bits(s, 8 * k, k);
    lemma_bits_split(s, from, mid, to);
    assert forall|i: int| 0 <= i <= 8 && mid + i <= to implies bits(s, from, #[trigger] (mid + i))
        == bits(s, from, mid) * two(i) + bits(s, mid, mid + i) by {
        lemma_bits_split(s, from, mid, mid + i);
    }
}

/// The bytes that code `i` of codes behind a clear code stands for. A code below
/// 256 is a byte; code 258 + j is what code number j stood for, and behind it the
/// first byte of what the code after that stood for.
pub open spec fn phrase(codes: Seq<int>, i: int) -> Seq<u8>
    decreases i,
{
    if i < 0 || i >= codes.len() || codes[i] < 256 {
        seq![codes[i] as u8]
    } else {
        let j = codes[i] - 258;
        if j < 0 || j >= i {
            Seq::empty()
        } else if j + 1 == i {
            phrase(codes, j) + seq![phrase(codes, j)[0]]
        } else {
            phrase(codes, j) + seq![phrase(codes, j + 1)[0]]
        }
    }
}

/// Every code is a byte or stands for what earlier codes define.
pub open spec fn codes_known(codes: Seq<int>) -> bool {
    forall|i: int|
        0 <= i < codes.len() ==> (0 <= #[trigger] codes[i] < 256 || 258 <= codes[i] < 258 + i)
}

/// The phrases of the codes from place `i` on.
pub open spec fn phrases_from(codes: Seq<int>, i: int) -> Seq<u8>
    decreases codes.len() - i,
{
    if i < 0 || i >= codes.len() {
        Seq::empty()
    } else {
        phrase(codes, i) + phrases_from(codes, i + 1)
    }
}

/// How many bits code number `i` behind a clear code has: 9, and one more from
/// the time that the next free code, or with `early` the one after it, does not
/// fit, up to 12.
pub open spec fn code_width(i: int, early: int) -> int {
    let free = 258 + (if i == 0 {
        0
    } else {
        i - 1
    }) + early;
    if free < 512 {
        9
    } else if free < 1024 {
        10
    } else if free < 2048 {
        11
    } else {
        12
    }
}

/// Where code number `i` begins, in bits.
pub open spec fn code_start(i: int, early: int) -> int
    decreases i,
{
    if i <= 0 {
        0
    } else {
        code_start(i - 1, early) + code_width(i - 1, early)
    }
}

/// The codes stand in `s` from bit `pos` on, and the end mark 257 behind them.
pub open spec fn codes_stand(s: Seq<u8>, pos: int, codes: Seq<int>, early: int) -> bool {
    let n = codes.len() as int;
    let end = pos + code_start(n, early);
    &&& end + code_width(n, early) <= 8 * s.len()
    &&& bits(s, end, end + code_width(n, early)) == 257
    &&& forall|i: int|
        0 <= i < n ==> bits(
            s,
            pos + code_start(i, early),
            pos + code_start(i, early) + code_width(i, early),
        ) == #[trigger] codes[i]
}

proof fn lemma_phrase_nonempty(codes: Seq<int>, i: int)
    requires
        codes_known(codes),
        0 <= i < codes.len(),
    ensures
        phrase(codes, i).len() > 0,
    decreases i,
{
    let c = codes[i];
    if c >= 256 {
        lemma_phrase_nonempty(codes, c - 258);
    }
}

proof fn lemma_start_grows(i: int, n: int, early: int)
    requires
        0 <= i <= n,
    ensures
        code_start(i, early) <= code_start(n, early),
    decreases n - i,
{
    if i < n {
        lemma_start_grows(i, n - 1, early);
    }
}

/// The table once code number `i` was read.
spec fn table_after(codes: Seq<int>, i: int) -> Seq<Seq<u8>> {
    Seq::new(i as nat, |j: int| phrase(codes, j) + seq![phrase(codes, j + 1)[0]])
}

proof fn lemma_codes_from(s: Seq<u8>, pos: int, codes: Seq<int>, early: int, i: int)
    requires
        0 <= early <= 1,
        0 <= pos,
        codes_known(codes),
        codes.len() <= 3837,
        codes_stand(s, pos, codes, early),
        0 <= i <= codes.len(),
    ensures
        lzw(
            s,
            early,
            pos + code_start(i, early),
            code_width(i, early),
            table_after(
                codes,
                if i == 0 {
                    0
                } else {
                    i - 1
                },
            ),
            if i == 0 {
                None
            } else {
                Some(phrase(codes, i - 1))
            },
        ) == Ok::<Seq<u8>, Seq<char>>(phrases_from(codes, i)),
    decreases codes.len() - i,
{
    let n = codes.len() as int;
    let at = pos + code_start(i, early);
    let width = code_width(i, early);
    let table = table_after(
        codes,
        if i == 0 {
            0
        } else {
            i - 1
        },
    );
    let prev = if i == 0 {
        None
    } else {
        Some(phrase(codes, i - 1))
    };
    lemma_start_grows(i, n, early);
    if i < n {
        let c = codes[i];
        lemma_start_grows(i + 1, n, early);
        assert(bits(s, at, at + width) == c);
        let entry = phrase(codes, i);
        lemma_phrase_nonempty(codes, i);
        if i > 0 {
            lemma_phrase_nonempty(codes, i - 1);
        }
        if c >= 256 {
            let j = c - 258;
            assert(0 <= j < i);
            if j + 1 == i {
                assert(phrase(codes, j).push(phrase(codes, j)[0]) =~= phrase(codes, j) + seq![
                    phrase(codes, j)[0],
                ]);
            } else {
                assert(table[j] == phrase(codes, j) + seq![phrase(codes, j + 1)[0]]);
            }
        }
        assert(lzw_entry(c, table, prev) == Ok::<Seq<u8>, Seq<char>>(entry));
        let grown = lzw_grown(table, prev, entry);
        assert(grown =~= table_after(codes, i)) by {
            if i > 0 {
                assert(phrase(codes, i - 1).push(entry[0]) =~= phrase(codes, i - 1) + seq![
                    entry[0],
                ]);
            }
        }
        lemma_two_values();
        assert(lzw_width(width, i, early) == code_width(i + 1, early));
        lemma_codes_from(s, pos, codes, early, i + 1);
    } else {
        assert(phrases_from(codes, n) =~= Seq::empty());
    }
}

/// Codes behind a clear code decode to their phrases, up to the end mark.
#[verifier::rlimit(50)]
pub proof fn law_lzw_phrases(s: Seq<u8>, codes: Seq<int>, early_change: bool)
    requires
        codes_known(codes),
        codes.len() <= 3837,
        s.len() >= 2,
        bits(s, 0, 9) == 256,
        codes_stand(
            s,
            9,
            codes,
            if early_change {
                1
            } else {
                0
            },
        ),
    ensures
        lzw_stream(s, early_change) == Ok::<Seq<u8>, Seq<char>>(phrases_from(codes, 0)),
{
    let early = if early_change {
        1int
    } else {
        0int
    };
    lemma_codes_from(s, 9, codes, early, 0);
    assert(table_after(codes, 0) =~= Seq::empty());
}

/// A clear code may stand anywhere: what is behind it decodes as at the start.
pub proof fn law_lzw_clear(
    s: Seq<u8>,
    early: int,
    pos: int,
    width: int,
    table: Seq<Seq<u8>>,
    prev: Option<Seq<u8>>,
)
    requires
        9 <= width <= 12,
        pos + width <= 8 * s.len(),
        bits(s, pos, pos + width) == 256,
    ensures
        lzw(s, early, pos, width, table, prev) == lzw(
            s,
            early,
            pos + width,
            9,
            Seq::empty(),
            None,
        ),
{
}

/// A code that nothing defines is refused.
pub proof fn law_lzw_unknown(code: int, table: Seq<Seq<u8>>, prev: Option<Seq<u8>>)
    requires
        code > 258 + table.len() || (code == 258 + table.len() && prev is None),
    ensures
        lzw_entry(code, table, prev) is Err,
{
}

/// The table does not grow beyond code 4095.
pub proof fn law_lzw_table_full(table: Seq<Seq<u8>>, prev: Seq<u8>, entry: Seq<u8>)
    requires
        entry.len() > 0,
    ensures
        table.len() == 3838 ==> lzw_grown(table, Some(prev), entry) == table,
        table.len() < 3838 ==> lzw_grown(table, Some(prev), entry).len() == table.len() + 1,
{
}

} // verus!
