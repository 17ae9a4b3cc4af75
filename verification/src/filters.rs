//! Stream filters: the byte-level decoders that a stream's `/Filter` names.

use vstd::prelude::*;
use crate::error::{outcome, PdfError};
use crate::objects::clone_bytes;
use crate::text::{cat, cat_hex, cat_int, cat_nat, dec, hex_text};

verus! {

/// What a decoder gives back: the bytes, or the description of an error.
pub type Decoded = Result<Seq<u8>, Seq<char>>;

/// `r` with the bytes of `p` put in front.
pub open spec fn prepend(p: Seq<u8>, r: Decoded) -> Decoded {
    match r {
        Ok(t) => Ok(p + t),
        Err(e) => Err(e),
    }
}

/// Putting two prefixes in front one after the other.
pub(crate) proof fn lemma_prepend_twice(p: Seq<u8>, q: Seq<u8>, r: Decoded)
    ensures
        prepend(p, prepend(q, r)) == prepend(p + q, r),
{
    match r {
        Ok(t) => {
            assert(p + (q + t) =~= (p + q) + t);
        },
        Err(_) => {},
    }
}

/// Putting nothing in front.
proof fn lemma_prepend_nothing(r: Decoded)
    ensures
        prepend(Seq::empty(), r) == r,
{
    match r {
        Ok(t) => {
            assert(Seq::<u8>::empty() + t =~= t);
        },
        Err(_) => {},
    }
}

/// White space between encoded characters: space, HT, LF, CR, FF and NUL.
pub open spec fn is_filter_space(b: u8) -> bool {
    b == 32 || b == 9 || b == 10 || b == 13 || b == 12 || b == 0
}

fn filter_space(b: u8) -> (r: bool)
    ensures
        r == is_filter_space(b),
{
    b == 32 || b == 9 || b == 10 || b == 13 || b == 12 || b == 0
}

// ---------------------------------------------------------------- ASCII85

/// The number that five base-85 digits stand for.
pub open spec fn a85_value(g: Seq<u8>) -> int {
    (((g[0] as int * 85 + g[1]) * 85 + g[2]) * 85 + g[3]) * 85 + g[4]
}

/// The low four bytes of `v`, most significant first.
pub open spec fn be_bytes(v: int) -> Seq<u8> {
    seq![
        ((v / 16777216) % 256) as u8,
        ((v / 65536) % 256) as u8,
        ((v / 256) % 256) as u8,
        (v % 256) as u8,
    ]
}

/// A group of base-85 digits filled up to five with the highest digit.
pub open spec fn a85_padded(g: Seq<u8>) -> Seq<u8> {
    Seq::new(
        5,
        |i: int|
            if i < g.len() {
                g[i]
            } else {
                84u8
            },
    )
}

/// What the digits left over at the end of the data stand for: `n` digits
/// give `n - 1` bytes, and a single digit is an error.
pub open spec fn a85_rest(g: Seq<u8>) -> Decoded {
    if g.len() == 0 {
        Ok(Seq::empty())
    } else if g.len() == 1 {
        Err("PDF filter: ASCII85 trailing 1-character group is illegal"@)
    } else {
        Ok(be_bytes(a85_value(a85_padded(g))).take(g.len() - 1))
    }
}

/// The bytes that base-85 text stands for, with the digits `g` of an
/// unfinished group in front of it.
pub open spec fn a85(s: Seq<u8>, g: Seq<u8>) -> Decoded
    decreases s.len(),
{
    if s.len() == 0 {
        a85_rest(g)
    } else if s[0] == 126 {
        if s.len() > 1 && s[1] == 62 {
            a85_rest(g)
        } else {
            Err("PDF filter: ASCII85 stray '~' (expected '~>')"@)
        }
    } else if is_filter_space(s[0]) {
        a85(s.skip(1), g)
    } else if s[0] == 122 {
        if g.len() != 0 {
            Err("PDF filter: ASCII85 'z' shorthand mid-group"@)
        } else {
            prepend(seq![0u8, 0, 0, 0], a85(s.skip(1), g))
        }
    } else if !(33 <= s[0] <= 117) {
        Err("PDF filter: ASCII85 illegal byte "@ + hex_text(s[0]))
    } else if g.len() == 4 {
        prepend(
            be_bytes(a85_value(g.push((s[0] - 33) as u8))),
            a85(s.skip(1), Seq::empty()),
        )
    } else {
        a85(s.skip(1), g.push((s[0] - 33) as u8))
    }
}

/// Append the four bytes that five base-85 digits stand for.
fn decode_ascii85_group_full(group: &Vec<u8>, out: &mut Vec<u8>)
    requires
        group@.len() == 5,
    ensures
        final(out)@ == old(out)@ + be_bytes(a85_value(group@)),
{
    let v: u64 = (((group[0] as u64 * 85 + group[1] as u64) * 85 + group[2] as u64) * 85
        + group[3] as u64) * 85 + group[4] as u64;
    out.push(((v / 16777216) % 256) as u8);
    out.push(((v / 65536) % 256) as u8);
    out.push(((v / 256) % 256) as u8);
    out.push((v % 256) as u8);
    proof {
        assert(out@ =~= old(out)@ + be_bytes(a85_value(group@)));
    }
}

/// ASCII85Decode: five characters in `!`..`u` stand for four bytes, `z` for
/// four zero bytes; white space is ignored and `~>` ends the data.
pub fn ascii85_decode(input: &[u8]) -> (r: Result<Vec<u8>, PdfError>)
    ensures
        outcome(r) == a85(input@, Seq::empty()),
{
    let mut out: Vec<u8> = Vec::new();
    let mut group: Vec<u8> = Vec::new();
    let mut i: usize = 0;
    proof {
        assert(input@.skip(0) =~= input@);
        lemma_prepend_nothing(a85(input@, Seq::empty()));
    }
    while i < input.len()
        invariant_except_break
            a85(input@, Seq::empty()) == prepend(out@, a85(input@.skip(i as int), group@)),
        invariant
            i <= input.len(),
            group@.len() < 5,
        ensures
            a85(input@, Seq::empty()) == prepend(out@, a85_rest(group@)),
            group@.len() < 5,
        decreases input.len() - i,
    {
        let b: u8 = input[i];
        let ghost s = input@.skip(i as int);
        let ghost g = group@;
        let ghost before = out@;
        proof {
            assert(s.skip(1) =~= input@.skip(i as int + 1));
        }
        i = i + 1;
        if b == 126 {
            if i < input.len() && input[i] == 62 {
                break;
            }
            return Err(PdfError::other("PDF filter: ASCII85 stray '~' (expected '~>')"));
        }
        if filter_space(b) {
            continue;
        }
        if b == 122 {
            if group.len() != 0 {
                return Err(PdfError::other("PDF filter: ASCII85 'z' shorthand mid-group"));
            }
            out.push(0);
            out.push(0);
            out.push(0);
            out.push(0);
            proof {
                assert(out@ =~= before + seq![0u8, 0, 0, 0]);
                lemma_prepend_twice(before, seq![0u8, 0, 0, 0], a85(s.skip(1), g));
            }
            continue;
        }
        if !(33 <= b && b <= 117) {
            return Err(
                PdfError::Other(cat_hex("PDF filter: ASCII85 illegal byte ".to_owned(), b)),
            );
        }
        group.push(b - 33);
        if group.len() == 5 {
            decode_ascii85_group_full(&group, &mut out);
            proof {
                lemma_prepend_twice(
                    before,
                    be_bytes(a85_value(group@)),
                    a85(s.skip(1), Seq::empty()),
                );
            }
            group = Vec::new();
        }
    }
    let filled: usize = group.len();
    let ghost g = group@;
    if filled == 1 {
        return Err(PdfError::other("PDF filter: ASCII85 trailing 1-character group is illegal"));
    }
    if filled > 1 {
        while group.len() < 5
            invariant
                filled <= group@.len() <= 5,
                g.len() == filled,
                group@ =~= a85_padded(g).take(group@.len() as int),
            decreases 5 - group.len(),
        {
            group.push(84);
        }
        let mut tail: Vec<u8> = Vec::new();
        let ghost before = out@;
        decode_ascii85_group_full(&group, &mut tail);
        tail.truncate(filled - 1);
        out.append(&mut tail);
        proof {
            assert(group@ =~= a85_padded(g));
            assert(out@ =~= before + be_bytes(a85_value(a85_padded(g))).take(filled - 1));
        }
    } else {
        proof {
            assert(out@ + Seq::<u8>::empty() =~= out@);
        }
    }
    Ok(out)
}

// --------------------------------------------------------------- ASCIIHex

/// The value of a hexadecimal digit.
pub open spec fn hex_value(b: u8) -> Option<u8> {
    if 48 <= b <= 57 {
        Some((b - 48) as u8)
    } else if 97 <= b <= 102 {
        Some((b - 87) as u8)
    } else if 65 <= b <= 70 {
        Some((b - 55) as u8)
    } else {
        None
    }
}

/// The bytes that hexadecimal text stands for, with the digit `high` still
/// waiting for its partner.
pub open spec fn hex_data(s: Seq<u8>, high: Option<u8>) -> Decoded
    decreases s.len(),
{
    if s.len() == 0 || s[0] == 62 {
        match high {
            None => Ok(Seq::empty()),
            Some(h) => Ok(seq![(h * 16) as u8]),
        }
    } else if is_filter_space(s[0]) {
        hex_data(s.skip(1), high)
    } else {
        match hex_value(s[0]) {
            None => Err("PDF filter: ASCIIHex illegal byte "@ + hex_text(s[0])),
            Some(d) => match high {
                None => hex_data(s.skip(1), Some(d)),
                Some(h) => prepend(seq![(h * 16 + d) as u8], hex_data(s.skip(1), None)),
            },
        }
    }
}

/// ASCIIHexDecode: two digits make a byte, white space is ignored, `>` ends
/// the data, and a last single digit counts as if `0` followed it.
pub fn ascii_hex_decode(input: &[u8]) -> (r: Result<Vec<u8>, PdfError>)
    ensures
        outcome(r) == hex_data(input@, None),
{
    let mut out: Vec<u8> = Vec::new();
    let mut high: Option<u8> = None;
    let mut i: usize = 0;
    proof {
        assert(input@.skip(0) =~= input@);
        lemma_prepend_nothing(hex_data(input@, None));
    }
    while i < input.len() && input[i] != 62
        invariant
            i <= input.len(),
            high matches Some(h) ==> h < 16,
            hex_data(input@, None) == prepend(out@, hex_data(input@.skip(i as int), high)),
        decreases input.len() - i,
    {
        let b: u8 = input[i];
        let ghost s = input@.skip(i as int);
        let ghost before = out@;
        proof {
            assert(s.skip(1) =~= input@.skip(i as int + 1));
        }
        i = i + 1;
        if filter_space(b) {
            continue;
        }
        let digit: u8 = if 48 <= b && b <= 57 {
            b - 48
        } else if 97 <= b && b <= 102 {
            b - 87
        } else if 65 <= b && b <= 70 {
            b - 55
        } else {
            return Err(
                PdfError::Other(cat_hex("PDF filter: ASCIIHex illegal byte ".to_owned(), b)),
            );
        };
        match high {
            None => {
                high = Some(digit);
            },
            Some(h) => {
                out.push(h * 16 + digit);
                high = None;
                proof {
                    let q = seq![(h * 16 + digit) as u8];
                    assert(out@ =~= before + q);
                    lemma_prepend_twice(before, q, hex_data(s.skip(1), None));
                }
            },
        }
    }
    let ghost before = out@;
    match high {
        None => {
            proof {
                assert(out@ + Seq::<u8>::empty() =~= out@);
            }
        },
        Some(h) => {
            out.push(h * 16);
            proof {
                assert(out@ =~= before + seq![(h * 16) as u8]);
            }
        },
    }
    Ok(out)
}

// -------------------------------------------------------------- RunLength

/// `n` copies of a byte.
pub open spec fn copies(b: u8, n: int) -> Seq<u8> {
    Seq::new(n as nat, |i: int| b)
}

/// The bytes that run-length data stands for.
pub open spec fn run_length(s: Seq<u8>) -> Decoded
    decreases s.len(),
{
    if s.len() == 0 || s[0] == 128 {
        Ok(Seq::empty())
    } else if s[0] < 128 {
        let n = s[0] + 1;
        if 1 + n > s.len() {
            Err("PDF filter: RunLengthDecode literal run exceeds input"@)
        } else {
            prepend(s.subrange(1, 1 + n), run_length(s.skip(1 + n)))
        }
    } else if s.len() < 2 {
        Err("PDF filter: RunLengthDecode repeat-run missing byte"@)
    } else {
        prepend(copies(s[1], 257 - s[0]), run_length(s.skip(2)))
    }
}

/// RunLengthDecode: a tag below 128 copies that many bytes and one more, a
/// tag above 128 repeats the next byte `257 - tag` times, and 128 or the end
/// of the input ends the data.
pub fn run_length_decode(input: &[u8]) -> (r: Result<Vec<u8>, PdfError>)
    ensures
        outcome(r) == run_length(input@),
{
    let mut out: Vec<u8> = Vec::new();
    let mut i: usize = 0;
    proof {
        assert(input@.skip(0) =~= input@);
        lemma_prepend_nothing(run_length(input@));
    }
    while i < input.len() && input[i] != 128
        invariant
            i <= input.len(),
            run_length(input@) == prepend(out@, run_length(input@.skip(i as int))),
        decreases input.len() - i,
    {
        let tag: u8 = input[i];
        let ghost s = input@.skip(i as int);
        let ghost before = out@;
        if tag < 128 {
            let n: usize = tag as usize + 1;
            if n > input.len() - i - 1 {
                return Err(
                    PdfError::other("PDF filter: RunLengthDecode literal run exceeds input"),
                );
            }
            out.extend_from_slice(vstd::slice::slice_subrange(input, i + 1, i + 1 + n));
            proof {
                assert(out@ =~= before + s.subrange(1, 1 + n as int));
                assert(s.skip(1 + n as int) =~= input@.skip(i + 1 + n));
                lemma_prepend_twice(
                    before,
                    s.subrange(1, 1 + n as int),
                    run_length(s.skip(1 + n as int)),
                );
            }
            i = i + 1 + n;
        } else {
            if input.len() - i < 2 {
                return Err(PdfError::other("PDF filter: RunLengthDecode repeat-run missing byte"));
            }
            let count: usize = 257 - tag as usize;
            let byte: u8 = input[i + 1];
            let mut k: usize = 0;
            while k < count
                invariant
                    k <= count,
                    out@ =~= before + copies(byte, k as int),
                decreases count - k,
            {
                out.push(byte);
                k = k + 1;
            }
            proof {
                assert(s.skip(2) =~= input@.skip(i as int + 2));
                lemma_prepend_twice(before, copies(byte, count as int), run_length(s.skip(2)));
            }
            i = i + 2;
        }
    }
    proof {
        assert(out@ + Seq::<u8>::empty() =~= out@);
    }
    Ok(out)
}

// -------------------------------------------------------------------- LZW

/// Two to the power `n`.
pub open spec fn two(n: int) -> int
    decreases n,
{
    if n <= 0 {
        1
    } else {
        2 * two(n - 1)
    }
}

/// The bit of `s` at position `k`, counted from the high bit of the first byte.
pub open spec fn bit_at(s: Seq<u8>, k: int) -> int {
    (s[k / 8] as int / two(7 - k % 8)) % 2
}

/// The number that the bits from `from` up to `to` spell, high bit first.
pub open spec fn bits(s: Seq<u8>, from: int, to: int) -> int
    decreases to - from,
{
    if to <= from {
        0
    } else {
        2 * bits(s, from, to - 1) + bit_at(s, to - 1)
    }
}

/// The bytes that a code stands for: itself below 256, a table entry from 258
/// on, or, for the code about to be defined, the previous bytes and their
/// first one again.
pub open spec fn lzw_entry(code: int, table: Seq<Seq<u8>>, prev: Option<Seq<u8>>) -> Decoded {
    if code < 256 {
        Ok(seq![code as u8])
    } else if 258 <= code < 258 + table.len() {
        Ok(table[code - 258])
    } else if code == 258 + table.len() {
        match prev {
            Some(p) => Ok(p.push(p[0])),
            None => Err("PDF filter: LZW first code references empty table"@),
        }
    } else {
        Err(
            "PDF filter: LZW code "@ + dec(code) + " out of range (next free "@ + dec(
                258 + table.len() as int,
            ) + ")"@,
        )
    }
}

/// The table after `entry` followed `prev`: one entry more, up to code 4095.
pub open spec fn lzw_grown(
    table: Seq<Seq<u8>>,
    prev: Option<Seq<u8>>,
    entry: Seq<u8>,
) -> Seq<Seq<u8>> {
    match prev {
        Some(p) if 258 + table.len() <= 4095 => table.push(p.push(entry[0])),
        _ => table,
    }
}

/// The code width once the table holds `len` entries: one bit more as soon as
/// the next code (or, with `early`, the one after it) would not fit.
pub open spec fn lzw_width(width: int, len: int, early: int) -> int {
    if width < 12 && 258 + len + early >= two(width) {
        width + 1
    } else {
        width
    }
}

/// The bytes that LZW data stands for from bit `pos` on.
pub open spec fn lzw(
    s: Seq<u8>,
    early: int,
    pos: int,
    width: int,
    table: Seq<Seq<u8>>,
    prev: Option<Seq<u8>>,
) -> Decoded
    decreases 8 * s.len() - pos,
{
    if width < 9 || pos + width > 8 * s.len() {
        Ok(Seq::empty())
    } else {
        let code = bits(s, pos, pos + width);
        if code == 257 {
            Ok(Seq::empty())
        } else if code == 256 {
            lzw(s, early, pos + width, 9, Seq::empty(), None)
        } else {
            match lzw_entry(code, table, prev) {
                Err(e) => Err(e),
                Ok(entry) => {
                    let grown = lzw_grown(table, prev, entry);
                    prepend(
                        entry,
                        lzw(
                            s,
                            early,
                            pos + width,
                            lzw_width(width, grown.len() as int, early),
                            grown,
                            Some(entry),
                        ),
                    )
                },
            }
        }
    }
}

/// The bytes that a whole LZW stream stands for.
pub open spec fn lzw_stream(s: Seq<u8>, early_change: bool) -> Decoded {
    lzw(
        s,
        if early_change {
            1
        } else {
            0
        },
        0,
        9,
        Seq::empty(),
        None,
    )
}

pub(crate) proof fn lemma_two_values()
    ensures
        two(0) == 1,
        two(1) == 2,
        two(2) == 4,
        two(3) == 8,
        two(4) == 16,
        two(5) == 32,
        two(6) == 64,
        two(7) == 128,
        two(8) == 256,
        two(9) == 512,
        two(10) == 1024,
        two(11) == 2048,
        two(12) == 4096,
        two(16) == 65536,
{
    reveal_with_fuel(two, 18);
}

/// A byte is the sum of its bits, each at its place.
proof fn lemma_byte_sum(b: u32)
    requires
        b < 256,
    ensures
        128 * ((b / 128) % 2) + 64 * ((b / 64) % 2) + 32 * ((b / 32) % 2) + 16 * ((b / 16) % 2) + 8
            * ((b / 8) % 2) + 4 * ((b / 4) % 2) + 2 * ((b / 2) % 2) + b % 2 == b,
{
    assert(128 * ((b / 128) % 2) + 64 * ((b / 64) % 2) + 32 * ((b / 32) % 2) + 16 * ((b / 16) % 2)
        + 8 * ((b / 8) % 2) + 4 * ((b / 4) % 2) + 2 * ((b / 2) % 2) + b % 2 == b) by (bit_vector)
        requires
            b < 256,
    ;
}

/// The bits of one byte spell the byte.
#[verifier::rlimit(30)]
pub(crate) proof fn lemma_byte_bits(s: Seq<u8>, from: int, k: int)
    requires
        0 <= k < s.len(),
        0 <= from <= 8 * k,
    ensures
        bits(s, from, 8 * k + 8) == 256 * bits(s, from, 8 * k) + s[k],
{
    lemma_two_values();
    let b = s[k] as int;
    let n = 8 * k;
    lemma_byte_sum(s[k] as u32);
    assert(n / 8 == k && (n + 1) / 8 == k && (n + 2) / 8 == k && (n + 3) / 8 == k && (n + 4) / 8
        == k && (n + 5) / 8 == k && (n + 6) / 8 == k && (n + 7) / 8 == k);
    assert(bit_at(s, n) == (b / 128) % 2);
    assert(bit_at(s, n + 1) == (b / 64) % 2);
    assert(bit_at(s, n + 2) == (b / 32) % 2);
    assert(bit_at(s, n + 3) == (b / 16) % 2);
    assert(bit_at(s, n + 4) == (b / 8) % 2);
    assert(bit_at(s, n + 5) == (b / 4) % 2);
    assert(bit_at(s, n + 6) == (b / 2) % 2);
    assert(bit_at(s, n + 7) == b % 2);
    assert(bits(s, from, n + 1) == 2 * bits(s, from, n) + bit_at(s, n));
    assert(bits(s, from, n + 2) == 2 * bits(s, from, n + 1) + bit_at(s, n + 1));
    assert(bits(s, from, n + 3) == 2 * bits(s, from, n + 2) + bit_at(s, n + 2));
    assert(bits(s, from, n + 4) == 2 * bits(s, from, n + 3) + bit_at(s, n + 3));
    assert(bits(s, from, n + 5) == 2 * bits(s, from, n + 4) + bit_at(s, n + 4));
    assert(bits(s, from, n + 6) == 2 * bits(s, from, n + 5) + bit_at(s, n + 5));
    assert(bits(s, from, n + 7) == 2 * bits(s, from, n + 6) + bit_at(s, n + 6));
    assert(bits(s, from, n + 8) == 2 * bits(s, from, n + 7) + bit_at(s, n + 7));
}

/// Bits that follow one another spell a number in two parts.
pub(crate) proof fn lemma_bits_split(s: Seq<u8>, from: int, mid: int, to: int)
    requires
        0 <= from <= mid <= to <= 8 * s.len(),
    ensures
        bits(s, from, to) == bits(s, from, mid) * two(to - mid) + bits(s, mid, to),
        0 <= bits(s, mid, to) < two(to - mid),
    decreases to - mid,
{
    if mid < to {
        lemma_bits_split(s, from, mid, to - 1);
        assert(two(to - mid) == 2 * two(to - 1 - mid));
        assert(bits(s, from, mid) * (2 * two(to - 1 - mid)) == 2 * (bits(s, from, mid) * two(
            to - 1 - mid,
        ))) by (nonlinear_arith);
    }
}

/// Two to the power `n`, for the widths in use.
fn pow_two(n: u32) -> (r: u32)
    requires
        n <= 12,
    ensures
        r == two(n as int),
        1 <= r <= 4096,
    decreases n,
{
    proof {
        reveal_with_fuel(two, 14);
    }
    if n == 0 {
        1
    } else {
        2 * pow_two(n - 1)
    }
}

/// LZWDecode: codes of 9 to 12 bits, high bit first, over a growing table.
/// Code 256 empties the table, 257 ends the data, and data that stops before
/// that gives what was read so far. With `early_change` the code width grows
/// one code early.
#[verifier::rlimit(60)]
pub fn lzw_decode_with_early_change(input: &[u8], early_change: bool) -> (r: Result<
    Vec<u8>,
    PdfError,
>)
    ensures
        outcome(r) == lzw_stream(input@, early_change),
{
    let early: u32 = if early_change {
        1
    } else {
        0
    };
    let mut table: Vec<Vec<u8>> = Vec::new();
    let mut out: Vec<u8> = Vec::new();
    let mut acc: u32 = 0;
    let mut bit_cnt: u32 = 0;
    let mut byte_pos: usize = 0;
    let mut code_width: u32 = 9;
    let mut previous: Option<Vec<u8>> = None;
    let ghost goal = lzw_stream(input@, early_change);
    let ghost views: Seq<Seq<u8>> = Seq::empty();
    proof {
        lemma_two_values();
        lemma_prepend_nothing(goal);
    }
    loop
        invariant
            early == (if early_change {
                1int
            } else {
                0int
            }),
            goal == lzw_stream(input@, early_change),
            byte_pos <= input@.len(),
            9 <= code_width <= 12,
            bit_cnt < 8,
            bit_cnt <= 8 * byte_pos,
            acc == bits(input@, 8 * byte_pos - bit_cnt, 8 * byte_pos as int),
            acc < two(bit_cnt as int),
            table@.len() <= 3838,
            views.len() == table@.len(),
            forall|j: int| 0 <= j < views.len() ==> #[trigger] views[j] == table@[j]@,
            forall|j: int| 0 <= j < views.len() ==> (#[trigger] views[j]).len() > 0,
            previous matches Some(p) ==> p@.len() > 0,
            goal == prepend(
                out@,
                lzw(
                    input@,
                    early as int,
                    8 * byte_pos - bit_cnt,
                    code_width as int,
                    views,
                    opt_bytes(previous),
                ),
            ),
        decreases 8 * input@.len() - (8 * byte_pos - bit_cnt),
    {
        let ghost pos: int = 8 * byte_pos - bit_cnt;
        let ghost before = out@;
        while bit_cnt < code_width
            invariant
                byte_pos <= input@.len(),
                9 <= code_width <= 12,
                bit_cnt < code_width + 8,
                0 <= pos,
                pos == 8 * byte_pos - bit_cnt,
                acc == bits(input@, pos, 8 * byte_pos as int),
                acc < two(bit_cnt as int),
                before == out@,
                goal == lzw_stream(input@, early_change),
                goal == prepend(
                    out@,
                    lzw(
                        input@,
                        early as int,
                        pos,
                        code_width as int,
                        views,
                        opt_bytes(previous),
                    ),
                ),
            decreases code_width + 8 - bit_cnt,
        {
            if byte_pos >= input.len() {
                proof {
                    assert(out@ + Seq::<u8>::empty() =~= out@);
                }
                return Ok(out);
            }
            proof {
                lemma_byte_bits(input@, pos, byte_pos as int);
                reveal_with_fuel(two, 14);
                lemma_bits_split(input@, pos, pos, 8 * byte_pos + 8);
                assert(acc < 4096);
            }
            acc = acc * 256 + input[byte_pos] as u32;
            byte_pos = byte_pos + 1;
            bit_cnt = bit_cnt + 8;
        }
        bit_cnt = bit_cnt - code_width;
        let unit: u32 = pow_two(bit_cnt);
        let code: u32 = acc / unit;
        let ghost end: int = pos + code_width;
        proof {
            lemma_bits_split(input@, pos, end, 8 * byte_pos as int);
            let hi = bits(input@, pos, end);
            let lo = bits(input@, end, 8 * byte_pos as int);
            assert(acc == hi * unit + lo && 0 <= lo < unit);
            vstd::arithmetic::div_mod::lemma_fundamental_div_mod_converse(
                acc as int,
                unit as int,
                hi,
                lo,
            );
            lemma_bits_split(input@, pos, pos, end);
            reveal_with_fuel(two, 14);
        }
        acc = acc % unit;
        if code == 257 {
            proof {
                assert(out@ + Seq::<u8>::empty() =~= out@);
            }
            return Ok(out);
        }
        if code == 256 {
            table = Vec::new();
            code_width = 9;
            previous = None;
            proof {
                views = Seq::empty();
            }
            continue;
        }
        let next_code: u32 = 258 + table.len() as u32;
        let ghost prev_view = opt_bytes(previous);
        let entry: Vec<u8>;
        if code < 256 {
            let mut one: Vec<u8> = Vec::new();
            one.push(code as u8);
            entry = one;
            proof {
                assert(entry@ =~= seq![code as u8]);
            }
        } else if code < next_code {
            entry = clone_bytes(&table[(code - 258) as usize]);
        } else if code == next_code {
            match &previous {
                Some(p) => {
                    let mut again: Vec<u8> = clone_bytes(p);
                    again.push(p[0]);
                    entry = again;
                },
                None => {
                    return Err(PdfError::other("PDF filter: LZW first code references empty table"));
                },
            }
        } else {
            let m: String = cat_nat("PDF filter: LZW code ".to_owned(), code as u64);
            let m: String = cat_nat(cat(m, " out of range (next free "), next_code as u64);
            return Err(PdfError::Other(cat(m, ")")));
        }
        proof {
            assert(lzw_entry(code as int, views, prev_view) == Ok::<Seq<u8>, Seq<char>>(entry@));
        }
        out.extend_from_slice(entry.as_slice());
        if let Some(p) = &previous {
            if next_code <= 4095 {
                let mut fresh: Vec<u8> = clone_bytes(p);
                fresh.push(entry[0]);
                proof {
                    views = views.push(fresh@);
                }
                table.push(fresh);
            }
        }
        proof {
            assert(out@ =~= before + entry@);
        }
        let assigned: u32 = 258 + table.len() as u32;
        let ghost width = code_width as int;
        if code_width < 12 && assigned + early >= pow_two(code_width) {
            code_width = code_width + 1;
        }
        proof {
            lemma_prepend_twice(
                before,
                entry@,
                lzw(
                    input@,
                    early as int,
                    end,
                    code_width as int,
                    views,
                    Some(entry@),
                ),
            );
        }
        previous = Some(entry);
    }
}

/// What an optional byte string stands for.
pub open spec fn opt_bytes(b: Option<Vec<u8>>) -> Option<Seq<u8>> {
    match b {
        Some(v) => Some(v@),
        None => None,
    }
}

/// LZWDecode with the usual early change of the code width.
pub fn lzw_decode(input: &[u8]) -> (r: Result<Vec<u8>, PdfError>)
    ensures
        outcome(r) == lzw_stream(input@, true),
{
    lzw_decode_with_early_change(input, true)
}

// ------------------------------------------------------------- predictors

/// The predictor entries of a `/DecodeParms` dictionary.
#[derive(Debug, Clone, Copy, PartialEq, Eq)]
pub struct PredictorParams {
    /// `/Predictor`: 1 for none, 2 for TIFF, 10 to 15 for PNG.
    pub predictor: i64,
    /// `/Colors`: interleaved components of a sample.
    pub colors: usize,
    /// `/BitsPerComponent`.
    pub bits_per_component: usize,
    /// `/Columns`: samples of a row.
    pub columns: usize,
}

impl Default for PredictorParams {
    /// No predictor, one 8-bit component, one column.
    fn default() -> (r: PredictorParams)
        ensures
            r == (PredictorParams {
                predictor: 1,
                colors: 1,
                bits_per_component: 8,
                columns: 1,
            }),
    {
        PredictorParams { predictor: 1, colors: 1, bits_per_component: 8, columns: 1 }
    }
}

/// The widths that a component may have.
pub open spec fn is_component_width(bpc: int) -> bool {
    bpc == 1 || bpc == 2 || bpc == 4 || bpc == 8 || bpc == 16
}

/// The distance of `x` from `y`.
pub open spec fn distance(x: int, y: int) -> int {
    if x < y {
        y - x
    } else {
        x - y
    }
}

/// Of the neighbours left, above and above-left, the one nearest to
/// `a + b - c`, with earlier ones preferred.
pub open spec fn paeth_of(a: u8, b: u8, c: u8) -> u8 {
    let p = a + b - c;
    if distance(p, a as int) <= distance(p, b as int) && distance(p, a as int) <= distance(
        p,
        c as int,
    ) {
        a
    } else if distance(p, b as int) <= distance(p, c as int) {
        b
    } else {
        c
    }
}

/// What a row's algorithm tag predicts from the neighbours of a byte.
pub open spec fn png_predicted(tag: u8, left: u8, up: u8, up_left: u8) -> int {
    if tag == 1 {
        left as int
    } else if tag == 2 {
        up as int
    } else if tag == 3 {
        (left + up) / 2
    } else if tag == 4 {
        paeth_of(left, up, up_left) as int
    } else {
        0
    }
}

/// The byte `bpp` places before position `i` of a row, or 0 before its start.
pub open spec fn before_by(row: Seq<u8>, i: int, bpp: int) -> u8 {
    if i >= bpp {
        row[i - bpp]
    } else {
        0
    }
}

/// The first `n` bytes of a row whose differences are `src`, under the row `prev`.
pub open spec fn png_row(src: Seq<u8>, tag: u8, prev: Seq<u8>, bpp: int, n: int) -> Seq<u8>
    decreases n,
{
    if n <= 0 {
        Seq::empty()
    } else {
        let row = png_row(src, tag, prev, bpp, n - 1);
        row.push(
            ((src[n - 1] + png_predicted(
                tag,
                before_by(row, n - 1, bpp),
                prev[n - 1],
                before_by(prev, n - 1, bpp),
            )) % 256) as u8,
        )
    }
}

/// The rows of `width` bytes that PNG-predicted data stands for.
pub open spec fn png_rows(data: Seq<u8>, bpp: int, width: int, prev: Seq<u8>) -> Decoded
    decreases data.len(),
{
    if width < 0 || data.len() < width + 1 {
        Ok(Seq::empty())
    } else if data[0] > 4 {
        Err("PDF filter: PNG predictor row tag "@ + dec(data[0] as int) + " unknown (0..=4)"@)
    } else {
        let row = png_row(data.subrange(1, width + 1), data[0], prev, bpp, width);
        prepend(row, png_rows(data.skip(width + 1), bpp, width, row))
    }
}

/// What PNG-predicted data stands for: whole rows, each behind its tag.
pub open spec fn png_data(data: Seq<u8>, bpp: int, width: int) -> Decoded {
    if data.len() as int % (width + 1) != 0 {
        Err(
            "PDF filter: PNG predictor row stride "@ + dec(width + 1)
                + " does not divide data length "@ + dec(data.len() as int),
        )
    } else {
        png_rows(data, bpp, width, copies(0, width))
    }
}

/// Component `k` of a row, read high bits first.
pub open spec fn component(row: Seq<u8>, k: int, bpc: int) -> int {
    if bpc == 8 {
        row[k] as int
    } else if bpc == 16 {
        row[2 * k] * 256 + row[2 * k + 1]
    } else {
        (row[k * bpc / 8] as int / two(8 - bpc - (k * bpc) % 8)) % two(bpc)
    }
}

/// Component `k` of the row whose left differences `row` holds.
pub open spec fn summed(row: Seq<u8>, k: int, bpc: int, colors: int) -> int
    decreases k,
{
    if k < colors || colors <= 0 {
        component(row, k, bpc)
    } else {
        (component(row, k, bpc) + summed(row, k - colors, bpc, colors)) % two(bpc)
    }
}

/// The number with the digits `c[from..to]` in base `base`, a missing digit
/// counting as 0.
pub open spec fn packed(c: Seq<int>, from: int, to: int, base: int) -> int
    decreases to - from,
{
    if to <= from {
        0
    } else {
        packed(c, from, to - 1, base) * base + (if to - 1 < c.len() {
            c[to - 1]
        } else {
            0
        })
    }
}

/// Byte `j` of a row with the components `c`.
pub open spec fn row_byte(c: Seq<int>, j: int, bpc: int) -> int {
    if bpc == 16 {
        if j % 2 == 0 {
            c[j / 2] / 256
        } else {
            c[j / 2] % 256
        }
    } else {
        packed(c, j * (8int / bpc), (j + 1) * (8int / bpc), two(bpc))
    }
}

/// The `n` components of a row whose left differences `row` holds.
pub open spec fn row_components(row: Seq<u8>, n: int, bpc: int, colors: int) -> Seq<int> {
    Seq::new(n as nat, |k: int| summed(row, k, bpc, colors))
}

/// The row whose left differences `row` holds.
pub open spec fn tiff_row(row: Seq<u8>, n: int, bpc: int, colors: int) -> Seq<u8> {
    Seq::new(row.len(), |j: int| row_byte(row_components(row, n, bpc, colors), j, bpc) as u8)
}

/// The rows of `width` bytes whose left differences `data` holds.
pub open spec fn tiff_rows(data: Seq<u8>, n: int, bpc: int, colors: int, width: int) -> Seq<u8>
    decreases data.len(),
{
    if width <= 0 || data.len() < width {
        Seq::empty()
    } else {
        tiff_row(data.take(width), n, bpc, colors) + tiff_rows(
            data.skip(width),
            n,
            bpc,
            colors,
            width,
        )
    }
}

/// What TIFF-predicted data stands for: whole rows of left differences.
pub open spec fn tiff_data(data: Seq<u8>, n: int, bpc: int, colors: int, width: int) -> Decoded {
    if data.len() as int % width != 0 {
        Err(
            "PDF filter: TIFF predictor row width "@ + dec(width)
                + " does not divide data length "@ + dec(data.len() as int),
        )
    } else {
        Ok(tiff_rows(data, n, bpc, colors, width))
    }
}

/// The bits of one row.
pub open spec fn row_bits(p: PredictorParams) -> int {
    p.colors * p.bits_per_component * p.columns
}

/// What predicted data stands for.
pub open spec fn predicted(data: Seq<u8>, p: PredictorParams) -> Decoded {
    if p.predictor <= 1 {
        Ok(data)
    } else if p.colors == 0 || p.bits_per_component == 0 || p.columns == 0 {
        Err("PDF filter: predictor /Colors, /BitsPerComponent, /Columns must be positive"@)
    } else if !is_component_width(p.bits_per_component as int) {
        Err(
            "PDF filter: predictor /BitsPerComponent "@ + dec(p.bits_per_component as int)
                + " invalid (1, 2, 4, 8, 16)"@,
        )
    } else if row_bits(p) > usize::MAX {
        Err("PDF filter: predictor row width overflow"@)
    } else if p.predictor == 2 {
        tiff_data(
            data,
            p.colors * p.columns,
            p.bits_per_component as int,
            p.colors as int,
            (row_bits(p) + 7) / 8,
        )
    } else if 10 <= p.predictor <= 15 {
        png_data(data, (p.colors * p.bits_per_component + 7) / 8, (row_bits(p) + 7) / 8)
    } else {
        Err(
            "PDF filter: /Predictor "@ + dec(p.predictor as int)
                + " not supported (1, 2, 10..=15)"@,
        )
    }
}

/// Of the three neighbours, the one that the Paeth predictor picks.
fn paeth(a: u8, b: u8, c: u8) -> (r: u8)
    ensures
        r == paeth_of(a, b, c),
{
    let p: i16 = a as i16 + b as i16 - c as i16;
    let pa: i16 = if p < a as i16 {
        a as i16 - p
    } else {
        p - a as i16
    };
    let pb: i16 = if p < b as i16 {
        b as i16 - p
    } else {
        p - b as i16
    };
    let pc: i16 = if p < c as i16 {
        c as i16 - p
    } else {
        p - c as i16
    };
    if pa <= pb && pa <= pc {
        a
    } else if pb <= pc {
        b
    } else {
        c
    }
}

/// What a row's algorithm tag predicts from the neighbours of a byte.
fn png_predict(tag: u8, left: u8, up: u8, up_left: u8) -> (r: u8)
    ensures
        r == png_predicted(tag, left, up, up_left),
{
    if tag == 1 {
        left
    } else if tag == 2 {
        up
    } else if tag == 3 {
        ((left as u16 + up as u16) / 2) as u8
    } else if tag == 4 {
        paeth(left, up, up_left)
    } else {
        0
    }
}

/// Undo PNG prediction over rows of `row_bytes` bytes.
fn png_predictor(data: &[u8], bpp: usize, row_bytes: usize) -> (r: Result<Vec<u8>, PdfError>)
    requires
        1 <= bpp,
        1 <= row_bytes < usize::MAX,
    ensures
        outcome(r) == png_data(data@, bpp as int, row_bytes as int),
{
    let stride: usize = row_bytes + 1;
    if data.len() % stride != 0 {
        let m: String = cat_nat("PDF filter: PNG predictor row stride ".to_owned(), stride as u64);
        let m: String = cat_nat(cat(m, " does not divide data length "), data.len() as u64);
        return Err(PdfError::Other(m));
    }
    let mut out: Vec<u8> = Vec::new();
    let mut prev: Vec<u8> = Vec::new();
    while prev.len() < row_bytes
        invariant
            prev@.len() <= row_bytes,
            prev@ =~= copies(0, prev@.len() as int),
        decreases row_bytes - prev.len(),
    {
        prev.push(0);
    }
    let ghost goal = png_data(data@, bpp as int, row_bytes as int);
    let mut at: usize = 0;
    proof {
        assert(data@.skip(0) =~= data@);
        lemma_prepend_nothing(goal);
    }
    while data.len() - at >= stride
        invariant
            1 <= bpp,
            stride == row_bytes + 1,
            at <= data@.len(),
            prev@.len() == row_bytes,
            goal == png_data(data@, bpp as int, row_bytes as int),
            goal == prepend(
                out@,
                png_rows(data@.skip(at as int), bpp as int, row_bytes as int, prev@),
            ),
        decreases data.len() - at,
    {
        let ghost rest = data@.skip(at as int);
        let tag: u8 = data[at];
        if tag > 4 {
            let m: String = cat_nat("PDF filter: PNG predictor row tag ".to_owned(), tag as u64);
            return Err(PdfError::Other(cat(m, " unknown (0..=4)")));
        }
        let ghost src = rest.subrange(1, row_bytes + 1);
        let mut row: Vec<u8> = Vec::new();
        let mut i: usize = 0;
        while i < row_bytes
            invariant
                1 <= bpp,
                i <= row_bytes,
                at + row_bytes + 1 <= data.len(),
                prev@.len() == row_bytes,
                src == data@.skip(at as int).subrange(1, row_bytes + 1),
                row@.len() == i,
                row@ == png_row(src, tag, prev@, bpp as int, i as int),
            decreases row_bytes - i,
        {
            let raw: u8 = data[at + 1 + i];
            let left: u8 = if i >= bpp {
                row[i - bpp]
            } else {
                0
            };
            let up: u8 = prev[i];
            let up_left: u8 = if i >= bpp {
                prev[i - bpp]
            } else {
                0
            };
            let guess: u8 = png_predict(tag, left, up, up_left);
            row.push(((raw as u16 + guess as u16) % 256) as u8);
            i = i + 1;
        }
        let ghost before = out@;
        out.extend_from_slice(row.as_slice());
        proof {
            assert(out@ =~= before + row@);
            assert(rest.skip(row_bytes + 1) =~= data@.skip(at + stride));
            lemma_prepend_twice(
                before,
                row@,
                png_rows(rest.skip(row_bytes + 1), bpp as int, row_bytes as int, row@),
            );
        }
        prev = row;
        at = at + stride;
    }
    proof {
        assert(out@ + Seq::<u8>::empty() =~= out@);
    }
    Ok(out)
}


/// Every component of a row lies below `2^bpc`.
proof fn lemma_summed_bound(row: Seq<u8>, k: int, n: int, bpc: int, colors: int)
    requires
        is_component_width(bpc),
        colors > 0,
        0 <= k < n,
        row.len() == (n * bpc + 7) / 8,
    ensures
        0 <= summed(row, k, bpc, colors) < two(bpc),
    decreases k,
{
    lemma_two_values();
    if k >= colors {
        lemma_summed_bound(row, k - colors, n, bpc, colors);
    }
    lemma_by_width(n, bpc);
    lemma_by_width(k, bpc);
    if bpc != 8 && bpc != 16 {
        assert(bpc == 1 || bpc == 2 || bpc == 4);
    }
}

/// A number with `to - from` digits below `base` lies below `base^(to - from)`.
proof fn lemma_packed_bound(c: Seq<int>, from: int, to: int, base: int, width: int)
    requires
        from <= to,
        base == two(width),
        width >= 0,
        from >= 0,
        forall|i: int| 0 <= i < c.len() ==> 0 <= #[trigger] c[i] < base,
    ensures
        0 <= packed(c, from, to, base) < two(width * (to - from)),
    decreases to - from,
{
    if from < to {
        lemma_packed_bound(c, from, to - 1, base, width);
        let m = packed(c, from, to - 1, base);
        let q = two(width * (to - 1 - from));
        lemma_two_positive(width);
        assert(width * (to - from) == width * (to - 1 - from) + width) by (nonlinear_arith);
        assert(width * (to - 1 - from) >= 0) by (nonlinear_arith)
            requires
                width >= 0,
                from < to,
        ;
        lemma_two_sum(width * (to - 1 - from), width);
        assert(0 <= m * base && m * base + base <= q * base) by (nonlinear_arith)
            requires
                0 <= m < q,
                base >= 1,
        ;
    } else {
        assert(width * 0 == 0);
    }
}

/// A product by a component width, spelled out for each width.
proof fn lemma_by_width(n: int, bpc: int)
    ensures
        bpc == 1 ==> n * bpc == n,
        bpc == 2 ==> n * bpc == 2 * n,
        bpc == 4 ==> n * bpc == 4 * n,
        bpc == 8 ==> n * bpc == 8 * n,
        bpc == 16 ==> n * bpc == 16 * n,
{
    assert(bpc == 1 ==> n * bpc == n) by (nonlinear_arith);
    assert(bpc == 2 ==> n * bpc == 2 * n) by (nonlinear_arith);
    assert(bpc == 4 ==> n * bpc == 4 * n) by (nonlinear_arith);
    assert(bpc == 8 ==> n * bpc == 8 * n) by (nonlinear_arith);
    assert(bpc == 16 ==> n * bpc == 16 * n) by (nonlinear_arith);
}

proof fn lemma_two_positive(n: int)
    ensures
        two(n) >= 1,
    decreases n,
{
    if n > 0 {
        lemma_two_positive(n - 1);
    }
}

proof fn lemma_two_sum(a: int, b: int)
    requires
        a >= 0,
        b >= 0,
    ensures
        two(a + b) == two(a) * two(b),
    decreases b,
{
    if b > 0 {
        lemma_two_sum(a, b - 1);
        let x = two(a);
        let y = two(b - 1);
        assert(2 * (x * y) == x * (2 * y)) by (nonlinear_arith);
    }
}

/// Component `k` of a row.
pub(crate) fn read_component(row: &[u8], k: usize, n: usize, bpc: usize) -> (r: u32)
    requires
        is_component_width(bpc as int),
        k < n,
        n * bpc <= usize::MAX,
        row@.len() == (n * bpc + 7) / 8,
    ensures
        r == component(row@, k as int, bpc as int),
        r < 65536,
{
    proof {
        lemma_two_values();
        lemma_by_width(n as int, bpc as int);
        lemma_by_width(k as int, bpc as int);
        assert(row@.len() == row.len());
    }
    if bpc == 8 {
        row[k] as u32
    } else if bpc == 16 {
        row[2 * k] as u32 * 256 + row[2 * k + 1] as u32
    } else {
        proof {
            assert(bpc == 1 || bpc == 2 || bpc == 4);
            assert(k * bpc + bpc <= n * bpc) by (nonlinear_arith)
                requires
                    k < n,
                    bpc >= 0,
            ;
        }
        let bit: usize = k * bpc;
        let shift: u32 = (8 - bpc - bit % 8) as u32;
        (row[bit / 8] as u32 / pow_two(shift)) % pow_two(bpc as u32)
    }
}

/// A component of one bit is 0 or 1.
pub(crate) proof fn lemma_bit_component(row: Seq<u8>, k: int)
    ensures
        0 <= component(row, k, 1) <= 1,
{
    lemma_two_values();
}

/// The row of `n` components whose left differences `row` holds.
#[verifier::rlimit(40)]
fn undo_tiff_row(row: &[u8], n: usize, bpc: usize, colors: usize) -> (r: Vec<u8>)
    requires
        is_component_width(bpc as int),
        colors > 0,
        n > 0,
        n * bpc <= usize::MAX,
        row@.len() == (n * bpc + 7) / 8,
    ensures
        r@ == tiff_row(row@, n as int, bpc as int, colors as int),
{
    let ghost comps = row_components(row@, n as int, bpc as int, colors as int);
    proof {
        lemma_two_values();
    }
    let modulus: u32 = if bpc == 16 {
        65536
    } else {
        pow_two(bpc as u32)
    };
    let mut c: Vec<u32> = Vec::new();
    let mut k: usize = 0;
    while k < n
        invariant
            is_component_width(bpc as int),
            colors > 0,
            n * bpc <= usize::MAX,
            row@.len() == (n * bpc + 7) / 8,
            modulus == two(bpc as int),
            0 < modulus <= 65536,
            k <= n,
            c@.len() == k,
            comps == row_components(row@, n as int, bpc as int, colors as int),
            forall|i: int| 0 <= i < k ==> (#[trigger] c@[i]) as int == comps[i],
        decreases n - k,
    {
        let own: u32 = read_component(row, k, n, bpc);
        proof {
            lemma_summed_bound(row@, k as int, n as int, bpc as int, colors as int);
        }
        if k < colors {
            c.push(own);
        } else {
            let left: u32 = c[k - colors];
            proof {
                lemma_summed_bound(row@, k - colors, n as int, bpc as int, colors as int);
            }
            c.push((own + left) % modulus);
        }
        k = k + 1;
    }
    proof {
        assert forall|i: int| 0 <= i < comps.len() implies 0 <= #[trigger] comps[i] < modulus by {
            lemma_summed_bound(row@, i, n as int, bpc as int, colors as int);
        }
    }
    let mut out: Vec<u8> = Vec::new();
    let mut j: usize = 0;
    while j < row.len()
        invariant
            is_component_width(bpc as int),
            n > 0,
            n * bpc <= usize::MAX,
            row@.len() == (n * bpc + 7) / 8,
            modulus == two(bpc as int),
            0 < modulus <= 65536,
            j <= row@.len(),
            out@.len() == j,
            c@.len() == n,
            comps.len() == n,
            forall|i: int| 0 <= i < n ==> (#[trigger] c@[i]) as int == comps[i],
            forall|i: int| 0 <= i < n ==> 0 <= #[trigger] comps[i] < modulus,
            forall|i: int|
                0 <= i < j ==> #[trigger] out@[i] as int == row_byte(comps, i, bpc as int),
        decreases row.len() - j,
    {
        proof {
            lemma_two_values();
            lemma_by_width(n as int, bpc as int);
        }
        if bpc == 16 {
            let v: u32 = c[j / 2];
            if j % 2 == 0 {
                out.push((v / 256) as u8);
            } else {
                out.push((v % 256) as u8);
            }
        } else {
            let per: usize = 8 / bpc;
            proof {
                assert((bpc == 1 && per == 8) || (bpc == 2 && per == 4) || (bpc == 4 && per == 2)
                    || (bpc == 8 && per == 1));
                lemma_by_width(j as int, per as int);
                assert(j * per + per <= n + 7);
            }
            let mut v: u32 = 0;
            let mut t: usize = 0;
            while t < per
                invariant
                    t <= per,
                    (bpc == 1 && per == 8) || (bpc == 2 && per == 4) || (bpc == 4 && per == 2) || (
                    bpc == 8 && per == 1),
                    modulus == two(bpc as int),
                    0 < modulus <= 256,
                    n * bpc <= usize::MAX,
                    j * per + per <= n + 7,
                    j < n,
                    c@.len() == n,
                    comps.len() == n,
                    forall|i: int| 0 <= i < n ==> (#[trigger] c@[i]) as int == comps[i],
                    forall|i: int| 0 <= i < n ==> 0 <= #[trigger] comps[i] < modulus,
                    v == packed(comps, j * per as int, j * per + t, modulus as int),
                    v < two(bpc * t),
                decreases per - t,
            {
                proof {
                    lemma_packed_bound(
                        comps,
                        j * per as int,
                        j * per + t + 1,
                        modulus as int,
                        bpc as int,
                    );
                    reveal_with_fuel(two, 10);
                    assert(bpc * t <= 7 && bpc * (t + 1) <= 8);
                    assert(v < 256);
                    assert(v * modulus <= 256 * 256) by (nonlinear_arith)
                        requires
                            v < 256,
                            modulus <= 256,
                    ;
                }
                let pos: usize = j * per + t;
                let own: u32 = if pos < n {
                    c[pos]
                } else {
                    0
                };
                v = v * modulus + own;
                t = t + 1;
            }
            proof {
                reveal_with_fuel(two, 10);
                assert(bpc * per == 8);
                assert((j + 1) * per == j * per + per) by (nonlinear_arith);
            }
            out.push(v as u8);
        }
        j = j + 1;
    }
    proof {
        assert(out@ =~= tiff_row(row@, n as int, bpc as int, colors as int));
    }
    out
}

/// Undo TIFF prediction over rows of `n` components in `row_bytes` bytes.
fn tiff_predictor_2(
    data: &[u8],
    n: usize,
    bpc: usize,
    colors: usize,
    row_bytes: usize,
) -> (r: Result<Vec<u8>, PdfError>)
    requires
        is_component_width(bpc as int),
        colors > 0,
        n > 0,
        n * bpc <= usize::MAX,
        row_bytes == (n * bpc + 7) / 8,
        row_bytes > 0,
    ensures
        outcome(r) == tiff_data(
            data@,
            n as int,
            bpc as int,
            colors as int,
            row_bytes as int,
        ),
{
    if data.len() % row_bytes != 0 {
        let m: String = cat_nat(
            "PDF filter: TIFF predictor row width ".to_owned(),
            row_bytes as u64,
        );
        let m: String = cat_nat(cat(m, " does not divide data length "), data.len() as u64);
        return Err(PdfError::Other(m));
    }
    let mut out: Vec<u8> = Vec::new();
    let mut at: usize = 0;
    let ghost goal = tiff_rows(data@, n as int, bpc as int, colors as int, row_bytes as int);
    proof {
        assert(data@.skip(0) =~= data@);
        assert(Seq::<u8>::empty() + goal =~= goal);
    }
    while data.len() - at >= row_bytes
        invariant
            is_component_width(bpc as int),
            colors > 0,
            n > 0,
            n * bpc <= usize::MAX,
            row_bytes == (n * bpc + 7) / 8,
            row_bytes > 0,
            at <= data.len(),
            goal == tiff_rows(data@, n as int, bpc as int, colors as int, row_bytes as int),
            goal == out@ + tiff_rows(
                data@.skip(at as int),
                n as int,
                bpc as int,
                colors as int,
                row_bytes as int,
            ),
        decreases data.len() - at,
    {
        let ghost rest = data@.skip(at as int);
        let ghost before = out@;
        let row: &[u8] = vstd::slice::slice_subrange(data, at, at + row_bytes);
        let undone: Vec<u8> = undo_tiff_row(row, n, bpc, colors);
        out.extend_from_slice(undone.as_slice());
        proof {
            assert(rest.take(row_bytes as int) =~= row@);
            assert(rest.skip(row_bytes as int) =~= data@.skip(at + row_bytes));
            assert(out@ =~= before + undone@);
            let tail = tiff_rows(
                rest.skip(row_bytes as int),
                n as int,
                bpc as int,
                colors as int,
                row_bytes as int,
            );
            assert(before + (undone@ + tail) =~= (before + undone@) + tail);
        }
        at = at + row_bytes;
    }
    proof {
        assert(out@ + Seq::<u8>::empty() =~= out@);
    }
    Ok(out)
}

/// Undo the prediction that an LZW or Flate stream went through before it was
/// compressed: none for a predictor up to 1, left differences of components
/// for 2, and rows with a leading algorithm tag for 10 to 15.
pub fn apply_predictor(data: &[u8], params: &PredictorParams) -> (r: Result<Vec<u8>, PdfError>)
    ensures
        outcome(r) == predicted(data@, *params),
{
    if params.predictor <= 1 {
        return Ok(vstd::slice::slice_to_vec(data));
    }
    let colors: usize = params.colors;
    let bpc: usize = params.bits_per_component;
    let columns: usize = params.columns;
    if colors == 0 || bpc == 0 || columns == 0 {
        return Err(
            PdfError::other(
                "PDF filter: predictor /Colors, /BitsPerComponent, /Columns must be positive",
            ),
        );
    }
    if !(bpc == 1 || bpc == 2 || bpc == 4 || bpc == 8 || bpc == 16) {
        let m: String = cat_nat("PDF filter: predictor /BitsPerComponent ".to_owned(), bpc as u64);
        return Err(PdfError::Other(cat(m, " invalid (1, 2, 4, 8, 16)")));
    }
    proof {
        let a = colors as int;
        let b = bpc as int;
        let c = columns as int;
        assert(a * b * c >= a * b) by (nonlinear_arith)
            requires
                a >= 1,
                b >= 1,
                c >= 1,
        ;
        assert(a * b * c == a * c * b) by (nonlinear_arith);
        assert(a * c * b >= a * c) by (nonlinear_arith)
            requires
                a >= 1,
                b >= 1,
                c >= 1,
        ;
        assert(a * b >= 1 && a * c >= 1) by (nonlinear_arith)
            requires
                a >= 1,
                b >= 1,
                c >= 1,
        ;
    }
    let pixel_bits: usize = match colors.checked_mul(bpc) {
        Some(v) => v,
        None => {
            return Err(PdfError::other("PDF filter: predictor row width overflow"));
        },
    };
    let total: usize = match pixel_bits.checked_mul(columns) {
        Some(v) => v,
        None => {
            return Err(PdfError::other("PDF filter: predictor row width overflow"));
        },
    };
    let row_bytes: usize = bytes_for_bits(total);
    if params.predictor == 2 {
        tiff_predictor_2(data, colors * columns, bpc, colors, row_bytes)
    } else if 10 <= params.predictor && params.predictor <= 15 {
        png_predictor(data, bytes_for_bits(pixel_bits), row_bytes)
    } else {
        let m: String = cat_int("PDF filter: /Predictor ".to_owned(), params.predictor);
        Err(PdfError::Other(cat(m, " not supported (1, 2, 10..=15)")))
    }
}

/// The bytes that hold `n` bits.
fn bytes_for_bits(n: usize) -> (r: usize)
    ensures
        r == (n + 7) / 8,
{
    if n % 8 == 0 {
        n / 8
    } else {
        n / 8 + 1
    }
}

// ------------------------------------------------------------------ Flate

/// The error type of the compression crate.
#[verifier::external_type_specification]
#[verifier::external_body]
pub struct ExCompressionError(compcol::Error);

/// What zlib data inflates to, or `None` where it is damaged or incomplete.
pub uninterp spec fn inflated(data: Seq<u8>) -> Option<Seq<u8>>;

/// `compcol::vec::decompress_to_vec` for zlib: the inflated bytes, which are
/// a function of the compressed ones alone, or an error.
#[verifier::external_body]
fn zlib_decompress(data: &[u8]) -> (r: Result<Vec<u8>, compcol::Error>)
    ensures
        r matches Ok(v) ==> inflated(data@) == Some(v@),
        r is Err ==> inflated(data@) is None,
{
    compcol::vec::decompress_to_vec::<compcol::zlib::Zlib>(data)
}

/// What a Flate stream stands for before its predictor is undone.
pub open spec fn flate(data: Seq<u8>) -> Decoded {
    match inflated(data) {
        Some(v) => Ok(v),
        None => Err("PDF filter: FlateDecode data is not a valid zlib stream"@),
    }
}

/// FlateDecode: inflate a zlib stream. A predictor is undone separately.
pub fn flate_decompress(input: &[u8]) -> (r: Result<Vec<u8>, PdfError>)
    ensures
        outcome(r) == flate(input@),
{
    match zlib_decompress(input) {
        Ok(v) => Ok(v),
        Err(_) => Err(PdfError::other("PDF filter: FlateDecode data is not a valid zlib stream")),
    }
}

// ------------------------------------------------------------------- laws

/// A byte as two hexadecimal digits.
pub open spec fn hex_pair(b: u8) -> Seq<u8> {
    seq![upper_hex(b / 16), upper_hex(b % 16)]
}

/// An uppercase hexadecimal digit.
pub open spec fn upper_hex(d: u8) -> u8 {
    if d < 10 {
        (48 + d) as u8
    } else {
        (55 + d) as u8
    }
}

/// Bytes written in hexadecimal, up to and with the closing `>`.
pub open spec fn hex_encoded(data: Seq<u8>) -> Seq<u8>
    decreases data.len(),
{
    if data.len() == 0 {
        seq![62u8]
    } else {
        hex_pair(data[0]) + hex_encoded(data.skip(1))
    }
}

/// Hexadecimal text decodes to the bytes it was written from, whatever
/// follows its closing `>`.
pub proof fn law_hex_round_trip(data: Seq<u8>, after: Seq<u8>)
    ensures
        hex_data(hex_encoded(data) + after, None) == Ok::<Seq<u8>, Seq<char>>(data),
    decreases data.len(),
{
    let s = hex_encoded(data) + after;
    if data.len() == 0 {
        assert(s[0] == 62);
        assert(data =~= Seq::empty());
    } else {
        let b = data[0];
        let tail = hex_encoded(data.skip(1)) + after;
        law_hex_round_trip(data.skip(1), after);
        assert(s =~= hex_pair(b) + tail);
        assert(s[0] == upper_hex(b / 16) && s[1] == upper_hex(b % 16));
        assert(s.skip(1)[0] == upper_hex(b % 16));
        assert(s.skip(1).skip(1) =~= tail);
        assert(hex_value(s[0]) == Some(b / 16));
        assert(hex_value(s[1]) == Some(b % 16));
        assert(hex_data(s, None) == hex_data(s.skip(1), Some(b / 16)));
        assert(seq![b] + data.skip(1) =~= data);
    }
}

/// Bytes written as literal runs, up to and with the end mark.
pub open spec fn literal_runs(data: Seq<u8>) -> Seq<u8>
    decreases data.len(),
{
    if data.len() == 0 {
        seq![128u8]
    } else if data.len() <= 128 {
        seq![(data.len() - 1) as u8] + data + seq![128u8]
    } else {
        seq![127u8] + data.take(128) + literal_runs(data.skip(128))
    }
}

/// Literal runs decode to the bytes they were written from.
pub proof fn law_run_length_literals(data: Seq<u8>)
    ensures
        run_length(literal_runs(data)) == Ok::<Seq<u8>, Seq<char>>(data),
    decreases data.len(),
{
    let s = literal_runs(data);
    if data.len() == 0 {
        assert(data =~= Seq::empty());
    } else if data.len() <= 128 {
        let n = data.len() as int;
        assert(s.subrange(1, 1 + n) =~= data);
        assert(s.skip(1 + n) =~= seq![128u8]);
        assert(run_length(seq![128u8]) == Ok::<Seq<u8>, Seq<char>>(Seq::empty()));
        assert(data + Seq::<u8>::empty() =~= data);
    } else {
        law_run_length_literals(data.skip(128));
        assert(s.subrange(1, 129) =~= data.take(128));
        assert(s.skip(129) =~= literal_runs(data.skip(128)));
        assert(data.take(128) + data.skip(128) =~= data);
    }
}

/// A repeated byte written as one run decodes to its copies.
pub proof fn law_run_length_repeat(b: u8, n: int)
    requires
        2 <= n <= 128,
    ensures
        run_length(seq![(257 - n) as u8, b, 128u8]) == Ok::<Seq<u8>, Seq<char>>(copies(b, n)),
{
    let s = seq![(257 - n) as u8, b, 128u8];
    assert(s.skip(2) =~= seq![128u8]);
    assert(run_length(seq![128u8]) == Ok::<Seq<u8>, Seq<char>>(Seq::empty()));
    assert(copies(b, n) + Seq::<u8>::empty() =~= copies(b, n));
}

/// Four bytes as five base-85 digits, in the characters `!`..`u`.
pub open spec fn a85_group(b: Seq<u8>) -> Seq<u8> {
    let v = ((b[0] as int * 256 + b[1]) * 256 + b[2]) * 256 + b[3];
    seq![
        (33 + v / 52200625) as u8,
        (33 + (v / 614125) % 85) as u8,
        (33 + (v / 7225) % 85) as u8,
        (33 + (v / 85) % 85) as u8,
        (33 + v % 85) as u8,
    ]
}

/// Bytes written in base 85, four at a time, up to and with the end mark.
pub open spec fn a85_encoded(data: Seq<u8>) -> Seq<u8>
    decreases data.len(),
{
    if data.len() < 4 {
        seq![126u8, 62u8]
    } else {
        a85_group(data) + a85_encoded(data.skip(4))
    }
}

/// The digits of a number in base 85 give the number back.
proof fn lemma_a85_digits(v: int)
    requires
        0 <= v < 4294967296,
    ensures
        0 <= v / 52200625 < 85,
        ((((v / 52200625) * 85 + (v / 614125) % 85) * 85 + (v / 7225) % 85) * 85 + (v / 85) % 85)
            * 85 + v % 85 == v,
{
    let a = v / 85;
    let b = v / 7225;
    let c = v / 614125;
    let d = v / 52200625;
    assert(b == a / 85);
    assert(c == b / 85);
    assert(d == c / 85);
    assert(d % 85 == d);
}

/// The number that four bytes make.
spec fn be_value(data: Seq<u8>) -> int {
    ((data[0] as int * 256 + data[1]) * 256 + data[2]) * 256 + data[3]
}

/// The digits of a group, each as a number.
spec fn a85_group_digits(data: Seq<u8>) -> Seq<u8> {
    a85_group(data).map_values(|b: u8| (b - 33) as u8)
}

/// The digits of a group stand for the four bytes that it was written from.
proof fn lemma_a85_group(data: Seq<u8>)
    requires
        data.len() >= 4,
    ensures
        a85_group(data).len() == 5,
        forall|i: int| 0 <= i < 5 ==> 33 <= #[trigger] a85_group(data)[i] <= 117,
        a85_group_digits(data).len() == 5,
        a85_value(a85_group_digits(data)) == be_value(data),
        0 <= be_value(data) < 4294967296,
        be_bytes(be_value(data)) == data.take(4),
{
    lemma_a85_digits(be_value(data));
    lemma_be_bytes(data[0], data[1], data[2], data[3]);
    assert(data.take(4) =~= seq![data[0], data[1], data[2], data[3]]);
}

/// Five ordinary digits in front of other text decode as one group.
proof fn lemma_a85_five(g: Seq<u8>, t: Seq<u8>)
    requires
        g.len() == 5,
        forall|i: int| 0 <= i < 5 ==> 33 <= #[trigger] g[i] <= 117,
    ensures
        a85(g + t, Seq::empty()) == a85(
            seq![g[4]] + t,
            seq![(g[0] - 33) as u8, (g[1] - 33) as u8, (g[2] - 33) as u8, (g[3] - 33) as u8],
        ),
{
    let e = Seq::<u8>::empty();
    let s = g + t;
    let s1 = s.skip(1);
    let s2 = s1.skip(1);
    let s3 = s2.skip(1);
    let d = |i: int| (g[i] - 33) as u8;
    assert(s[0] == g[0] && s1[0] == g[1] && s2[0] == g[2] && s3[0] == g[3]);
    lemma_a85_step(s, e);
    lemma_a85_step(s1, e.push(d(0)));
    lemma_a85_step(s2, e.push(d(0)).push(d(1)));
    lemma_a85_step(s3, e.push(d(0)).push(d(1)).push(d(2)));
    assert(s3.skip(1) =~= seq![g[4]] + t);
    assert(e.push(d(0)).push(d(1)).push(d(2)).push(d(3)) =~= seq![d(0), d(1), d(2), d(3)]);
}

/// The last digit of a group ends it.
proof fn lemma_a85_last(b: u8, t: Seq<u8>, g: Seq<u8>, v: int)
    requires
        33 <= b <= 117,
        g.len() == 4,
        a85_value(g.push((b - 33) as u8)) == v,
        0 <= v < 4294967296,
    ensures
        a85(seq![b] + t, g) == (match a85(t, Seq::empty()) {
            Ok(rest) => Ok::<Seq<u8>, Seq<char>>(be_bytes(v) + rest),
            Err(e) => Err(e),
        }),
{
    let s = seq![b] + t;
    assert(s[0] == b);
    assert(s.skip(1) =~= t);
}

/// Base-85 text decodes to the bytes it was written from.
pub proof fn law_ascii85_round_trip(data: Seq<u8>)
    requires
        data.len() % 4 == 0,
    ensures
        a85(a85_encoded(data), Seq::empty()) == Ok::<Seq<u8>, Seq<char>>(data),
    decreases data.len(),
{
    if data.len() < 4 {
        assert(data =~= Seq::empty());
        assert(a85_rest(Seq::<u8>::empty()) == Ok::<Seq<u8>, Seq<char>>(Seq::empty()));
    } else {
        law_ascii85_round_trip(data.skip(4));
        let t = a85_encoded(data.skip(4));
        let g = a85_group(data);
        lemma_a85_group(data);
        lemma_a85_five(g, t);
        let four = seq![
            (g[0] - 33) as u8,
            (g[1] - 33) as u8,
            (g[2] - 33) as u8,
            (g[3] - 33) as u8,
        ];
        assert(four.push((g[4] - 33) as u8) =~= a85_group_digits(data));
        lemma_a85_last(g[4], t, four, be_value(data));
        assert(data.take(4) + data.skip(4) =~= data);
    }
}

/// An ordinary digit joins the group in front of it.
proof fn lemma_a85_step(s: Seq<u8>, g: Seq<u8>)
    requires
        s.len() > 0,
        33 <= s[0] <= 117,
        g.len() < 4,
    ensures
        a85(s, g) == a85(s.skip(1), g.push((s[0] - 33) as u8)),
{
}

/// The bytes of a number made from four bytes are those bytes.
proof fn lemma_be_bytes(a: u8, b: u8, c: u8, d: u8)
    ensures
        be_bytes(((a as int * 256 + b) * 256 + c) * 256 + d) == seq![a, b, c, d],
{
    let v = ((a as int * 256 + b) * 256 + c) * 256 + d;
    assert(v / 256 == (a as int * 256 + b) * 256 + c);
    assert(v / 65536 == a as int * 256 + b);
    assert(v / 16777216 == a as int);
    assert(be_bytes(v) =~= seq![a, b, c, d]);
}

/// Undoing PNG prediction leaves the rows and drops one tag byte of each.
pub proof fn law_png_length(data: Seq<u8>, bpp: int, width: int)
    requires
        width >= 1,
        bpp >= 1,
    ensures
        png_data(data, bpp, width) matches Ok(out) ==> out.len() + data.len() / ((width + 1) as nat)
            == data.len(),
{
    if data.len() as int % (width + 1) == 0 {
        lemma_png_rows_length(data, bpp, width, copies(0, width));
    }
}

proof fn lemma_png_rows_length(data: Seq<u8>, bpp: int, width: int, prev: Seq<u8>)
    requires
        width >= 1,
        data.len() as int % (width + 1) == 0,
    ensures
        png_rows(data, bpp, width, prev) matches Ok(out) ==> out.len() + data.len() / ((width
            + 1) as nat) == data.len(),
    decreases data.len(),
{
    let n = data.len() as int;
    let w = width + 1;
    if n >= w {
        vstd::arithmetic::div_mod::lemma_mod_sub_multiples_vanish(n, w);
        vstd::arithmetic::div_mod::lemma_div_minus_one(n, w);
        if data[0] <= 4 {
            let row = png_row(data.subrange(1, width + 1), data[0], prev, bpp, width);
            lemma_png_row_length(data.subrange(1, width + 1), data[0], prev, bpp, width);
            lemma_png_rows_length(data.skip(width + 1), bpp, width, row);
        }
    } else {
        vstd::arithmetic::div_mod::lemma_small_mod(n as nat, w as nat);
        assert(n == 0);
    }
}

proof fn lemma_png_row_length(src: Seq<u8>, tag: u8, prev: Seq<u8>, bpp: int, n: int)
    requires
        n >= 0,
    ensures
        png_row(src, tag, prev, bpp, n).len() == n,
    decreases n,
{
    if n > 0 {
        lemma_png_row_length(src, tag, prev, bpp, n - 1);
    }
}

/// Undoing TIFF prediction keeps the length.
pub proof fn law_tiff_length(data: Seq<u8>, n: int, bpc: int, colors: int, width: int)
    requires
        width >= 1,
    ensures
        tiff_data(data, n, bpc, colors, width) matches Ok(out) ==> out.len() == data.len(),
{
    if data.len() as int % width == 0 {
        lemma_tiff_rows_length(data, n, bpc, colors, width);
    }
}

proof fn lemma_tiff_rows_length(data: Seq<u8>, n: int, bpc: int, colors: int, width: int)
    requires
        width >= 1,
        data.len() as int % width == 0,
    ensures
        tiff_rows(data, n, bpc, colors, width).len() == data.len(),
    decreases data.len(),
{
    if data.len() >= width {
        vstd::arithmetic::div_mod::lemma_mod_sub_multiples_vanish(data.len() as int, width);
        lemma_tiff_rows_length(data.skip(width), n, bpc, colors, width);
    } else {
        vstd::arithmetic::div_mod::lemma_small_mod(data.len(), width as nat);
    }
}

} // verus!
