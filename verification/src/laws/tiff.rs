//! Laws of the TIFF predictor.

use vstd::prelude::*;
use crate::filters::{
    component, lemma_two_values, packed, predicted, row_byte, row_components, summed, tiff_row,
    tiff_rows, two, PredictorParams,
};
use crate::laws::filters::joined_rows;

verus! {

/// Component `i`, or 0 where there is none.
pub open spec fn item(c: Seq<int>, i: int) -> int {
    if 0 <= i < c.len() {
        c[i]
    } else {
        0
    }
}

/// Byte `j` of a row with components of `bits` bits, the first in the high bits.
pub open spec fn byte_of(c: Seq<int>, j: int, bits: int) -> int {
    if bits == 16 {
        if j % 2 == 0 {
            item(c, j / 2) / 256
        } else {
            item(c, j / 2) % 256
        }
    } else if bits == 8 {
        item(c, j)
    } else if bits == 4 {
        16 * item(c, 2 * j) + item(c, 2 * j + 1)
    } else if bits == 2 {
        64 * item(c, 4 * j) + 16 * item(c, 4 * j + 1) + 4 * item(c, 4 * j + 2) + item(c, 4 * j + 3)
    } else {
        128 * item(c, 8 * j) + 64 * item(c, 8 * j + 1) + 32 * item(c, 8 * j + 2) + 16 * item(
            c,
            8 * j + 3,
        ) + 8 * item(c, 8 * j + 4) + 4 * item(c, 8 * j + 5) + 2 * item(c, 8 * j + 6) + item(
            c,
            8 * j + 7,
        )
    }
}

/// A row of `width` bytes with these components.
pub open spec fn row_of(c: Seq<int>, bits: int, width: int) -> Seq<u8> {
    Seq::new(width as nat, |j: int| byte_of(c, j, bits) as u8)
}

/// How many values a component of `bits` bits has.
pub open spec fn values(bits: int) -> int {
    if bits == 1 {
        2
    } else if bits == 2 {
        4
    } else if bits == 4 {
        16
    } else if bits == 8 {
        256
    } else {
        65536
    }
}

/// Components of `bits` bits.
pub open spec fn are_components(c: Seq<int>, bits: int) -> bool {
    forall|i: int| 0 <= i < c.len() ==> 0 <= #[trigger] c[i] < values(bits)
}

/// The differences that an encoder writes: from each component that of the
/// sample to the left is taken away.
pub open spec fn differences(c: Seq<int>, bits: int, colors: int) -> Seq<int> {
    Seq::new(
        c.len(),
        |i: int|
            if i < colors {
                c[i]
            } else {
                (c[i] - c[i - colors]) % values(bits)
            },
    )
}

proof fn lemma_item_bound(c: Seq<int>, bits: int, i: int)
    requires
        are_components(c, bits),
        bits == 1 || bits == 2 || bits == 4 || bits == 8 || bits == 16,
    ensures
        0 <= item(c, i) < values(bits),
{
}

#[verifier::rlimit(50)]
proof fn lemma_halves(a: int, b: int)
    requires
        0 <= a < 16,
        0 <= b < 16,
    ensures
        ((16 * a + b) / 16) % 16 == a,
        (16 * a + b) % 16 == b,
{
}

#[verifier::rlimit(50)]
proof fn lemma_quarters(a: int, b: int, c: int, d: int)
    requires
        0 <= a < 4,
        0 <= b < 4,
        0 <= c < 4,
        0 <= d < 4,
    ensures
        ((64 * a + 16 * b + 4 * c + d) / 64) % 4 == a,
        ((64 * a + 16 * b + 4 * c + d) / 16) % 4 == b,
        ((64 * a + 16 * b + 4 * c + d) / 4) % 4 == c,
        (64 * a + 16 * b + 4 * c + d) % 4 == d,
{
    let x = 64 * a + 16 * b + 4 * c + d;
    assert(x / 4 == 16 * a + 4 * b + c);
    assert(x / 16 == 4 * a + b);
    assert(x / 64 == a);
}

#[verifier::rlimit(50)]
proof fn lemma_eighths(a: int, b: int, c: int, d: int, e: int, f: int, g: int, h: int)
    requires
        0 <= a < 2,
        0 <= b < 2,
        0 <= c < 2,
        0 <= d < 2,
        0 <= e < 2,
        0 <= f < 2,
        0 <= g < 2,
        0 <= h < 2,
    ensures
        ({
            let x = 128 * a + 64 * b + 32 * c + 16 * d + 8 * e + 4 * f + 2 * g + h;
            &&& (x / 128) % 2 == a
            &&& (x / 64) % 2 == b
            &&& (x / 32) % 2 == c
            &&& (x / 16) % 2 == d
            &&& (x / 8) % 2 == e
            &&& (x / 4) % 2 == f
            &&& (x / 2) % 2 == g
            &&& x % 2 == h
        }),
{
    let x = 128 * a + 64 * b + 32 * c + 16 * d + 8 * e + 4 * f + 2 * g + h;
    assert(x / 2 == 64 * a + 32 * b + 16 * c + 8 * d + 4 * e + 2 * f + g);
    assert(x / 4 == 32 * a + 16 * b + 8 * c + 4 * d + 2 * e + f);
    assert(x / 8 == 16 * a + 8 * b + 4 * c + 2 * d + e);
    assert(x / 16 == 8 * a + 4 * b + 2 * c + d);
    assert(x / 32 == 4 * a + 2 * b + c);
    assert(x / 64 == 2 * a + b);
    assert(x / 128 == a);
}

#[verifier::rlimit(50)]
proof fn lemma_component_4(c: Seq<int>, width: int, k: int)
    requires
        are_components(c, 4),
        0 <= k < c.len(),
        c.len() * 4 <= 8 * width,
    ensures
        component(row_of(c, 4, width), k, 4) == c[k],
{
    lemma_two_values();
    let row = row_of(c, 4, width);
    let j = k / 2;
    lemma_item_bound(c, 4, 2 * j);
    lemma_item_bound(c, 4, 2 * j + 1);
    lemma_halves(item(c, 2 * j), item(c, 2 * j + 1));
    assert(k * 4 / 8 == j);
    assert(row[j] == 16 * item(c, 2 * j) + item(c, 2 * j + 1));
    if k % 2 == 0 {
        assert(k == 2 * j && (k * 4) % 8 == 0);
    } else {
        assert(k == 2 * j + 1 && (k * 4) % 8 == 4);
    }
}

#[verifier::rlimit(50)]
proof fn lemma_component_2(c: Seq<int>, width: int, k: int)
    requires
        are_components(c, 2),
        0 <= k < c.len(),
        c.len() * 2 <= 8 * width,
    ensures
        component(row_of(c, 2, width), k, 2) == c[k],
{
    lemma_two_values();
    let row = row_of(c, 2, width);
    let j = k / 4;
    lemma_item_bound(c, 2, 4 * j);
    lemma_item_bound(c, 2, 4 * j + 1);
    lemma_item_bound(c, 2, 4 * j + 2);
    lemma_item_bound(c, 2, 4 * j + 3);
    lemma_quarters(item(c, 4 * j), item(c, 4 * j + 1), item(c, 4 * j + 2), item(c, 4 * j + 3));
    assert(k * 2 / 8 == j);
    assert(row[j] == byte_of(c, j, 2));
    let r = k % 4;
    assert(k == 4 * j + r && (k * 2) % 8 == 2 * r);
    assert(r == 0 || r == 1 || r == 2 || r == 3);
}

#[verifier::rlimit(50)]
proof fn lemma_component_1(c: Seq<int>, width: int, k: int)
    requires
        are_components(c, 1),
        0 <= k < c.len(),
        c.len() <= 8 * width,
    ensures
        component(row_of(c, 1, width), k, 1) == c[k],
{
    lemma_two_values();
    let row = row_of(c, 1, width);
    let j = k / 8;
    lemma_item_bound(c, 1, 8 * j);
    lemma_item_bound(c, 1, 8 * j + 1);
    lemma_item_bound(c, 1, 8 * j + 2);
    lemma_item_bound(c, 1, 8 * j + 3);
    lemma_item_bound(c, 1, 8 * j + 4);
    lemma_item_bound(c, 1, 8 * j + 5);
    lemma_item_bound(c, 1, 8 * j + 6);
    lemma_item_bound(c, 1, 8 * j + 7);
    lemma_eighths(
        item(c, 8 * j),
        item(c, 8 * j + 1),
        item(c, 8 * j + 2),
        item(c, 8 * j + 3),
        item(c, 8 * j + 4),
        item(c, 8 * j + 5),
        item(c, 8 * j + 6),
        item(c, 8 * j + 7),
    );
    assert(row[j] == byte_of(c, j, 1));
    let r = k % 8;
    assert(k * 1 / 8 == j && (k * 1) % 8 == r);
    assert(k == 8 * j + r);
    assert(r == 0 || r == 1 || r == 2 || r == 3 || r == 4 || r == 5 || r == 6 || r == 7);
}

#[verifier::rlimit(50)]
pub(crate) proof fn lemma_component_of(c: Seq<int>, bits: int, width: int, k: int)
    requires
        are_components(c, bits),
        bits == 1 || bits == 2 || bits == 4 || bits == 8 || bits == 16,
        0 <= k < c.len(),
        c.len() * bits <= 8 * width,
    ensures
        component(row_of(c, bits, width), k, bits) == c[k],
{
    let row = row_of(c, bits, width);
    assert(0 <= c[k] < values(bits));
    if bits == 8 {
        assert(c.len() <= width);
    } else if bits == 16 {
        assert(2 * c.len() <= width);
        assert(row[2 * k] == c[k] / 256) by {
            assert((2 * k) / 2 == k);
        }
        assert(row[2 * k + 1] == c[k] % 256) by {
            assert((2 * k + 1) / 2 == k);
        }
    } else if bits == 4 {
        lemma_component_4(c, width, k);
    } else if bits == 2 {
        lemma_component_2(c, width, k);
    } else {
        lemma_component_1(c, width, k);
    }
}

proof fn lemma_mod_back(x: int, y: int, m: int)
    requires
        m > 0,
        0 <= x < m,
    ensures
        ((x - y) % m + y) % m == x,
{
    vstd::arithmetic::div_mod::lemma_add_mod_noop(x - y, y, m);
    vstd::arithmetic::div_mod::lemma_add_mod_noop((x - y) % m, y, m);
    vstd::arithmetic::div_mod::lemma_mod_twice(x - y, m);
    vstd::arithmetic::div_mod::lemma_small_mod(x as nat, m as nat);
}

proof fn lemma_differences(c: Seq<int>, bits: int, colors: int)
    requires
        are_components(c, bits),
        colors >= 1,
    ensures
        are_components(differences(c, bits, colors), bits),
{
    let d = differences(c, bits, colors);
    let m = values(bits);
    assert forall|i: int| 0 <= i < d.len() implies 0 <= #[trigger] d[i] < m by {
        assert(0 <= c[i] < m);
        if i >= colors {
            vstd::arithmetic::div_mod::lemma_mod_bound(c[i] - c[i - colors], m);
        }
    }
}

#[verifier::rlimit(50)]
proof fn lemma_summed(c: Seq<int>, bits: int, colors: int, width: int, k: int)
    requires
        are_components(c, bits),
        bits == 1 || bits == 2 || bits == 4 || bits == 8 || bits == 16,
        colors >= 1,
        0 <= k < c.len(),
        c.len() * bits <= 8 * width,
    ensures
        summed(row_of(differences(c, bits, colors), bits, width), k, bits, colors) == c[k],
    decreases k,
{
    let d = differences(c, bits, colors);
    lemma_differences(c, bits, colors);
    lemma_component_of(d, bits, width, k);
    assert(two(bits) == values(bits)) by {
        lemma_two_values();
    }
    assert(0 <= c[k] < values(bits));
    if k >= colors {
        lemma_summed(c, bits, colors, width, k - colors);
        lemma_mod_back(c[k], c[k - colors], values(bits));
    }
}

proof fn lemma_row_byte(c: Seq<int>, bits: int, width: int, j: int)
    requires
        are_components(c, bits),
        bits == 1 || bits == 2 || bits == 4 || bits == 8 || bits == 16,
        0 <= j < width,
        8 * width - 7 <= c.len() * bits <= 8 * width,
    ensures
        row_byte(c, j, bits) == byte_of(c, j, bits),
{
    lemma_two_values();
    if bits == 16 {
        assert(2 * c.len() == width);
        assert(item(c, j / 2) == c[j / 2]);
    } else if bits == 8 {
        assert(j * 1 == j && (j + 1) * 1 == j + 1);
        assert(packed(c, j, j, 256) == 0);
        assert(packed(c, j, j + 1, 256) == item(c, j));
    } else if bits == 4 {
        reveal_with_fuel(packed, 4);
        assert(packed(c, 2 * j, 2 * j + 2, 16) == 16 * item(c, 2 * j) + item(c, 2 * j + 1));
        assert(j * 2 == 2 * j && (j + 1) * 2 == 2 * j + 2);
    } else if bits == 2 {
        reveal_with_fuel(packed, 6);
        assert(packed(c, 4 * j, 4 * j + 4, 4) == byte_of(c, j, 2));
        assert(j * 4 == 4 * j && (j + 1) * 4 == 4 * j + 4);
    } else {
        reveal_with_fuel(packed, 10);
        assert(packed(c, 8 * j, 8 * j + 8, 2) == byte_of(c, j, 1));
        assert(j * 8 == 8 * j && (j + 1) * 8 == 8 * j + 8);
    }
}

proof fn lemma_row_back(c: Seq<int>, bits: int, colors: int, width: int)
    requires
        are_components(c, bits),
        bits == 1 || bits == 2 || bits == 4 || bits == 8 || bits == 16,
        colors >= 1,
        8 * width - 7 <= c.len() * bits <= 8 * width,
    ensures
        tiff_row(
            row_of(differences(c, bits, colors), bits, width),
            c.len() as int,
            bits,
            colors,
        ) == row_of(c, bits, width),
{
    let row = row_of(differences(c, bits, colors), bits, width);
    let n = c.len() as int;
    assert forall|k: int| 0 <= k < n implies summed(row, k, bits, colors) == c[k] by {
        lemma_summed(c, bits, colors, width, k);
    }
    assert(row_components(row, n, bits, colors) =~= c);
    assert forall|j: int| 0 <= j < width implies row_byte(c, j, bits) == byte_of(c, j, bits) by {
        lemma_row_byte(c, bits, width, j);
    }
    assert(tiff_row(row, n, bits, colors) =~= row_of(c, bits, width));
}

/// Rows of components as an encoder writes them.
pub open spec fn rows_written(rows: Seq<Seq<int>>, bits: int, colors: int, width: int) -> Seq<
    Seq<u8>,
> {
    Seq::new(rows.len(), |i: int| row_of(differences(rows[i], bits, colors), bits, width))
}

/// Rows of components as they are.
pub open spec fn rows_plain(rows: Seq<Seq<int>>, bits: int, width: int) -> Seq<Seq<u8>> {
    Seq::new(rows.len(), |i: int| row_of(rows[i], bits, width))
}

proof fn lemma_rows_back(rows: Seq<Seq<int>>, n: int, bits: int, colors: int, width: int)
    requires
        bits == 1 || bits == 2 || bits == 4 || bits == 8 || bits == 16,
        colors >= 1,
        width >= 1,
        8 * width - 7 <= n * bits <= 8 * width,
        forall|i: int|
            0 <= i < rows.len() ==> (#[trigger] rows[i]).len() == n && are_components(
                rows[i],
                bits,
            ),
    ensures
        tiff_rows(joined_rows(rows_written(rows, bits, colors, width)), n, bits, colors, width)
            == joined_rows(rows_plain(rows, bits, width)),
        joined_rows(rows_written(rows, bits, colors, width)).len() == rows.len() * width,
    decreases rows.len(),
{
    let w = rows_written(rows, bits, colors, width);
    let p = rows_plain(rows, bits, width);
    if rows.len() > 0 {
        let rest = rows.skip(1);
        assert forall|i: int| 0 <= i < rest.len() implies (#[trigger] rest[i]).len() == n
            && are_components(rest[i], bits) by {
            assert(rows[i + 1].len() == n && are_components(rows[i + 1], bits));
        }
        assert(rows[0].len() == n && are_components(rows[0], bits));
        lemma_rows_back(rest, n, bits, colors, width);
        lemma_row_back(rows[0], bits, colors, width);
        assert(w.skip(1) =~= rows_written(rest, bits, colors, width));
        assert(p.skip(1) =~= rows_plain(rest, bits, width));
        let data = joined_rows(w);
        assert(data.take(width) =~= w[0]);
        assert(data.skip(width) =~= joined_rows(w.skip(1)));
        assert(rows.len() * width == (rows.len() - 1) * width + width) by (nonlinear_arith);
    } else {
        assert(rows.len() * width == 0) by (nonlinear_arith)
            requires
                rows.len() == 0,
        ;
    }
}

/// An image that was written with TIFF prediction is read back, for every number
/// and width of components.
#[verifier::rlimit(50)]
pub proof fn law_tiff_round_trip(rows: Seq<Seq<int>>, p: PredictorParams, width: int)
    requires
        p.predictor == 2,
        p.colors >= 1,
        p.columns >= 1,
        p.bits_per_component == 1 || p.bits_per_component == 2 || p.bits_per_component == 4
            || p.bits_per_component == 8 || p.bits_per_component == 16,
        p.colors * p.bits_per_component * p.columns <= usize::MAX,
        8 * width - 7 <= p.colors * p.bits_per_component * p.columns <= 8 * width,
        forall|i: int|
            0 <= i < rows.len() ==> (#[trigger] rows[i]).len() == p.colors * p.columns
                && are_components(rows[i], p.bits_per_component as int),
    ensures
        predicted(
            joined_rows(
                rows_written(rows, p.bits_per_component as int, p.colors as int, width),
            ),
            p,
        ) == Ok::<Seq<u8>, Seq<char>>(
            joined_rows(rows_plain(rows, p.bits_per_component as int, width)),
        ),
{
    let bits = p.bits_per_component as int;
    let colors = p.colors as int;
    let n = p.colors * p.columns;
    assert(n * bits == p.colors * p.bits_per_component * p.columns) by (nonlinear_arith)
        requires
            n == p.colors * p.columns,
            bits == p.bits_per_component,
    ;
    assert(n * bits >= 1) by (nonlinear_arith)
        requires
            n == p.colors * p.columns,
            p.colors >= 1,
            p.columns >= 1,
            bits >= 1,
    ;
    let data = joined_rows(rows_written(rows, bits, colors, width));
    lemma_rows_back(rows, n, bits, colors, width);
    assert((n * bits + 7) / 8 == width);
    assert(data.len() as int % width == 0) by {
        vstd::arithmetic::div_mod::lemma_mod_multiples_basic(rows.len() as int, width);
    }
}

} // verus!
