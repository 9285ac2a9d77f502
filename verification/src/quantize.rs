//! Two-bit ternary weights: levels -1, 0 and +1 with one scale per row.

use crate::arith;
use crate::arith::Arith;
use crate::copy::copy_vec;
use crate::grid;
use vstd::prelude::*;

verus! {

/// A row-major matrix of ternary weights. Four two-bit codes share a byte, the first in its
/// low bits; row `o` is scaled by `alphas[o]`.
#[derive(Debug, Clone)]
pub struct TernaryPacked<N> {
    pub out_dim: usize,
    pub in_dim: usize,
    pub packed: Vec<u8>,
    pub alphas: Vec<N>,
}

/// What a [`TernaryPacked`] holds.
#[verifier::ext_equal]
pub struct PackModel<N> {
    pub out_dim: usize,
    pub in_dim: usize,
    pub packed: Seq<u8>,
    pub alphas: Seq<N>,
}

impl<N> View for TernaryPacked<N> {
    type V = PackModel<N>;

    open spec fn view(&self) -> PackModel<N> {
        PackModel {
            out_dim: self.out_dim,
            in_dim: self.in_dim,
            packed: self.packed@,
            alphas: self.alphas@,
        }
    }
}

impl<N: Copy> TernaryPacked<N> {
    /// A second pack with the same contents.
    pub fn duplicate(&self) -> (r: Self)
        ensures
            r@ == self@,
    {
        TernaryPacked {
            out_dim: self.out_dim,
            in_dim: self.in_dim,
            packed: copy_vec(&self.packed),
            alphas: copy_vec(&self.alphas),
        }
    }
}

/// The two-bit code at place `j` of a byte, the first in the low bits.
pub open spec fn code_at(byte: u8, j: int) -> int {
    if j == 0 {
        byte as int % 4
    } else if j == 1 {
        byte as int / 4 % 4
    } else if j == 2 {
        byte as int / 16 % 4
    } else {
        byte as int / 64
    }
}

/// The level that a code stands for: `00` is -1, `10` is +1, any other code is 0.
pub open spec fn level_of(code: int) -> int {
    if code == 0 {
        -1
    } else if code == 2 {
        1
    } else {
        0
    }
}

/// The code that a level is written as.
pub open spec fn code_of(level: int) -> int {
    if level < 0 {
        0
    } else if level > 0 {
        2
    } else {
        1
    }
}

/// A level is read back from the code it is written as.
pub proof fn code_round_trip(level: int)
    requires
        -1 <= level <= 1,
    ensures
        level_of(code_of(level)) == level,
        0 <= code_of(level) < 4,
{
}

/// The level at place `i` of packed bytes.
pub open spec fn level_at(packed: Seq<u8>, i: int) -> int {
    level_of(code_at(packed[i / 4], i % 4))
}

impl<N> PackModel<N> {
    /// How many bytes a row takes. A rest of less than four weights is not stored.
    pub open spec fn row_bytes(self) -> int {
        (self.in_dim / 4) as int
    }

    /// The level of weight `i` in row `o`.
    pub open spec fn level(self, o: int, i: int) -> int {
        level_of(code_at(self.packed[o * self.row_bytes() + i / 4], i % 4))
    }

    /// The bytes and scales of every row are there.
    pub open spec fn complete(self) -> bool {
        &&& self.packed.len() >= self.out_dim * self.row_bytes()
        &&& self.alphas.len() >= self.out_dim
    }
}

/// The level at place `j < 4` of a byte.
pub fn unpack_w(byte: u8, j: usize) -> (r: i128)
    requires
        j < 4,
    ensures
        r == level_of(code_at(byte, j as int)),
{
    let code: u8 = if j == 0 {
        byte % 4
    } else if j == 1 {
        byte / 4 % 4
    } else if j == 2 {
        byte / 16 % 4
    } else {
        byte / 64
    };
    if code == 0 {
        -1
    } else if code == 2 {
        1
    } else {
        0
    }
}

fn level_code(level: i8) -> (r: u8)
    ensures
        r == code_of(level as int),
        r < 3,
{
    if level < 0 {
        0
    } else if level > 0 {
        2
    } else {
        1
    }
}

/// The levels are -1, 0 and +1.
pub open spec fn ternary(levels: Seq<i8>) -> bool {
    forall|i: int| 0 <= i < levels.len() ==> -1 <= #[trigger] levels[i] <= 1
}

/// Packs levels, four to a byte. What is read back at every place is the level that was put
/// there.
pub fn pack_levels(levels: &Vec<i8>) -> (r: Vec<u8>)
    requires
        levels@.len() % 4 == 0,
        ternary(levels@),
    ensures
        r@.len() == levels@.len() / 4,
        forall|i: int| 0 <= i < levels@.len() ==> level_at(r@, i) == #[trigger] levels@[i],
{
    let mut packed: Vec<u8> = Vec::new();
    let mut i: usize = 0;
    while i < levels.len()
        invariant
            i <= levels@.len(),
            i % 4 == 0,
            levels@.len() % 4 == 0,
            ternary(levels@),
            packed@.len() == i / 4,
            forall|k: int| 0 <= k < i ==> level_at(packed@, k) == #[trigger] levels@[k],
        decreases levels@.len() - i,
    {
        let a: u8 = level_code(levels[i]);
        let b: u8 = level_code(levels[i + 1]);
        let c: u8 = level_code(levels[i + 2]);
        let d: u8 = level_code(levels[i + 3]);
        let ghost before = packed@;
        packed.push(a + 4 * b + 16 * c + 64 * d);
        assert forall|k: int| 0 <= k < i + 4 implies level_at(packed@, k)
            == #[trigger] levels@[k] by {
            if k < i {
                assert(packed@[k / 4] == before[k / 4]);
                assert(level_at(before, k) == levels@[k]);
            } else {
                assert(k / 4 == i / 4);
            }
        }
        i = i + 4;
    }
    packed
}

/// `r` is `alpha` times the number for `level`.
pub open spec fn is_weight<A: Arith>(ar: &A, alpha: A::Num, level: int, r: A::Num) -> bool {
    exists|v: A::Num| #[trigger]
        arith::is_whole(ar, level, v) && arith::is_product(ar, alpha, v, r)
}

/// `weights` are those of a pack: row `o`, column `i` is the scale of the row times the level.
pub open spec fn are_weights<A: Arith>(
    ar: &A,
    pack: PackModel<A::Num>,
    weights: Seq<A::Num>,
) -> bool {
    grid::is_grid(
        weights,
        pack.out_dim as int,
        pack.in_dim as int,
        |o: int, i: int, x: A::Num| is_weight(ar, pack.alphas[o], pack.level(o, i), x),
    )
}

/// The weights of a pack.
pub fn unpack_ternary<A: Arith>(ar: &A, pack: &TernaryPacked<A::Num>) -> (r: Vec<A::Num>)
    requires
        pack@.complete(),
        pack.in_dim % 4 == 0,
        pack.out_dim * pack.in_dim <= usize::MAX,
    ensures
        are_weights(ar, pack@, r@),
{
    let ghost f = |o: int, i: int, x: A::Num|
        is_weight(ar, pack@.alphas[o], pack@.level(o, i), x);
    let bytes: usize = pack.in_dim / 4;
    let mut out: Vec<A::Num> = Vec::new();
    let mut o: usize = 0;
    proof {
        grid::empty_grid(pack.in_dim as int, f);
    }
    while o < pack.out_dim
        invariant
            o <= pack.out_dim,
            bytes == pack.in_dim / 4,
            pack@.complete(),
            pack.in_dim % 4 == 0,
            f == (|o: int, i: int, x: A::Num|
                is_weight(ar, pack@.alphas[o], pack@.level(o, i), x)),
            grid::is_grid(out@, o as int, pack.in_dim as int, f),
        decreases pack.out_dim - o,
    {
        let alpha: A::Num = pack.alphas[o];
        let mut row: Vec<A::Num> = Vec::new();
        let mut i: usize = 0;
        while i < pack.in_dim
            invariant
                i <= pack.in_dim,
                o < pack.out_dim,
                bytes == pack.in_dim / 4,
                pack@.complete(),
                pack.in_dim % 4 == 0,
                alpha == pack.alphas@[o as int],
                row@.len() == i,
                forall|k: int|
                    0 <= k < i ==> is_weight(ar, alpha, pack@.level(o as int, k), #[trigger] row@[k]),
            decreases pack.in_dim - i,
        {
            proof {
                grid::cell_place(pack.out_dim as int, bytes as int, o as int, i as int / 4);
            }
            let n: usize = pack.packed.len();
            let byte: u8 = pack.packed[o * bytes + i / 4];
            let v = ar.whole(unpack_w(byte, i % 4));
            let x = ar.times(alpha, v);
            assert(arith::is_whole(ar, pack@.level(o as int, i as int), v));
            row.push(x);
            i = i + 1;
        }
        proof {
            assert forall|c: int| 0 <= c < pack.in_dim implies f(
                o as int,
                c,
                #[trigger] row@[c],
            ) by {}
            grid::grid_push_row(out@, o as int, pack.in_dim as int, f, row@);
        }
        out.append(&mut row);
        o = o + 1;
    }
    out
}

/// `scale` is the mean magnitude of the row.
pub open spec fn is_row_scale<A: Arith>(ar: &A, row: Seq<A::Num>, scale: A::Num) -> bool {
    exists|mags: Seq<A::Num>, zero: A::Num, total: A::Num, count: A::Num|
        {
            &&& are_magnitudes(ar, row, mags)
            &&& arith::is_whole(ar, 0, zero)
            &&& #[trigger] arith::is_total(ar, zero, mags, total)
            &&& arith::is_whole(ar, row.len() as int, count)
            &&& #[trigger] arith::is_quotient(ar, total, count, scale)
        }
}

/// `mags` is the list of magnitudes of `row`.
pub open spec fn are_magnitudes<A: Arith>(ar: &A, row: Seq<A::Num>, mags: Seq<A::Num>) -> bool {
    &&& mags.len() == row.len()
    &&& forall|i: int| 0 <= i < row.len() ==> arith::is_magnitude(ar, row[i], #[trigger] mags[i])
}

/// `level` is the ternary level nearest to `w` at this scale: +1 above half the scale, -1 below
/// minus half of it, 0 between.
pub open spec fn is_nearest<A: Arith>(ar: &A, w: A::Num, scale: A::Num, level: int) -> bool {
    exists|two: A::Num, half: A::Num|
        {
            &&& arith::is_whole(ar, 2, two)
            &&& #[trigger] arith::is_quotient(ar, scale, two, half)
            &&& ((level == 1 && arith::is_exceeds(ar, w, half, true)) || (arith::is_exceeds(
                ar,
                w,
                half,
                false,
            ) && is_not_above(ar, w, half, level)))
        }
}

/// `level` is -1 where `w` is below `-half`, and 0 where it is not.
pub open spec fn is_not_above<A: Arith>(ar: &A, w: A::Num, half: A::Num, level: int) -> bool {
    exists|low: A::Num|
        {
            &&& #[trigger] arith::is_negated(ar, half, low)
            &&& ((level == -1 && arith::is_exceeds(ar, low, w, true)) || (level == 0
                && arith::is_exceeds(ar, low, w, false)))
        }
}

fn row_scale<A: Arith>(ar: &A, weights: &[A::Num], from: usize, n: usize) -> (r: A::Num)
    requires
        from + n <= weights@.len(),
    ensures
        is_row_scale(ar, weights@.subrange(from as int, from + n), r),
{
    let ghost row = weights@.subrange(from as int, from + n);
    let zero = ar.whole(0);
    let mut total = zero;
    let ghost mut mags: Seq<A::Num> = Seq::empty();
    proof {
        arith::empty_total(ar, zero);
    }
    let len: usize = weights.len();
    let mut i: usize = 0;
    while i < n
        invariant
            i <= n,
            from + n <= weights@.len() <= usize::MAX,
            row == weights@.subrange(from as int, from + n),
            mags.len() == i,
            forall|k: int| 0 <= k < i ==> arith::is_magnitude(ar, row[k], #[trigger] mags[k]),
            arith::is_total(ar, zero, mags, total),
        decreases n - i,
    {
        let m = ar.magnitude(weights[from + i]);
        let next = ar.plus(total, m);
        proof {
            arith::total_step(ar, zero, mags, total, m, next);
            mags = mags.push(m);
        }
        total = next;
        i = i + 1;
    }
    let count = ar.whole(n as i128);
    let scale = ar.over(total, count);
    assert(are_magnitudes(ar, row, mags));
    assert(arith::is_whole(ar, row.len() as int, count));
    assert(arith::is_quotient(ar, total, count, scale));
    scale
}

fn nearest_level<A: Arith>(ar: &A, w: A::Num, scale: A::Num) -> (r: i8)
    ensures
        is_nearest(ar, w, scale, r as int),
        -1 <= r <= 1,
{
    let two = ar.whole(2);
    let half = ar.over(scale, two);
    assert(arith::is_quotient(ar, scale, two, half));
    if ar.exceeds(w, half) {
        1
    } else {
        let low = ar.negated(half);
        assert(arith::is_negated(ar, half, low));
        if ar.exceeds(low, w) {
            -1
        } else {
            0
        }
    }
}

/// `pack` is the matrix with one scale per row, its mean magnitude, and for every weight the
/// level nearest to it at that scale.
pub open spec fn is_quantized<A: Arith>(
    ar: &A,
    weights: Seq<A::Num>,
    out_dim: int,
    in_dim: int,
    pack: PackModel<A::Num>,
) -> bool {
    &&& pack.out_dim == out_dim
    &&& pack.in_dim == in_dim
    &&& pack.alphas.len() == out_dim
    &&& pack.packed.len() == out_dim * (in_dim / 4)
    &&& forall|o: int|
        0 <= o < out_dim ==> is_row_scale(
            ar,
            weights.subrange(o * in_dim, o * in_dim + in_dim),
            #[trigger] pack.alphas[o],
        )
    &&& forall|o: int, i: int|
        0 <= o < out_dim && 0 <= i < in_dim ==> is_nearest(
            ar,
            grid::cell(weights, in_dim, o, i),
            pack.alphas[o],
            #[trigger] pack.level(o, i),
        )
}

/// `back` is a level nearest to `w` at this scale, times the scale.
pub open spec fn is_restored<A: Arith>(
    ar: &A,
    w: A::Num,
    scale: A::Num,
    back: A::Num,
) -> bool {
    exists|level: int|
        -1 <= level <= 1 && #[trigger] is_nearest(ar, w, scale, level) && is_weight(
            ar,
            scale,
            level,
            back,
        )
}

/// What is packed can be unpacked, and unpacking gives back every weight as the nearest level
/// times the scale of its row.
pub proof fn pack_then_unpack<A: Arith>(
    ar: &A,
    weights: Seq<A::Num>,
    out_dim: int,
    in_dim: int,
    pack: PackModel<A::Num>,
    back: Seq<A::Num>,
)
    requires
        is_quantized(ar, weights, out_dim, in_dim, pack),
        are_weights(ar, pack, back),
    ensures
        pack.complete(),
        grid::is_grid(
            back,
            out_dim,
            in_dim,
            |o: int, i: int, x: A::Num|
                is_restored(ar, grid::cell(weights, in_dim, o, i), pack.alphas[o], x),
        ),
{
    let f = |o: int, i: int, x: A::Num| is_weight(ar, pack.alphas[o], pack.level(o, i), x);
    let g = |o: int, i: int, x: A::Num|
        is_restored(ar, grid::cell(weights, in_dim, o, i), pack.alphas[o], x);
    assert forall|o: int, i: int| 0 <= o < out_dim && 0 <= i < in_dim implies g(
        o,
        i,
        #[trigger] grid::cell(back, in_dim, o, i),
    ) by {
        assert(f(o, i, grid::cell(back, in_dim, o, i)));
        assert(is_nearest(
            ar,
            grid::cell(weights, in_dim, o, i),
            pack.alphas[o],
            pack.level(o, i),
        ));
    }
}

/// Packs a matrix row by row.
pub fn quantize_rowwise_ternary<A: Arith>(
    ar: &A,
    weights: &[A::Num],
    out_dim: usize,
    in_dim: usize,
) -> (r: TernaryPacked<A::Num>)
    requires
        weights@.len() == out_dim * in_dim,
        in_dim % 4 == 0,
    ensures
        is_quantized(ar, weights@, out_dim as int, in_dim as int, r@),
{
    let mut alphas: Vec<A::Num> = Vec::new();
    let mut levels: Vec<i8> = Vec::new();
    let len: usize = weights.len();
    let mut o: usize = 0;
    proof {
        grid::empty_grid(
            in_dim as int,
            |o: int, i: int, l: i8|
                is_nearest(ar, grid::cell(weights@, in_dim as int, o, i), alphas@[o], l as int),
        );
    }
    while o < out_dim
        invariant
            o <= out_dim,
            weights@.len() == out_dim * in_dim <= usize::MAX,
            alphas@.len() == o,
            forall|k: int|
                0 <= k < o ==> is_row_scale(
                    ar,
                    weights@.subrange(k * in_dim, k * in_dim + in_dim),
                    #[trigger] alphas@[k],
                ),
            ternary(levels@),
            grid::is_grid(
                levels@,
                o as int,
                in_dim as int,
                |o: int, i: int, l: i8|
                    is_nearest(
                        ar,
                        grid::cell(weights@, in_dim as int, o, i),
                        alphas@[o],
                        l as int,
                    ),
            ),
        decreases out_dim - o,
    {
        proof {
            row_in_range(out_dim as int, in_dim as int, o as int);
        }
        let from: usize = o * in_dim;
        let scale = row_scale(ar, weights, from, in_dim);
        let mut row: Vec<i8> = Vec::new();
        let mut i: usize = 0;
        while i < in_dim
            invariant
                i <= in_dim,
                from == o * in_dim,
                from + in_dim <= weights@.len() <= usize::MAX,
                row@.len() == i,
                ternary(row@),
                forall|k: int|
                    0 <= k < i ==> is_nearest(
                        ar,
                        grid::cell(weights@, in_dim as int, o as int, k),
                        scale,
                        (#[trigger] row@[k]) as int,
                    ),
            decreases in_dim - i,
        {
            row.push(nearest_level(ar, weights[from + i], scale));
            i = i + 1;
        }
        let ghost old_alphas = alphas@;
        alphas.push(scale);
        proof {
            let f = |o: int, i: int, l: i8|
                is_nearest(ar, grid::cell(weights@, in_dim as int, o, i), alphas@[o], l as int);
            assert(grid::is_grid(levels@, o as int, in_dim as int, f)) by {
                assert forall|r: int, c: int| 0 <= r < o && 0 <= c < in_dim implies f(
                    r,
                    c,
                    #[trigger] grid::cell(levels@, in_dim as int, r, c),
                ) by {
                    assert(alphas@[r] == old_alphas[r]);
                }
            }
            grid::grid_push_row(levels@, o as int, in_dim as int, f, row@);
        }
        levels.append(&mut row);
        o = o + 1;
    }
    proof {
        let q = in_dim as int / 4;
        assert(out_dim * in_dim == 4 * (out_dim * q)) by (nonlinear_arith)
            requires
                in_dim == 4 * q,
        ;
    }
    let packed = pack_levels(&levels);
    let r = TernaryPacked { out_dim, in_dim, packed, alphas };
    proof {
        assert forall|o: int, i: int| 0 <= o < out_dim && 0 <= i < in_dim implies is_nearest(
            ar,
            grid::cell(weights@, in_dim as int, o, i),
            r.alphas@[o],
            #[trigger] r@.level(o, i),
        ) by {
            let q = in_dim as int / 4;
            grid::cell_place(out_dim as int, in_dim as int, o, i);
            let at = o * in_dim + i;
            assert(at / 4 == o * q + i / 4 && at % 4 == i % 4) by (nonlinear_arith)
                requires
                    at == o * in_dim + i,
                    in_dim == 4 * q,
            ;
            assert(level_at(packed@, at) == levels@[at]);
            assert(levels@[at] == grid::cell(levels@, in_dim as int, o, i));
        }
    }
    r
}

proof fn row_in_range(rows: int, cols: int, r: int)
    requires
        0 <= r < rows,
        0 <= cols,
    ensures
        0 <= r * cols,
        r * cols + cols <= rows * cols,
{
    assert(0 <= r * cols && r * cols + cols <= rows * cols) by (nonlinear_arith)
        requires
            0 <= r < rows,
            0 <= cols,
    ;
}

} // verus!
