use vstd::prelude::*;

use vstd::arithmetic::div_mod::lemma_fundamental_div_mod;
use vstd::arithmetic::div_mod::lemma_fundamental_div_mod_converse;

verus! {

/// A tiled 4-bpp image's geometry, in packed bytes: `w2` bytes per image
/// row (half the pixel width), `th` pixel rows per tile, `trs` bytes per
/// tile row (half the tile width), `h` pixel rows in the image. Tile
/// dimensions must divide the image dimensions evenly.
pub open spec fn valid_tile_geometry(w2: int, th: int, trs: int, h: int) -> bool {
    &&& w2 > 0
    &&& th > 0
    &&& trs > 0
    &&& h >= 0
    &&& w2 % trs == 0
    &&& h % th == 0
}

/// Which tile (in row-major tile order) owns the byte at offset `d` of the
/// linear row-major buffer.
pub open spec fn tile_of(w2: int, th: int, trs: int, d: int) -> int {
    (d / w2 / th) * (w2 / trs) + (d % w2) / trs
}

/// The offset in the tiled buffer of the byte that belongs at offset `d`
/// of the linear row-major buffer.
pub open spec fn tiled_src_index(w2: int, th: int, trs: int, d: int) -> int {
    (tile_of(w2, th, trs, d) * th + (d / w2) % th) * trs + (d % w2) % trs
}

/// The offset in the linear row-major buffer at which byte `s` of the
/// tiled buffer belongs: tiles are stored row-major over the image, and
/// each tile's bytes are themselves row-major within the tile.
pub open spec fn linear_dst_index(w2: int, th: int, trs: int, s: int) -> int {
    let ts = th * trs;
    let col = w2 / trs;
    let y = s / ts / col;
    let x = s / ts % col;
    let i = s % ts / trs;
    let j = s % ts % trs;
    (y * th + i) * w2 + x * trs + j
}

/// The row-major linear buffer that tile-by-tile storage `data` encodes:
/// each byte comes from its tiled source offset.
pub open spec fn deinterleaved(data: Seq<u8>, w2: int, th: int, trs: int) -> Seq<u8> {
    Seq::new(data.len(), |d: int| data[tiled_src_index(w2, th, trs, d)])
}

/// Splits `v == a * outer + inner` with `0 <= inner < a` into quotient and
/// remainder by `a`.
proof fn lemma_split(v: int, a: int, outer: int, inner: int)
    requires
        a > 0,
        0 <= inner < a,
        0 <= outer,
        v == a * outer + inner,
    ensures
        v / a == outer,
        v % a == inner,
        v >= 0,
{
    assert(a * outer + inner == outer * a + inner) by (nonlinear_arith);
    lemma_fundamental_div_mod_converse(v, a, outer, inner);
    assert(a * outer >= 0) by (nonlinear_arith)
        requires
            a > 0,
            outer >= 0,
    ;
}

/// Decomposes linear offset `d` by rows and columns, bounds every partial
/// term of `tiled_src_index`, and shows the two index maps invert each
/// other at `d`.
proof fn lemma_src_of_linear(w2: int, th: int, trs: int, h: int, d: int)
    requires
        valid_tile_geometry(w2, th, trs, h),
        0 <= d < w2 * h,
    ensures
        0 <= tile_of(w2, th, trs, d) < (h / th) * (w2 / trs),
        (h / th) * (w2 / trs) <= w2 * h,
        0 <= tile_of(w2, th, trs, d) * th + (d / w2) % th < (h / th) * (w2 / trs) * th,
        (h / th) * (w2 / trs) * th <= w2 * h,
        0 <= tiled_src_index(w2, th, trs, d) < w2 * h,
        linear_dst_index(w2, th, trs, tiled_src_index(w2, th, trs, d)) == d,
{
    let col = w2 / trs;
    let rows = h / th;
    let row = d / w2;
    let cb = d % w2;
    let y = row / th;
    let i = row % th;
    let x = cb / trs;
    let j = cb % trs;
    let ts = th * trs;

    lemma_fundamental_div_mod(d, w2);
    assert(0 <= cb < w2) by (nonlinear_arith)
        requires
            w2 > 0,
            d >= 0,
            cb == d % w2,
    ;
    assert(row >= 0) by (nonlinear_arith)
        requires
            w2 > 0,
            d >= 0,
            row == d / w2,
    ;
    lemma_fundamental_div_mod(h, th);
    assert(h == rows * th);
    lemma_fundamental_div_mod(w2, trs);
    assert(w2 == col * trs);
    assert(h > 0) by (nonlinear_arith)
        requires
            0 <= d < w2 * h,
            w2 > 0,
    ;
    assert(rows > 0) by (nonlinear_arith)
        requires
            h > 0,
            h == rows * th,
            th > 0,
    ;
    // row < h: otherwise d == w2 * row + cb >= w2 * h
    assert(row < h) by (nonlinear_arith)
        requires
            d == w2 * row + cb,
            cb >= 0,
            d < w2 * h,
            w2 > 0,
            row >= 0,
    ;
    lemma_fundamental_div_mod(row, th);
    assert(row == th * y + i);
    assert(0 <= i < th) by (nonlinear_arith)
        requires
            th > 0,
            row >= 0,
            i == row % th,
    ;
    assert(y >= 0) by (nonlinear_arith)
        requires
            th > 0,
            row >= 0,
            y == row / th,
    ;
    assert(y < rows) by (nonlinear_arith)
        requires
            row == th * y + i,
            i >= 0,
            row < rows * th,
            th > 0,
            y >= 0,
            h == rows * th,
            row < h,
    ;
    lemma_fundamental_div_mod(cb, trs);
    assert(cb == trs * x + j);
    assert(0 <= j < trs) by (nonlinear_arith)
        requires
            trs > 0,
            cb >= 0,
            j == cb % trs,
    ;
    assert(x >= 0) by (nonlinear_arith)
        requires
            trs > 0,
            cb >= 0,
            x == cb / trs,
    ;
    assert(x < col) by (nonlinear_arith)
        requires
            cb == trs * x + j,
            j >= 0,
            cb < w2,
            w2 == col * trs,
            trs > 0,
            x >= 0,
    ;

    let t = y * col + x;
    assert(tile_of(w2, th, trs, d) == t);
    // bounds on the partial terms
    assert(0 <= t < rows * col) by (nonlinear_arith)
        requires
            t == y * col + x,
            0 <= y < rows,
            0 <= x < col,
    ;
    let u = t * th + i;
    assert(0 <= u < rows * col * th) by (nonlinear_arith)
        requires
            u == t * th + i,
            0 <= t < rows * col,
            0 <= i < th,
    ;
    let s = u * trs + j;
    assert(0 <= s < rows * col * th * trs) by (nonlinear_arith)
        requires
            s == u * trs + j,
            0 <= u < rows * col * th,
            0 <= j < trs,
    ;
    assert(rows * col * th * trs == w2 * h) by (nonlinear_arith)
        requires
            h == rows * th,
            w2 == col * trs,
    ;
    assert(tiled_src_index(w2, th, trs, d) == s);
    assert(rows * col <= w2 * h) by (nonlinear_arith)
        requires
            rows * col * th * trs == w2 * h,
            rows * col >= 0,
            th > 0,
            trs > 0,
    ;
    assert(rows * col * th <= w2 * h) by (nonlinear_arith)
        requires
            rows * col * th * trs == w2 * h,
            rows * col * th >= 0,
            trs > 0,
    ;

    // the inverse map takes s back to d
    assert(s == ts * t + (i * trs + j)) by (nonlinear_arith)
        requires
            s == (t * th + i) * trs + j,
            ts == th * trs,
    ;
    assert(0 <= i * trs + j < ts) by (nonlinear_arith)
        requires
            0 <= i < th,
            0 <= j < trs,
            ts == th * trs,
    ;
    lemma_split(s, ts, t, i * trs + j);
    assert(s / ts == t);
    assert(s % ts == i * trs + j);
    assert(i * trs + j == trs * i + j) by (nonlinear_arith);
    lemma_split(i * trs + j, trs, i, j);
    assert(t == col * y + x) by (nonlinear_arith)
        requires
            t == y * col + x,
    ;
    lemma_split(t, col, y, x);
    assert(linear_dst_index(w2, th, trs, s) == (y * th + i) * w2 + x * trs + j);
    assert((y * th + i) * w2 + x * trs + j == d) by (nonlinear_arith)
        requires
            d == w2 * row + cb,
            row == th * y + i,
            cb == trs * x + j,
    ;
}

/// Decomposes tiled offset `s` by tiles, bounds `linear_dst_index`, and
/// shows the two index maps invert each other at `s`.
proof fn lemma_dst_of_tiled(w2: int, th: int, trs: int, h: int, s: int)
    requires
        valid_tile_geometry(w2, th, trs, h),
        0 <= s < w2 * h,
    ensures
        0 <= linear_dst_index(w2, th, trs, s) < w2 * h,
        tiled_src_index(w2, th, trs, linear_dst_index(w2, th, trs, s)) == s,
{
    let col = w2 / trs;
    let rows = h / th;
    let ts = th * trs;
    let t = s / ts;
    let r = s % ts;
    let y = t / col;
    let x = t % col;
    let i = r / trs;
    let j = r % trs;

    lemma_fundamental_div_mod(h, th);
    assert(h == rows * th);
    lemma_fundamental_div_mod(w2, trs);
    assert(w2 == col * trs);
    assert(ts > 0) by (nonlinear_arith)
        requires
            th > 0,
            trs > 0,
            ts == th * trs,
    ;
    assert(col > 0) by (nonlinear_arith)
        requires
            w2 == col * trs,
            w2 > 0,
            trs > 0,
    ;
    lemma_fundamental_div_mod(s, ts);
    assert(s == ts * t + r);
    assert(0 <= r < ts) by (nonlinear_arith)
        requires
            ts > 0,
            s >= 0,
            r == s % ts,
    ;
    assert(t >= 0) by (nonlinear_arith)
        requires
            ts > 0,
            s >= 0,
            t == s / ts,
    ;
    assert(rows * col * ts == w2 * h) by (nonlinear_arith)
        requires
            h == rows * th,
            w2 == col * trs,
            ts == th * trs,
    ;
    assert(t < rows * col) by (nonlinear_arith)
        requires
            s == ts * t + r,
            r >= 0,
            s < rows * col * ts,
            ts > 0,
            t >= 0,
    ;
    lemma_fundamental_div_mod(t, col);
    assert(t == col * y + x);
    assert(0 <= x < col) by (nonlinear_arith)
        requires
            col > 0,
            t >= 0,
            x == t % col,
    ;
    assert(y >= 0) by (nonlinear_arith)
        requires
            col > 0,
            t >= 0,
            y == t / col,
    ;
    assert(y < rows) by (nonlinear_arith)
        requires
            t == col * y + x,
            x >= 0,
            t < rows * col,
            col > 0,
            y >= 0,
    ;
    lemma_fundamental_div_mod(r, trs);
    assert(r == trs * i + j);
    assert(0 <= j < trs) by (nonlinear_arith)
        requires
            trs > 0,
            r >= 0,
            j == r % trs,
    ;
    assert(i >= 0) by (nonlinear_arith)
        requires
            trs > 0,
            r >= 0,
            i == r / trs,
    ;
    assert(i < th) by (nonlinear_arith)
        requires
            r == trs * i + j,
            j >= 0,
            r < ts,
            ts == th * trs,
            trs > 0,
            i >= 0,
    ;

    let d = (y * th + i) * w2 + x * trs + j;
    assert(linear_dst_index(w2, th, trs, s) == d);
    // bounds on d
    assert(0 <= y * th + i <= rows * th - 1) by (nonlinear_arith)
        requires
            0 <= y < rows,
            0 <= i < th,
    ;
    assert(0 <= x * trs + j <= col * trs - 1) by (nonlinear_arith)
        requires
            0 <= x < col,
            0 <= j < trs,
    ;
    assert(0 <= d < w2 * h) by (nonlinear_arith)
        requires
            d == (y * th + i) * w2 + x * trs + j,
            0 <= y * th + i <= rows * th - 1,
            0 <= x * trs + j <= col * trs - 1,
            h == rows * th,
            w2 == col * trs,
            w2 > 0,
            trs > 0,
    ;

    // the forward map takes d back to s
    assert(d == w2 * (th * y + i) + (trs * x + j)) by (nonlinear_arith)
        requires
            d == (y * th + i) * w2 + x * trs + j,
    ;
    assert(0 <= trs * x + j < w2) by (nonlinear_arith)
        requires
            0 <= x < col,
            0 <= j < trs,
            w2 == col * trs,
            trs > 0,
    ;
    assert(th * y + i >= 0) by (nonlinear_arith)
        requires
            y >= 0,
            i >= 0,
            th > 0,
    ;
    lemma_split(d, w2, th * y + i, trs * x + j);
    assert(d / w2 == th * y + i);
    assert(d % w2 == trs * x + j);
    lemma_split(th * y + i, th, y, i);
    lemma_split(trs * x + j, trs, x, j);
    assert(tile_of(w2, th, trs, d) == y * col + x);
    assert(tiled_src_index(w2, th, trs, d) == ((y * col + x) * th + i) * trs + j);
    assert(((y * col + x) * th + i) * trs + j == s) by (nonlinear_arith)
        requires
            s == ts * t + r,
            t == col * y + x,
            r == trs * i + j,
            ts == th * trs,
    ;
}

/// Law: on a valid tile geometry the deinterleave index maps are mutually
/// inverse bijections of the byte offsets `0 .. w2 * h`: sending every
/// tiled byte to its linear place and re-tiling the result reproduces the
/// tiled buffer exactly, and the other way round.
pub proof fn lemma_deinterleave_bijection(w2: int, th: int, trs: int, h: int, k: int)
    requires
        valid_tile_geometry(w2, th, trs, h),
        0 <= k < w2 * h,
    ensures
        0 <= tiled_src_index(w2, th, trs, k) < w2 * h,
        0 <= linear_dst_index(w2, th, trs, k) < w2 * h,
        linear_dst_index(w2, th, trs, tiled_src_index(w2, th, trs, k)) == k,
        tiled_src_index(w2, th, trs, linear_dst_index(w2, th, trs, k)) == k,
{
    lemma_src_of_linear(w2, th, trs, h, k);
    lemma_dst_of_tiled(w2, th, trs, h, k);
}

/// Reorders a tiled 4-bpp pixel-index buffer into row-major linear order:
/// byte `d` of the result is the byte of `data` that tile-by-tile storage
/// placed at `tiled_src_index(.., d)`. A pure byte reshuffle, no bit
/// manipulation.
pub fn deinterleave(data: &[u8], w2: usize, th: usize, trs: usize, h: usize) -> (out: Vec<u8>)
    requires
        valid_tile_geometry(w2 as int, th as int, trs as int, h as int),
        data@.len() == w2 * h,
    ensures
        out@.len() == data@.len(),
        forall|d: int|
            0 <= d < data@.len() ==> out@[d] == data@[tiled_src_index(
                w2 as int,
                th as int,
                trs as int,
                d,
            )],
        forall|s: int|
            0 <= s < data@.len() ==> out@[linear_dst_index(w2 as int, th as int, trs as int, s)]
                == data@[s],
{
    let n = data.len();
    let mut out: Vec<u8> = Vec::new();
    let mut d: usize = 0;
    while d < n
        invariant
            0 <= d <= n,
            n == data@.len(),
            n == w2 * h,
            valid_tile_geometry(w2 as int, th as int, trs as int, h as int),
            out@.len() == d,
            forall|e: int|
                0 <= e < d ==> out@[e] == data@[tiled_src_index(
                    w2 as int,
                    th as int,
                    trs as int,
                    e,
                )],
        decreases n - d,
    {
        proof {
            lemma_src_of_linear(w2 as int, th as int, trs as int, h as int, d as int);
        }
        let row = d / w2;
        let cb = d % w2;
        let y = row / th;
        let i = row % th;
        let x = cb / trs;
        let j = cb % trs;
        let col = w2 / trs;
        let t = y * col + x;
        let u = t * th + i;
        let s = u * trs + j;
        out.push(data[s]);
        d = d + 1;
    }
    proof {
        assert forall|s: int| 0 <= s < data@.len() implies out@[linear_dst_index(
            w2 as int,
            th as int,
            trs as int,
            s,
        )] == data@[s] by {
            lemma_deinterleave_bijection(w2 as int, th as int, trs as int, h as int, s);
        }
    }
    out
}

} // verus!
