use vstd::prelude::*;

use crate::palette::Rgb;
use crate::DecodeError;

verus! {

/// How many pixels one packed byte holds at `bpp` bits per pixel.
pub open spec fn pixels_per_byte(bpp: int) -> int
    recommends
        bpp == 2 || bpp == 4,
{
    8int / bpp
}

/// The palette index of pixel `p` in the packed bytes `data`: within a
/// byte, pixels come least-significant group first.
pub open spec fn pixel_index(data: Seq<u8>, bpp: int, p: int) -> int
    recommends
        bpp == 2 || bpp == 4,
        0 <= p < data.len() * pixels_per_byte(bpp),
{
    if bpp == 4 {
        let b = data[p / 2] as int;
        if p % 2 == 0 {
            b % 16
        } else {
            b / 16
        }
    } else {
        let b = data[p / 4] as int;
        if p % 4 == 0 {
            b % 4
        } else if p % 4 == 1 {
            (b / 4) % 4
        } else if p % 4 == 2 {
            (b / 16) % 4
        } else {
            b / 64
        }
    }
}

/// True when every pixel index of `data` falls inside a palette of `n`
/// entries.
pub open spec fn indices_in_range(data: Seq<u8>, bpp: int, n: int) -> bool {
    forall|p: int|
        0 <= p < data.len() * pixels_per_byte(bpp) ==> #[trigger] pixel_index(data, bpp, p) < n
}

/// The interleaved RGB raster obtained by looking every pixel index of
/// `data` up in `pal`: three bytes per pixel, pixels in decode order.
pub open spec fn expanded(data: Seq<u8>, bpp: int, pal: Seq<Rgb>) -> Seq<u8> {
    Seq::new(
        (data.len() * pixels_per_byte(bpp) * 3) as nat,
        |i: int|
            {
                let px = pal[pixel_index(data, bpp, i / 3)];
                if i % 3 == 0 {
                    px.r
                } else if i % 3 == 1 {
                    px.g
                } else {
                    px.b
                }
            },
    )
}

/// `d * q + r` divided by `d` is `q` with remainder `r`.
proof fn lemma_decomp(q: int, d: int, r: int)
    requires
        d > 0,
        0 <= r < d,
        0 <= q,
    ensures
        (d * q + r) / d == q,
        (d * q + r) % d == r,
{
    assert(d * q + r == q * d + r) by (nonlinear_arith);
    vstd::arithmetic::div_mod::lemma_fundamental_div_mod_converse(d * q + r, d, q, r);
}

/// Unpacks sub-byte pixel indices and replaces each by its palette color.
/// Only 2 and 4 bits per pixel exist in this format: any other value is
/// rejected before anything is allocated. A pixel index beyond the palette
/// is a format inconsistency and rejects the whole input.
pub fn expand(data: &[u8], bpp: u32, palette: &Vec<Rgb>) -> (r: Result<Vec<u8>, DecodeError>)
    ensures
        match r {
            Ok(out) => (bpp == 2 || bpp == 4) && indices_in_range(
                data@,
                bpp as int,
                palette@.len() as int,
            ) && out@ == expanded(data@, bpp as int, palette@),
            Err(e) => if bpp == 2 || bpp == 4 {
                !indices_in_range(data@, bpp as int, palette@.len() as int) && e
                    == DecodeError::FormatError
            } else {
                e == DecodeError::UnsupportedPixelFormat
            },
        },
{
    if bpp == 4 {
        expand4(data, palette)
    } else if bpp == 2 {
        expand2(data, palette)
    } else {
        Err(DecodeError::UnsupportedPixelFormat)
    }
}

/// 4 bpp: each byte yields two pixels, low nibble first.
fn expand4(data: &[u8], palette: &Vec<Rgb>) -> (r: Result<Vec<u8>, DecodeError>)
    ensures
        match r {
            Ok(out) => indices_in_range(data@, 4, palette@.len() as int) && out@ == expanded(
                data@,
                4,
                palette@,
            ),
            Err(e) => !indices_in_range(data@, 4, palette@.len() as int) && e
                == DecodeError::FormatError,
        },
{
    let mut out: Vec<u8> = Vec::new();
    let mut k: usize = 0;
    while k < data.len()
        invariant
            k <= data@.len(),
            out@.len() == 6 * k,
            forall|p: int| 0 <= p < 2 * k ==> #[trigger] pixel_index(data@, 4, p) < palette@.len(),
            forall|i: int| 0 <= i < 6 * k ==> out@[i] == expanded(data@, 4, palette@)[i],
        decreases data@.len() - k,
    {
        let ghost ki = k as int;
        let b = data[k];
        let lo = (b % 16) as usize;
        let hi = (b / 16) as usize;
        proof {
            assert(pixels_per_byte(4) == 2);
            lemma_decomp(ki, 2, 0);
            lemma_decomp(ki, 2, 1);
            assert(pixel_index(data@, 4, 2 * ki) == lo as int);
            assert(pixel_index(data@, 4, 2 * ki + 1) == hi as int);
            assert(0 <= 2 * ki + 1 < data@.len() * pixels_per_byte(4));
        }
        if lo >= palette.len() {
            return Err(DecodeError::FormatError);
        }
        if hi >= palette.len() {
            return Err(DecodeError::FormatError);
        }
        let c0 = palette[lo];
        let c1 = palette[hi];
        out.push(c0.r);
        out.push(c0.g);
        out.push(c0.b);
        out.push(c1.r);
        out.push(c1.g);
        out.push(c1.b);
        proof {
            let e = expanded(data@, 4, palette@);
            lemma_decomp(2 * ki, 3, 0);
            lemma_decomp(2 * ki, 3, 1);
            lemma_decomp(2 * ki, 3, 2);
            lemma_decomp(2 * ki + 1, 3, 0);
            lemma_decomp(2 * ki + 1, 3, 1);
            lemma_decomp(2 * ki + 1, 3, 2);
            assert(e[6 * ki] == c0.r);
            assert(e[6 * ki + 1] == c0.g);
            assert(e[6 * ki + 2] == c0.b);
            assert(e[6 * ki + 3] == c1.r);
            assert(e[6 * ki + 4] == c1.g);
            assert(e[6 * ki + 5] == c1.b);
        }
        k = k + 1;
    }
    proof {
        assert(pixels_per_byte(4) == 2);
        assert(out@ =~= expanded(data@, 4, palette@));
    }
    Ok(out)
}

/// 2 bpp: each byte yields four pixels, least-significant two-bit group
/// first.
fn expand2(data: &[u8], palette: &Vec<Rgb>) -> (r: Result<Vec<u8>, DecodeError>)
    ensures
        match r {
            Ok(out) => indices_in_range(data@, 2, palette@.len() as int) && out@ == expanded(
                data@,
                2,
                palette@,
            ),
            Err(e) => !indices_in_range(data@, 2, palette@.len() as int) && e
                == DecodeError::FormatError,
        },
{
    let mut out: Vec<u8> = Vec::new();
    let mut k: usize = 0;
    while k < data.len()
        invariant
            k <= data@.len(),
            out@.len() == 12 * k,
            forall|p: int| 0 <= p < 4 * k ==> #[trigger] pixel_index(data@, 2, p) < palette@.len(),
            forall|i: int| 0 <= i < 12 * k ==> out@[i] == expanded(data@, 2, palette@)[i],
        decreases data@.len() - k,
    {
        let ghost ki = k as int;
        let b = data[k];
        let i0 = (b % 4) as usize;
        let i1 = ((b / 4) % 4) as usize;
        let i2 = ((b / 16) % 4) as usize;
        let i3 = (b / 64) as usize;
        proof {
            assert(pixels_per_byte(2) == 4);
            lemma_decomp(ki, 4, 0);
            lemma_decomp(ki, 4, 1);
            lemma_decomp(ki, 4, 2);
            lemma_decomp(ki, 4, 3);
            assert(pixel_index(data@, 2, 4 * ki) == i0 as int);
            assert(pixel_index(data@, 2, 4 * ki + 1) == i1 as int);
            assert(pixel_index(data@, 2, 4 * ki + 2) == i2 as int);
            assert(pixel_index(data@, 2, 4 * ki + 3) == i3 as int);
            assert(0 <= 4 * ki + 3 < data@.len() * pixels_per_byte(2));
        }
        if i0 >= palette.len() {
            return Err(DecodeError::FormatError);
        }
        if i1 >= palette.len() {
            return Err(DecodeError::FormatError);
        }
        if i2 >= palette.len() {
            return Err(DecodeError::FormatError);
        }
        if i3 >= palette.len() {
            return Err(DecodeError::FormatError);
        }
        let c0 = palette[i0];
        let c1 = palette[i1];
        let c2 = palette[i2];
        let c3 = palette[i3];
        out.push(c0.r);
        out.push(c0.g);
        out.push(c0.b);
        out.push(c1.r);
        out.push(c1.g);
        out.push(c1.b);
        out.push(c2.r);
        out.push(c2.g);
        out.push(c2.b);
        out.push(c3.r);
        out.push(c3.g);
        out.push(c3.b);
        proof {
            let e = expanded(data@, 2, palette@);
            lemma_decomp(4 * ki, 3, 0);
            lemma_decomp(4 * ki, 3, 1);
            lemma_decomp(4 * ki, 3, 2);
            lemma_decomp(4 * ki + 1, 3, 0);
            lemma_decomp(4 * ki + 1, 3, 1);
            lemma_decomp(4 * ki + 1, 3, 2);
            lemma_decomp(4 * ki + 2, 3, 0);
            lemma_decomp(4 * ki + 2, 3, 1);
            lemma_decomp(4 * ki + 2, 3, 2);
            lemma_decomp(4 * ki + 3, 3, 0);
            lemma_decomp(4 * ki + 3, 3, 1);
            lemma_decomp(4 * ki + 3, 3, 2);
            assert(e[12 * ki] == c0.r);
            assert(e[12 * ki + 1] == c0.g);
            assert(e[12 * ki + 2] == c0.b);
            assert(e[12 * ki + 3] == c1.r);
            assert(e[12 * ki + 4] == c1.g);
            assert(e[12 * ki + 5] == c1.b);
            assert(e[12 * ki + 6] == c2.r);
            assert(e[12 * ki + 7] == c2.g);
            assert(e[12 * ki + 8] == c2.b);
            assert(e[12 * ki + 9] == c3.r);
            assert(e[12 * ki + 10] == c3.g);
            assert(e[12 * ki + 11] == c3.b);
        }
        k = k + 1;
    }
    proof {
        assert(pixels_per_byte(2) == 4);
        assert(out@ =~= expanded(data@, 2, palette@));
    }
    Ok(out)
}

} // verus!
