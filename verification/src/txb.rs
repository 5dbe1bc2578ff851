use vstd::prelude::*;

use crate::le::le32;
use crate::le::read_u32_le;
use crate::palette::extract_palette;
use crate::palette::palette_of;
use crate::pixels::expand;
use crate::pixels::expanded;
use crate::pixels::indices_in_range;
use crate::pixels::pixels_per_byte;
use crate::tile::deinterleave;
use crate::tile::deinterleaved;
use crate::tile::valid_tile_geometry;
use crate::DecodeError;

use vstd::arithmetic::div_mod::lemma_fundamental_div_mod;
use vstd::arithmetic::div_mod::lemma_fundamental_div_mod_converse;
use vstd::slice::slice_subrange;

verus! {

/// The decode of a tiled flat-header input, from the raw bytes to the
/// `(width, height, rgb-bytes)` triple or the error that rejects it.
/// The header is little-endian 32-bit fields: a reserved word, width,
/// height, tile width, tile height, palette entry count, the packed
/// palette, the raw pixel-data length, then that many tiled index bytes.
pub open spec fn b_decode(s: Seq<u8>) -> Result<(int, int, Seq<u8>), DecodeError> {
    let w = le32(s, 4);
    let h = le32(s, 8);
    let tw = le32(s, 12);
    let th = le32(s, 16);
    let count = le32(s, 20);
    let off = 28 + 2 * count;
    let raw = le32(s, 24 + 2 * count);
    if s.len() < 24 || 28 + 2 * count > s.len() {
        Err(DecodeError::TruncatedInput)
    } else if off + raw > s.len() {
        Err(DecodeError::TruncatedInput)
    } else if count > 16 {
        Err(DecodeError::FormatError)
    } else if tw == 0 || th == 0 || tw % 2 != 0 || w % tw != 0 || h % th != 0 {
        Err(DecodeError::FormatError)
    } else if raw != w * h / 2 {
        Err(DecodeError::FormatError)
    } else {
        let pal = palette_of(s.subrange(24, 24 + 2 * count), count);
        let data = s.subrange(off, off + raw);
        let lin = deinterleaved(data, w / 2, th, tw / 2);
        if !indices_in_range(lin, 4, count) {
            Err(DecodeError::FormatError)
        } else {
            Ok((w, h, expanded(lin, 4, pal)))
        }
    }
}

/// Law: a tiled input that decodes at all decodes to a full raster: the
/// byte length of the RGB output is exactly `width * height * 3`.
pub proof fn lemma_b_output_size(s: Seq<u8>)
    ensures
        b_decode(s) matches Ok(t) ==> t.2.len() == t.0 * t.1 * 3,
{
    if b_decode(s) is Ok {
        let w = le32(s, 4);
        let h = le32(s, 8);
        let tw = le32(s, 12);
        let count = le32(s, 20);
        let off = 28 + 2 * count;
        let raw = le32(s, 24 + 2 * count);
        let k = w / tw;
        let trs = tw / 2;
        lemma_fundamental_div_mod(tw, 2);
        assert(tw == 2 * trs);
        lemma_fundamental_div_mod(w, tw);
        assert(w == tw * k);
        assert(k >= 0) by (nonlinear_arith)
            requires
                w >= 0,
                tw > 0,
                k == w / tw,
        ;
        assert(trs * k >= 0) by (nonlinear_arith)
            requires
                trs >= 0,
                k >= 0,
        ;
        assert(w == 2 * (trs * k) + 0) by (nonlinear_arith)
            requires
                w == tw * k,
                tw == 2 * trs,
        ;
        lemma_fundamental_div_mod_converse(w, 2, trs * k, 0);
        let w2 = w / 2;
        assert(w2 == trs * k);
        assert(w2 * h >= 0) by (nonlinear_arith)
            requires
                w2 >= 0,
                h >= 0,
        ;
        assert(w * h == 2 * (w2 * h) + 0) by (nonlinear_arith)
            requires
                w == 2 * w2,
        ;
        lemma_fundamental_div_mod_converse(w * h, 2, w2 * h, 0);
        assert(raw == w2 * h);
        let data = s.subrange(off, off + raw);
        let lin = deinterleaved(data, w2, le32(s, 16), trs);
        assert(lin.len() == raw);
        assert(pixels_per_byte(4) == 2);
        assert(b_decode(s)->Ok_0.2.len() == raw * 2 * 3);
        assert(raw * 2 * 3 == w * h * 3) by (nonlinear_arith)
            requires
                w * h == 2 * raw,
        ;
    }
}

/// Decodes one tiled flat-header input: parses the header and palette,
/// checks the tile geometry the format presumes (even tile width, tile
/// dimensions dividing the image dimensions, pixel data of exactly half a
/// byte per pixel), deinterleaves the tiles into row-major order, and
/// expands the fixed 4-bpp indices through the palette. Returns the
/// `(width, height, rgb-bytes)` triple that the image encoder consumes.
pub fn convert(src: &[u8]) -> (r: Result<(usize, usize, Vec<u8>), DecodeError>)
    ensures
        match r {
            Ok(t) => b_decode(src@) == Ok::<(int, int, Seq<u8>), DecodeError>(
                (t.0 as int, t.1 as int, t.2@),
            ),
            Err(e) => b_decode(src@) == Err::<(int, int, Seq<u8>), DecodeError>(e),
        },
{
    if src.len() < 24 {
        return Err(DecodeError::TruncatedInput);
    }
    let w = read_u32_le(src, 4);
    let h = read_u32_le(src, 8);
    let tw = read_u32_le(src, 12);
    let th = read_u32_le(src, 16);
    let count = read_u32_le(src, 20);
    if 28 + 2 * (count as u64) > src.len() as u64 {
        return Err(DecodeError::TruncatedInput);
    }
    let pal_end: usize = 24 + 2 * (count as usize);
    let raw = read_u32_le(src, pal_end);
    let off: usize = pal_end + 4;
    if (off as u64) + (raw as u64) > src.len() as u64 {
        return Err(DecodeError::TruncatedInput);
    }
    if count > 16 {
        return Err(DecodeError::FormatError);
    }
    if tw == 0 || th == 0 || tw % 2 != 0 || w % tw != 0 || h % th != 0 {
        return Err(DecodeError::FormatError);
    }
    proof {
        assert(w as int * h as int <= 0xffff_ffff * 0xffff_ffff) by (nonlinear_arith)
            requires
                w <= 0xffff_ffff,
                h <= 0xffff_ffff,
        ;
    }
    let wh: u64 = w as u64 * h as u64;
    if (raw as u64) != wh / 2 {
        return Err(DecodeError::FormatError);
    }
    let palette = match extract_palette(slice_subrange(src, 24, pal_end), count as usize) {
        Ok(p) => p,
        Err(e) => {
            // the palette slice holds exactly the declared entries, so
            // extraction cannot run short
            proof {
                assert(false);
            }
            return Err(e);
        },
    };
    let data = slice_subrange(src, off, off + raw as usize);
    let ghost w2 = w as int / 2;
    let ghost trs = tw as int / 2;
    let lin: Vec<u8>;
    if raw == 0 {
        lin = Vec::new();
        proof {
            assert(lin@ =~= deinterleaved(data@, w2, th as int, trs));
        }
    } else {
        proof {
            let wi = w as int;
            let hi = h as int;
            let twi = tw as int;
            let thi = th as int;
            let k = wi / twi;
            lemma_fundamental_div_mod(twi, 2);
            assert(twi == 2 * trs);
            lemma_fundamental_div_mod(wi, twi);
            assert(wi == twi * k);
            assert(k >= 0) by (nonlinear_arith)
                requires
                    wi >= 0,
                    twi > 0,
                    k == wi / twi,
            ;
            assert(trs * k >= 0) by (nonlinear_arith)
                requires
                    trs >= 0,
                    k >= 0,
            ;
            assert(wi == 2 * (trs * k) + 0) by (nonlinear_arith)
                requires
                    wi == twi * k,
                    twi == 2 * trs,
            ;
            lemma_fundamental_div_mod_converse(wi, 2, trs * k, 0);
            assert(w2 == trs * k);
            // raw > 0 forces a nonzero image, so the halved width is positive
            assert(wi * hi >= 2 * (raw as int)) by (nonlinear_arith)
                requires
                    raw as int == wi * hi / 2,
                    wi * hi >= 0,
            ;
            assert(wi > 0 && hi > 0) by (nonlinear_arith)
                requires
                    wi * hi >= 2,
                    wi >= 0,
                    hi >= 0,
            ;
            assert(k > 0) by (nonlinear_arith)
                requires
                    wi == twi * k,
                    wi > 0,
                    twi > 0,
                    k >= 0,
            ;
            assert(trs > 0) by (nonlinear_arith)
                requires
                    twi == 2 * trs,
                    twi > 0,
                    twi % 2 == 0,
            ;
            assert(w2 > 0) by (nonlinear_arith)
                requires
                    w2 == trs * k,
                    trs > 0,
                    k > 0,
            ;
            assert(w2 == k * trs + 0) by (nonlinear_arith)
                requires
                    w2 == trs * k,
            ;
            lemma_fundamental_div_mod_converse(w2, trs, k, 0);
            assert(w2 % trs == 0);
            assert(valid_tile_geometry(w2, thi, trs, hi));
            // the pixel data is exactly half a byte per pixel
            assert(w2 * hi >= 0) by (nonlinear_arith)
                requires
                    w2 >= 0,
                    hi >= 0,
            ;
            assert(wi * hi == 2 * (w2 * hi) + 0) by (nonlinear_arith)
                requires
                    wi == 2 * w2,
            ;
            lemma_fundamental_div_mod_converse(wi * hi, 2, w2 * hi, 0);
            assert(raw as int == w2 * hi);
            assert(data@.len() == w2 * hi);
        }
        lin = deinterleave(data, (w / 2) as usize, th as usize, (tw / 2) as usize, h as usize);
        proof {
            assert(lin@ =~= deinterleaved(data@, w2, th as int, trs));
        }
    }
    let rgb = match expand(lin.as_slice(), 4, &palette) {
        Ok(v) => v,
        Err(e) => {
            return Err(e);
        },
    };
    Ok((w as usize, h as usize, rgb))
}

} // verus!
