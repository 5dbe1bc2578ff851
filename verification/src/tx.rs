use vstd::prelude::*;

use crate::le::le16;
use crate::le::le32;
use crate::le::read_u16_le;
use crate::le::read_u32_le;
use crate::palette::extract_palette;
use crate::palette::palette_of;
use crate::pixels::expand;
use crate::pixels::expanded;
use crate::pixels::indices_in_range;
use crate::DecodeError;

use vstd::arithmetic::div_mod::lemma_fundamental_div_mod;
use vstd::slice::slice_subrange;
use vstd::slice::slice_to_vec;

verus! {

/// The four bytes "NTTX", the header chunk's tag.
pub open spec fn is_nttx_magic(m: Seq<u8>) -> bool {
    m.len() == 4 && m[0] == 0x4e && m[1] == 0x54 && m[2] == 0x54 && m[3] == 0x58
}

/// The four bytes "PALT", the palette chunk's tag.
pub open spec fn is_palt_magic(m: Seq<u8>) -> bool {
    m.len() == 4 && m[0] == 0x50 && m[1] == 0x41 && m[2] == 0x4c && m[3] == 0x54
}

/// The four bytes "IMGE", the image chunk's tag.
pub open spec fn is_imge_magic(m: Seq<u8>) -> bool {
    m.len() == 4 && m[0] == 0x49 && m[1] == 0x4d && m[2] == 0x47 && m[3] == 0x45
}

/// Copies the four-byte tag at the start of a chunk.
fn read_magic(slice: &[u8]) -> (m: Vec<u8>)
    requires
        slice@.len() >= 4,
    ensures
        m@ == slice@.subrange(0, 4),
{
    let mut m: Vec<u8> = Vec::new();
    m.push(slice[0]);
    m.push(slice[1]);
    m.push(slice[2]);
    m.push(slice[3]);
    proof {
        assert(m@ =~= slice@.subrange(0, 4));
    }
    m
}

/// The container's header chunk: magic tag, declared total file size, and
/// this chunk's own byte length, which is the offset of the next chunk.
pub struct NttxChunk {
    pub magic: Vec<u8>,
    pub reserved1: u32,
    pub file_size: u32,
    pub chunk_size: u16,
    pub reserved2: u16,
}

impl NttxChunk {
    /// Parses the 16-byte header chunk from the start of `slice`.
    pub fn new(slice: &[u8]) -> (r: Result<NttxChunk, DecodeError>)
        ensures
            match r {
                Ok(c) => slice@.len() >= 16 && c.magic@ == slice@.subrange(0, 4) && c.reserved1
                    == le32(slice@, 4) && c.file_size == le32(slice@, 8) && c.chunk_size == le16(
                    slice@,
                    12,
                ) && c.reserved2 == le16(slice@, 14),
                Err(e) => slice@.len() < 16 && e == DecodeError::TruncatedInput,
            },
    {
        if slice.len() < 16 {
            return Err(DecodeError::TruncatedInput);
        }
        Ok(
            NttxChunk {
                magic: read_magic(slice),
                reserved1: read_u32_le(slice, 4),
                file_size: read_u32_le(slice, 8),
                chunk_size: read_u16_le(slice, 12),
                reserved2: read_u16_le(slice, 14),
            },
        )
    }

    /// True when the tag is "NTTX".
    pub fn is_valid(&self) -> (r: bool)
        ensures
            r == is_nttx_magic(self.magic@),
    {
        self.magic.len() == 4 && self.magic[0] == 0x4e && self.magic[1] == 0x54 && self.magic[2]
            == 0x54 && self.magic[3] == 0x58
    }
}

/// The palette chunk: magic tag, declared chunk size, entry count, and the
/// packed 16-bit colors.
pub struct PaltChunk {
    pub magic: Vec<u8>,
    pub chunk_size: u32,
    pub palette_count: u32,
    pub palette: Vec<u8>,
}

impl PaltChunk {
    /// Parses the palette chunk from the start of `slice`: a 12-byte fixed
    /// part followed by `palette_count * 2` bytes of packed colors.
    pub fn new(slice: &[u8]) -> (r: Result<PaltChunk, DecodeError>)
        ensures
            match r {
                Ok(c) => slice@.len() >= 12 && 12 + 2 * le32(slice@, 8) <= slice@.len() && c.magic@
                    == slice@.subrange(0, 4) && c.chunk_size == le32(slice@, 4) && c.palette_count
                    == le32(slice@, 8) && c.palette@ == slice@.subrange(
                    12,
                    12 + 2 * le32(slice@, 8),
                ),
                Err(e) => (slice@.len() < 12 || 12 + 2 * le32(slice@, 8) > slice@.len()) && e
                    == DecodeError::TruncatedInput,
            },
    {
        if slice.len() < 12 {
            return Err(DecodeError::TruncatedInput);
        }
        let count = read_u32_le(slice, 8);
        if (slice.len() as u64) < 12 + 2 * (count as u64) {
            return Err(DecodeError::TruncatedInput);
        }
        let palette = slice_to_vec(slice_subrange(slice, 12, 12 + 2 * (count as usize)));
        Ok(
            PaltChunk {
                magic: read_magic(slice),
                chunk_size: read_u32_le(slice, 4),
                palette_count: count,
                palette,
            },
        )
    }

    /// True when the tag is "PALT".
    pub fn is_valid(&self) -> (r: bool)
        ensures
            r == is_palt_magic(self.magic@),
    {
        self.magic.len() == 4 && self.magic[0] == 0x50 && self.magic[1] == 0x41 && self.magic[2]
            == 0x4c && self.magic[3] == 0x54
    }
}

/// The image chunk: magic tag, declared dimensions, declared pixel-data
/// byte length, and the raw packed pixel indices (the rest of the input).
pub struct ImgeChunk {
    pub magic: Vec<u8>,
    pub chunk_size: u32,
    pub reserved: u32,
    pub width: u16,
    pub height: u16,
    pub img_size: u32,
    pub img_data: Vec<u8>,
}

impl ImgeChunk {
    /// Parses the image chunk from the start of `slice`: a 20-byte fixed
    /// part followed by the raw pixel data, which runs to the end.
    pub fn new(slice: &[u8]) -> (r: Result<ImgeChunk, DecodeError>)
        ensures
            match r {
                Ok(c) => slice@.len() >= 20 && c.magic@ == slice@.subrange(0, 4) && c.chunk_size
                    == le32(slice@, 4) && c.reserved == le32(slice@, 8) && c.width == le16(
                    slice@,
                    12,
                ) && c.height == le16(slice@, 14) && c.img_size == le32(slice@, 16) && c.img_data@
                    == slice@.skip(20),
                Err(e) => slice@.len() < 20 && e == DecodeError::TruncatedInput,
            },
    {
        if slice.len() < 20 {
            return Err(DecodeError::TruncatedInput);
        }
        let img_data = slice_to_vec(slice_subrange(slice, 20, slice.len()));
        proof {
            assert(img_data@ =~= slice@.skip(20));
        }
        Ok(
            ImgeChunk {
                magic: read_magic(slice),
                chunk_size: read_u32_le(slice, 4),
                reserved: read_u32_le(slice, 8),
                width: read_u16_le(slice, 12),
                height: read_u16_le(slice, 14),
                img_size: read_u32_le(slice, 16),
                img_data,
            },
        )
    }

    /// True when the tag is "IMGE" and the declared pixel-data length
    /// equals the bytes actually present.
    pub fn is_valid(&self) -> (r: bool)
        ensures
            r == (is_imge_magic(self.magic@) && self.img_data@.len() == self.img_size),
    {
        self.magic.len() == 4 && self.magic[0] == 0x49 && self.magic[1] == 0x4d && self.magic[2]
            == 0x47 && self.magic[3] == 0x45 && self.img_data.len() == self.img_size as usize
    }

    /// Overrides the width, used by the corrective step of bpp resolution.
    pub fn set_width(&mut self, width: u16)
        ensures
            final(self).width == width,
            final(self).magic@ == old(self).magic@,
            final(self).chunk_size == old(self).chunk_size,
            final(self).reserved == old(self).reserved,
            final(self).height == old(self).height,
            final(self).img_size == old(self).img_size,
            final(self).img_data@ == old(self).img_data@,
    {
        self.width = width;
    }
}

/// Bits-per-pixel resolution is undefined: the declared pixel-data length
/// is zero, or smaller than nothing divides into.
pub open spec fn bpp_degenerate(w: int, h: int, size: int) -> bool {
    size == 0 || w * h / size == 0
}

/// The derived bits-per-pixel value: the format stores none, so it is
/// computed from the declared dimensions and pixel-data length.
pub open spec fn raw_bpp(w: int, h: int, size: int) -> int
    recommends
        !bpp_degenerate(w, h, size),
{
    8int / (w * h / size)
}

/// The known corrupt-metadata anomaly: a wrong declared width makes the
/// derived bpp 8, a value this format never uses.
pub open spec fn bpp_anomalous(w: int, h: int, size: int) -> bool {
    &&& !bpp_degenerate(w, h, size)
    &&& raw_bpp(w, h, size) == 8
    &&& w * h / 2 != size
}

/// The width to decode with: recomputed from the pixel-data length when the
/// anomaly is detected, the declared width otherwise. The recomputed value
/// is truncated to the 16 bits the header field holds.
pub open spec fn resolved_width(w: int, h: int, size: int) -> int {
    if bpp_anomalous(w, h, size) {
        (size * 2 / h) % 0x10000
    } else {
        w
    }
}

/// The bits-per-pixel value to decode with: fixed to 4 when the anomaly is
/// detected, the derived value otherwise.
pub open spec fn resolved_bpp(w: int, h: int, size: int) -> int {
    if bpp_anomalous(w, h, size) {
        4
    } else {
        raw_bpp(w, h, size)
    }
}

/// Derives bits-per-pixel from the declared image fields and corrects the
/// known width anomaly. Returns the width and bpp to decode with, or
/// `DivisionDegenerate` when the declared pixel-data length makes the
/// derivation undefined.
pub fn resolve_bpp(width: u16, height: u16, img_size: u32) -> (r: Result<(u16, u32), DecodeError>)
    ensures
        match r {
            Ok(t) => !bpp_degenerate(width as int, height as int, img_size as int) && t.0
                == resolved_width(width as int, height as int, img_size as int) && t.1
                == resolved_bpp(width as int, height as int, img_size as int),
            Err(e) => bpp_degenerate(width as int, height as int, img_size as int) && e
                == DecodeError::DivisionDegenerate,
        },
{
    if img_size == 0 {
        return Err(DecodeError::DivisionDegenerate);
    }
    proof {
        assert(width as int * height as int <= 0xffff * 0xffff) by (nonlinear_arith)
            requires
                width <= 0xffff,
                height <= 0xffff,
        ;
    }
    let wh: u32 = width as u32 * height as u32;
    let q: u32 = wh / img_size;
    if q == 0 {
        return Err(DecodeError::DivisionDegenerate);
    }
    let bpp: u32 = 8 / q;
    if bpp == 8 && wh / 2 != img_size {
        proof {
            lemma_fundamental_div_mod(wh as int, img_size as int);
            assert(wh as int % img_size as int >= 0) by (nonlinear_arith)
                requires
                    img_size > 0,
                    wh >= 0,
            ;
            assert(wh as int >= img_size) by (nonlinear_arith)
                requires
                    wh == img_size * q + wh as int % img_size as int,
                    wh as int % img_size as int >= 0,
                    q >= 1,
                    img_size > 0,
            ;
            assert(height > 0) by (nonlinear_arith)
                requires
                    wh == width as int * height as int,
                    wh >= 1,
                    width >= 0,
                    height >= 0,
            ;
        }
        let corrected: u64 = img_size as u64 * 2 / (height as u64);
        let out_w: u16 = #[verifier::truncate] (corrected as u16);
        proof {
            let c64 = corrected;
            assert(c64 as u16 == (c64 % 0x10000) as u16) by (bit_vector);
        }
        Ok((out_w, 4))
    } else {
        Ok((width, bpp))
    }
}

/// The decode of a chunked-container input, from the raw bytes to the
/// `(width, height, rgb-bytes)` triple or the error that rejects it.
pub open spec fn a_decode(s: Seq<u8>) -> Result<(int, int, Seq<u8>), DecodeError> {
    let cs = le16(s, 12);
    let p = s.subrange(cs, s.len() as int);
    let count = le32(p, 8);
    let pcs = le32(p, 4);
    let im = s.subrange(cs + pcs, s.len() as int);
    if s.len() < 16 {
        Err(DecodeError::TruncatedInput)
    } else if cs > s.len() {
        Err(DecodeError::TruncatedInput)
    } else if p.len() < 12 {
        Err(DecodeError::TruncatedInput)
    } else if 12 + 2 * count > p.len() {
        Err(DecodeError::TruncatedInput)
    } else if cs + pcs > s.len() {
        Err(DecodeError::TruncatedInput)
    } else if im.len() < 20 {
        Err(DecodeError::TruncatedInput)
    } else {
        let file_size = le32(s, 8);
        let w = le16(im, 12);
        let h = le16(im, 14);
        let size = le32(im, 16);
        let data = im.skip(20);
        let pal = palette_of(p.subrange(12, 12 + 2 * count), count);
        if !(is_nttx_magic(s.subrange(0, 4)) && is_palt_magic(p.subrange(0, 4)) && is_imge_magic(
            im.subrange(0, 4),
        ) && file_size == s.len() && size == data.len()) {
            Err(DecodeError::FormatError)
        } else if bpp_degenerate(w, h, size) {
            Err(DecodeError::DivisionDegenerate)
        } else {
            let rw = resolved_width(w, h, size);
            let rb = resolved_bpp(w, h, size);
            if rb != 2 && rb != 4 {
                Err(DecodeError::UnsupportedPixelFormat)
            } else if !indices_in_range(data, rb, count) {
                Err(DecodeError::FormatError)
            } else {
                Ok((rw, h, expanded(data, rb, pal)))
            }
        }
    }
}

/// Law: any chunked-container input whose declared total file size differs
/// from its actual length is rejected; no such input decodes to a triple.
pub proof fn lemma_size_mismatch_rejected(s: Seq<u8>)
    requires
        le32(s, 8) != s.len(),
    ensures
        a_decode(s) is Err,
{
}

/// Decodes one chunked-container input: parses the three chunks, validates
/// their tags and declared sizes, derives bits-per-pixel with the width
/// correction, and expands the pixel data through the palette. Returns the
/// `(width, height, rgb-bytes)` triple that the image encoder consumes.
pub fn convert(src: &[u8]) -> (r: Result<(usize, usize, Vec<u8>), DecodeError>)
    ensures
        match r {
            Ok(t) => a_decode(src@) == Ok::<(int, int, Seq<u8>), DecodeError>(
                (t.0 as int, t.1 as int, t.2@),
            ),
            Err(e) => a_decode(src@) == Err::<(int, int, Seq<u8>), DecodeError>(e),
        },
{
    let nttx = match NttxChunk::new(src) {
        Ok(c) => c,
        Err(e) => {
            return Err(e);
        },
    };
    let cs = nttx.chunk_size as usize;
    if cs > src.len() {
        return Err(DecodeError::TruncatedInput);
    }
    let psub = slice_subrange(src, cs, src.len());
    let palt = match PaltChunk::new(psub) {
        Ok(c) => c,
        Err(e) => {
            return Err(e);
        },
    };
    if (cs as u64) + (palt.chunk_size as u64) > src.len() as u64 {
        return Err(DecodeError::TruncatedInput);
    }
    let isub = slice_subrange(src, cs + palt.chunk_size as usize, src.len());
    let mut imge = match ImgeChunk::new(isub) {
        Ok(c) => c,
        Err(e) => {
            return Err(e);
        },
    };
    if !(nttx.file_size as usize == src.len() && nttx.is_valid() && palt.is_valid()
        && imge.is_valid()) {
        return Err(DecodeError::FormatError);
    }
    let palette = match extract_palette(palt.palette.as_slice(), palt.palette_count as usize) {
        Ok(p) => p,
        Err(e) => {
            // the palette slice holds exactly the declared entries, so
            // extraction cannot run short
            proof {
                assert(false);
            }
            return Err(e);
        },
    };
    let (out_w, bpp) = match resolve_bpp(imge.width, imge.height, imge.img_size) {
        Ok(t) => t,
        Err(e) => {
            return Err(e);
        },
    };
    imge.set_width(out_w);
    let data = match expand(imge.img_data.as_slice(), bpp, &palette) {
        Ok(d) => d,
        Err(e) => {
            return Err(e);
        },
    };
    Ok((imge.width as usize, imge.height as usize, data))
}

} // verus!
