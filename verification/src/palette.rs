use vstd::prelude::*;

use crate::le::le16;
use crate::le::read_u16_le;
use crate::DecodeError;

verus! {

/// One 8-bit RGB color, the unit of the decoded palette and of the output
/// raster.
#[derive(Clone, Copy, Debug, PartialEq, Eq, Structural)]
pub struct Rgb {
    pub r: u8,
    pub g: u8,
    pub b: u8,
}

/// Scales a 5-bit channel value to 8 bits with brightness-preserving
/// rounding: `v*8 + (v*8)/32`, not a plain shift.
pub open spec fn scale5to8(v: int) -> u8
    recommends
        0 <= v < 32,
{
    (8 * v + (8 * v) / 32) as u8
}

/// The RGB triple packed into the 16-bit color value `c`: five bits per
/// channel, red in the lowest bits, the top bit unused.
pub open spec fn rgb_of(c: int) -> Rgb {
    Rgb { r: scale5to8(c % 32), g: scale5to8((c / 32) % 32), b: scale5to8((c / 1024) % 32) }
}

/// The palette encoded as `n` packed little-endian 16-bit colors at the
/// start of `s`, in order: palette index equals sequence index.
pub open spec fn palette_of(s: Seq<u8>, n: int) -> Seq<Rgb> {
    Seq::new(n as nat, |i: int| rgb_of(le16(s, 2 * i)))
}

/// Decodes one packed 16-bit color.
fn decode_color(c: u16) -> (p: Rgb)
    ensures
        p == rgb_of(c as int),
{
    let r5: u16 = c % 32;
    let g5: u16 = (c / 32) % 32;
    let b5: u16 = (c / 1024) % 32;
    let r8: u16 = 8 * r5 + (8 * r5) / 32;
    let g8: u16 = 8 * g5 + (8 * g5) / 32;
    let b8: u16 = 8 * b5 + (8 * b5) / 32;
    Rgb { r: r8 as u8, g: g8 as u8, b: b8 as u8 }
}

/// Decodes `palette_size` packed little-endian 16-bit colors from the start
/// of `slice` into 8-bit RGB triples, preserving order. A slice too short to
/// hold them all is rejected as truncated.
pub fn extract_palette(slice: &[u8], palette_size: usize) -> (r: Result<Vec<Rgb>, DecodeError>)
    ensures
        match r {
            Ok(pal) => 2 * palette_size <= slice@.len() && pal@ == palette_of(
                slice@,
                palette_size as int,
            ),
            Err(e) => 2 * palette_size > slice@.len() && e == DecodeError::TruncatedInput,
        },
{
    if palette_size > slice.len() / 2 {
        return Err(DecodeError::TruncatedInput);
    }
    let mut pal: Vec<Rgb> = Vec::new();
    let mut i: usize = 0;
    while i < palette_size
        invariant
            i <= palette_size,
            2 * palette_size <= slice@.len(),
            slice@.len() <= usize::MAX,
            pal@.len() == i,
            forall|j: int| 0 <= j < i ==> pal@[j] == rgb_of(le16(slice@, 2 * j)),
        decreases palette_size - i,
    {
        proof {
            assert(2 * i + 2 <= slice@.len());
        }
        let col = read_u16_le(slice, 2 * i);
        pal.push(decode_color(col));
        i = i + 1;
    }
    proof {
        assert(pal@ =~= palette_of(slice@, palette_size as int));
    }
    Ok(pal)
}

/// Law: palette decoding is a pure function of the packed color value alone,
/// and it round-trips the top five bits of each channel: shifting a decoded
/// 8-bit channel right by three recovers the packed 5-bit channel value.
pub proof fn lemma_palette_decode_round_trip(c: u16)
    ensures
        rgb_of(c as int).r >> 3 == (c as int) % 32,
        rgb_of(c as int).g >> 3 == ((c as int) / 32) % 32,
        rgb_of(c as int).b >> 3 == ((c as int) / 1024) % 32,
{
    lemma_scale5to8_high_bits((c as int) % 32);
    lemma_scale5to8_high_bits(((c as int) / 32) % 32);
    lemma_scale5to8_high_bits(((c as int) / 1024) % 32);
}

/// The scaled 8-bit channel keeps the 5-bit source value in its top bits.
proof fn lemma_scale5to8_high_bits(v: int)
    requires
        0 <= v < 32,
    ensures
        scale5to8(v) >> 3 == v,
{
    let d = (8 * v) / 32;
    assert(0 <= d < 8);
    vstd::arithmetic::div_mod::lemma_fundamental_div_mod_converse(8 * v + d, 8, v, d);
    assert((8 * v + d) / 8 == v);
    let s = scale5to8(v);
    assert(s == 8 * v + d);
    assert(s >> 3 == s / 8) by (bit_vector);
}

} // verus!
