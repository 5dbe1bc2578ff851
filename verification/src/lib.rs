//! Decoder for a proprietary tiled, palette-indexed texture format, in its
//! two on-disk layouts: a chunked container (magic-tagged "NTTX" / "PALT" /
//! "IMGE" sections) and a tiled flat-header file. Each decode call is a pure
//! function from an input byte buffer to a `(width, height, rgb-bytes)`
//! triple; writing that raster to an image file is the caller's concern.

pub mod le;
pub mod palette;
pub mod pixels;
pub mod tile;
pub mod tx;
pub mod txb;

use vstd::prelude::*;

verus! {

/// Why a decode attempt was rejected.
#[derive(Clone, Copy, Debug, PartialEq, Eq, Structural)]
pub enum DecodeError {
    /// Fewer bytes were available than a field declared.
    TruncatedInput,
    /// A magic tag or a declared size did not match the data.
    FormatError,
    /// The resolved bits-per-pixel value is neither 2 nor 4.
    UnsupportedPixelFormat,
    /// The declared pixel-data length makes bpp resolution undefined.
    DivisionDegenerate,
}

/// Which on-disk layout an input uses. The caller indicates it (from a file
/// extension or an explicit flag): the decoder does not sniff content.
#[derive(Clone, Copy, Debug, PartialEq, Eq, Structural)]
pub enum InputFormat {
    /// The chunked container layout: three magic-tagged chunks.
    Chunked,
    /// The tiled flat-header layout.
    Tiled,
}

/// The decode of an input under the layout the caller indicated.
pub open spec fn decoded(format: InputFormat, s: Seq<u8>) -> Result<
    (int, int, Seq<u8>),
    DecodeError,
> {
    match format {
        InputFormat::Chunked => tx::a_decode(s),
        InputFormat::Tiled => txb::b_decode(s),
    }
}

/// Decodes one input in the layout the caller indicates and returns the
/// `(width, height, rgb-bytes)` triple, the decoder's entire contract with
/// the external image encoder.
pub fn decode(format: InputFormat, src: &[u8]) -> (r: Result<(usize, usize, Vec<u8>), DecodeError>)
    ensures
        match r {
            Ok(t) => decoded(format, src@) == Ok::<(int, int, Seq<u8>), DecodeError>(
                (t.0 as int, t.1 as int, t.2@),
            ),
            Err(e) => decoded(format, src@) == Err::<(int, int, Seq<u8>), DecodeError>(e),
        },
{
    match format {
        InputFormat::Chunked => tx::convert(src),
        InputFormat::Tiled => txb::convert(src),
    }
}

} // verus!
