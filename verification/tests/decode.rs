use nttx::palette::extract_palette;
use nttx::palette::Rgb;
use nttx::pixels::expand;
use nttx::tile::deinterleave;
use nttx::tx;
use nttx::tx::resolve_bpp;
use nttx::tx::ImgeChunk;
use nttx::tx::NttxChunk;
use nttx::tx::PaltChunk;
use nttx::txb;
use nttx::decode;
use nttx::DecodeError;
use nttx::InputFormat;

fn rgb(r: u8, g: u8, b: u8) -> Rgb {
    Rgb { r, g, b }
}

fn put32(v: &mut Vec<u8>, x: u32) {
    v.extend_from_slice(&x.to_le_bytes());
}

fn put16(v: &mut Vec<u8>, x: u16) {
    v.extend_from_slice(&x.to_le_bytes());
}

/// A chunked-container input with a two-entry palette (black, then a color
/// with packed value 1, which decodes to (8,0,0)).
fn fixture_a_with(width: u16, height: u16, data: &[u8]) -> Vec<u8> {
    let mut v = Vec::new();
    v.extend_from_slice(b"NTTX");
    put32(&mut v, 0); // reserved
    put32(&mut v, 0); // total file size, patched below
    put16(&mut v, 16); // this chunk's size
    put16(&mut v, 0); // reserved
    v.extend_from_slice(b"PALT");
    put32(&mut v, 16); // palette chunk size: 12 fixed + 4 palette bytes
    put32(&mut v, 2); // palette entry count
    put16(&mut v, 0x0000);
    put16(&mut v, 0x0001);
    v.extend_from_slice(b"IMGE");
    put32(&mut v, 0); // reserved chunk size
    put32(&mut v, 0); // reserved
    put16(&mut v, width);
    put16(&mut v, height);
    put32(&mut v, data.len() as u32);
    v.extend_from_slice(data);
    let total = (v.len() as u32).to_le_bytes();
    v[8..12].copy_from_slice(&total);
    v
}

fn fixture_a() -> Vec<u8> {
    // 2x2 pixels at 4 bpp: 4*4 / 2 bytes = 2, so bpp = 8/(4/2) = 4
    fixture_a_with(2, 2, &[0x01, 0x10])
}

/// A tiled flat-header input: 4x4 pixels, 2x2 tiles, two palette entries.
fn fixture_b() -> Vec<u8> {
    let mut v = Vec::new();
    put32(&mut v, 0); // reserved
    put32(&mut v, 4); // width
    put32(&mut v, 4); // height
    put32(&mut v, 2); // tile width
    put32(&mut v, 2); // tile height
    put32(&mut v, 2); // palette entry count
    put16(&mut v, 0x0000);
    put16(&mut v, 0x0001);
    put32(&mut v, 8); // raw pixel-data length: 4*4/2
    v.extend_from_slice(&[0x01, 0x10, 0x11, 0x00, 0x01, 0x01, 0x10, 0x10]);
    v
}

#[test]
fn palette_decodes_known_colors() {
    // packed 0x0001: r5=1 -> 8; packed 0x7fff: all channels 31 -> 255
    let bytes = [0x01u8, 0x00, 0xff, 0x7f];
    let pal = extract_palette(&bytes, 2).unwrap();
    assert_eq!(pal, vec![rgb(8, 0, 0), rgb(255, 255, 255)]);
}

#[test]
fn palette_uses_scale_and_add_formula() {
    // r5 = 20: 20*8 = 160, plus 160/32 = 5, so 165 (a plain shift would give 160)
    let bytes = 20u16.to_le_bytes();
    let pal = extract_palette(&bytes, 1).unwrap();
    assert_eq!(pal[0], rgb(165, 0, 0));
}

#[test]
fn palette_rejects_short_slice() {
    assert_eq!(extract_palette(&[0x01], 1), Err(DecodeError::TruncatedInput));
    assert_eq!(extract_palette(&[], 1), Err(DecodeError::TruncatedInput));
}

#[test]
fn palette_is_deterministic_and_round_trips_high_bits() {
    for c in 0u32..=0xffff {
        let bytes = (c as u16).to_le_bytes();
        let once = extract_palette(&bytes, 1).unwrap();
        let twice = extract_palette(&bytes, 1).unwrap();
        assert_eq!(once, twice);
        let p = once[0];
        assert_eq!((p.r >> 3) as u32, c & 0x1f);
        assert_eq!((p.g >> 3) as u32, (c >> 5) & 0x1f);
        assert_eq!((p.b >> 3) as u32, (c >> 10) & 0x1f);
    }
}

#[test]
fn expander_low_nibble_first() {
    // byte 0x21 yields pixel index 1 then 2
    let pal = vec![rgb(0, 0, 0), rgb(10, 20, 30), rgb(40, 50, 60)];
    let out = expand(&[0x21], 4, &pal).unwrap();
    assert_eq!(out, vec![10, 20, 30, 40, 50, 60]);
}

#[test]
fn expander_two_bpp_groups_ascend() {
    // byte 0b11100100 yields indices 0, 1, 2, 3
    let pal = vec![rgb(1, 1, 1), rgb(2, 2, 2), rgb(3, 3, 3), rgb(4, 4, 4)];
    let out = expand(&[0b1110_0100], 2, &pal).unwrap();
    assert_eq!(out, vec![1, 1, 1, 2, 2, 2, 3, 3, 3, 4, 4, 4]);
}

#[test]
fn expander_rejects_unsupported_bpp() {
    let pal = vec![rgb(0, 0, 0)];
    assert_eq!(expand(&[0x00], 3, &pal), Err(DecodeError::UnsupportedPixelFormat));
    assert_eq!(expand(&[0x00], 8, &pal), Err(DecodeError::UnsupportedPixelFormat));
    assert_eq!(expand(&[0x00], 0, &pal), Err(DecodeError::UnsupportedPixelFormat));
}

#[test]
fn expander_rejects_index_beyond_palette() {
    let pal = vec![rgb(0, 0, 0), rgb(1, 1, 1)];
    assert_eq!(expand(&[0x02], 4, &pal), Err(DecodeError::FormatError));
}

#[test]
fn resolve_bpp_corrects_width_anomaly() {
    // wrong declared width 32 makes the derived bpp 8; the corrected width
    // satisfies corrected * 64 / 2 == 2048
    let r = resolve_bpp(32, 64, 2048).unwrap();
    assert_eq!(r, (64, 4));
    assert_eq!(r.0 as u32 * 64 / 2, 2048);
}

#[test]
fn resolve_bpp_keeps_consistent_width() {
    assert_eq!(resolve_bpp(64, 64, 2048).unwrap(), (64, 4));
    assert_eq!(resolve_bpp(64, 64, 1024).unwrap(), (64, 2));
}

#[test]
fn resolve_bpp_degenerate_cases() {
    assert_eq!(resolve_bpp(4, 4, 0), Err(DecodeError::DivisionDegenerate));
    assert_eq!(resolve_bpp(1, 1, 9), Err(DecodeError::DivisionDegenerate));
}

#[test]
fn nttx_chunk_parses_and_validates() {
    let f = fixture_a();
    let c = NttxChunk::new(&f).unwrap();
    assert!(c.is_valid());
    assert_eq!(c.file_size as usize, f.len());
    assert_eq!(c.chunk_size, 16);
    let bad = NttxChunk::new(&f[4..20]).unwrap();
    assert!(!bad.is_valid());
    assert!(matches!(NttxChunk::new(&f[..15]), Err(DecodeError::TruncatedInput)));
}

#[test]
fn palt_chunk_parses_and_validates() {
    let f = fixture_a();
    let c = PaltChunk::new(&f[16..]).unwrap();
    assert!(c.is_valid());
    assert_eq!(c.chunk_size, 16);
    assert_eq!(c.palette_count, 2);
    assert_eq!(c.palette, vec![0x00, 0x00, 0x01, 0x00]);
    assert!(matches!(PaltChunk::new(&f[16..27]), Err(DecodeError::TruncatedInput)));
}

#[test]
fn imge_chunk_parses_and_width_can_be_set() {
    let f = fixture_a();
    let mut c = ImgeChunk::new(&f[32..]).unwrap();
    assert!(c.is_valid());
    assert_eq!((c.width, c.height, c.img_size), (2, 2, 2));
    assert_eq!(c.img_data, vec![0x01, 0x10]);
    c.set_width(7);
    assert_eq!(c.width, 7);
    assert!(matches!(ImgeChunk::new(&f[32..51]), Err(DecodeError::TruncatedInput)));
}

#[test]
fn convert_a_decodes_fixture() {
    let (w, h, px) = tx::convert(&fixture_a()).unwrap();
    assert_eq!((w, h), (2, 2));
    assert_eq!(px, vec![8, 0, 0, 0, 0, 0, 0, 0, 0, 8, 0, 0]);
}

#[test]
fn convert_a_rejects_any_single_byte_truncation_or_extension() {
    let f = fixture_a();
    assert!(tx::convert(&f).is_ok());
    for i in 0..f.len() {
        let mut shorter = f.clone();
        shorter.remove(i);
        assert!(tx::convert(&shorter).is_err(), "removal at {} accepted", i);
    }
    let mut longer = f.clone();
    longer.push(0);
    assert!(tx::convert(&longer).is_err());
    let mut prefixed = vec![0u8];
    prefixed.extend_from_slice(&f);
    assert!(tx::convert(&prefixed).is_err());
}

#[test]
fn convert_a_rejects_size_mismatch_with_format_error() {
    let mut f = fixture_a();
    // declare one byte more than is present
    let total = (f.len() as u32 + 1).to_le_bytes();
    f[8..12].copy_from_slice(&total);
    assert_eq!(tx::convert(&f), Err(DecodeError::FormatError));
}

#[test]
fn convert_a_rejects_wrong_magic() {
    let mut f = fixture_a();
    f[0] = b'X';
    assert_eq!(tx::convert(&f), Err(DecodeError::FormatError));
    let mut f2 = fixture_a();
    f2[16] = b'Q';
    assert_eq!(tx::convert(&f2), Err(DecodeError::FormatError));
    let mut f3 = fixture_a();
    f3[32] = b'Q';
    assert_eq!(tx::convert(&f3), Err(DecodeError::FormatError));
}

#[test]
fn convert_a_rejects_unsupported_bpp() {
    // 5x1 pixels with 1 data byte: 8 / (5/1) = 1 bpp
    let f = fixture_a_with(5, 1, &[0x00]);
    assert_eq!(tx::convert(&f), Err(DecodeError::UnsupportedPixelFormat));
}

#[test]
fn convert_a_rejects_zero_pixel_data_length() {
    let f = fixture_a_with(2, 2, &[]);
    assert_eq!(tx::convert(&f), Err(DecodeError::DivisionDegenerate));
}

#[test]
fn convert_a_corrects_width_anomaly_end_to_end() {
    let data = vec![0u8; 2048];
    let f = fixture_a_with(32, 64, &data);
    let (w, h, px) = tx::convert(&f).unwrap();
    assert_eq!((w, h), (64, 64));
    assert_eq!(px.len(), 2048 * 2 * 3);
}

#[test]
fn convert_b_decodes_minimal_tiled_image() {
    let (w, h, px) = txb::convert(&fixture_b()).unwrap();
    assert_eq!((w, h), (4, 4));
    assert_eq!(px.len(), 48);
    // tiles: (d0,d1 | d2,d3 / d4,d5 | d6,d7); linear rows are then
    // [d0 d2] [d1 d3] [d4 d6] [d5 d7], each byte low nibble first
    let z = [0u8, 0, 0];
    let c = [8u8, 0, 0];
    let pixel_indices = [1, 0, 1, 1, 0, 1, 0, 0, 1, 0, 0, 1, 1, 0, 0, 1];
    let mut expected = Vec::new();
    for idx in pixel_indices {
        expected.extend_from_slice(if idx == 1 { &c } else { &z });
    }
    assert_eq!(px, expected);
}

/// The inverse of deinterleaving: rebuilds the tile-by-tile buffer from the
/// linear one by the copy schedule the format describes.
fn retile(linear: &[u8], w2: usize, th: usize, trs: usize, h: usize) -> Vec<u8> {
    let rows = h / th;
    let col = w2 / trs;
    let mut tiled = vec![0u8; linear.len()];
    let mut s = 0;
    for y in 0..rows {
        for x in 0..col {
            for i in 0..th {
                for j in 0..trs {
                    tiled[s] = linear[(y * th + i) * w2 + x * trs + j];
                    s += 1;
                }
            }
        }
    }
    tiled
}

#[test]
fn deinterleave_then_retile_round_trips() {
    // several geometries where the tile dimensions divide the image's
    let geoms = [(2usize, 2usize, 1usize, 4usize), (4, 1, 2, 3), (6, 3, 3, 9), (1, 5, 1, 10)];
    for (w2, th, trs, h) in geoms {
        let n = w2 * h;
        let data: Vec<u8> = (0..n).map(|i| (i * 37 % 251) as u8).collect();
        let lin = deinterleave(&data, w2, th, trs, h);
        assert_eq!(retile(&lin, w2, th, trs, h), data, "geometry {:?}", (w2, th, trs, h));
    }
}

#[test]
fn convert_b_rejects_bad_inputs() {
    let f = fixture_b();
    assert_eq!(txb::convert(&f[..10]), Err(DecodeError::TruncatedInput));
    let mut short = f.clone();
    short.pop();
    assert_eq!(txb::convert(&short), Err(DecodeError::TruncatedInput));
    // palette entry count over the closed format's 16, all entries present
    let mut many = Vec::new();
    put32(&mut many, 0);
    put32(&mut many, 4);
    put32(&mut many, 4);
    put32(&mut many, 2);
    put32(&mut many, 2);
    put32(&mut many, 17);
    many.extend_from_slice(&[0u8; 34]);
    put32(&mut many, 8);
    many.extend_from_slice(&[0u8; 8]);
    assert_eq!(txb::convert(&many), Err(DecodeError::FormatError));
    let mut odd = f.clone();
    odd[12] = 1; // odd tile width breaks 4-bpp byte packing
    assert_eq!(txb::convert(&odd), Err(DecodeError::FormatError));
    let mut nodiv = f.clone();
    nodiv[12] = 3; // tile width that does not divide the image width
    assert_eq!(txb::convert(&nodiv), Err(DecodeError::FormatError));
    let mut badraw = f.clone();
    badraw[28] = 6; // declared pixel-data length off the geometry's w*h/2
    assert_eq!(txb::convert(&badraw), Err(DecodeError::FormatError));
    let mut badidx = f.clone();
    badidx[32] = 0x02; // pixel index beyond the two palette entries
    assert_eq!(txb::convert(&badidx), Err(DecodeError::FormatError));
}

#[test]
fn dispatcher_selects_the_indicated_pipeline() {
    let a = fixture_a();
    let b = fixture_b();
    assert_eq!(decode(InputFormat::Chunked, &a), tx::convert(&a));
    assert_eq!(decode(InputFormat::Tiled, &b), txb::convert(&b));
    assert!(decode(InputFormat::Tiled, &a).is_err());
}
