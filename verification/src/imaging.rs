//! Pictures as plain pixels: QR codes for the pairing and setup links,
//! decoded cover art, where cover art is cached, and the per-track seed of
//! the spectrum visualiser.
use vstd::prelude::*;
use vstd::string::StringSliceAdditionalSpecFns;
use crate::text::{chars_of, push_str, rfind_char, rfind_in, string_of_range};

verus! {

/// A decoded picture: width, height and RGBA bytes, row by row.
pub struct RgbaImage {
    pub width: u32,
    pub height: u32,
    pub pixels: Vec<u8>,
}

/// How much damage a QR code survives.
#[derive(Clone, Copy, Debug, PartialEq, Eq, Structural)]
pub enum EccLevel {
    Low,
    Medium,
    Quartile,
    High,
}

// ---------------------------------------------------------------------------
// Trusted calls
// ---------------------------------------------------------------------------

/// The PNG bytes `qrcode_generator::to_png_to_vec` makes of `text`, or
/// `None` when it reports an error.
pub uninterp spec fn qr_png(text: Seq<char>, level: EccLevel, size: usize) -> Option<Seq<u8>>;

/// The picture `image::load_from_memory` followed by `to_rgba8` makes of
/// `bytes`, as (width, height, RGBA bytes), or `None` when decoding fails.
pub uninterp spec fn decoded_rgba(bytes: Seq<u8>) -> Option<(u32, u32, Seq<u8>)>;

/// The error `qrcode_generator` reports.
#[verifier::external_type_specification]
#[verifier::external_body]
pub struct ExQRCodeError(qrcode_generator::QRCodeError);

/// The error `image` reports.
#[verifier::external_type_specification]
#[verifier::external_body]
pub struct ExImageError(image::ImageError);

/// `qrcode_generator::to_png_to_vec`: encodes `text` as a QR code drawn as
/// a `size`×`size` PNG. Stated here: the result is a function of the text,
/// the level and the size. Which bytes come out is not stated. The image is
/// allocated as `size`² bytes, so `size` is kept small.
#[verifier::external_body]
fn qr_png_bytes(text: &str, level: EccLevel, size: usize) -> (r: Result<Vec<u8>, qrcode_generator::QRCodeError>)
    requires
        size <= 4096,
    ensures
        match r {
            Ok(png) => qr_png(text@, level, size) == Some(png@),
            Err(_) => qr_png(text@, level, size) is None,
        },
{
    let ecc = match level {
        EccLevel::Low => qrcode_generator::QrCodeEcc::Low,
        EccLevel::Medium => qrcode_generator::QrCodeEcc::Medium,
        EccLevel::Quartile => qrcode_generator::QrCodeEcc::Quartile,
        EccLevel::High => qrcode_generator::QrCodeEcc::High,
    };
    qrcode_generator::to_png_to_vec(text, ecc, size)
}

/// `image::load_from_memory` and `DynamicImage::into_rgba8`: decodes an
/// encoded picture (its format guessed from its first bytes) into RGBA
/// pixels. Stated here: the result is a function of the bytes. Which pixels
/// come out is not stated.
#[verifier::external_body]
fn rgba_from_encoded(bytes: &[u8]) -> (r: Result<RgbaImage, image::ImageError>)
    ensures
        match r {
            Ok(img) => decoded_rgba(bytes@) == Some((img.width, img.height, img.pixels@)),
            Err(_) => decoded_rgba(bytes@) is None,
        },
{
    image::load_from_memory(bytes).map(
        |img| {
            let rgba = img.into_rgba8();
            RgbaImage { width: rgba.width(), height: rgba.height(), pixels: rgba.into_raw() }
        },
    )
}

// ---------------------------------------------------------------------------
// Pictures
// ---------------------------------------------------------------------------

/// The side of the QR codes shown on screen, in pixels.
pub const QR_SIZE: usize = 250;


/// Decodes an encoded picture (PNG or JPEG) into RGBA pixels; `None` when
/// it does not decode.
pub fn decode_image(bytes: &[u8]) -> (img: Option<RgbaImage>)
    ensures
        match img {
            Some(i) => decoded_rgba(bytes@) == Some((i.width, i.height, i.pixels@)),
            None => decoded_rgba(bytes@) is None,
        },
{
    match rgba_from_encoded(bytes) {
        Ok(i) => Some(i),
        Err(_) => None,
    }
}

/// The QR code picture for `text` given the PNG the encoder produced (or
/// its failure): the decoded PNG, `None` when either step failed.
pub open spec fn qr_picture_from(png: Option<Seq<u8>>) -> Option<(u32, u32, Seq<u8>)> {
    match png {
        Some(p) => decoded_rgba(p),
        None => None,
    }
}

/// The on-screen QR code for `url`: a 250-pixel, low-redundancy code,
/// decoded to pixels; `None` when encoding or decoding fails.
pub fn qr_code_image(url: &str) -> (img: Option<RgbaImage>)
    ensures
        match img {
            Some(i) => qr_picture_from(qr_png(url@, EccLevel::Low, QR_SIZE)) == Some(
                (i.width, i.height, i.pixels@),
            ),
            None => qr_picture_from(qr_png(url@, EccLevel::Low, QR_SIZE)) is None,
        },
{
    match qr_png_bytes(url, EccLevel::Low, QR_SIZE) {
        Ok(png) => decode_image(png.as_slice()),
        Err(_) => None,
    }
}

// ---------------------------------------------------------------------------
// Cover-art cache
// ---------------------------------------------------------------------------

/// The name cover art is cached under: the last segment of its URL (after
/// the last `/`), the item id when the URL is empty or has no `/`.
pub open spec fn cover_cache_id(id: Seq<char>, url: Seq<char>) -> Seq<char> {
    if url.len() == 0 {
        id
    } else {
        match rfind_char(url, '/') {
            Some(k) => url.skip(k + 1),
            None => id,
        }
    }
}

/// The cache name of the cover art at `url` for item `id`; covers shared
/// by several tracks share one name.
pub fn cover_cache_name(id: &str, url: &str) -> (name: String)
    ensures
        name@ == cover_cache_id(id@, url@),
{
    let cs = chars_of(url);
    if cs.len() == 0 {
        return id.to_owned();
    }
    proof {
        crate::text::lemma_rfind_some_is_last(cs@, '/');
    }
    match rfind_in(&cs, '/') {
        Some(k) => {
            let s = string_of_range(&cs, k + 1, cs.len());
            assert(cs@.subrange(k + 1, cs@.len() as int) =~= cs@.skip(k + 1));
            s
        },
        None => id.to_owned(),
    }
}

/// The file cover art is cached in: `.cache/images/NAME.png`.
pub fn cover_cache_file(name: &str) -> (path: String)
    ensures
        path@ == ".cache/images/"@ + name@ + ".png"@,
{
    let mut path = ".cache/images/".to_owned();
    push_str(&mut path, name);
    push_str(&mut path, ".png");
    path
}

// ---------------------------------------------------------------------------
// Spectrum seed
// ---------------------------------------------------------------------------

/// The djb2 hash (`h = h * 33 + byte`, from 5381, wrapping at 32 bits).
pub open spec fn djb2(bytes: Seq<u8>) -> u32
    decreases bytes.len(),
{
    if bytes.len() == 0 {
        5381
    } else {
        ((djb2(bytes.drop_last()) as nat * 33 + bytes.last() as nat) % 0x1_0000_0000) as u32
    }
}

/// The visualiser's per-track bucket: the djb2 hash of the id's UTF-8
/// bytes, modulo 1200. The seed is 0.6 plus a thousandth of it.
pub fn spectrum_bucket(track_id: &str) -> (b: u32)
    ensures
        b == djb2(track_id.spec_bytes()) % 1200,
{
    let bytes = track_id.as_bytes();
    let mut hash: u32 = 5381;
    let mut i: usize = 0;
    while i < bytes.len()
        invariant
            i <= bytes@.len(),
            hash == djb2(bytes@.take(i as int)),
        decreases bytes@.len() - i,
    {
        assert(bytes@.take(i as int + 1).drop_last() =~= bytes@.take(i as int));
        let b = bytes[i];
        let m = hash.wrapping_mul(33);
        let next = m.wrapping_add(b as u32);
        proof {
            let big = hash as nat * 33;
            let md: nat = 0x1_0000_0000;
            assert(m == big % md);
            vstd::arithmetic::div_mod::lemma_add_mod_noop(big as int, b as int, md as int);
            vstd::arithmetic::div_mod::lemma_small_mod(b as nat, md);
            if m as nat + b as nat >= md {
                let x: nat = (m as nat + b as nat - md) as nat;
                vstd::arithmetic::div_mod::lemma_small_mod(x, md);
                vstd::arithmetic::div_mod::lemma_mod_add_multiples_vanish(x as int, md as int);
            } else {
                vstd::arithmetic::div_mod::lemma_small_mod((m as nat + b as nat) as nat, md);
            }
            assert(next == (big + b as nat) % md);
        }
        hash = next;
        i += 1;
    }
    assert(bytes@.take(bytes@.len() as int) =~= bytes@);
    hash % 1200
}

} // verus!
