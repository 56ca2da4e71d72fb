//! The format gate of the conversion: probing input bytes by their magic
//! numbers through the image decoder, and the decision the conversion takes
//! on each probe result.

use vstd::prelude::*;

verus! {

/// Whether a byte string begins with the given prefix.
pub open spec fn has_prefix(s: Seq<u8>, p: Seq<u8>) -> bool {
    p.len() <= s.len() && s.subrange(0, p.len() as int) == p
}

/// What the format probe reports of an input: one of the three encodings
/// conversions accept, some other recognised raster encoding, or (as `None`
/// of the probe) nothing recognisable.
#[derive(Clone, Copy, PartialEq, Eq, Structural, Debug)]
pub enum GuessedKind {
    Png,
    Jpeg,
    Bmp,
    /// A recognised encoding other than the three above.
    Other,
}

/// The magic prefix of a PNG stream.
pub open spec fn png_magic() -> Seq<u8> {
    seq![0x89u8, 0x50u8, 0x4eu8, 0x47u8, 0x0du8, 0x0au8, 0x1au8, 0x0au8]
}

/// The magic prefix of a JPEG stream.
pub open spec fn jpeg_magic() -> Seq<u8> {
    seq![0xffu8, 0xd8u8, 0xffu8]
}

/// The magic prefix of a BMP stream.
pub open spec fn bmp_magic() -> Seq<u8> {
    seq![0x42u8, 0x4du8]
}

/// The magic prefixes of the other encodings the probe recognises: the two
/// GIF signatures, RIFF, the two TIFF byte orders, DDS, ICO, Radiance HDR,
/// the seven PNM headers, farbfeld, the two AVIF boxes, OpenEXR and QOI.
pub open spec fn other_magics() -> Seq<Seq<u8>> {
    seq![
        seq![0x47u8, 0x49u8, 0x46u8, 0x38u8, 0x39u8, 0x61u8],
        seq![0x47u8, 0x49u8, 0x46u8, 0x38u8, 0x37u8, 0x61u8],
        seq![0x52u8, 0x49u8, 0x46u8, 0x46u8],
        seq![0x4du8, 0x4du8, 0x00u8, 0x2au8],
        seq![0x49u8, 0x49u8, 0x2au8, 0x00u8],
        seq![0x44u8, 0x44u8, 0x53u8, 0x20u8],
        seq![0x00u8, 0x00u8, 0x01u8, 0x00u8],
        seq![0x23u8, 0x3fu8, 0x52u8, 0x41u8, 0x44u8, 0x49u8, 0x41u8, 0x4eu8, 0x43u8, 0x45u8],
        seq![0x50u8, 0x31u8],
        seq![0x50u8, 0x32u8],
        seq![0x50u8, 0x33u8],
        seq![0x50u8, 0x34u8],
        seq![0x50u8, 0x35u8],
        seq![0x50u8, 0x36u8],
        seq![0x50u8, 0x37u8],
        seq![0x66u8, 0x61u8, 0x72u8, 0x62u8, 0x66u8, 0x65u8, 0x6cu8, 0x64u8],
        seq![0x00u8, 0x00u8, 0x00u8, 0x20u8, 0x66u8, 0x74u8, 0x79u8, 0x70u8, 0x61u8, 0x76u8,
            0x69u8, 0x66u8],
        seq![0x00u8, 0x00u8, 0x00u8, 0x1cu8, 0x66u8, 0x74u8, 0x79u8, 0x70u8, 0x61u8, 0x76u8,
            0x69u8, 0x66u8],
        seq![0x76u8, 0x2fu8, 0x31u8, 0x01u8],
        seq![0x71u8, 0x6fu8, 0x69u8, 0x66u8],
    ]
}

/// Whether the bytes begin with the magic of a recognised encoding other
/// than PNG, JPEG or BMP.
pub open spec fn matches_other_magic(b: Seq<u8>) -> bool {
    exists|k: int| 0 <= k < other_magics().len() && has_prefix(b, #[trigger] other_magics()[k])
}

/// What the probe answers for given input bytes. The recognised prefixes
/// exclude one another, so the order of the tests carries no weight.
pub open spec fn guess_spec(b: Seq<u8>) -> Option<GuessedKind> {
    if has_prefix(b, png_magic()) {
        Some(GuessedKind::Png)
    } else if has_prefix(b, jpeg_magic()) {
        Some(GuessedKind::Jpeg)
    } else if has_prefix(b, bmp_magic()) {
        Some(GuessedKind::Bmp)
    } else if matches_other_magic(b) {
        Some(GuessedKind::Other)
    } else {
        None
    }
}

/// Relies on `image::guess_format`: it recognises an input by the table of
/// magic byte prefixes at the head of the buffer — one entry per encoding it
/// can name — and reports an error when no entry matches.
#[verifier::external_body]
fn guess_format_kind(bytes: &[u8]) -> (r: Option<GuessedKind>)
    ensures
        r == guess_spec(bytes@),
{
    match image::guess_format(bytes) {
        Ok(image::ImageFormat::Png) => Some(GuessedKind::Png),
        Ok(image::ImageFormat::Jpeg) => Some(GuessedKind::Jpeg),
        Ok(image::ImageFormat::Bmp) => Some(GuessedKind::Bmp),
        Ok(_) => Some(GuessedKind::Other),
        Err(_) => None,
    }
}

/// How the conversion proceeds after probing an input file's bytes.
#[derive(Clone, Copy, PartialEq, Eq, Structural, Debug)]
pub enum InputGate {
    /// No recognisable encoding: the conversion of this file fails with the
    /// probe's error.
    Unrecognized,
    /// A recognised encoding, but not one conversions accept as input: the
    /// file is reported and skipped.
    UnsupportedFormat,
    /// A supported raster input: the file is decoded and converted.
    Supported,
}

/// Conversions accept PNG, JPEG and BMP inputs, skip other recognised
/// encodings, and fail on unrecognisable bytes.
pub open spec fn gate_spec(g: Option<GuessedKind>) -> InputGate {
    match g {
        None => InputGate::Unrecognized,
        Some(GuessedKind::Png) => InputGate::Supported,
        Some(GuessedKind::Jpeg) => InputGate::Supported,
        Some(GuessedKind::Bmp) => InputGate::Supported,
        Some(GuessedKind::Other) => InputGate::UnsupportedFormat,
    }
}

/// Decides from a probe result how the conversion proceeds.
pub fn gate_guessed_format(g: Option<GuessedKind>) -> (r: InputGate)
    ensures
        r == gate_spec(g),
{
    match g {
        None => InputGate::Unrecognized,
        Some(GuessedKind::Png) => InputGate::Supported,
        Some(GuessedKind::Jpeg) => InputGate::Supported,
        Some(GuessedKind::Bmp) => InputGate::Supported,
        Some(GuessedKind::Other) => InputGate::UnsupportedFormat,
    }
}

/// Probes the head of an input file's bytes for a known magic number and
/// decides how the conversion proceeds with the file.
pub fn classify_input_bytes(bytes: &[u8]) -> (r: InputGate)
    ensures
        r == gate_spec(guess_spec(bytes@)),
{
    gate_guessed_format(guess_format_kind(bytes))
}

} // verus!
