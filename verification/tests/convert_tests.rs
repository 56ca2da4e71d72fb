use rico::convert::{classify_input_bytes, gate_guessed_format, GuessedKind, InputGate};

const PNG_MAGIC: [u8; 8] = [0x89, b'P', b'N', b'G', 0x0d, 0x0a, 0x1a, 0x0a];

#[test]
fn png_magic_bytes_are_supported_input() {
    let mut bytes = PNG_MAGIC.to_vec();
    bytes.extend_from_slice(&[0, 0, 0, 13]);
    assert_eq!(classify_input_bytes(&bytes), InputGate::Supported);
}

#[test]
fn jpeg_magic_bytes_are_supported_input() {
    assert_eq!(classify_input_bytes(&[0xff, 0xd8, 0xff, 0xe0, 0x00]), InputGate::Supported);
}

#[test]
fn bmp_magic_bytes_are_supported_input() {
    assert_eq!(classify_input_bytes(b"BM\x36\x00\x00\x00"), InputGate::Supported);
}

#[test]
fn other_recognised_encodings_are_skipped() {
    assert_eq!(classify_input_bytes(b"GIF89a..."), InputGate::UnsupportedFormat);
    assert_eq!(classify_input_bytes(b"GIF87a..."), InputGate::UnsupportedFormat);
    assert_eq!(classify_input_bytes(b"RIFF....WEBP"), InputGate::UnsupportedFormat);
    assert_eq!(classify_input_bytes(b"qoif...."), InputGate::UnsupportedFormat);
    assert_eq!(classify_input_bytes(b"II*\x00etc"), InputGate::UnsupportedFormat);
    assert_eq!(classify_input_bytes(b"P6 2 2 255"), InputGate::UnsupportedFormat);
}

#[test]
fn unrecognisable_bytes_fail_the_gate() {
    assert_eq!(classify_input_bytes(&[]), InputGate::Unrecognized);
    assert_eq!(classify_input_bytes(&[1, 2, 3]), InputGate::Unrecognized);
    assert_eq!(classify_input_bytes(b"<svg xmlns="), InputGate::Unrecognized);
}

#[test]
fn a_truncated_magic_is_not_recognised() {
    // The PNG signature cut one byte short matches nothing.
    assert_eq!(classify_input_bytes(&PNG_MAGIC[..7]), InputGate::Unrecognized);
}

#[test]
fn gate_decides_per_probe_result() {
    assert_eq!(gate_guessed_format(Some(GuessedKind::Png)), InputGate::Supported);
    assert_eq!(gate_guessed_format(Some(GuessedKind::Jpeg)), InputGate::Supported);
    assert_eq!(gate_guessed_format(Some(GuessedKind::Bmp)), InputGate::Supported);
    assert_eq!(gate_guessed_format(Some(GuessedKind::Other)), InputGate::UnsupportedFormat);
    assert_eq!(gate_guessed_format(None), InputGate::Unrecognized);
}
