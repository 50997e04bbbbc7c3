use zsh_history_to_fish::codec::decode;
use zsh_history_to_fish::{Converter, Initialized};

#[test]
fn ascii_passes_through_unchanged() {
    assert_eq!(decode(b"echo hello world"), "echo hello world");
    assert_eq!(decode(b"ls -la /tmp"), "ls -la /tmp");
}

#[test]
fn marker_toggles_bit_five_of_next_byte() {
    assert_eq!(decode(&[0x83, 0x41]), "a");
}

#[test]
fn trailing_marker_emits_nothing() {
    assert_eq!(decode(&[0x83]), "");
}

#[test]
fn marker_before_marker_stays_armed() {
    assert_eq!(decode(&[0x83, 0x83, 0x41]), "a");
}

#[test]
fn escaped_utf8_bytes_are_recovered() {
    // "é" is C3 A9 in UTF-8; zsh stores each byte as marker + byte with bit
    // 5 toggled.
    assert_eq!(decode(&[0x83, 0xe3, 0x83, 0x89]), "\u{e9}");
}

#[test]
fn invalid_utf8_is_replaced_lossily() {
    assert_eq!(decode(&[0xff]), "\u{fffd}");
}

#[test]
fn converter_decode_matches_free_decoder() {
    assert_eq!(Converter::<Initialized>::decode(b"plain text"), "plain text");
    assert_eq!(Converter::<Initialized>::decode(&[0x83, 0x41]), "a");
}
