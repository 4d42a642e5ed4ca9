use textutils::lossy::decode_runs;
use textutils::wc::is_white_space;

/// The scalar that starts at `i`, by the standard library's validation.
fn scalar_at(bytes: &[u8], i: usize) -> Option<(char, usize)> {
    for n in 1..=4 {
        if i + n <= bytes.len() {
            if let Ok(text) = std::str::from_utf8(&bytes[i..i + n]) {
                let mut chars = text.chars();
                if let (Some(c), None) = (chars.next(), chars.next()) {
                    return Some((c, n));
                }
            }
        }
    }
    None
}

/// One replacement character for each maximal run of positions at which no
/// scalar starts.
fn expected(bytes: &[u8]) -> String {
    let mut text = String::new();
    let mut in_run = false;
    let mut i = 0;
    while i < bytes.len() {
        match scalar_at(bytes, i) {
            Some((c, n)) => {
                text.push(c);
                in_run = false;
                i += n;
            }
            None => {
                if !in_run {
                    text.push('\u{fffd}');
                }
                in_run = true;
                i += 1;
            }
        }
    }
    text
}

#[test]
fn valid_text_is_decoded_as_it_is() {
    for text in ["", "a", "ábc", "日本語", "😀 and 𝄞", "\u{0}\u{7f}\u{80}\u{7ff}\u{800}\u{ffff}\u{10000}\u{10ffff}"] {
        assert_eq!(decode_runs(text.as_bytes()), text);
    }
}

#[test]
fn every_character_is_decoded_from_its_bytes() {
    let mut buffer = [0u8; 4];
    for value in 0..=0x10ffffu32 {
        if let Some(c) = char::from_u32(value) {
            let bytes = c.encode_utf8(&mut buffer).as_bytes();
            let text = decode_runs(bytes);
            let mut chars = text.chars();
            assert_eq!(chars.next(), Some(c));
            assert_eq!(chars.next(), None);
        }
    }
}

#[test]
fn runs_of_invalid_bytes_give_one_replacement_each() {
    assert_eq!(decode_runs(&[0xa1]), "\u{fffd}");
    assert_eq!(decode_runs(&[0xa1, 0xa1]), "\u{fffd}");
    assert_eq!(decode_runs(&[0xff, 0xfe, 0xfd]), "\u{fffd}");
    assert_eq!(decode_runs(&[0xff, b'A', 0xff]), "\u{fffd}A\u{fffd}");
    assert_eq!(decode_runs(&[b'a', 0xe2, 0x82, b'b']), "a\u{fffd}b");
    assert_eq!(decode_runs(&[0xe2, 0x82, 0xac]), "€");
    assert_eq!(decode_runs(&[0xf0, 0x9f, 0x92]), "\u{fffd}");
    // Overlong forms, surrogates and numbers beyond the last character.
    assert_eq!(decode_runs(&[0xc0, 0x80]), "\u{fffd}");
    assert_eq!(decode_runs(&[0xc1, 0xbf, b'x']), "\u{fffd}x");
    assert_eq!(decode_runs(&[0xe0, 0x9f, 0xbf]), "\u{fffd}");
    assert_eq!(decode_runs(&[0xed, 0xa0, 0x80]), "\u{fffd}");
    assert_eq!(decode_runs(&[0xed, 0x9f, 0xbf]), "\u{d7ff}");
    assert_eq!(decode_runs(&[0xf0, 0x8f, 0xbf, 0xbf]), "\u{fffd}");
    assert_eq!(decode_runs(&[0xf4, 0x90, 0x80, 0x80]), "\u{fffd}");
    assert_eq!(decode_runs(&[0xf4, 0x8f, 0xbf, 0xbf]), "\u{10ffff}");
    assert_eq!(decode_runs(&[0xf8, 0x88, 0x80, 0x80, 0x80, b'z']), "\u{fffd}z");
}

#[test]
fn every_pair_of_bytes_is_decoded_as_expected() {
    for first in 0..=255u8 {
        for second in 0..=255u8 {
            let bytes = [first, second];
            assert_eq!(decode_runs(&bytes), expected(&bytes), "{:02x?}", bytes);
        }
    }
}

#[test]
fn mixed_bytes_are_decoded_as_expected() {
    let alphabet = [
        b'a', 0x7f, 0x80, 0xa1, 0xbf, 0xc2, 0xc3, 0xdf, 0xe0, 0xe2, 0xed, 0xef, 0xf0, 0xf4, 0xf5,
        0xff, 0x9f, 0x90, 0x8f, b'\n',
    ];
    let mut state: u64 = 0x2545f4914f6cdd1d;
    for _ in 0..20000 {
        let mut bytes = Vec::new();
        state ^= state << 13;
        state ^= state >> 7;
        state ^= state << 17;
        let len = (state % 9) as usize;
        for _ in 0..len {
            state ^= state << 13;
            state ^= state >> 7;
            state ^= state << 17;
            bytes.push(alphabet[(state % alphabet.len() as u64) as usize]);
        }
        assert_eq!(decode_runs(&bytes), expected(&bytes), "{:02x?}", bytes);
    }
}

#[test]
fn a_single_ill_formed_piece_is_decoded_as_the_standard_library_does() {
    let samples: [&[u8]; 6] = [
        &[0xc3],
        &[b'a', 0xc3, b'b'],
        &[0xe2, 0x82],
        &[b'x', 0xf0, 0x9f, 0x98, b'y'],
        &[0xa1, b'-', 0xa1],
        &[0xff, b'-', 0xc3, 0xa1],
    ];
    for bytes in samples {
        assert_eq!(decode_runs(bytes), String::from_utf8_lossy(bytes));
    }
}

#[test]
fn white_space_is_what_the_standard_library_says() {
    for value in 0..=0x10ffffu32 {
        if let Some(c) = char::from_u32(value) {
            assert_eq!(is_white_space(c), c.is_whitespace(), "U+{:04X}", value);
        }
    }
}
