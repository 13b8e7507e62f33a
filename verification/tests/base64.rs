use tts_pipeline::base64::{decode_base64, value_of};

const ALPHABET: &str = "ABCDEFGHIJKLMNOPQRSTUVWXYZabcdefghijklmnopqrstuvwxyz0123456789+/";

/// An encoder to hold the decoder against.
fn encode(bytes: &[u8]) -> String {
    let symbols: Vec<char> = ALPHABET.chars().collect();
    let mut text = String::new();
    for group in bytes.chunks(3) {
        let b0 = group[0] as u32;
        let b1 = *group.get(1).unwrap_or(&0) as u32;
        let b2 = *group.get(2).unwrap_or(&0) as u32;
        let word = (b0 << 16) | (b1 << 8) | b2;
        text.push(symbols[(word >> 18) as usize & 63]);
        text.push(symbols[(word >> 12) as usize & 63]);
        text.push(if group.len() > 1 { symbols[(word >> 6) as usize & 63] } else { '=' });
        text.push(if group.len() > 2 { symbols[word as usize & 63] } else { '=' });
    }
    text
}

#[test]
fn standard_test_vectors_decode() {
    let vectors = [
        ("", ""),
        ("Zg==", "f"),
        ("Zm8=", "fo"),
        ("Zm9v", "foo"),
        ("Zm9vYg==", "foob"),
        ("Zm9vYmE=", "fooba"),
        ("Zm9vYmFy", "foobar"),
    ];
    for (text, plain) in vectors {
        assert_eq!(decode_base64(text), Some(plain.as_bytes().to_vec()));
        assert_eq!(encode(plain.as_bytes()), text);
    }
    assert_eq!(decode_base64("AAECAwT+/w=="), Some(vec![0, 1, 2, 3, 4, 254, 255]));
    assert_eq!(decode_base64("////"), Some(vec![255, 255, 255]));
    assert_eq!(decode_base64("++++"), Some(vec![0xfb, 0xef, 0xbe]));
}

#[test]
fn every_symbol_has_its_value() {
    for (value, symbol) in ALPHABET.chars().enumerate() {
        assert_eq!(value_of(symbol), Some(value as u8));
    }
    for c in ['=', '-', '_', ' ', '\n', '@', '[', '`', '{', ':', '.', 'é', '\0'] {
        assert_eq!(value_of(c), None);
    }
    let valued = (0u32..=0x10FFFF).filter_map(char::from_u32).filter(|c| value_of(*c).is_some());
    assert_eq!(valued.count(), 64);
}

#[test]
fn decoding_inverts_encoding() {
    let mut bytes = Vec::new();
    let mut state: u32 = 12345;
    for len in 0..200usize {
        bytes.clear();
        for _ in 0..len {
            state = state.wrapping_mul(1664525).wrapping_add(1013904223);
            bytes.push((state >> 24) as u8);
        }
        assert_eq!(decode_base64(&encode(&bytes)), Some(bytes.clone()));
    }
    let all: Vec<u8> = (0..=255).collect();
    assert_eq!(decode_base64(&encode(&all)), Some(all));
}

#[test]
fn malformed_texts_do_not_decode() {
    for text in [
        "Z", "Zg", "Zm9", "Zm9vY", "Zg=", "Zg===", "=", "==", "====", "Z===", "Zg=a", "=Zg=",
        "Zm9v Zm9v", "Zm9v\n", " Zm9v", "Zm9-", "Zm9_", "Zg==Zm9v", "Zm8=Zm9v", "Zm9vZg=\n",
    ] {
        assert_eq!(decode_base64(text), None);
    }
}

#[test]
fn unused_bits_must_be_zero() {
    // "Zh==" and "Zm9=" carry set bits behind the last byte.
    assert_eq!(decode_base64("Zg=="), Some(vec![b'f']));
    assert_eq!(decode_base64("Zh=="), None);
    assert_eq!(decode_base64("Zm8="), Some(b"fo".to_vec()));
    assert_eq!(decode_base64("Zm9="), None);
}
