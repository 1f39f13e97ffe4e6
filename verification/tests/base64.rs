use alist_bore::base64::{base64_decode, base64_encode};

fn decoded(text: &str) -> Option<String> {
    base64_decode(text)
}

#[test]
fn encodes_the_standard_examples() {
    assert_eq!(base64_encode(""), "");
    assert_eq!(base64_encode("f"), "Zg==");
    assert_eq!(base64_encode("fo"), "Zm8=");
    assert_eq!(base64_encode("foo"), "Zm9v");
    assert_eq!(base64_encode("foob"), "Zm9vYg==");
    assert_eq!(base64_encode("fooba"), "Zm9vYmE=");
    assert_eq!(base64_encode("foobar"), "Zm9vYmFy");
}

#[test]
fn encodes_the_bytes_of_other_scripts() {
    assert_eq!(base64_encode("密码"), "5a+G56CB");
    assert_eq!(base64_encode("é"), "w6k=");
}

#[test]
fn uses_every_symbol_of_the_alphabet() {
    let alphabet = "ABCDEFGHIJKLMNOPQRSTUVWXYZabcdefghijklmnopqrstuvwxyz0123456789+/";
    for (value, symbol) in alphabet.chars().enumerate() {
        // Two symbols of one byte: the first holds its upper six bits.
        if value < 32 {
            let byte = ((value as u8) << 2) as char;
            assert_eq!(base64_encode(&byte.to_string()).chars().next(), Some(symbol));
        }
        // The lower six bits of a third byte make the last symbol.
        let text = format!("ab{}", (value as u8) as char);
        assert_eq!(base64_encode(&text).chars().nth(3), Some(symbol));
    }
}

#[test]
fn decodes_the_standard_examples() {
    assert_eq!(decoded(""), Some(String::new()));
    assert_eq!(decoded("Zg=="), Some("f".to_string()));
    assert_eq!(decoded("Zm8="), Some("fo".to_string()));
    assert_eq!(decoded("Zm9v"), Some("foo".to_string()));
    assert_eq!(decoded("Zm9vYg=="), Some("foob".to_string()));
    assert_eq!(decoded("Zm9vYmE="), Some("fooba".to_string()));
    assert_eq!(decoded("Zm9vYmFy"), Some("foobar".to_string()));
    assert_eq!(decoded("5a+G56CB"), Some("密码".to_string()));
}

#[test]
fn decoding_ignores_how_much_padding_there_is() {
    assert_eq!(decoded("Zg"), Some("f".to_string()));
    assert_eq!(decoded("Zg="), Some("f".to_string()));
    assert_eq!(decoded("Zg====="), Some("f".to_string()));
    assert_eq!(decoded("===="), Some(String::new()));
}

#[test]
fn decoding_drops_left_over_bits() {
    // A single symbol holds no whole byte.
    assert_eq!(decoded("Z"), Some(String::new()));
    assert_eq!(decoded("Zm9vZ"), Some("foo".to_string()));
    // The last four bits of the second symbol are not used.
    assert_eq!(decoded("Zh"), Some("f".to_string()));
    assert_eq!(decoded("Zv"), Some("f".to_string()));
}

#[test]
fn decoding_refuses_other_characters() {
    assert_eq!(decoded("Zm9v!"), None);
    assert_eq!(decoded("Zm 9v"), None);
    assert_eq!(decoded("Zg==Zg=="), None);
    assert_eq!(decoded("密码"), None);
    assert_eq!(decoded("Zm9v\n"), None);
    assert_eq!(decoded("Zm9-"), None);
    assert_eq!(decoded("Zm9_"), None);
}

#[test]
fn decoding_refuses_bytes_that_are_no_text() {
    // 0xff, and a cut-off sequence.
    assert_eq!(decoded("/w=="), None);
    assert_eq!(decoded("5a8="), None);
}

#[test]
fn decode_inverts_encode_on_texts_of_every_length() {
    let mut text = String::new();
    for c in "Ab1 密é+/=\u{1F511}\u{0}~".chars().cycle().take(100) {
        assert_eq!(decoded(&base64_encode(&text)), Some(text.clone()));
        text.push(c);
    }
}

#[test]
fn encoding_tells_texts_apart() {
    let texts = ["", "a", "b", "aa", "a\u{0}", "\u{0}", "aaa", "aaaa"];
    for (i, a) in texts.iter().enumerate() {
        for (j, b) in texts.iter().enumerate() {
            assert_eq!(base64_encode(a) == base64_encode(b), i == j);
        }
    }
}

#[test]
fn encoded_texts_are_whole_groups() {
    let mut text = String::new();
    for n in 0usize..40 {
        let encoded = base64_encode(&text);
        assert_eq!(encoded.len(), (n + 2) / 3 * 4);
        assert!(encoded.len() - encoded.trim_end_matches('=').len() <= 2);
        assert!(text.is_empty() || encoded != text);
        text.push('x');
    }
}
