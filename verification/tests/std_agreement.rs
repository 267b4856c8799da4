use kks_launcher::lines::split_lines;
use kks_launcher::setup::decode_setup_xml;
use kks_launcher::text::{
    chars_of, contains_chars, leading_space_len, trimmed_bounds, trimmed_equals_ignore_ascii_case,
    white_space,
};

#[test]
fn white_space_agrees_with_char_is_whitespace() {
    for v in 0u32..=0x10FFFF {
        if let Some(c) = char::from_u32(v) {
            assert_eq!(white_space(c), c.is_whitespace(), "U+{:04X}", v);
        }
    }
}

fn samples() -> Vec<&'static str> {
    vec![
        "",
        "\n",
        "\r\n",
        "a",
        "a\n",
        "a\r\n",
        "a\r",
        "a\r\r\nb",
        "foo\nbar\n\r\nbaz\r",
        "\n\nx\n\n",
        "  \u{3000}[General]\u{a0}\t\r\n Language=es \u{2028}",
        "\u{85}x\u{85}",
        "[Logging.Console]\r\nEnabled = true\r\n",
    ]
}

#[test]
fn split_lines_agrees_with_str_lines() {
    for s in samples() {
        let ls: Vec<String> = split_lines(&chars_of(s)).into_iter().map(|l| l.into_iter().collect()).collect();
        let expected: Vec<String> = s.lines().map(|l| l.to_string()).collect();
        assert_eq!(ls, expected, "{:?}", s);
    }
}

#[test]
fn trimming_agrees_with_str_trim() {
    for s in samples() {
        let v = chars_of(s);
        let (a, b) = trimmed_bounds(&v);
        let t: String = v[a..b].iter().collect();
        assert_eq!(t, s.trim(), "{:?}", s);
        let k = leading_space_len(&v);
        let ts: String = v[k..].iter().collect();
        assert_eq!(ts, s.trim_start(), "{:?}", s);
    }
}

#[test]
fn case_folding_agrees_with_eq_ignore_ascii_case() {
    let header = chars_of("[Logging.Console]");
    for s in ["[logging.console]", " [LOGGING.CONSOLE] ", "[Logging.Consolé]", "[Logging Console]", "[Logging.Console]x"] {
        assert_eq!(
            trimmed_equals_ignore_ascii_case(&chars_of(s), &header),
            s.trim().eq_ignore_ascii_case("[Logging.Console]"),
            "{:?}",
            s
        );
    }
}

#[test]
fn contains_agrees_with_str_contains() {
    for (s, p) in [("Enabled = true", "true"), ("tru", "true"), ("", ""), ("x", ""), ("truetrue", "etr")] {
        assert_eq!(contains_chars(&chars_of(s), &chars_of(p)), s.contains(p));
    }
}

#[test]
fn utf16_decoding_agrees_with_from_utf16() {
    let interesting: [u16; 10] = [0x0041, 0xD7FF, 0xD800, 0xDBFF, 0xDC00, 0xDFFF, 0xE000, 0xFEFF, 0xFFFF, 0x00E9];
    for &a in &interesting {
        for &b in &interesting {
            for &c in &interesting {
                let units = [a, b, c];
                let mut bytes = vec![];
                for u in units {
                    bytes.extend_from_slice(&u.to_le_bytes());
                }
                let ours = decode_setup_xml(&bytes);
                let body: &[u16] = if units[0] == 0xFEFF { &units[1..] } else { &units[..] };
                match String::from_utf16(body) {
                    Ok(s) => assert_eq!(ours.ok().unwrap(), s),
                    Err(e) => assert_eq!(ours.err().unwrap(), format!("Error al decodificar UTF-16: {}", e)),
                }
            }
        }
    }
}
