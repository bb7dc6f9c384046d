use pag::escape::{unescape, unescape_qouted};

fn un(s: &str) -> Option<String> {
    unescape(s)
}

#[test]
fn plain_text_is_unchanged() {
    assert_eq!(un("abc"), Some("abc".to_string()));
    assert_eq!(un(""), Some(String::new()));
    assert_eq!(un("héllo"), Some("héllo".to_string()));
}

#[test]
fn simple_escapes() {
    assert_eq!(un(r#"\"\\\r\n\t\0\'"#), Some("\"\\\r\n\t\0\'".to_string()));
    assert_eq!(un(r"a\nb"), Some("a\nb".to_string()));
}

#[test]
fn byte_escapes() {
    assert_eq!(un(r"\x41"), Some("A".to_string()));
    assert_eq!(un(r"\x7e!"), Some("~!".to_string()));
    assert_eq!(un(r"\xFF"), Some("\u{ff}".to_string()));
    // `from_str_radix` takes a leading plus sign.
    assert_eq!(un(r"\x+f"), Some("\u{f}".to_string()));
    assert_eq!(un(r"\x4"), None);
    assert_eq!(un(r"\xG1"), None);
    assert_eq!(un(r"\x"), None);
    assert_eq!(un(r"\xé1"), None);
}

#[test]
fn unicode_escapes() {
    assert_eq!(un(r"\u{41}"), Some("A".to_string()));
    assert_eq!(un(r"\u{1F600}x"), Some("\u{1F600}x".to_string()));
    assert_eq!(un(r"\u{10FFFF}"), Some("\u{10FFFF}".to_string()));
    assert_eq!(un(r"\u{+41}"), Some("A".to_string()));
    assert_eq!(un(r"\u{D800}"), None);
    assert_eq!(un(r"\u{110000}"), None);
    assert_eq!(un(r"\u{4}"), None);
    assert_eq!(un(r"\u{1234567}"), None);
    assert_eq!(un(r"\u{41"), None);
    assert_eq!(un(r"\u41"), None);
    assert_eq!(un(r"\u"), None);
    assert_eq!(un(r"\u{4é}"), None);
}

#[test]
fn malformed_escapes() {
    assert_eq!(un(r"\q"), None);
    assert_eq!(un("abc\\"), None);
}

#[test]
fn quoted_text() {
    assert_eq!(unescape_qouted("'a'"), Some("a".to_string()));
    assert_eq!(unescape_qouted(r#""\n""#), Some("\n".to_string()));
    assert_eq!(unescape_qouted("''"), Some(String::new()));
    assert_eq!(unescape_qouted(r"'\u{e9}'"), Some("é".to_string()));
    assert_eq!(unescape_qouted(r"'\z'"), None);
}

#[test]
fn plain_prefix_is_kept() {
    let tail = r"\u{263A}\t";
    let decoded = un(tail).unwrap();
    assert_eq!(un(&format!("plain {}", tail)), Some(format!("plain {}", decoded)));
    assert_eq!(un(&format!("plain {}", r"\x")), None);
}

#[test]
fn doubled_backslashes_decode_to_the_text() {
    for s in ["", "a\\b", "\\\\", "x\\n\\"] {
        assert_eq!(un(&s.replace('\\', r"\\")), Some(s.to_string()));
    }
}

#[test]
fn six_digit_unicode_escapes_decode_to_the_text() {
    for s in ["", "aé", "\u{10FFFF}\0z"] {
        let escaped: String = s.chars().map(|c| format!(r"\u{{{:06x}}}", c as u32)).collect();
        assert_eq!(un(&escaped), Some(s.to_string()));
    }
}

#[test]
fn a_bad_escape_after_decodable_text_fails() {
    assert_eq!(un(r"a\n\"), None);
    assert_eq!(un(r"a\n\q rest"), None);
    assert_eq!(un(r"\x41\z"), None);
}

#[test]
fn decodable_pieces_concatenate() {
    let p = r"\x41\u{e9}";
    let s = r"b\t";
    assert_eq!(un(&format!("{p}{s}")), Some(format!("{}{}", un(p).unwrap(), un(s).unwrap())));
    assert_eq!(un(&format!("{p}\\")), None);
}
