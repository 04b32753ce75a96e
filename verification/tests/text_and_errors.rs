use malx::error::LoadError;
use malx::loader::{format_for_extension, ModelFormat};
use malx::text::{
    is_whitespace, parse_i32_range, parse_u32_range, push_decimal, split_whitespace,
    to_ascii_lowercase, to_chars, trim_range,
};

fn chars(s: &str) -> Vec<char> {
    s.chars().collect()
}

#[test]
fn whitespace_set() {
    for c in [' ', '\t', '\n', '\r', '\u{0B}', '\u{0C}', '\u{85}', '\u{A0}', '\u{2003}', '\u{3000}'] {
        assert!(is_whitespace(c), "{:?}", c);
        assert_eq!(is_whitespace(c), c.is_whitespace());
    }
    for c in ['a', '0', '#', '\u{200B}', '\u{FEFF}'] {
        assert!(!is_whitespace(c));
        assert_eq!(is_whitespace(c), c.is_whitespace());
    }
}

#[test]
fn trimming_matches_str_trim() {
    for s in ["  ab c  ", "", "   ", "x", "\u{3000}y\u{A0}"] {
        let cs = chars(s);
        let (a, b) = trim_range(&cs, 0, cs.len());
        let got: String = cs[a..b].iter().collect();
        assert_eq!(got, s.trim());
    }
}

#[test]
fn splitting_matches_split_whitespace() {
    for s in ["a b  c", "  lead", "trail  ", "", "one"] {
        let words: Vec<String> = split_whitespace(&chars(s)).iter().map(|w| w.iter().collect()).collect();
        let expected: Vec<&str> = s.split_whitespace().collect();
        assert_eq!(words, expected);
    }
}

#[test]
fn integers_parse_like_std() {
    for s in ["0", "42", "+7", "-7", "", "+", "-", "4294967295", "4294967296", "2147483647", "2147483648", "-2147483648", "-2147483649", "1a", "٣"] {
        let cs = chars(s);
        assert_eq!(parse_u32_range(&cs, 0, cs.len()), s.parse::<u32>().ok(), "u32 {:?}", s);
        assert_eq!(parse_i32_range(&cs, 0, cs.len()), s.parse::<i32>().ok(), "i32 {:?}", s);
    }
}

#[test]
fn decimal_digits() {
    for n in [0u128, 7, 10, 99, 12345, u64::MAX as u128, u64::MAX as u128 + 1, u128::MAX] {
        let mut s = String::from("n=");
        push_decimal(&mut s, n);
        assert_eq!(s, format!("n={}", n));
    }
}

#[test]
fn characters_and_case() {
    assert_eq!(to_chars("héllo"), vec!['h', 'é', 'l', 'l', 'o']);
    assert_eq!(to_ascii_lowercase("MiXeD.ÉÀ"), "mixed.ÉÀ");
}

#[test]
fn extension_dispatch() {
    assert_eq!(format_for_extension("obj").unwrap(), ModelFormat::Obj);
    assert_eq!(format_for_extension("OBJ").unwrap(), ModelFormat::Obj);
    assert_eq!(format_for_extension("gltf").unwrap(), ModelFormat::Gltf);
    assert_eq!(format_for_extension("GlB").unwrap(), ModelFormat::Gltf);
    match format_for_extension("FBX") {
        Err(LoadError::UnsupportedFormat(e)) => assert_eq!(e, "fbx"),
        other => panic!("unexpected {:?}", other),
    }
    match format_for_extension("") {
        Err(LoadError::UnsupportedFormat(e)) => assert_eq!(e, ""),
        other => panic!("unexpected {:?}", other),
    }
}

#[test]
fn error_messages() {
    assert_eq!(LoadError::Obj("x".to_string()).message(), "OBJ error: x");
    assert_eq!(LoadError::Gltf("y".to_string()).message(), "glTF error: y");
    assert_eq!(LoadError::UnsupportedFormat("fbx".to_string()).message(), "unsupported format: .fbx");
    let io = std::io::Error::new(std::io::ErrorKind::NotFound, "missing");
    let e: LoadError = io.into();
    assert_eq!(e.message(), "I/O error: missing");
}
