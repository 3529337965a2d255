use polyphon::{encode, encode_lowercase};

#[test]
fn test_encoding() {
    assert_eq!(encode("Литие"), "лата");
    assert_eq!(encode("ладо"), "лата");
    assert_eq!(encode("литье"), "лата");
    assert_eq!(encode("летие"), "лата");
    assert_eq!(encode("лeто"), "лата");
    assert_eq!(encode("леди"), "лата");
}

#[test]
fn encode_empty_and_noise() {
    assert_eq!(encode(""), "");
    assert_eq!(encode("123 !?"), "");
}

#[test]
fn encode_stress_mark_and_uppercase() {
    assert_eq!(encode("Ле\u{301}то"), "лата");
    assert_eq!(encode("ЛЕТО"), "лата");
}

#[test]
fn encode_only_key_letters() {
    let excluded = "еёиоыэябвгдзщжмюьъ";
    for word in ["Молокозавод", "прохорёнокъ", "громофон", "Ивановъ ВаСилий", "жизнь"] {
        let key = encode(word);
        for c in key.chars() {
            assert!(!excluded.contains(c), "{} in key of {}", c, word);
            assert!(('а'..='я').contains(&c));
        }
    }
}

#[test]
fn encode_lowercase_skips_decomposition() {
    assert_eq!(encode_lowercase("лето"), "лата");
    assert_eq!(encode_lowercase("ЛЕТО"), "");
}
