use polyphon::normalize::{
    normalize, normalize_lowercase, remove_noise_lowercase, repair_cyrillic_diacritic_lowercase,
    replace_latin,
};
use unicode_normalization::UnicodeNormalization;

#[test]
fn test_latin_to_cyrillic_replacement() {
    let input = "a e o c x B M H";
    let expected = "а е о с х В М Н";

    assert_eq!(replace_latin(input), expected);
}

#[test]
fn test_no_replacement_for_normal_cyrillic() {
    let input = "привет";
    assert_eq!(replace_latin(input), input);
}

#[test]
fn test_noise_removing() {
    let input = "hello ,  прохорёнокъ!";
    let expected = "прохорёнок";
    assert_eq!(remove_noise_lowercase(input), expected);
}

#[test]
fn test_diacritic_repairment() {
    let input = "йо́г на пе́рекрё́стке".nfkd().collect::<String>();
    let expected = "йо\u{301}г на пе\u{301}рекрё\u{301}стке";

    assert_eq!(repair_cyrillic_diacritic_lowercase(&input), expected);
}

#[test]
fn test_normalization() {
    let input = "Ивановъ ВаСилий HиканорÓвич";
    let expected = "ивановвасилийниканорович";

    assert_eq!(normalize(input), expected);
}

#[test]
fn normalize_non_cyrillic_is_empty() {
    assert_eq!(normalize("123 !? ß ü , ;"), "");
    assert_eq!(normalize(""), "");
    assert_eq!(normalize_lowercase("1 2 ü"), "");
}

#[test]
fn normalize_lookalikes_are_not_noise() {
    assert_eq!(normalize("hello"), "нео");
}

#[test]
fn repair_last_char_and_stray_marks() {
    assert_eq!(repair_cyrillic_diacritic_lowercase("е"), "е");
    assert_eq!(repair_cyrillic_diacritic_lowercase("и\u{306}е\u{308}"), "йё");
    assert_eq!(repair_cyrillic_diacritic_lowercase("\u{308}е"), "\u{308}е");
    assert_eq!(repair_cyrillic_diacritic_lowercase("и\u{308}"), "и\u{308}");
}

#[test]
fn normalize_joins_decomposed_letters() {
    assert_eq!(normalize("ёлка Йога"), "ёлкайога");
    assert_eq!(normalize_lowercase("е\u{308}лки\u{306}"), "ёлкй");
}
