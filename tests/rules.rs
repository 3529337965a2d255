use polyphon::rules::{reduce_vowels, remove_repeats, replace_letters, replace_sequences};

#[test]
fn test_removing_repeats() {
    let input = "алла съела змеееда";
    let expected = "ала съела змеда";

    assert_eq!(remove_repeats(input), expected);
}

#[test]
fn test_letter_replacement() {
    let input = "аеёиоыэябвгдзщжмю";
    let expected = "аааааааапфктсшшну";

    assert_eq!(replace_letters(input), expected);
}

#[test]
fn test_sequence_replacement() {
    let input = "факталакачаскай";
    let expected = "фкталафачаскай";

    assert_eq!(replace_sequences(input), expected);
}

#[test]
fn test_vowels_reducing() {
    assert_eq!(reduce_vowels("молоко"), "молко");
    assert_eq!(reduce_vowels("молокозавод"), "молкзвод");
    assert_eq!(reduce_vowels("тиран"), "тиран");
    assert_eq!(reduce_vowels("квартал"), "квартал");
    assert_eq!(reduce_vowels("громофон"), "громфон");
}

#[test]
fn repeats_edge_cases() {
    assert_eq!(remove_repeats(""), "");
    assert_eq!(remove_repeats("а"), "а");
    assert_eq!(remove_repeats("ааааа"), "а");
    assert_eq!(remove_repeats("абба"), "аба");
}

#[test]
fn vowels_edge_cases() {
    assert_eq!(reduce_vowels(""), "");
    assert_eq!(reduce_vowels("аоу"), "ау");
    assert_eq!(reduce_vowels("встр"), "встр");
    assert_eq!(reduce_vowels("встрча"), "встрча");
    assert_eq!(reduce_vowels("австрао"), "австро");
}

#[test]
fn letters_outside_classes_stay() {
    assert_eq!(replace_letters("клнпрстуфхцчшй"), "клнпрстуфхцчшй");
    assert_eq!(replace_letters("x1 "), "x1 ");
}

#[test]
fn longest_pattern_wins() {
    assert_eq!(replace_sequences("нтск"), "нск");
    assert_eq!(replace_sequences("тса"), "ц");
    assert_eq!(replace_sequences("лфстф"), "лстф");
    assert_eq!(replace_sequences("тся"), "ц");
}

#[test]
fn sequences_scan_on_after_a_match() {
    assert_eq!(replace_sequences(""), "");
    assert_eq!(replace_sequences("сшсш"), "шш");
    assert_eq!(replace_sequences("тцтц"), "цц");
    assert_eq!(replace_sequences("кл"), "кл");
}
