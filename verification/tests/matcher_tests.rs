use typing::matcher::compare;

#[test]
fn matches_is_directional_eszett() {
    assert!(compare('s', 'ß'));
    assert!(!compare('ß', 's'));
}

#[test]
fn exact_equality_matches() {
    assert!(compare('a', 'a'));
    assert!(compare('ß', 'ß'));
    assert!(compare('Z', 'Z'));
    assert!(compare(',', ','));
}

#[test]
fn lowercase_fold_of_ascii_reference() {
    assert!(compare('a', 'A'));
    assert!(compare('z', 'Z'));
    assert!(compare('s', 'S'));
    assert!(!compare('A', 'a'));
    assert!(!compare('S', 's'));
}

#[test]
fn lowercase_fold_of_umlaut_reference() {
    assert!(compare('ä', 'Ä'));
    assert!(compare('ö', 'Ö'));
    assert!(compare('ü', 'Ü'));
    assert!(!compare('Ä', 'ä'));
}

#[test]
fn lowercase_fold_of_other_scripts() {
    assert!(compare('é', 'É'));
    assert!(compare('ж', 'Ж'));
    // The Kelvin sign folds to a plain k.
    assert!(compare('k', '\u{212A}'));
    assert!(!compare('É', 'é'));
}

#[test]
fn multi_character_fold_does_not_match() {
    // The lowercase fold of the dotted capital I is two characters, so no
    // single typed character matches it.
    assert!(!compare('i', '\u{130}'));
}

#[test]
fn uppercase_latin_for_german_reference() {
    assert!(compare('S', 'ß'));
    assert!(compare('U', 'Ü'));
    assert!(compare('A', 'Ä'));
    assert!(compare('O', 'Ö'));
}

#[test]
fn uppercase_latin_only_for_uppercase_umlaut() {
    assert!(!compare('U', 'ü'));
    assert!(!compare('A', 'ä'));
    assert!(!compare('O', 'ö'));
}

#[test]
fn lowercase_latin_for_german_reference_both_cases() {
    assert!(compare('s', 'ß'));
    assert!(compare('u', 'ü'));
    assert!(compare('u', 'Ü'));
    assert!(compare('a', 'ä'));
    assert!(compare('a', 'Ä'));
    assert!(compare('o', 'ö'));
    assert!(compare('o', 'Ö'));
}

#[test]
fn unrelated_pairs_do_not_match() {
    assert!(!compare('x', 'y'));
    assert!(!compare('b', 'ß'));
    assert!(!compare('u', 'ö'));
    assert!(!compare(' ', 'a'));
    assert!(!compare('ü', 'u'));
}
