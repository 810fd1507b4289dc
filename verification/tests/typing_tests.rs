use typing::application_types::Article;
use typing::translation::TranslationRequest;
use typing::types::{accepted_char, CharCategory, CharState, TypeState};

fn session(text: &str) -> TypeState {
    TypeState::from_str(&text.to_string())
}

#[test]
fn fresh_session_structure() {
    let s = session("ab cd");
    assert_eq!(s.word_index, 0);
    assert!(!s.focus);
    assert_eq!(s.data.len(), 2);
    assert_eq!(s.data[0].char_index, 0);
    assert_eq!(s.data[1].char_index, 0);
    let refs0: Vec<char> = s.data[0].data.iter().map(|c| c.reference_char).collect();
    let refs1: Vec<char> = s.data[1].data.iter().map(|c| c.reference_char).collect();
    assert_eq!(refs0, vec!['a', 'b']);
    assert_eq!(refs1, vec!['c', 'd']);
    assert_eq!(s.data[0].data[0].char_index, 0);
    assert_eq!(s.data[0].data[1].char_index, 1);
}

#[test]
fn fresh_session_renders_every_slot_empty() {
    let s = session("Die Preise fahren Achterbahn");
    for word in &s.data {
        for slot in &word.data {
            assert_eq!(slot.category(), CharCategory::Empty);
            assert_eq!(slot.typed_char, None);
        }
    }
}

#[test]
fn split_keeps_empty_words() {
    assert_eq!(session("a  b").data.len(), 3);
    assert_eq!(session("a  b").data[1].data.len(), 0);
    assert_eq!(session("").data.len(), 1);
    assert_eq!(session("").data[0].data.len(), 0);
    assert_eq!(session("a ").data.len(), 2);
    assert_eq!(session(" a").data[0].data.len(), 0);
}

#[test]
fn backspace_at_origin_is_noop() {
    let mut s = session("ab cd");
    s.handle_backspace();
    assert_eq!(s.word_index, 0);
    assert_eq!(s.data[0].char_index, 0);
    assert_eq!(s.data[0].data[0].typed_char, None);
}

#[test]
fn backspace_clears_previous_slot() {
    let mut s = session("ab");
    s.handle_character_input('a');
    assert_eq!(s.data[0].data[0].typed_char, Some('a'));
    assert_eq!(s.data[0].char_index, 1);
    s.handle_backspace();
    assert_eq!(s.data[0].data[0].typed_char, None);
    assert_eq!(s.data[0].char_index, 0);
}

#[test]
fn backspace_at_word_start_moves_to_previous_word() {
    let mut s = session("ab cd");
    s.handle_character_input('a');
    s.handle_space_advance();
    assert_eq!(s.word_index, 1);
    s.handle_backspace();
    assert_eq!(s.word_index, 0);
    // The previous word's caret is left as it was.
    assert_eq!(s.data[0].char_index, 1);
    assert_eq!(s.data[0].data[0].typed_char, Some('a'));
}

#[test]
fn space_advances_even_when_word_unfinished() {
    let mut s = session("ab cd ef");
    s.handle_space_advance();
    assert_eq!(s.word_index, 1);
    s.handle_space_advance();
    assert_eq!(s.word_index, 2);
}

#[test]
fn space_advance_at_last_word_is_noop() {
    let mut s = session("ab cd");
    s.handle_space_advance();
    assert_eq!(s.word_index, 1);
    s.handle_space_advance();
    assert_eq!(s.word_index, 1);
}

#[test]
fn character_input_fills_slot_and_advances() {
    let mut s = session("ab");
    s.handle_character_input('x');
    assert_eq!(s.data[0].data[0].typed_char, Some('x'));
    assert_eq!(s.data[0].char_index, 1);
    s.handle_character_input('y');
    assert_eq!(s.data[0].data[1].typed_char, Some('y'));
    assert_eq!(s.data[0].char_index, 2);
}

#[test]
fn character_input_ignored_at_full_word() {
    let mut s = session("a");
    s.handle_character_input('x');
    s.handle_character_input('y');
    assert_eq!(s.data[0].char_index, 1);
    assert_eq!(s.data[0].data[0].typed_char, Some('x'));
}

#[test]
fn character_input_ignored_for_unaccepted_character() {
    let mut s = session("ab");
    s.handle_character_input(' ');
    s.handle_character_input('1');
    s.handle_character_input('!');
    assert_eq!(s.data[0].char_index, 0);
    assert_eq!(s.data[0].data[0].typed_char, None);
}

#[test]
fn character_input_never_auto_advances_word() {
    let mut s = session("a bc");
    s.handle_character_input('a');
    assert_eq!(s.word_index, 0);
    assert_eq!(s.data[0].char_index, 1);
}

#[test]
fn accepted_character_class() {
    for c in ['a', 'z', 'A', 'Z', ',', '-', '.', ':', ';', '"', '\''] {
        assert!(accepted_char(c), "{c} should be accepted");
    }
    for c in [' ', '0', '9', '!', '?', 'ä', 'ß', '\n', '@', '[', ']'] {
        assert!(!accepted_char(c), "{c} should be rejected");
    }
}

#[test]
fn slot_categories_follow_the_matcher() {
    let mut correct = CharState::new(0, 'ß');
    correct.typed('s');
    assert_eq!(correct.category(), CharCategory::Correct);

    let mut wrong = CharState::new(0, 'b');
    wrong.typed('x');
    assert_eq!(wrong.category(), CharCategory::Incorrect);

    let empty = CharState::new(0, 'b');
    assert_eq!(empty.category(), CharCategory::Empty);

    wrong.backspace();
    assert_eq!(wrong.category(), CharCategory::Empty);
}

#[test]
fn caret_marker_only_on_current_word_with_focus() {
    let mut s = session("ab cd");
    assert!(!s.shows_caret_marker(0));
    s.focus = true;
    assert!(s.shows_caret_marker(0));
    assert!(!s.shows_caret_marker(1));
    s.handle_space_advance();
    assert!(s.shows_caret_marker(1));
    assert!(!s.shows_caret_marker(0));
}

#[test]
fn translation_request_splits_lines() {
    let r = TranslationRequest::from_str(&"erste Zeile\nzweite Zeile".to_string());
    assert_eq!(r.src, vec!["erste Zeile".to_string(), "zweite Zeile".to_string()]);
    let single = TranslationRequest::from_str(&"nur eine Zeile".to_string());
    assert_eq!(single.src, vec!["nur eine Zeile".to_string()]);
}

#[test]
fn article_from_pair_zips_lines() {
    let a = Article::from_pair(
        vec!["Titel".to_string(), "Satz".to_string()],
        vec!["Title".to_string(), "Sentence".to_string()],
    );
    assert_eq!(a.title, "Titel");
    assert_eq!(a.paragraphs.len(), 2);
    assert_eq!(a.paragraphs[0].original, "Titel");
    assert_eq!(a.paragraphs[0].translation, "Title");
    assert_eq!(a.paragraphs[1].original, "Satz");
    assert_eq!(a.paragraphs[1].translation, "Sentence");
    assert!(a.paragraphs[0].pairs.is_none());
}

#[test]
fn article_from_pair_stops_at_shorter_list() {
    let a = Article::from_pair(
        vec!["eins".to_string(), "zwei".to_string(), "drei".to_string()],
        vec!["one".to_string()],
    );
    assert_eq!(a.title, "eins");
    assert_eq!(a.paragraphs.len(), 1);
}
