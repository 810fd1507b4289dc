use typing::alignment::{AlignmentStore, Association, IndexSet, Side};
use typing::selection::{Clicked, SelectionController, WordCategory};

fn index_set(indices: &[usize]) -> IndexSet {
    let mut s = IndexSet::new();
    for &i in indices {
        s.insert(i);
    }
    s
}

fn indices_of(s: &IndexSet) -> Vec<usize> {
    let mut v = Vec::new();
    let mut i: usize = 0;
    while i < s.len() {
        v.push(s.get(i));
        i += 1;
    }
    v
}

#[test]
fn index_set_keeps_sorted_deduplicated() {
    let s = index_set(&[5, 2, 5, 9, 2]);
    assert_eq!(indices_of(&s), vec![2, 5, 9]);
    assert!(s.contains(5));
    assert!(!s.contains(3));
}

#[test]
fn index_set_remove() {
    let mut s = index_set(&[1, 2, 3]);
    s.remove(2);
    assert_eq!(indices_of(&s), vec![1, 3]);
    s.remove(7);
    assert_eq!(indices_of(&s), vec![1, 3]);
}

#[test]
fn association_start_position_is_minimum() {
    let a = Association::new(index_set(&[7, 2, 4]), index_set(&[1]));
    assert_eq!(a.start_position, 2);
}

#[test]
fn store_insert_is_idempotent() {
    let mut store = AlignmentStore::new();
    store.insert(&index_set(&[2]), &index_set(&[5]));
    store.insert(&index_set(&[2]), &index_set(&[5]));
    assert_eq!(store.len(), 1);
    assert_eq!(indices_of(&store.get(0).original), vec![2]);
    assert_eq!(indices_of(&store.get(0).translation), vec![5]);
}

#[test]
fn store_orders_by_start_position() {
    let mut store = AlignmentStore::new();
    store.insert(&index_set(&[5]), &index_set(&[0]));
    store.insert(&index_set(&[2]), &index_set(&[1]));
    assert_eq!(store.len(), 2);
    assert_eq!(store.get(0).start_position, 2);
    assert_eq!(store.get(1).start_position, 5);
}

#[test]
fn store_keeps_distinct_associations_with_equal_start() {
    let mut store = AlignmentStore::new();
    store.insert(&index_set(&[2]), &index_set(&[1]));
    store.insert(&index_set(&[2, 4]), &index_set(&[9]));
    assert_eq!(store.len(), 2);
}

#[test]
fn store_lookup_returns_first_match() {
    let mut store = AlignmentStore::new();
    store.insert(&index_set(&[1, 3]), &index_set(&[0]));
    store.insert(&index_set(&[2, 3]), &index_set(&[4]));
    // Word 3 belongs to both; the first by start_position wins.
    assert_eq!(store.lookup(3, Side::Original), Some(0));
    assert_eq!(store.lookup(2, Side::Original), Some(1));
    assert_eq!(store.lookup(4, Side::Translation), Some(1));
    assert_eq!(store.lookup(9, Side::Original), None);
}

#[test]
fn store_remove_at_shifts_ordinals() {
    let mut store = AlignmentStore::new();
    store.insert(&index_set(&[1]), &index_set(&[0]));
    store.insert(&index_set(&[5]), &index_set(&[2]));
    store.remove_at(0);
    assert_eq!(store.len(), 1);
    assert_eq!(store.get(0).start_position, 5);
}

#[test]
fn commit_pair_scenario() {
    let mut c = SelectionController::new();
    c.toggle_selection_enabled();
    c.click(2, Side::Original);
    assert_eq!(c.clicked, Clicked::Original(2));
    assert!(!c.pair_enabled());
    c.click(5, Side::Translation);
    assert!(c.pair_enabled());
    c.commit_pair();
    assert_eq!(c.pairs.len(), 1);
    assert_eq!(indices_of(&c.pairs.get(0).original), vec![2]);
    assert_eq!(indices_of(&c.pairs.get(0).translation), vec![5]);
    assert_eq!(c.pairs.get(0).start_position, 2);
    assert!(c.pending_original.is_empty());
    assert!(c.pending_translation.is_empty());
    assert_eq!(c.clicked, Clicked::Idle);
}

#[test]
fn click_on_committed_word_highlights_it() {
    let mut c = SelectionController::new();
    c.toggle_selection_enabled();
    c.click(2, Side::Original);
    c.click(5, Side::Translation);
    c.commit_pair();
    c.click(2, Side::Original);
    assert_eq!(c.clicked, Clicked::SelectedOriginal(0, 2));
    assert_eq!(c.classify_word(2, Side::Original), WordCategory::Highlighted);
    assert_eq!(c.classify_word(5, Side::Translation), WordCategory::HighlightedPair);
}

#[test]
fn remove_pair_empties_store_and_resets_clicked() {
    let mut c = SelectionController::new();
    c.toggle_selection_enabled();
    c.click(2, Side::Original);
    c.click(5, Side::Translation);
    c.commit_pair();
    c.click(2, Side::Original);
    assert_eq!(c.clicked, Clicked::SelectedOriginal(0, 2));
    c.remove_pair(0);
    assert_eq!(c.pairs.len(), 0);
    assert_eq!(c.clicked, Clicked::Idle);
}

#[test]
fn toggle_off_clears_pending_and_clicked() {
    let mut c = SelectionController::new();
    c.toggle_selection_enabled();
    c.click(2, Side::Original);
    assert_eq!(indices_of(&c.pending_original), vec![2]);
    c.toggle_selection_enabled();
    assert!(c.pending_original.is_empty());
    assert!(c.pending_translation.is_empty());
    assert_eq!(c.clicked, Clicked::Idle);
    assert!(!c.selection_enabled);
}

#[test]
fn toggle_on_leaves_state_alone() {
    let mut c = SelectionController::new();
    assert!(!c.selection_enabled);
    c.toggle_selection_enabled();
    assert!(c.selection_enabled);
    assert!(c.pending_original.is_empty());
    assert_eq!(c.clicked, Clicked::Idle);
}

#[test]
fn click_while_disabled_is_noop() {
    let mut c = SelectionController::new();
    c.click(2, Side::Original);
    assert!(c.pending_original.is_empty());
    assert_eq!(c.clicked, Clicked::Idle);
}

#[test]
fn clicking_marked_word_again_removes_it() {
    let mut c = SelectionController::new();
    c.toggle_selection_enabled();
    c.click(2, Side::Original);
    assert_eq!(c.clicked, Clicked::Original(2));
    c.click(2, Side::Original);
    assert!(c.pending_original.is_empty());
    assert_eq!(c.clicked, Clicked::Idle);
}

#[test]
fn clicking_pending_but_unmarked_word_only_moves_marker() {
    let mut c = SelectionController::new();
    c.toggle_selection_enabled();
    c.click(2, Side::Original);
    c.click(7, Side::Original);
    assert_eq!(indices_of(&c.pending_original), vec![2, 7]);
    assert_eq!(c.clicked, Clicked::Original(7));
    // Word 2 is still pending but no longer marked: clicking it now only
    // moves the marker back, without removing it.
    c.click(2, Side::Original);
    assert_eq!(indices_of(&c.pending_original), vec![2, 7]);
    assert_eq!(c.clicked, Clicked::Original(2));
}

#[test]
fn rehighlight_within_same_association_keeps_ordinal() {
    let mut c = SelectionController::new();
    c.toggle_selection_enabled();
    c.click(2, Side::Original);
    c.click(3, Side::Original);
    c.click(5, Side::Translation);
    c.commit_pair();
    c.click(2, Side::Original);
    assert_eq!(c.clicked, Clicked::SelectedOriginal(0, 2));
    c.click(3, Side::Original);
    assert_eq!(c.clicked, Clicked::SelectedOriginal(0, 3));
}

#[test]
fn highlight_of_other_association_switches() {
    let mut c = SelectionController::new();
    c.toggle_selection_enabled();
    c.click(1, Side::Original);
    c.click(0, Side::Translation);
    c.commit_pair();
    c.click(6, Side::Original);
    c.click(7, Side::Translation);
    c.commit_pair();
    c.click(1, Side::Original);
    assert_eq!(c.clicked, Clicked::SelectedOriginal(0, 1));
    c.click(6, Side::Original);
    assert_eq!(c.clicked, Clicked::SelectedOriginal(1, 6));
}

#[test]
fn classifier_precedence() {
    let mut c = SelectionController::new();
    c.toggle_selection_enabled();
    c.click(1, Side::Original);
    c.click(0, Side::Translation);
    c.commit_pair();
    // Pending words 4 and 6; 6 carries the marker.
    c.click(4, Side::Original);
    c.click(6, Side::Original);
    assert_eq!(c.classify_word(1, Side::Original), WordCategory::Pair);
    assert_eq!(c.classify_word(0, Side::Translation), WordCategory::Pair);
    assert_eq!(c.classify_word(4, Side::Original), WordCategory::Clicked);
    assert_eq!(c.classify_word(6, Side::Original), WordCategory::ClickedSelected);
    assert_eq!(c.classify_word(9, Side::Original), WordCategory::Plain);
    assert_eq!(c.classify_word(4, Side::Translation), WordCategory::Plain);
}

#[test]
fn classifier_is_pure_across_calls() {
    let mut c = SelectionController::new();
    c.toggle_selection_enabled();
    c.click(1, Side::Original);
    c.click(0, Side::Translation);
    c.commit_pair();
    assert_eq!(c.classify_word(1, Side::Original), WordCategory::Pair);
    assert_eq!(c.classify_word(1, Side::Original), WordCategory::Pair);
}

#[test]
fn set_initial_pairs_hydrates_store() {
    let mut store = AlignmentStore::new();
    store.insert(&index_set(&[0, 1]), &index_set(&[2]));
    let mut c = SelectionController::new();
    c.set_initial_pairs(store);
    assert_eq!(c.pairs.len(), 1);
    assert_eq!(c.pair_index_for_word(1, Side::Original), Some(0));
    assert_eq!(c.pair_index_for_word(2, Side::Translation), Some(0));
    assert_eq!(c.pair_index_for_word(2, Side::Original), None);
    let out = c.get_current_pairs();
    assert_eq!(out.len(), 1);
    assert_eq!(indices_of(&out.get(0).original), vec![0, 1]);
}
