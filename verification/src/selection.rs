//! Click-driven selection state machine for building word alignments.
//!
//! Clicks on words of either sentence build pending selections; committing
//! turns the pending sets into an association in the alignment store;
//! clicking words of committed associations highlights them. Exactly one
//! word can be the clicked/highlighted word at a time, across both sides.
//! A classifier derives the render category of every word from the current
//! state; it carries no memory of its own.

use vstd::prelude::*;

use crate::alignment::{
    insert_sorted_spec, lookup_idx, remove_sorted_spec, sorted_strict, store_insert_spec,
    store_wf, AlignmentStore, AssocModel, IndexSet, Side,
};

verus! {

/// The single focused word, if any: a word of a committed association
/// (named with the association's ordinal), or a plain click on an unpaired
/// word, or nothing.
#[derive(Clone, Copy, PartialEq, Eq, Structural, Debug)]
pub enum Clicked {
    SelectedOriginal(usize, usize),
    SelectedTranslation(usize, usize),
    Original(usize),
    Translation(usize),
    Idle,
}

/// Render category of a word, in precedence order: the highlighted word
/// itself; a word of the highlighted association; the plainly clicked word;
/// a word of some committed association; a word of a pending selection; an
/// ordinary word.
#[derive(Clone, Copy, PartialEq, Eq, Structural, Debug)]
pub enum WordCategory {
    Highlighted,
    HighlightedPair,
    ClickedSelected,
    Pair,
    Clicked,
    Plain,
}

/// Mathematical model of the selection controller.
#[verifier::ext_equal]
pub ghost struct ControllerModel {
    pub pending_original: Seq<usize>,
    pub pending_translation: Seq<usize>,
    pub pairs: Seq<AssocModel>,
    pub clicked: Clicked,
    pub selection_enabled: bool,
}

/// Well-formed controller: pending sets are strictly sorted index sets and
/// the store is well-formed.
pub open spec fn controller_wf(m: ControllerModel) -> bool {
    &&& sorted_strict(m.pending_original)
    &&& sorted_strict(m.pending_translation)
    &&& store_wf(m.pairs)
}

/// The pending selection of the given side.
pub open spec fn pending_of(m: ControllerModel, side: Side) -> Seq<usize> {
    match side {
        Side::Original => m.pending_original,
        Side::Translation => m.pending_translation,
    }
}

/// `m` with the pending selection of the given side replaced.
pub open spec fn with_pending(m: ControllerModel, side: Side, p: Seq<usize>) -> ControllerModel {
    match side {
        Side::Original => ControllerModel { pending_original: p, ..m },
        Side::Translation => ControllerModel { pending_translation: p, ..m },
    }
}

/// The highlight marker for a word of a committed association on the given
/// side.
pub open spec fn selected_clicked(side: Side, ordinal: usize, index: usize) -> Clicked {
    match side {
        Side::Original => Clicked::SelectedOriginal(ordinal, index),
        Side::Translation => Clicked::SelectedTranslation(ordinal, index),
    }
}

/// The marker for a plain click on an unpaired word of the given side.
pub open spec fn plain_clicked(side: Side, index: usize) -> Clicked {
    match side {
        Side::Original => Clicked::Original(index),
        Side::Translation => Clicked::Translation(index),
    }
}

/// Whether `c` highlights a word of this side's association `ordinal`.
pub open spec fn selected_same_assoc(c: Clicked, side: Side, ordinal: int) -> bool {
    match side {
        Side::Original => match c {
            Clicked::SelectedOriginal(a, _) => a == ordinal,
            _ => false,
        },
        Side::Translation => match c {
            Clicked::SelectedTranslation(a, _) => a == ordinal,
            _ => false,
        },
    }
}

/// Whether `c` highlights word `index` on this side.
pub open spec fn is_highlighted(c: Clicked, side: Side, index: usize) -> bool {
    match side {
        Side::Original => match c {
            Clicked::SelectedOriginal(_, i) => i == index,
            _ => false,
        },
        Side::Translation => match c {
            Clicked::SelectedTranslation(_, i) => i == index,
            _ => false,
        },
    }
}

/// Whether `c` highlights association `ordinal`, on either side.
pub open spec fn highlights_assoc(c: Clicked, ordinal: int) -> bool {
    match c {
        Clicked::SelectedOriginal(a, _) => a == ordinal,
        Clicked::SelectedTranslation(a, _) => a == ordinal,
        _ => false,
    }
}

/// What a click on word `index` of the given side does. A no-op while
/// selection is disabled. A click on a word of a committed association
/// highlights that word; when the same association was already highlighted
/// only this side's pending set is cleared, otherwise both are. A click on
/// an unpaired word toggles it in this side's pending set: absent, it is
/// added and marked clicked; present and marked, it is removed and the
/// marker cleared; present but not marked, only the marker moves to it.
pub open spec fn click_spec(m: ControllerModel, index: usize, side: Side) -> ControllerModel
    recommends
        controller_wf(m),
{
    if !m.selection_enabled {
        m
    } else {
        let li = lookup_idx(m.pairs, index, side);
        if li >= 0 {
            if selected_same_assoc(m.clicked, side, li) {
                with_pending(
                    ControllerModel { clicked: selected_clicked(side, li as usize, index), ..m },
                    side,
                    Seq::empty(),
                )
            } else {
                ControllerModel {
                    pending_original: Seq::empty(),
                    pending_translation: Seq::empty(),
                    clicked: selected_clicked(side, li as usize, index),
                    ..m
                }
            }
        } else {
            let pend = pending_of(m, side);
            if !pend.contains(index) {
                with_pending(
                    ControllerModel { clicked: plain_clicked(side, index), ..m },
                    side,
                    insert_sorted_spec(pend, index),
                )
            } else if m.clicked == plain_clicked(side, index) {
                with_pending(
                    ControllerModel { clicked: Clicked::Idle, ..m },
                    side,
                    remove_sorted_spec(pend, index),
                )
            } else {
                ControllerModel { clicked: plain_clicked(side, index), ..m }
            }
        }
    }
}

/// The render category of word `index` on the given side, by first-match
/// precedence.
pub open spec fn classify_spec(m: ControllerModel, index: usize, side: Side) -> WordCategory {
    let li = lookup_idx(m.pairs, index, side);
    if is_highlighted(m.clicked, side, index) {
        WordCategory::Highlighted
    } else if li >= 0 && highlights_assoc(m.clicked, li) {
        WordCategory::HighlightedPair
    } else if m.clicked == plain_clicked(side, index) {
        WordCategory::ClickedSelected
    } else if li >= 0 {
        WordCategory::Pair
    } else if pending_of(m, side).contains(index) {
        WordCategory::Clicked
    } else {
        WordCategory::Plain
    }
}

/// What the selection-mode toggle does: flips the flag; turning selection
/// off clears both pending sets and the clicked marker.
pub open spec fn toggle_spec(m: ControllerModel) -> ControllerModel {
    if m.selection_enabled {
        ControllerModel {
            pending_original: Seq::empty(),
            pending_translation: Seq::empty(),
            clicked: Clicked::Idle,
            selection_enabled: false,
            ..m
        }
    } else {
        ControllerModel { selection_enabled: true, ..m }
    }
}

/// Whether the pair action is offered: both pending sets non-empty.
pub open spec fn pair_enabled_spec(m: ControllerModel) -> bool {
    m.pending_original.len() > 0 && m.pending_translation.len() > 0
}

/// What committing the pending pair does: the pending sets become a
/// committed association, both are cleared, and the clicked marker resets.
pub open spec fn commit_spec(m: ControllerModel) -> ControllerModel {
    ControllerModel {
        pairs: store_insert_spec(m.pairs, m.pending_original, m.pending_translation),
        pending_original: Seq::empty(),
        pending_translation: Seq::empty(),
        clicked: Clicked::Idle,
        ..m
    }
}

/// What removing a committed association does: it leaves the store and the
/// clicked marker resets; pending sets are untouched.
pub open spec fn remove_spec(m: ControllerModel, ordinal: usize) -> ControllerModel
    recommends
        0 <= ordinal < m.pairs.len(),
{
    ControllerModel { pairs: m.pairs.remove(ordinal as int), clicked: Clicked::Idle, ..m }
}

/// The click-driven selection state machine for one sentence pair.
#[derive(Debug)]
pub struct SelectionController {
    pub pending_original: IndexSet,
    pub pending_translation: IndexSet,
    pub pairs: AlignmentStore,
    pub clicked: Clicked,
    pub selection_enabled: bool,
}

impl View for SelectionController {
    type V = ControllerModel;

    open spec fn view(&self) -> ControllerModel {
        ControllerModel {
            pending_original: self.pending_original@,
            pending_translation: self.pending_translation@,
            pairs: self.pairs@,
            clicked: self.clicked,
            selection_enabled: self.selection_enabled,
        }
    }
}

impl SelectionController {
    /// Well-formed controller.
    pub open spec fn wf(&self) -> bool {
        controller_wf(self@)
    }

    /// A fresh controller: nothing pending, nothing committed, nothing
    /// clicked, selection disabled.
    pub fn new() -> (r: Self)
        ensures
            r@ == (ControllerModel {
                pending_original: Seq::<usize>::empty(),
                pending_translation: Seq::<usize>::empty(),
                pairs: Seq::<AssocModel>::empty(),
                clicked: Clicked::Idle,
                selection_enabled: false,
            }),
            r.wf(),
    {
        let r = SelectionController {
            pending_original: IndexSet::new(),
            pending_translation: IndexSet::new(),
            pairs: AlignmentStore::new(),
            clicked: Clicked::Idle,
            selection_enabled: false,
        };
        proof {
            assert(r@ =~= (ControllerModel {
                pending_original: Seq::<usize>::empty(),
                pending_translation: Seq::<usize>::empty(),
                pairs: Seq::<AssocModel>::empty(),
                clicked: Clicked::Idle,
                selection_enabled: false,
            }));
        }
        r
    }

    /// Replaces the committed associations with ones hydrated from
    /// persisted data.
    pub fn set_initial_pairs(&mut self, pairs: AlignmentStore)
        requires
            pairs.wf(),
        ensures
            final(self)@ == (ControllerModel { pairs: pairs@, ..old(self)@ }),
            old(self).wf() ==> final(self).wf(),
    {
        self.pairs = pairs;
        proof {
            assert(self@ =~= (ControllerModel { pairs: self.pairs@, ..old(self)@ }));
        }
    }

    /// An owned copy of the committed associations, for persisting.
    pub fn get_current_pairs(&self) -> (r: AlignmentStore)
        ensures
            r@ == self@.pairs,
    {
        self.pairs.duplicate()
    }

    /// The ordinal of the first committed association holding this word, if
    /// any: the numeric label rendered beside the word.
    pub fn pair_index_for_word(&self, index: usize, side: Side) -> (r: Option<usize>)
        ensures
            ({
                let li = lookup_idx(self@.pairs, index, side);
                match r {
                    Some(u) => li == u as int,
                    None => li == -1,
                }
            }),
    {
        self.pairs.lookup(index, side)
    }

    /// Handles a click on word `index` of the given side.
    pub fn click(&mut self, index: usize, side: Side)
        requires
            old(self).wf(),
        ensures
            final(self)@ == click_spec(old(self)@, index, side),
            final(self).wf(),
    {
        if !self.selection_enabled {
            return ;
        }
        let looked_up = self.pairs.lookup(index, side);
        match looked_up {
            Some(sel) => {
                let same = match side {
                    Side::Original => match self.clicked {
                        Clicked::SelectedOriginal(a, _) => a == sel,
                        _ => false,
                    },
                    Side::Translation => match self.clicked {
                        Clicked::SelectedTranslation(a, _) => a == sel,
                        _ => false,
                    },
                };
                if same {
                    match side {
                        Side::Original => {
                            self.clicked = Clicked::SelectedOriginal(sel, index);
                            self.pending_original.clear();
                        },
                        Side::Translation => {
                            self.clicked = Clicked::SelectedTranslation(sel, index);
                            self.pending_translation.clear();
                        },
                    }
                    proof {
                        assert(self@ =~= click_spec(old(self)@, index, side));
                    }
                } else {
                    match side {
                        Side::Original => {
                            self.clicked = Clicked::SelectedOriginal(sel, index);
                        },
                        Side::Translation => {
                            self.clicked = Clicked::SelectedTranslation(sel, index);
                        },
                    }
                    self.pending_original.clear();
                    self.pending_translation.clear();
                    proof {
                        assert(self@ =~= click_spec(old(self)@, index, side));
                    }
                }
            },
            None => {
                let pend_contains = match side {
                    Side::Original => self.pending_original.contains(index),
                    Side::Translation => self.pending_translation.contains(index),
                };
                if !pend_contains {
                    match side {
                        Side::Original => {
                            self.pending_original.insert(index);
                            self.clicked = Clicked::Original(index);
                        },
                        Side::Translation => {
                            self.pending_translation.insert(index);
                            self.clicked = Clicked::Translation(index);
                        },
                    }
                    proof {
                        assert(self@ =~= click_spec(old(self)@, index, side));
                    }
                } else {
                    let was_plain = match side {
                        Side::Original => match self.clicked {
                            Clicked::Original(ci) => ci == index,
                            _ => false,
                        },
                        Side::Translation => match self.clicked {
                            Clicked::Translation(ci) => ci == index,
                            _ => false,
                        },
                    };
                    if was_plain {
                        match side {
                            Side::Original => {
                                self.pending_original.remove(index);
                            },
                            Side::Translation => {
                                self.pending_translation.remove(index);
                            },
                        }
                        self.clicked = Clicked::Idle;
                        proof {
                            assert(self@ =~= click_spec(old(self)@, index, side));
                        }
                    } else {
                        match side {
                            Side::Original => {
                                self.clicked = Clicked::Original(index);
                            },
                            Side::Translation => {
                                self.clicked = Clicked::Translation(index);
                            },
                        }
                        proof {
                            assert(self@ =~= click_spec(old(self)@, index, side));
                        }
                    }
                }
            },
        }
    }

    /// The render category of word `index` on the given side.
    pub fn classify_word(&self, index: usize, side: Side) -> (r: WordCategory)
        ensures
            r == classify_spec(self@, index, side),
    {
        let li = self.pairs.lookup(index, side);
        let highlighted = match side {
            Side::Original => match self.clicked {
                Clicked::SelectedOriginal(_, i) => i == index,
                _ => false,
            },
            Side::Translation => match self.clicked {
                Clicked::SelectedTranslation(_, i) => i == index,
                _ => false,
            },
        };
        if highlighted {
            return WordCategory::Highlighted;
        }
        if let Some(sel) = li {
            let hp = match self.clicked {
                Clicked::SelectedOriginal(a, _) => a == sel,
                Clicked::SelectedTranslation(a, _) => a == sel,
                _ => false,
            };
            if hp {
                return WordCategory::HighlightedPair;
            }
        }
        let plain_click = match side {
            Side::Original => match self.clicked {
                Clicked::Original(ci) => ci == index,
                _ => false,
            },
            Side::Translation => match self.clicked {
                Clicked::Translation(ci) => ci == index,
                _ => false,
            },
        };
        if plain_click {
            return WordCategory::ClickedSelected;
        }
        if li.is_some() {
            return WordCategory::Pair;
        }
        let pending = match side {
            Side::Original => self.pending_original.contains(index),
            Side::Translation => self.pending_translation.contains(index),
        };
        if pending {
            WordCategory::Clicked
        } else {
            WordCategory::Plain
        }
    }

    /// Whether the pair action is offered: both pending sets non-empty.
    pub fn pair_enabled(&self) -> (r: bool)
        ensures
            r == pair_enabled_spec(self@),
    {
        !self.pending_original.is_empty() && !self.pending_translation.is_empty()
    }

    /// Commits the pending pair as an association and clears the pending
    /// state. Only offered while `pair_enabled` holds.
    pub fn commit_pair(&mut self)
        requires
            old(self).wf(),
            pair_enabled_spec(old(self)@),
        ensures
            final(self)@ == commit_spec(old(self)@),
            final(self).wf(),
    {
        self.pairs.insert(&self.pending_original, &self.pending_translation);
        self.pending_original.clear();
        self.pending_translation.clear();
        self.clicked = Clicked::Idle;
        proof {
            assert(self@ =~= commit_spec(old(self)@));
        }
    }

    /// Removes the association at `ordinal`, as derived from a prior
    /// lookup, and clears the clicked marker.
    pub fn remove_pair(&mut self, ordinal: usize)
        requires
            old(self).wf(),
            ordinal < old(self)@.pairs.len(),
        ensures
            final(self)@ == remove_spec(old(self)@, ordinal),
            final(self).wf(),
    {
        self.pairs.remove_at(ordinal);
        self.clicked = Clicked::Idle;
        proof {
            assert(self@ =~= remove_spec(old(self)@, ordinal));
        }
    }

    /// Flips selection mode. Turning it off abandons the pending selections
    /// and the clicked marker.
    pub fn toggle_selection_enabled(&mut self)
        requires
            old(self).wf(),
        ensures
            final(self)@ == toggle_spec(old(self)@),
            final(self).wf(),
    {
        if self.selection_enabled {
            self.pending_original.clear();
            self.pending_translation.clear();
            self.clicked = Clicked::Idle;
        }
        self.selection_enabled = !self.selection_enabled;
        proof {
            assert(self@ =~= toggle_spec(old(self)@));
        }
    }
}

} // verus!

