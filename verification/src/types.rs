//! Per-character typing session.
//!
//! A session is built by splitting reference text on single spaces into
//! words, each word into character slots. A word caret selects the current
//! word; each word has a character caret pointing at the next unfilled slot.
//! Keystroke handlers move the carets and fill or clear slots; a render
//! category is derived per slot from the typed character and the
//! character-equivalence oracle.

use vstd::prelude::*;
use vstd::string::*;

use crate::matcher::char_matches;
use crate::text::{lemma_split_len_pos, split_on, split_spec};

verus! {

/// One character slot: its index inside the word, the reference character
/// to type, and the character typed so far, if any.
#[derive(Clone, Copy, PartialEq, Eq, Structural, Debug)]
pub struct CharState {
    pub char_index: usize,
    pub reference_char: char,
    pub typed_char: Option<char>,
}

impl CharState {
    /// A fresh, untyped slot.
    pub fn new(char_index: usize, reference_char: char) -> (r: Self)
        ensures
            r == (CharState { char_index, reference_char, typed_char: Option::<char>::None }),
    {
        CharState { char_index, reference_char, typed_char: None }
    }

    /// Records a typed character in this slot.
    pub fn typed(&mut self, typed_char: char)
        ensures
            *final(self) == (CharState { typed_char: Some(typed_char), ..*old(self) }),
    {
        self.typed_char = Some(typed_char);
    }

    /// Clears the typed character of this slot.
    pub fn backspace(&mut self)
        ensures
            *final(self) == (CharState { typed_char: Option::<char>::None, ..*old(self) }),
    {
        self.typed_char = None
    }

    /// The render category of this slot.
    pub fn category(&self) -> (r: CharCategory)
        ensures
            r == slot_category(*self),
    {
        match self.typed_char {
            Some(t) => {
                if crate::matcher::compare(t, self.reference_char) {
                    CharCategory::Correct
                } else {
                    CharCategory::Incorrect
                }
            },
            None => CharCategory::Empty,
        }
    }
}

/// Render category of a character slot: typed and matching, typed and
/// mismatching (both forms are shown), or not yet typed.
#[derive(Clone, Copy, PartialEq, Eq, Structural, Debug)]
pub enum CharCategory {
    Correct,
    Incorrect,
    Empty,
}

/// The render category a slot gets: `Correct` when a typed character is
/// present and equivalent to the reference, `Incorrect` when present and
/// not equivalent, `Empty` when nothing is typed.
pub open spec fn slot_category(c: CharState) -> CharCategory {
    match c.typed_char {
        Some(t) => if char_matches(t, c.reference_char) {
            CharCategory::Correct
        } else {
            CharCategory::Incorrect
        },
        None => CharCategory::Empty,
    }
}

/// Mathematical model of one word: the character caret and the slots.
#[verifier::ext_equal]
pub ghost struct WordModel {
    pub char_index: usize,
    pub data: Seq<CharState>,
}

/// Mathematical model of a session: the word caret, the words, and whether
/// the session has focus.
#[verifier::ext_equal]
pub ghost struct SessionModel {
    pub word_index: usize,
    pub words: Seq<WordModel>,
    pub focus: bool,
}

/// One word of the session: its character caret and its slots.
#[derive(Clone)]
pub struct WordState {
    pub char_index: usize,
    pub data: Vec<CharState>,
}

impl View for WordState {
    type V = WordModel;

    open spec fn view(&self) -> WordModel {
        WordModel { char_index: self.char_index, data: self.data@ }
    }
}

/// A typing session over one reference sentence.
#[derive(Clone)]
pub struct TypeState {
    pub word_index: usize,
    pub data: Vec<WordState>,
    pub focus: bool,
}

impl View for TypeState {
    type V = SessionModel;

    open spec fn view(&self) -> SessionModel {
        SessionModel {
            word_index: self.word_index,
            words: self.data@.map_values(|w: WordState| w@),
            focus: self.focus,
        }
    }
}

/// Well-formed word: the caret never passes the end, slots know their own
/// index, and the caret points at the first unfilled slot: everything
/// before it is typed, everything from it on is not.
pub open spec fn word_wf(w: WordModel) -> bool {
    &&& w.data.len() <= usize::MAX
    &&& w.char_index <= w.data.len()
    &&& forall|j: int| 0 <= j < w.data.len() ==> (#[trigger] w.data[j]).char_index == j
    &&& forall|j: int|
        0 <= j < w.data.len() ==> ((#[trigger] w.data[j]).typed_char is Some <==> j
            < w.char_index)
}

/// Well-formed session: at least one word (splitting guarantees it), the
/// word caret in range, every word well-formed.
pub open spec fn session_wf(s: SessionModel) -> bool {
    &&& s.words.len() <= usize::MAX
    &&& s.words.len() >= 1
    &&& s.word_index < s.words.len()
    &&& forall|i: int| 0 <= i < s.words.len() ==> word_wf(#[trigger] s.words[i])
}

/// The characters a learner may type into a slot: ASCII letters and a small
/// punctuation set.
pub open spec fn is_accepted_char(c: char) -> bool {
    ||| (65 <= c as int && c as int <= 90)
    ||| (97 <= c as int && c as int <= 122)
    ||| c == ',' || c == '-' || c == '.' || c == ':' || c == ';' || c == '"' || c == '\''
}

/// A fresh word over reference characters `cs`: caret at zero, one
/// untyped slot per character, each knowing its index.
pub open spec fn is_fresh_word(w: WordModel, cs: Seq<char>) -> bool {
    &&& w.char_index == 0
    &&& w.data.len() == cs.len()
    &&& forall|j: int|
        0 <= j < cs.len() ==> (#[trigger] w.data[j]) == (CharState {
            char_index: j as usize,
            reference_char: cs[j],
            typed_char: Option::<char>::None,
        })
}

/// A fresh session over reference text: one fresh word per segment of the
/// text split on single spaces, caret at word zero, no focus.
pub open spec fn is_fresh_session(m: SessionModel, text: Seq<char>) -> bool {
    &&& m.word_index == 0
    &&& !m.focus
    &&& m.words.len() == split_spec(text, ' ').len()
    &&& forall|i: int|
        0 <= i < m.words.len() ==> is_fresh_word(#[trigger] m.words[i], split_spec(text, ' ')[i])
}

/// What backspace does: inside a word it steps the character caret back and
/// clears the slot it now points at; at character zero it moves to the
/// previous word, whose caret is left as it was; at word zero, character
/// zero it does nothing.
pub open spec fn backspace_spec(s: SessionModel) -> SessionModel
    recommends
        session_wf(s),
{
    let w = s.words[s.word_index as int];
    if w.char_index > 0 {
        let c = w.data[w.char_index - 1];
        let w2 = WordModel {
            char_index: (w.char_index - 1) as usize,
            data: w.data.update(w.char_index - 1, CharState { typed_char: Option::None, ..c }),
        };
        SessionModel { words: s.words.update(s.word_index as int, w2), ..s }
    } else if s.word_index > 0 {
        SessionModel { word_index: (s.word_index - 1) as usize, ..s }
    } else {
        s
    }
}

/// What the space key does: advances the word caret, whether or not the
/// current word is fully typed; a no-op at the last word.
pub open spec fn space_advance_spec(s: SessionModel) -> SessionModel {
    if s.word_index + 1 < s.words.len() {
        SessionModel { word_index: (s.word_index + 1) as usize, ..s }
    } else {
        s
    }
}

/// What typing a character does: ignored unless the character is accepted
/// and the current word still has an unfilled slot; otherwise the slot at
/// the character caret records it and the caret advances. The caret never
/// auto-advances to the next word.
pub open spec fn character_input_spec(s: SessionModel, c: char) -> SessionModel
    recommends
        session_wf(s),
{
    if !is_accepted_char(c) {
        s
    } else {
        let w = s.words[s.word_index as int];
        if w.char_index < w.data.len() {
            let slot = w.data[w.char_index as int];
            let w2 = WordModel {
                char_index: (w.char_index + 1) as usize,
                data: w.data.update(
                    w.char_index as int,
                    CharState { typed_char: Some(c), ..slot },
                ),
            };
            SessionModel { words: s.words.update(s.word_index as int, w2), ..s }
        } else {
            s
        }
    }
}

/// Backspace preserves well-formedness.
pub proof fn lemma_backspace_preserves_wf(s: SessionModel)
    requires
        session_wf(s),
    ensures
        session_wf(backspace_spec(s)),
{
}

/// Character input preserves well-formedness.
pub proof fn lemma_character_input_preserves_wf(s: SessionModel, c: char)
    requires
        session_wf(s),
    ensures
        session_wf(character_input_spec(s, c)),
{
    if is_accepted_char(c) {
        let w = s.words[s.word_index as int];
        if w.char_index < w.data.len() {
            let slot = w.data[w.char_index as int];
            let wupd = WordModel {
                char_index: (w.char_index + 1) as usize,
                data: w.data.update(w.char_index as int, CharState { typed_char: Some(c), ..slot }),
            };
            let s2 = character_input_spec(s, c);
            assert(s2.words == s.words.update(s.word_index as int, wupd));
            assert(word_wf(w));
            assert forall|j: int|
                0 <= j < wupd.data.len() implies ((#[trigger] wupd.data[j]).typed_char is Some
                <==> j < wupd.char_index) && wupd.data[j].char_index == j by {
                if j != w.char_index {
                    assert(wupd.data[j] == w.data[j]);
                }
            }
            assert(word_wf(wupd));
            assert forall|i: int| 0 <= i < s2.words.len() implies word_wf(
                #[trigger] s2.words[i],
            ) by {
                if i != s.word_index {
                    assert(s2.words[i] == s.words[i]);
                }
            }
        }
    }
}

/// Backspace at word zero, character zero is a no-op.
pub proof fn lemma_backspace_noop_at_origin(s: SessionModel)
    requires
        session_wf(s),
        s.word_index == 0,
        s.words[0].char_index == 0,
    ensures
        backspace_spec(s) == s,
{
}

/// Space advance at the last word index is a no-op.
pub proof fn lemma_space_advance_noop_at_last_word(s: SessionModel)
    requires
        session_wf(s),
        s.word_index + 1 == s.words.len(),
    ensures
        space_advance_spec(s) == s,
{
}

/// Every slot of a freshly constructed session renders Empty, whatever the
/// reference text.
pub proof fn lemma_fresh_session_all_empty(m: SessionModel, text: Seq<char>)
    requires
        is_fresh_session(m, text),
    ensures
        forall|i: int, j: int|
            0 <= i < m.words.len() && 0 <= j < m.words[i].data.len() ==> slot_category(
                #[trigger] m.words[i].data[j],
            ) == CharCategory::Empty,
{
    assert forall|i: int, j: int|
        0 <= i < m.words.len() && 0 <= j < m.words[i].data.len() implies slot_category(
        #[trigger] m.words[i].data[j],
    ) == CharCategory::Empty by {
        assert(is_fresh_word(m.words[i], split_spec(text, ' ')[i]));
        assert(m.words[i].data[j].typed_char is None);
    }
}

fn build_fresh_word(part: &String) -> (w: WordState)
    ensures
        is_fresh_word(w@, part@),
        word_wf(w@),
{
    let s = part.as_str();
    let n = s.unicode_len();
    let mut data: Vec<CharState> = Vec::new();
    let mut j: usize = 0;
    while j < n
        invariant
            j <= n,
            n == s@.len(),
            s@ == part@,
            data@.len() == j,
            forall|k: int|
                0 <= k < j ==> #[trigger] data@[k] == (CharState {
                    char_index: k as usize,
                    reference_char: part@[k],
                    typed_char: Option::<char>::None,
                }),
        decreases n - j,
    {
        data.push(CharState::new(j, s.get_char(j)));
        j = j + 1;
    }
    WordState { char_index: 0, data }
}

impl TypeState {
    /// Builds a session from reference text: the text is split on single
    /// spaces, with no trimming and no collapsing.
    pub fn from_str(value: &String) -> (r: Self)
        ensures
            is_fresh_session(r@, value@),
            session_wf(r@),
    {
        let parts = split_on(value.as_str(), ' ');
        let mut words: Vec<WordState> = Vec::new();
        let mut i: usize = 0;
        while i < parts.len()
            invariant
                i <= parts@.len(),
                parts.deep_view() == split_spec(value@, ' '),
                parts.deep_view().len() == parts@.len(),
                words@.len() == i,
                forall|k: int|
                    0 <= k < i ==> is_fresh_word(
                        (#[trigger] words@[k])@,
                        parts.deep_view()[k],
                    ),
                forall|k: int| 0 <= k < i ==> word_wf((#[trigger] words@[k])@),
            decreases parts@.len() - i,
        {
            let w = build_fresh_word(&parts[i]);
            words.push(w);
            i = i + 1;
        }
        let r = TypeState { word_index: 0, data: words, focus: false };
        proof {
            lemma_split_len_pos(value@, ' ');
            assert(is_fresh_session(r@, value@));
            assert(session_wf(r@));
        }
        r
    }

    /// Handles the backspace key.
    pub fn handle_backspace(&mut self)
        requires
            session_wf(old(self)@),
        ensures
            final(self)@ == backspace_spec(old(self)@),
            session_wf(final(self)@),
    {
        proof {
            lemma_backspace_preserves_wf(old(self)@);
        }
        let wi = self.word_index;
        let c = self.data[wi].char_index;
        if c > 0 {
            let word = &mut self.data[wi];
            word.char_index = c - 1;
            let slot = &mut word.data[c - 1];
            slot.backspace();
            proof {
                assert(self@.words =~= backspace_spec(old(self)@).words);
                assert(self@ =~= backspace_spec(old(self)@));
            }
        } else if wi > 0 {
            self.word_index = wi - 1;
            proof {
                assert(self@ =~= backspace_spec(old(self)@));
            }
        } else {
            proof {
                assert(self@ =~= backspace_spec(old(self)@));
            }
        }
    }

    /// Handles the space key. The caller suppresses the browser's default
    /// scroll action; this only moves the word caret.
    pub fn handle_space_advance(&mut self)
        requires
            session_wf(old(self)@),
        ensures
            final(self)@ == space_advance_spec(old(self)@),
            session_wf(final(self)@),
    {
        let wi = self.word_index;
        let n = self.data.len();
        if wi + 1 < n {
            self.word_index = wi + 1;
        }
        proof {
            assert(self@ =~= space_advance_spec(old(self)@));
        }
    }

    /// Handles a typed character.
    pub fn handle_character_input(&mut self, ch: char)
        requires
            session_wf(old(self)@),
        ensures
            final(self)@ == character_input_spec(old(self)@, ch),
            session_wf(final(self)@),
    {
        proof {
            lemma_character_input_preserves_wf(old(self)@, ch);
        }
        if !accepted_char(ch) {
            proof {
                assert(self@ =~= character_input_spec(old(self)@, ch));
            }
            return ;
        }
        let wi = self.word_index;
        let c = self.data[wi].char_index;
        if c < self.data[wi].data.len() {
            let word = &mut self.data[wi];
            word.char_index = c + 1;
            let slot = &mut word.data[c];
            slot.typed(ch);
            proof {
                assert(self@.words =~= character_input_spec(old(self)@, ch).words);
                assert(self@ =~= character_input_spec(old(self)@, ch));
            }
        } else {
            proof {
                assert(self@ =~= character_input_spec(old(self)@, ch));
            }
        }
    }

    /// Whether the slot rendering for word `word_index` shows the active
    /// caret marker on its empty slots: only on the current word while the
    /// session has focus.
    pub fn shows_caret_marker(&self, word_index: usize) -> (r: bool)
        ensures
            r == (word_index == self@.word_index && self@.focus),
    {
        word_index == self.word_index && self.focus
    }
}

/// Decides whether a character is accepted as typing input.
pub fn accepted_char(c: char) -> (r: bool)
    ensures
        r == is_accepted_char(c),
{
    let u = c as u32;
    (65 <= u && u <= 90) || (97 <= u && u <= 122) || c == ',' || c == '-' || c == '.' || c == ':'
        || c == ';' || c == '"' || c == '\''
}

} // verus!
