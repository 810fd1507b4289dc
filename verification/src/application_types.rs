//! Article data as the tool stores and displays it.
//!
//! An article is a titled list of paragraphs, each holding one original
//! sentence and its translation. Persistence and transport of these values
//! are external collaborators; the library only builds and shapes them.

use vstd::prelude::*;

verus! {

/// Everything a user has stored: their articles.
#[derive(Debug, Clone, PartialEq)]
pub struct Data {
    pub articles: Vec<Article>,
}

/// A titled list of paragraphs.
#[derive(Debug, Clone, PartialEq)]
pub struct Article {
    pub title: String,
    pub paragraphs: Vec<Paragraph>,
}

/// One original sentence with its translation and, optionally, stored
/// word pairings.
#[derive(Debug, Clone, PartialEq)]
pub struct Paragraph {
    pub original: String,
    pub translation: String,
    pub pairs: Option<Vec<Pair>>,
}

/// The stored shape of one word pairing: the word indices of each side.
#[derive(Debug, Clone, PartialEq)]
pub struct Pair {
    pub orignal: Vec<usize>,
    pub traslation: Vec<usize>,
}

impl Default for Data {
    /// No articles.
    fn default() -> (r: Self)
        ensures
            r.articles@.len() == 0,
    {
        Data { articles: Vec::new() }
    }
}

impl Article {
    /// Builds an article from original lines and their translations, paired
    /// one to one; the first original line is the title. Lines beyond the
    /// shorter of the two lists are dropped.
    pub fn from_pair(original: Vec<String>, translation: Vec<String>) -> (r: Article)
        requires
            original@.len() >= 1,
        ensures
            r.title == original@[0],
            r.paragraphs@.len() == (if original@.len() <= translation@.len() {
                original@.len()
            } else {
                translation@.len()
            }),
            forall|i: int|
                0 <= i < r.paragraphs@.len() ==> (#[trigger] r.paragraphs@[i]).original
                    == original@[i],
            forall|i: int|
                0 <= i < r.paragraphs@.len() ==> (#[trigger] r.paragraphs@[i]).translation
                    == translation@[i],
            forall|i: int| 0 <= i < r.paragraphs@.len() ==> (#[trigger] r.paragraphs@[i]).pairs
                is None,
    {
        let title = original[0].clone();
        let n = if original.len() <= translation.len() {
            original.len()
        } else {
            translation.len()
        };
        let mut paragraphs: Vec<Paragraph> = Vec::new();
        let mut i: usize = 0;
        while i < n
            invariant
                i <= n,
                n <= original@.len(),
                n <= translation@.len(),
                paragraphs@.len() == i,
                forall|k: int|
                    0 <= k < i ==> (#[trigger] paragraphs@[k]).original == original@[k],
                forall|k: int|
                    0 <= k < i ==> (#[trigger] paragraphs@[k]).translation == translation@[k],
                forall|k: int| 0 <= k < i ==> (#[trigger] paragraphs@[k]).pairs is None,
            decreases n - i,
        {
            paragraphs.push(
                Paragraph {
                    original: original[i].clone(),
                    translation: translation[i].clone(),
                    pairs: None,
                },
            );
            i = i + 1;
        }
        Article { title, paragraphs }
    }
}

} // verus!
