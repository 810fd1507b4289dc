//! Character-equivalence oracle for typing verification.
//!
//! A typed character is accepted against a reference character when it is
//! exactly equal, when it is the single-character lowercase fold of the
//! reference, or under the German diaeresis/eszett conventions that let a
//! learner type plain Latin letters for umlauts and sharp s. The relation is
//! total and directional: the typed character stands on the left, the
//! reference on the right, and the rules never apply with the two swapped.

use vstd::prelude::*;

verus! {

/// The lowercase fold of a character: the character sequence that
/// `char::to_lowercase` yields for it.
pub uninterp spec fn lower_of(c: char) -> Seq<char>;

/// Relies on char::to_lowercase: the Unicode lowercase mapping of a
/// character, which depends on the character alone.
#[verifier::external_body]
fn to_lowercase_chars(c: char) -> (r: Vec<char>)
    ensures
        r@ == lower_of(c),
{
    c.to_lowercase().collect()
}

/// The character-equivalence relation, described for a typed character
/// against a reference character. Total and directional: exact equality,
/// the single-character lowercase fold of the reference, or the German
/// diaeresis/eszett conventions for plain Latin input.
pub open spec fn char_matches(typed: char, reference: char) -> bool {
    ||| typed == reference
    ||| lower_of(reference) == seq![typed]
    ||| (reference == 'ß' && (typed == 'S' || typed == 's'))
    ||| (reference == 'Ü' && (typed == 'U' || typed == 'u'))
    ||| (reference == 'ü' && typed == 'u')
    ||| (reference == 'Ä' && (typed == 'A' || typed == 'a'))
    ||| (reference == 'ä' && typed == 'a')
    ||| (reference == 'Ö' && (typed == 'O' || typed == 'o'))
    ||| (reference == 'ö' && typed == 'o')
}

/// Decides whether a typed character counts as a correct keystroke for a
/// reference character.
pub fn compare(typed: char, reference: char) -> (r: bool)
    ensures
        r == char_matches(typed, reference),
{
    if typed == reference {
        return true;
    }
    let folded = to_lowercase_chars(reference);
    if folded.len() == 1 && folded[0] == typed {
        proof {
            assert(lower_of(reference) =~= seq![typed]);
        }
        return true;
    }
    proof {
        if lower_of(reference) == seq![typed] {
            assert(folded@.len() == 1 && folded@[0] == typed);
        }
    }
    match reference {
        'ß' => typed == 'S' || typed == 's',
        'Ü' => typed == 'U' || typed == 'u',
        'ü' => typed == 'u',
        'Ä' => typed == 'A' || typed == 'a',
        'ä' => typed == 'a',
        'Ö' => typed == 'O' || typed == 'o',
        'ö' => typed == 'o',
        _ => false,
    }
}

} // verus!
