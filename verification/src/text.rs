//! Splitting reference text into words or lines.
//!
//! Reference text is tokenized on a single separator character with no
//! trimming and no collapsing: leading, trailing and doubled separators all
//! yield empty segments, and splitting empty text yields one empty segment.

use vstd::prelude::*;
use vstd::string::*;

verus! {

/// The segments of `s` split on `sep`. Always at least one segment; empty
/// segments are kept.
pub open spec fn split_spec(s: Seq<char>, sep: char) -> Seq<Seq<char>>
    decreases s.len(),
{
    if s.len() == 0 {
        seq![Seq::<char>::empty()]
    } else if s[0] == sep {
        seq![Seq::<char>::empty()] + split_spec(s.drop_first(), sep)
    } else {
        let rest = split_spec(s.drop_first(), sep);
        rest.update(0, seq![s[0]] + rest[0])
    }
}

/// Splitting always yields at least one segment.
pub proof fn lemma_split_len_pos(s: Seq<char>, sep: char)
    ensures
        split_spec(s, sep).len() >= 1,
    decreases s.len(),
{
    if s.len() != 0 && s[0] != sep {
        lemma_split_len_pos(s.drop_first(), sep);
    }
}

/// Text without the separator is a single segment.
pub proof fn lemma_split_no_sep(s: Seq<char>, sep: char)
    requires
        forall|j: int| 0 <= j < s.len() ==> s[j] != sep,
    ensures
        split_spec(s, sep) == seq![s],
    decreases s.len(),
{
    if s.len() == 0 {
        assert(s =~= Seq::<char>::empty());
        assert(split_spec(s, sep) =~= seq![s]);
    } else {
        lemma_split_no_sep(s.drop_first(), sep);
        lemma_split_len_pos(s.drop_first(), sep);
        assert(seq![s[0]] + s.drop_first() =~= s);
        assert(split_spec(s, sep) =~= seq![s]);
    }
}

/// Splitting at the first separator: the text before it is the first
/// segment, and the rest splits independently.
pub proof fn lemma_split_first_sep(s: Seq<char>, sep: char, k: int)
    requires
        0 <= k < s.len(),
        s[k] == sep,
        forall|j: int| 0 <= j < k ==> s[j] != sep,
    ensures
        split_spec(s, sep) == seq![s.subrange(0, k)] + split_spec(
            s.subrange(k + 1, s.len() as int),
            sep,
        ),
    decreases k,
{
    if k == 0 {
        assert(s.subrange(0, 0) =~= Seq::<char>::empty());
        assert(s.subrange(1, s.len() as int) =~= s.drop_first());
        assert(split_spec(s, sep) =~= seq![s.subrange(0, 0)] + split_spec(
            s.subrange(1, s.len() as int),
            sep,
        ));
    } else {
        let d = s.drop_first();
        lemma_split_first_sep(d, sep, k - 1);
        lemma_split_len_pos(d.subrange(k, d.len() as int), sep);
        assert(d.subrange(k, d.len() as int) =~= s.subrange(k + 1, s.len() as int));
        assert(seq![s[0]] + d.subrange(0, k - 1) =~= s.subrange(0, k));
        assert(split_spec(s, sep) =~= seq![s.subrange(0, k)] + split_spec(
            s.subrange(k + 1, s.len() as int),
            sep,
        ));
    }
}

/// Splits `s` on `sep`, keeping empty segments.
pub fn split_on(s: &str, sep: char) -> (r: Vec<String>)
    ensures
        r.deep_view() == split_spec(s@, sep),
        r@.len() >= 1,
{
    let n = s.unicode_len();
    let mut result: Vec<String> = Vec::new();
    let mut start: usize = 0;
    let mut i: usize = 0;
    proof {
        assert(s@.subrange(0, n as int) =~= s@);
        assert(result.deep_view() =~= Seq::<Seq<char>>::empty());
        assert(result.deep_view() + split_spec(s@, sep) =~= split_spec(s@, sep));
    }
    while i < n
        invariant
            start <= i <= n,
            n == s@.len(),
            forall|j: int| start <= j < i ==> s@[j] != sep,
            result.deep_view() + split_spec(s@.subrange(start as int, n as int), sep)
                == split_spec(s@, sep),
        decreases n - i,
    {
        if s.get_char(i) == sep {
            let part = s.substring_char(start, i);
            let word = part.to_owned();
            proof {
                let t = s@.subrange(start as int, n as int);
                lemma_split_first_sep(t, sep, i - start);
                assert(t.subrange(0, i - start) =~= s@.subrange(start as int, i as int));
                assert(t.subrange(i - start + 1, t.len() as int) =~= s@.subrange(
                    i + 1,
                    n as int,
                ));
            }
            let ghost prev = result.deep_view();
            result.push(word);
            proof {
                assert(result.deep_view() =~= prev.push(word@));
                assert(result.deep_view() + split_spec(
                    s@.subrange(i + 1, n as int),
                    sep,
                ) =~= split_spec(s@, sep));
            }
            start = i + 1;
        }
        i = i + 1;
    }
    let part = s.substring_char(start, n);
    let word = part.to_owned();
    proof {
        lemma_split_no_sep(s@.subrange(start as int, n as int), sep);
    }
    let ghost prev = result.deep_view();
    result.push(word);
    proof {
        assert(result.deep_view() =~= prev.push(word@));
        assert(result.deep_view() =~= split_spec(s@, sep));
    }
    result
}

} // verus!
