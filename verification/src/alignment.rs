//! Committed word-index associations for one sentence pair.
//!
//! An association links a non-empty set of source-word indices to a
//! non-empty set of translation-word indices. A store keeps the committed
//! associations of one (article, paragraph) pair ordered by their
//! `start_position` (the least source index), which gives each pairing a
//! stable, user-visible numeric label. Value-equal associations are
//! deduplicated; overlapping index sets across different associations are
//! allowed, and lookups resolve to the first association in store order.

use vstd::prelude::*;

verus! {

/// Strictly increasing: the canonical vector form of a finite index set.
pub open spec fn sorted_strict(s: Seq<usize>) -> bool {
    forall|a: int, b: int| 0 <= a < b < s.len() ==> s[a] < s[b]
}

/// Sorted `s` with `x` inserted in place; unchanged when already present.
pub open spec fn insert_sorted_spec(s: Seq<usize>, x: usize) -> Seq<usize>
    recommends
        sorted_strict(s),
    decreases s.len(),
{
    if s.len() == 0 {
        seq![x]
    } else if x < s[0] {
        seq![x] + s
    } else if x == s[0] {
        s
    } else {
        seq![s[0]] + insert_sorted_spec(s.drop_first(), x)
    }
}

/// Sorted `s` without its occurrence of `x`, if any.
pub open spec fn remove_sorted_spec(s: Seq<usize>, x: usize) -> Seq<usize>
    recommends
        sorted_strict(s),
    decreases s.len(),
{
    if s.len() == 0 {
        s
    } else if s[0] == x {
        s.drop_first()
    } else {
        seq![s[0]] + remove_sorted_spec(s.drop_first(), x)
    }
}

/// Sorted insertion keeps the vector a set: sorted, with `x` present and
/// everything else untouched.
pub proof fn lemma_insert_sorted_props(s: Seq<usize>, x: usize)
    requires
        sorted_strict(s),
    ensures
        sorted_strict(insert_sorted_spec(s, x)),
        forall|y: usize| insert_sorted_spec(s, x).contains(y) <==> (s.contains(y) || y == x),
        s.contains(x) ==> insert_sorted_spec(s, x) == s,
        !s.contains(x) ==> insert_sorted_spec(s, x).len() == s.len() + 1,
    decreases s.len(),
{
    let r = insert_sorted_spec(s, x);
    if s.len() == 0 {
        assert forall|y: usize| r.contains(y) implies (s.contains(y) || y == x) by {
            assert(r[choose|i: int| 0 <= i < r.len() && r[i] == y] == x);
        }
        assert(r.contains(x)) by {
            assert(r[0] == x);
        }
    } else if x < s[0] {
        assert forall|y: usize| (s.contains(y) || y == x) implies r.contains(y) by {
            if y == x {
                assert(r[0] == y);
            } else {
                let i = choose|i: int| 0 <= i < s.len() && s[i] == y;
                assert(r[i + 1] == y);
            }
        }
        assert forall|y: usize| r.contains(y) implies (s.contains(y) || y == x) by {
            let i = choose|i: int| 0 <= i < r.len() && r[i] == y;
            if i > 0 {
                assert(s[i - 1] == y);
            }
        }
        assert(!s.contains(x)) by {
            assert forall|i: int| 0 <= i < s.len() implies s[i] != x by {
                if i > 0 {
                    assert(s[0] < s[i]);
                }
            }
        }
    } else if x == s[0] {
        assert(s.contains(x)) by {
            assert(s[0] == x);
        }
    } else {
        let d = s.drop_first();
        assert(sorted_strict(d));
        lemma_insert_sorted_props(d, x);
        let rd = insert_sorted_spec(d, x);
        assert(r == seq![s[0]] + rd);
        assert forall|a: int, b: int| 0 <= a < b < r.len() implies r[a] < r[b] by {
            if a == 0 {
                assert(r[b] == rd[b - 1]);
                assert(rd.contains(rd[b - 1]));
                if rd[b - 1] == x {
                    assert(s[0] < x);
                } else {
                    assert(d.contains(rd[b - 1]));
                    let i = choose|i: int| 0 <= i < d.len() && d[i] == rd[b - 1];
                    assert(s[0] < s[i + 1]);
                }
            } else {
                assert(r[a] == rd[a - 1] && r[b] == rd[b - 1]);
            }
        }
        assert forall|y: usize| r.contains(y) implies (s.contains(y) || y == x) by {
            let i = choose|i: int| 0 <= i < r.len() && r[i] == y;
            if i == 0 {
                assert(s[0] == y);
            } else {
                assert(rd[i - 1] == y);
                assert(rd.contains(y));
                if d.contains(y) {
                    let k = choose|k: int| 0 <= k < d.len() && d[k] == y;
                    assert(s[k + 1] == y);
                }
            }
        }
        assert forall|y: usize| (s.contains(y) || y == x) implies r.contains(y) by {
            if y == x {
                assert(rd.contains(x));
                let k = choose|k: int| 0 <= k < rd.len() && rd[k] == x;
                assert(r[k + 1] == x);
            } else {
                let i = choose|i: int| 0 <= i < s.len() && s[i] == y;
                if i == 0 {
                    assert(r[0] == y);
                } else {
                    assert(d[i - 1] == y);
                    assert(d.contains(y));
                    assert(rd.contains(y));
                    let k = choose|k: int| 0 <= k < rd.len() && rd[k] == y;
                    assert(r[k + 1] == y);
                }
            }
        }
        if s.contains(x) {
            assert(d.contains(x)) by {
                let i = choose|i: int| 0 <= i < s.len() && s[i] == x;
                assert(d[i - 1] == x);
            }
            assert(r =~= s) by {
                assert(rd == d);
            }
        } else {
            assert(!d.contains(x)) by {
                if d.contains(x) {
                    let k = choose|k: int| 0 <= k < d.len() && d[k] == x;
                    assert(s[k + 1] == x);
                }
            }
        }
    }
}

/// Where the scan of a sorted vector stops, sorted insertion inserts.
pub proof fn lemma_insert_sorted_at(s: Seq<usize>, x: usize, p: int)
    requires
        sorted_strict(s),
        0 <= p <= s.len(),
        forall|i: int| 0 <= i < p ==> s[i] < x,
        p < s.len() ==> s[p] >= x,
    ensures
        p < s.len() && s[p] == x ==> insert_sorted_spec(s, x) == s,
        !(p < s.len() && s[p] == x) ==> insert_sorted_spec(s, x) == s.insert(p, x),
    decreases p,
{
    if p == 0 {
        if s.len() == 0 {
            assert(insert_sorted_spec(s, x) =~= s.insert(0, x));
        } else if x < s[0] {
            assert(insert_sorted_spec(s, x) =~= s.insert(0, x));
        }
    } else {
        let d = s.drop_first();
        assert(sorted_strict(d));
        lemma_insert_sorted_at(d, x, p - 1);
        assert(s[0] < x);
        if p < s.len() && s[p] == x {
            assert(d[p - 1] == x);
            assert(insert_sorted_spec(s, x) =~= s);
        } else {
            assert(insert_sorted_spec(s, x) == seq![s[0]] + d.insert(p - 1, x));
            assert(insert_sorted_spec(s, x) =~= s.insert(p, x));
        }
    }
}

/// Where the scan of a sorted vector finds `x`, sorted removal removes.
pub proof fn lemma_remove_sorted_at(s: Seq<usize>, x: usize, p: int)
    requires
        sorted_strict(s),
        0 <= p < s.len(),
        s[p] == x,
        forall|i: int| 0 <= i < p ==> s[i] != x,
    ensures
        remove_sorted_spec(s, x) == s.remove(p),
    decreases p,
{
    if p == 0 {
        assert(remove_sorted_spec(s, x) =~= s.remove(0));
    } else {
        let d = s.drop_first();
        assert(sorted_strict(d));
        assert(d[p - 1] == x);
        lemma_remove_sorted_at(d, x, p - 1);
        assert(remove_sorted_spec(s, x) == seq![s[0]] + d.remove(p - 1));
        assert(remove_sorted_spec(s, x) =~= s.remove(p));
    }
}

/// When `x` is absent from sorted `s`, sorted removal is a no-op.
pub proof fn lemma_remove_sorted_absent(s: Seq<usize>, x: usize)
    requires
        sorted_strict(s),
        !s.contains(x),
    ensures
        remove_sorted_spec(s, x) == s,
    decreases s.len(),
{
    if s.len() > 0 {
        assert(s[0] != x);
        let d = s.drop_first();
        assert(sorted_strict(d));
        assert(!d.contains(x)) by {
            if d.contains(x) {
                let k = choose|k: int| 0 <= k < d.len() && d[k] == x;
                assert(s[k + 1] == x);
            }
        }
        lemma_remove_sorted_absent(d, x);
        assert(remove_sorted_spec(s, x) =~= s);
    }
}

/// Sorted removal keeps the vector sorted and takes out exactly `x`.
pub proof fn lemma_remove_sorted_props(s: Seq<usize>, x: usize)
    requires
        sorted_strict(s),
    ensures
        sorted_strict(remove_sorted_spec(s, x)),
        forall|y: usize| remove_sorted_spec(s, x).contains(y) <==> (s.contains(y) && y != x),
{
    if s.contains(x) {
        let p = choose|p: int| 0 <= p < s.len() && s[p] == x;
        assert forall|i: int| 0 <= i < p implies s[i] != x by {
            assert(s[i] < s[p]);
        }
        lemma_remove_sorted_at(s, x, p);
        let r = s.remove(p);
        s.remove_ensures(p);
        assert forall|a: int, b: int| 0 <= a < b < r.len() implies r[a] < r[b] by {
            let sa: int = if a < p { a } else { a + 1 };
            let sb: int = if b < p { b } else { b + 1 };
            assert(r[a] == s[sa] && r[b] == s[sb]);
        }
        assert forall|y: usize| r.contains(y) implies (s.contains(y) && y != x) by {
            let i = choose|i: int| 0 <= i < r.len() && r[i] == y;
            let si: int = if i < p { i } else { i + 1 };
            assert(s[si] == y);
            assert(si != p ==> y != x) by {
                if si < p {
                    assert(s[si] < s[p]);
                } else if si > p {
                    assert(s[p] < s[si]);
                }
            }
        }
        assert forall|y: usize| (s.contains(y) && y != x) implies r.contains(y) by {
            let i = choose|i: int| 0 <= i < s.len() && s[i] == y;
            if i < p {
                assert(r[i] == y);
            } else {
                assert(i != p);
                assert(r[i - 1] == y);
            }
        }
    } else {
        lemma_remove_sorted_absent(s, x);
    }
}

/// A finite set of word indices, kept as a strictly increasing vector.
#[derive(Debug)]
pub struct IndexSet {
    pub items: Vec<usize>,
}

impl View for IndexSet {
    type V = Seq<usize>;

    open spec fn view(&self) -> Seq<usize> {
        self.items@
    }
}

impl IndexSet {
    /// Well-formed: strictly increasing, hence duplicate-free.
    pub open spec fn wf(&self) -> bool {
        sorted_strict(self@)
    }

    /// The empty set.
    pub fn new() -> (r: Self)
        ensures
            r@ == Seq::<usize>::empty(),
            r.wf(),
    {
        IndexSet { items: Vec::new() }
    }

    /// How many indices the set holds.
    pub fn len(&self) -> (r: usize)
        ensures
            r == self@.len(),
    {
        self.items.len()
    }

    /// Whether the set holds nothing.
    pub fn is_empty(&self) -> (r: bool)
        ensures
            r == (self@.len() == 0),
    {
        self.items.len() == 0
    }

    /// The index at position `i` in increasing order.
    pub fn get(&self, i: usize) -> (r: usize)
        requires
            i < self@.len(),
        ensures
            r == self@[i as int],
    {
        self.items[i]
    }

    /// Whether `x` is in the set.
    pub fn contains(&self, x: usize) -> (r: bool)
        ensures
            r == self@.contains(x),
    {
        let n = self.items.len();
        let mut i: usize = 0;
        while i < n
            invariant
                i <= n,
                n == self@.len(),
                forall|k: int| 0 <= k < i ==> self@[k] != x,
            decreases n - i,
        {
            if self.items[i] == x {
                return true;
            }
            i = i + 1;
        }
        false
    }

    /// Adds `x`; a no-op when it is already present.
    pub fn insert(&mut self, x: usize)
        requires
            old(self).wf(),
        ensures
            final(self).wf(),
            final(self)@ == insert_sorted_spec(old(self)@, x),
    {
        proof {
            lemma_insert_sorted_props(self@, x);
        }
        let n = self.items.len();
        let mut p: usize = 0;
        while p < n && self.items[p] < x
            invariant
                p <= n,
                n == self@.len(),
                forall|k: int| 0 <= k < p ==> self@[k] < x,
            decreases n - p,
        {
            p = p + 1;
        }
        proof {
            lemma_insert_sorted_at(self@, x, p as int);
        }
        if p < n && self.items[p] == x {
            return ;
        }
        self.items.insert(p, x);
    }

    /// Takes `x` out; a no-op when it is absent.
    pub fn remove(&mut self, x: usize)
        requires
            old(self).wf(),
        ensures
            final(self).wf(),
            final(self)@ == remove_sorted_spec(old(self)@, x),
    {
        proof {
            lemma_remove_sorted_props(self@, x);
        }
        let n = self.items.len();
        let mut p: usize = 0;
        while p < n
            invariant
                p <= n,
                self@ == old(self)@,
                n == self@.len(),
                sorted_strict(self@),
                forall|k: int| 0 <= k < p ==> self@[k] != x,
            decreases n - p,
        {
            if self.items[p] == x {
                proof {
                    lemma_remove_sorted_at(self@, x, p as int);
                }
                self.items.remove(p);
                return ;
            }
            p = p + 1;
        }
        proof {
            assert(!self@.contains(x));
            lemma_remove_sorted_absent(self@, x);
        }
    }

    /// Empties the set.
    pub fn clear(&mut self)
        ensures
            final(self)@ == Seq::<usize>::empty(),
            final(self).wf(),
    {
        self.items.clear();
    }

    /// An owned copy.
    pub fn duplicate(&self) -> (r: Self)
        ensures
            r@ == self@,
    {
        let n = self.items.len();
        let mut items: Vec<usize> = Vec::new();
        let mut i: usize = 0;
        while i < n
            invariant
                i <= n,
                n == self@.len(),
                items@ == self@.subrange(0, i as int),
            decreases n - i,
        {
            items.push(self.items[i]);
            proof {
                assert(items@ =~= self@.subrange(0, i + 1));
            }
            i = i + 1;
        }
        proof {
            assert(self@.subrange(0, n as int) =~= self@);
        }
        IndexSet { items }
    }

    /// Whether two sets hold the same indices.
    pub fn equals(&self, other: &IndexSet) -> (r: bool)
        ensures
            r == (self@ == other@),
    {
        let n = self.items.len();
        if n != other.items.len() {
            proof {
                assert(self@ != other@);
            }
            return false;
        }
        let mut i: usize = 0;
        while i < n
            invariant
                i <= n,
                n == self@.len(),
                n == other@.len(),
                forall|k: int| 0 <= k < i ==> self@[k] == other@[k],
            decreases n - i,
        {
            if self.items[i] != other.items[i] {
                return false;
            }
            i = i + 1;
        }
        proof {
            assert(self@ =~= other@);
        }
        true
    }
}

/// Which side of the sentence pair a word index belongs to.
#[derive(Clone, Copy, PartialEq, Eq, Structural, Debug)]
pub enum Side {
    Original,
    Translation,
}

/// A committed pairing: a non-empty set of source-word indices linked to a
/// non-empty set of translation-word indices. `start_position` is the least
/// source index and is the ordering key.
#[derive(Debug)]
pub struct Association {
    pub start_position: usize,
    pub original: IndexSet,
    pub translation: IndexSet,
}

/// Mathematical model of an association.
#[verifier::ext_equal]
pub ghost struct AssocModel {
    pub start_position: usize,
    pub original: Seq<usize>,
    pub translation: Seq<usize>,
}

impl View for Association {
    type V = AssocModel;

    open spec fn view(&self) -> AssocModel {
        AssocModel {
            start_position: self.start_position,
            original: self.original@,
            translation: self.translation@,
        }
    }
}

/// Well-formed association: both index sets non-empty and strictly sorted,
/// and the ordering key equal to the least source index.
pub open spec fn assoc_wf(a: AssocModel) -> bool {
    &&& a.original.len() > 0
    &&& a.translation.len() > 0
    &&& sorted_strict(a.original)
    &&& sorted_strict(a.translation)
    &&& a.start_position == a.original[0]
}

/// The word indices of `a` on the given side.
pub open spec fn side_indices(a: AssocModel, side: Side) -> Seq<usize> {
    match side {
        Side::Original => a.original,
        Side::Translation => a.translation,
    }
}

/// Whether two associations hold the same index sets.
pub open spec fn assoc_matches(a: AssocModel, o: Seq<usize>, t: Seq<usize>) -> bool {
    a.original == o && a.translation == t
}

/// Whether some association in `m` holds exactly these index sets.
pub open spec fn contains_assoc(m: Seq<AssocModel>, o: Seq<usize>, t: Seq<usize>) -> bool {
    exists|i: int| 0 <= i < m.len() && assoc_matches(#[trigger] m[i], o, t)
}

impl Association {
    /// Builds an association; the ordering key is the least source index.
    pub fn new(original: IndexSet, translation: IndexSet) -> (r: Association)
        requires
            original.wf(),
            translation.wf(),
            original@.len() > 0,
            translation@.len() > 0,
        ensures
            r@.start_position == original@[0],
            r@.original == original@,
            r@.translation == translation@,
            assoc_wf(r@),
    {
        let start_position = original.get(0);
        Association { start_position, original, translation }
    }

    /// An owned copy.
    pub fn duplicate(&self) -> (r: Association)
        ensures
            r@ == self@,
    {
        Association {
            start_position: self.start_position,
            original: self.original.duplicate(),
            translation: self.translation.duplicate(),
        }
    }
}

/// The ordinal of the first association in `m` whose side set holds
/// `index`, or -1 when none does.
pub open spec fn lookup_idx(m: Seq<AssocModel>, index: usize, side: Side) -> int
    decreases m.len(),
{
    if m.len() == 0 {
        -1
    } else if side_indices(m[0], side).contains(index) {
        0
    } else {
        let r = lookup_idx(m.drop_first(), index, side);
        if r == -1 {
            -1
        } else {
            r + 1
        }
    }
}

/// A scan that stops at the first hit computes `lookup_idx`.
pub proof fn lemma_lookup_idx_found(m: Seq<AssocModel>, index: usize, side: Side, p: int)
    requires
        0 <= p < m.len(),
        side_indices(m[p], side).contains(index),
        forall|k: int| 0 <= k < p ==> !side_indices(#[trigger] m[k], side).contains(index),
    ensures
        lookup_idx(m, index, side) == p,
    decreases p,
{
    if p > 0 {
        let d = m.drop_first();
        assert(d[p - 1] == m[p]);
        assert forall|k: int|
            0 <= k < p - 1 implies !side_indices(#[trigger] d[k], side).contains(index) by {
            assert(d[k] == m[k + 1]);
        }
        lemma_lookup_idx_found(d, index, side, p - 1);
    }
}

/// A scan that finds nothing means `lookup_idx` is -1.
pub proof fn lemma_lookup_idx_none(m: Seq<AssocModel>, index: usize, side: Side)
    requires
        forall|k: int| 0 <= k < m.len() ==> !side_indices(#[trigger] m[k], side).contains(index),
    ensures
        lookup_idx(m, index, side) == -1,
    decreases m.len(),
{
    if m.len() > 0 {
        let d = m.drop_first();
        assert forall|k: int|
            0 <= k < d.len() implies !side_indices(#[trigger] d[k], side).contains(index) by {
            assert(d[k] == m[k + 1]);
        }
        lemma_lookup_idx_none(d, index, side);
    }
}

/// The position where a new association with ordering key `start` goes:
/// after every association whose key is not above it.
pub open spec fn insert_pos(m: Seq<AssocModel>, start: usize) -> int
    decreases m.len(),
{
    if m.len() == 0 {
        0
    } else if m[0].start_position <= start {
        1 + insert_pos(m.drop_first(), start)
    } else {
        0
    }
}

/// The insertion position lies inside the store.
pub proof fn lemma_insert_pos_bounds(m: Seq<AssocModel>, start: usize)
    ensures
        0 <= insert_pos(m, start) <= m.len(),
    decreases m.len(),
{
    if m.len() > 0 && m[0].start_position <= start {
        lemma_insert_pos_bounds(m.drop_first(), start);
    }
}

/// A scan over a store sorted by ordering key computes `insert_pos`.
pub proof fn lemma_insert_pos_at(m: Seq<AssocModel>, start: usize, p: int)
    requires
        0 <= p <= m.len(),
        forall|k: int| 0 <= k < p ==> (#[trigger] m[k]).start_position <= start,
        p < m.len() ==> m[p].start_position > start,
        forall|i: int, j: int|
            0 <= i < j < m.len() ==> (#[trigger] m[i]).start_position <= (
            #[trigger] m[j]).start_position,
    ensures
        insert_pos(m, start) == p,
    decreases p,
{
    if p == 0 {
    } else {
        let d = m.drop_first();
        assert forall|k: int| 0 <= k < p - 1 implies (#[trigger] d[k]).start_position
            <= start by {
            assert(d[k] == m[k + 1]);
        }
        assert(p - 1 < d.len() ==> d[p - 1].start_position > start);
        assert forall|i: int, j: int|
            0 <= i < j < d.len() implies (#[trigger] d[i]).start_position <= (
        #[trigger] d[j]).start_position by {
            assert(d[i] == m[i + 1] && d[j] == m[j + 1]);
        }
        lemma_insert_pos_at(d, start, p - 1);
    }
}

/// What inserting index sets into a store yields: unchanged when a
/// value-equal association is already committed, else the new association
/// placed after every association whose ordering key is not above its own.
pub open spec fn store_insert_spec(m: Seq<AssocModel>, o: Seq<usize>, t: Seq<usize>) -> Seq<
    AssocModel,
>
    recommends
        o.len() > 0,
{
    if contains_assoc(m, o, t) {
        m
    } else {
        m.insert(
            insert_pos(m, o[0]),
            AssocModel { start_position: o[0], original: o, translation: t },
        )
    }
}

/// Inserting the same index sets twice yields what inserting them once
/// yields: insertion is idempotent.
pub proof fn lemma_insert_idempotent(m: Seq<AssocModel>, o: Seq<usize>, t: Seq<usize>)
    requires
        o.len() > 0,
    ensures
        store_insert_spec(store_insert_spec(m, o, t), o, t) == store_insert_spec(m, o, t),
{
    let m1 = store_insert_spec(m, o, t);
    if !contains_assoc(m, o, t) {
        lemma_insert_pos_bounds(m, o[0]);
        let p = insert_pos(m, o[0]);
        let a = AssocModel { start_position: o[0], original: o, translation: t };
        m.insert_ensures(p, a);
        assert(assoc_matches(m1[p], o, t));
        assert(contains_assoc(m1, o, t));
    }
}

/// Well-formed store: every association well-formed, ordered by
/// `start_position`, and no two value-equal.
pub open spec fn store_wf(m: Seq<AssocModel>) -> bool {
    &&& forall|i: int| 0 <= i < m.len() ==> assoc_wf(#[trigger] m[i])
    &&& forall|i: int, j: int|
        0 <= i < j < m.len() ==> (#[trigger] m[i]).start_position <= (
        #[trigger] m[j]).start_position
    &&& forall|i: int, j: int|
        0 <= i < j < m.len() ==> !assoc_matches(#[trigger] m[i], (#[trigger] m[j]).original, m[j].translation)
}

/// The ordered collection of committed associations for one
/// (article, paragraph) pair.
#[derive(Debug)]
pub struct AlignmentStore {
    pub items: Vec<Association>,
}

impl View for AlignmentStore {
    type V = Seq<AssocModel>;

    open spec fn view(&self) -> Seq<AssocModel> {
        self.items@.map_values(|a: Association| a@)
    }
}

impl AlignmentStore {
    /// Well-formed store.
    pub open spec fn wf(&self) -> bool {
        store_wf(self@)
    }

    /// An empty store.
    pub fn new() -> (r: Self)
        ensures
            r@ == Seq::<AssocModel>::empty(),
            r.wf(),
    {
        let r = AlignmentStore { items: Vec::new() };
        proof {
            assert(r@ =~= Seq::<AssocModel>::empty());
        }
        r
    }

    /// How many associations are committed.
    pub fn len(&self) -> (r: usize)
        ensures
            r == self@.len(),
    {
        self.items.len()
    }

    /// The association at the given ordinal.
    pub fn get(&self, ordinal: usize) -> (r: &Association)
        requires
            ordinal < self@.len(),
        ensures
            r@ == self@[ordinal as int],
    {
        &self.items[ordinal]
    }

    /// The ordinal of the first association (in ascending `start_position`
    /// order) whose side set holds `index`, if any.
    pub fn lookup(&self, index: usize, side: Side) -> (r: Option<usize>)
        ensures
            ({
                let li = lookup_idx(self@, index, side);
                match r {
                    Some(u) => li == u as int,
                    None => li == -1,
                }
            }),
    {
        let n = self.items.len();
        let mut i: usize = 0;
        while i < n
            invariant
                i <= n,
                n == self@.len(),
                n == self.items@.len(),
                forall|k: int|
                    0 <= k < i ==> !side_indices(#[trigger] self@[k], side).contains(index),
            decreases n - i,
        {
            let hit = match side {
                Side::Original => self.items[i].original.contains(index),
                Side::Translation => self.items[i].translation.contains(index),
            };
            proof {
                assert(self@[i as int] == self.items@[i as int]@);
            }
            if hit {
                proof {
                    lemma_lookup_idx_found(self@, index, side, i as int);
                }
                return Some(i);
            }
            i = i + 1;
        }
        proof {
            lemma_lookup_idx_none(self@, index, side);
        }
        None
    }

    /// Commits the pairing of these index sets. Requires both non-empty; a
    /// value-equal association already in the store makes this a no-op,
    /// otherwise the association is inserted in `start_position` order.
    pub fn insert(&mut self, original: &IndexSet, translation: &IndexSet)
        requires
            old(self).wf(),
            original.wf(),
            translation.wf(),
            original@.len() > 0,
            translation@.len() > 0,
        ensures
            final(self).wf(),
            final(self)@ == store_insert_spec(old(self)@, original@, translation@),
    {
        let n = self.items.len();
        let mut i: usize = 0;
        while i < n
            invariant
                i <= n,
                self@ == old(self)@,
                old(self).wf(),
                n == self@.len(),
                n == self.items@.len(),
                forall|k: int|
                    0 <= k < i ==> !assoc_matches(#[trigger] self@[k], original@, translation@),
            decreases n - i,
        {
            let same = self.items[i].original.equals(original) && self.items[i].translation.equals(
                translation,
            );
            proof {
                assert(self@[i as int] == self.items@[i as int]@);
            }
            if same {
                proof {
                    assert(assoc_matches(self@[i as int], original@, translation@));
                    assert(contains_assoc(self@, original@, translation@));
                    assert forall|k: int| 0 <= k < self@.len() implies assoc_wf(
                        #[trigger] self@[k],
                    ) by {
                        assert(store_wf(old(self)@));
                        assert(assoc_wf(old(self)@[k]));
                        assert(self@[k] == old(self)@[k]);
                    }
                }
                return ;
            }
            i = i + 1;
        }
        proof {
            assert(!contains_assoc(self@, original@, translation@));
        }
        let start = original.get(0);
        let mut p: usize = 0;
        while p < n && self.items[p].start_position <= start
            invariant
                p <= n,
                self@ == old(self)@,
                n == self@.len(),
                n == self.items@.len(),
                forall|k: int| 0 <= k < p ==> (#[trigger] self@[k]).start_position <= start,
            decreases n - p,
        {
            proof {
                assert(self@[p as int] == self.items@[p as int]@);
            }
            p = p + 1;
        }
        proof {
            if p < n {
                assert(self@[p as int] == self.items@[p as int]@);
            }
            lemma_insert_pos_at(self@, start, p as int);
        }
        let assoc = Association::new(original.duplicate(), translation.duplicate());
        let ghost m = self@;
        let ghost a = assoc@;
        self.items.insert(p, assoc);
        proof {
            assert forall|k: int| 0 <= k < self@.len() implies #[trigger] self@[k] == m.insert(
                p as int,
                a,
            )[k] by {
                m.insert_ensures(p as int, a);
                if k < p {
                    assert(self.items@[k] == old(self).items@[k]);
                    assert(m[k] == old(self).items@[k]@);
                } else if k == p {
                } else {
                    assert(self.items@[k] == old(self).items@[k - 1]);
                    assert(m[k - 1] == old(self).items@[k - 1]@);
                }
            }
            assert(self@ =~= m.insert(p as int, a));
            m.insert_ensures(p as int, a);
            let m2 = self@;
            assert forall|x: int, y: int|
                0 <= x < y < m2.len() implies (#[trigger] m2[x]).start_position <= (
            #[trigger] m2[y]).start_position by {
                let sx: int = if x < p { x } else { x - 1 };
                let sy: int = if y < p { y } else { y - 1 };
                if x == p {
                    assert(m[sy].start_position > start || sy >= p);
                    if m[sy].start_position <= start {
                        assert(sy >= p);
                        assert(m2[y] == m[sy]);
                    }
                } else if y == p {
                    assert(m2[x] == m[sx]);
                    assert(sx < p);
                } else {
                    assert(m2[x] == m[sx] && m2[y] == m[sy]);
                }
            }
            assert forall|x: int, y: int|
                0 <= x < y < m2.len() implies !assoc_matches(
                #[trigger] m2[x],
                (#[trigger] m2[y]).original,
                m2[y].translation,
            ) by {
                let sx: int = if x < p { x } else { x - 1 };
                let sy: int = if y < p { y } else { y - 1 };
                if x == p {
                    assert(m2[y] == m[sy]);
                    assert(!assoc_matches(m[sy], original@, translation@));
                } else if y == p {
                    assert(m2[x] == m[sx]);
                    assert(!assoc_matches(m[sx], original@, translation@));
                } else {
                    assert(m2[x] == m[sx] && m2[y] == m[sy]);
                }
            }
            assert forall|k: int| 0 <= k < m2.len() implies assoc_wf(#[trigger] m2[k]) by {
                if k != p {
                    let sk: int = if k < p { k } else { k - 1 };
                    assert(m2[k] == m[sk]);
                }
            }
        }
    }

    /// Removes the association at the given ordinal. The caller guarantees
    /// the ordinal is current, as derived from a prior lookup.
    pub fn remove_at(&mut self, ordinal: usize)
        requires
            old(self).wf(),
            ordinal < old(self)@.len(),
        ensures
            final(self).wf(),
            final(self)@ == old(self)@.remove(ordinal as int),
    {
        let ghost m = self@;
        self.items.remove(ordinal);
        proof {
            m.remove_ensures(ordinal as int);
            assert forall|k: int| 0 <= k < self@.len() implies #[trigger] self@[k] == m.remove(
                ordinal as int,
            )[k] by {
                if k < ordinal {
                    assert(self.items@[k] == old(self).items@[k]);
                    assert(m[k] == old(self).items@[k]@);
                } else {
                    assert(self.items@[k] == old(self).items@[k + 1]);
                    assert(m[k + 1] == old(self).items@[k + 1]@);
                }
            }
            assert(self@ =~= m.remove(ordinal as int));
            let m2 = self@;
            assert forall|x: int, y: int|
                0 <= x < y < m2.len() implies (#[trigger] m2[x]).start_position <= (
            #[trigger] m2[y]).start_position && !assoc_matches(
                m2[x],
                m2[y].original,
                m2[y].translation,
            ) by {
                let sx: int = if x < ordinal { x } else { x + 1 };
                let sy: int = if y < ordinal { y } else { y + 1 };
                assert(m2[x] == m[sx] && m2[y] == m[sy]);
            }
            assert forall|k: int| 0 <= k < m2.len() implies assoc_wf(#[trigger] m2[k]) by {
                let sk: int = if k < ordinal { k } else { k + 1 };
                assert(m2[k] == m[sk]);
            }
        }
    }

    /// An owned copy.
    pub fn duplicate(&self) -> (r: Self)
        ensures
            r@ == self@,
    {
        let n = self.items.len();
        let mut items: Vec<Association> = Vec::new();
        let mut i: usize = 0;
        while i < n
            invariant
                i <= n,
                n == self.items@.len(),
                items@.len() == i,
                forall|k: int| 0 <= k < i ==> (#[trigger] items@[k])@ == self.items@[k]@,
            decreases n - i,
        {
            items.push(self.items[i].duplicate());
            i = i + 1;
        }
        let r = AlignmentStore { items };
        proof {
            assert forall|k: int| 0 <= k < n implies #[trigger] r@[k] == self@[k] by {
                assert(r@[k] == r.items@[k]@);
                assert(self@[k] == self.items@[k]@);
            }
            assert(r@ =~= self@);
        }
        r
    }
}

} // verus!
