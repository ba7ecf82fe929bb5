//! Similarity of two texts, measured on the identifiers they hold.
//!
//! A text stands for the multiset of its identifier tokens: the maximal runs of ASCII
//! letters, digits and underscores, each counted as often as it occurs. Two measures
//! compare such multisets, and both are exact fractions.

use crate::text::slice_to_vec;
use crate::text::bytes_eq;
use std::ops::Range;
use vstd::multiset::Multiset;
use vstd::prelude::*;

verus! {

/// Whether `b` can be part of an identifier: an ASCII letter, a digit or an underscore.
pub open spec fn spec_is_identifier_byte(b: u8) -> bool {
    (97 <= b <= 122) || (65 <= b <= 90) || (48 <= b <= 57) || b == 95
}

/// End of the run of identifier bytes that starts at `i` (which is `i` itself where no
/// identifier byte stands there).
pub open spec fn spec_run_end(text: Seq<u8>, i: int) -> int
    decreases text.len() - i,
{
    if 0 <= i < text.len() && spec_is_identifier_byte(text[i]) {
        spec_run_end(text, i + 1)
    } else {
        i
    }
}

/// The identifier tokens of `text` from position `i` on, in the order they occur.
/// `i` is taken to stand at the start of a run or outside one.
pub open spec fn spec_tokens_from(text: Seq<u8>, i: int) -> Seq<Seq<u8>>
    decreases text.len() - i,
    via spec_tokens_from_terminates
{
    if i < 0 || i >= text.len() {
        Seq::empty()
    } else if !spec_is_identifier_byte(text[i]) {
        spec_tokens_from(text, i + 1)
    } else {
        let end = spec_run_end(text, i + 1);
        seq![text.subrange(i, end)] + spec_tokens_from(text, end)
    }
}

#[via_fn]
proof fn spec_tokens_from_terminates(text: Seq<u8>, i: int) {
    if 0 <= i < text.len() {
        lemma_run_end_bounds(text, i + 1);
    }
}

/// The identifier tokens of `text`, in the order they occur.
pub open spec fn spec_tokens(text: Seq<u8>) -> Seq<Seq<u8>> {
    spec_tokens_from(text, 0)
}

/// The identifier tokens of `text` as a multiset: each token with the number of times
/// it occurs.
pub open spec fn spec_occurrences(text: Seq<u8>) -> Multiset<Seq<u8>> {
    spec_tokens(text).to_multiset()
}

pub proof fn lemma_run_end_bounds(text: Seq<u8>, i: int)
    requires
        0 <= i <= text.len(),
    ensures
        i <= spec_run_end(text, i) <= text.len(),
    decreases text.len() - i,
{
    if i < text.len() && spec_is_identifier_byte(text[i]) {
        lemma_run_end_bounds(text, i + 1);
    }
}

/// An exact fraction. A fraction with denominator 0 stands for the value 0.
#[derive(Clone, Copy, Debug, PartialEq, Eq)]
pub struct Ratio {
    pub numerator: u128,
    pub denominator: u128,
}

impl Ratio {
    /// The value is 0: nothing is counted, or nothing could be.
    pub open spec fn spec_is_zero(self) -> bool {
        self.numerator == 0 || self.denominator == 0
    }

    /// The value is 1.
    pub open spec fn spec_is_one(self) -> bool {
        self.denominator > 0 && self.numerator == self.denominator
    }

    /// Whether the value is 0.
    pub fn is_zero(&self) -> (zero: bool)
        ensures
            zero == self.spec_is_zero(),
    {
        self.numerator == 0 || self.denominator == 0
    }

    /// Whether the value is 1.
    pub fn is_one(&self) -> (one: bool)
        ensures
            one == self.spec_is_one(),
    {
        self.denominator > 0 && self.numerator == self.denominator
    }
}

/// The identifier tokens of a text, each with the number of times it occurs.
pub struct IdentifierOccurrences {
    keys: Vec<Vec<u8>>,
    counts: Vec<usize>,
    total_count: usize,
    tokens: Ghost<Seq<Seq<u8>>>,
}

impl View for IdentifierOccurrences {
    type V = Multiset<Seq<u8>>;

    closed spec fn view(&self) -> Multiset<Seq<u8>> {
        self.tokens@.to_multiset()
    }
}

impl IdentifierOccurrences {
    /// The distinct tokens, in the order in which each first occurred.
    pub closed spec fn spec_keys(&self) -> Seq<Seq<u8>> {
        Seq::new(self.keys@.len(), |i: int| self.keys@[i]@)
    }

    /// The table is consistent: every distinct token is listed once, with the number of
    /// its occurrences.
    pub closed spec fn wf(&self) -> bool {
        &&& self.keys@.len() == self.counts@.len()
        &&& self.total_count == self.tokens@.len()
        &&& self.spec_keys().no_duplicates()
        &&& forall|i: int|
            0 <= i < self.keys@.len() ==> self@.count(#[trigger] self.spec_keys()[i])
                == self.counts@[i]
        &&& forall|i: int| 0 <= i < self.counts@.len() ==> #[trigger] self.counts@[i] >= 1
        &&& forall|k: Seq<u8>| #[trigger] self@.count(k) > 0 ==> self.spec_keys().contains(k)
    }

    /// In a consistent table the listed tokens are exactly those that occur, and their
    /// number is the number of distinct tokens.
    proof fn lemma_keys_are_dom(&self)
        requires
            self.wf(),
        ensures
            self.spec_keys().to_set() == self@.dom(),
            self@.dom().finite(),
            self@.dom().len() == self.spec_keys().len(),
            self@.len() == self.total_count,
    {
        broadcast use vstd::seq_lib::group_to_multiset_ensures;

        let keys = self.spec_keys();
        assert forall|k: Seq<u8>| keys.to_set().contains(k) == self@.dom().contains(k) by {
            if keys.contains(k) {
                let i = choose|i: int| 0 <= i < keys.len() && keys[i] == k;
                assert(self@.count(keys[i]) == self.counts@[i]);
                assert(self.counts@[i] >= 1);
            }
        }
        assert(keys.to_set() =~= self@.dom());
        vstd::seq_lib::seq_to_set_is_finite(keys);
        keys.unique_seq_to_set();
    }

    /// A table with no token in it.
    pub fn new() -> (occurrences: Self)
        ensures
            occurrences.wf(),
            occurrences@ == Multiset::<Seq<u8>>::empty(),
    {
        Self::empty()
    }

    fn empty() -> (occurrences: Self)
        ensures
            occurrences.wf(),
            occurrences@ == Multiset::<Seq<u8>>::empty(),
            occurrences.tokens@ == Seq::<Seq<u8>>::empty(),
    {
        let occurrences = IdentifierOccurrences {
            keys: Vec::new(),
            counts: Vec::new(),
            total_count: 0,
            tokens: Ghost(Seq::empty()),
        };
        proof {
            broadcast use vstd::seq_lib::group_to_multiset_ensures;

            assert(occurrences.tokens@.to_multiset() =~= Multiset::<Seq<u8>>::empty());
        }
        occurrences
    }

    /// Number of tokens, each occurrence counted.
    pub fn total_count(&self) -> (n: usize)
        requires
            self.wf(),
        ensures
            n == self@.len(),
    {
        proof {
            self.lemma_keys_are_dom();
        }
        self.total_count
    }

    /// Number of distinct tokens.
    pub fn distinct_count(&self) -> (n: usize)
        requires
            self.wf(),
        ensures
            n == self@.dom().len(),
    {
        proof {
            self.lemma_keys_are_dom();
        }
        self.keys.len()
    }

    /// Where `token` is listed, if it occurs.
    fn find(&self, token: &[u8]) -> (found: Option<usize>)
        requires
            self.wf(),
        ensures
            match found {
                Some(i) => i < self.keys@.len() && self.spec_keys()[i as int] == token@,
                None => self@.count(token@) == 0,
            },
    {
        let mut i: usize = 0;
        while i < self.keys.len()
            invariant
                i <= self.keys@.len(),
                forall|j: int| 0 <= j < i ==> self.spec_keys()[j] != token@,
            decreases self.keys@.len() - i,
        {
            if bytes_eq(self.keys[i].as_slice(), token) {
                return Some(i);
            }
            i = i + 1;
        }
        proof {
            if self@.count(token@) > 0 {
                assert(self.spec_keys().contains(token@));
            }
        }
        None
    }

    /// Number of times `token` occurs.
    pub fn count(&self, token: &[u8]) -> (n: usize)
        requires
            self.wf(),
        ensures
            n == self@.count(token@),
    {
        match self.find(token) {
            Some(i) => {
                assert(self@.count(self.spec_keys()[i as int]) == self.counts@[i as int]);
                self.counts[i]
            },
            None => 0,
        }
    }

    /// Counts one more occurrence of `token`.
    pub fn insert(&mut self, token: Vec<u8>)
        requires
            old(self).wf(),
            old(self)@.len() < usize::MAX,
        ensures
            final(self).wf(),
            final(self)@ == old(self)@.insert(token@),
    {
        self.insert_token(token)
    }

    fn insert_token(&mut self, token: Vec<u8>)
        requires
            old(self).wf(),
            old(self)@.len() < usize::MAX,
        ensures
            final(self).wf(),
            final(self)@ == old(self)@.insert(token@),
            final(self).tokens@ == old(self).tokens@.push(token@),
    {
        proof {
            self.lemma_keys_are_dom();
            vstd::seq_lib::to_multiset_build(self.tokens@, token@);
        }
        let found = self.find(token.as_slice());
        let ghost before = *self;
        match found {
            Some(i) => {
                proof {
                    assert(self@.count(self.spec_keys()[i as int]) == self.counts@[i as int]);
                    vstd::multiset::axiom_count_le_len(self@, token@);
                }
                let c: usize = self.counts[i];
                self.counts.set(i, c + 1);
                self.total_count = self.total_count + 1;
                self.tokens = Ghost(self.tokens@.push(token@));
                proof {
                    assert(self.spec_keys() == before.spec_keys());
                    assert(self@ == before@.insert(token@));
                    assert forall|j: int| 0 <= j < self.keys@.len() implies self@.count(
                        #[trigger] self.spec_keys()[j],
                    ) == self.counts@[j] by {
                        assert(before@.count(before.spec_keys()[j]) == before.counts@[j]);
                        if j != i {
                            assert(before.spec_keys()[j] != before.spec_keys()[i as int]);
                        }
                    }
                    assert forall|j: int| 0 <= j < self.counts@.len() implies #[trigger] self.counts@[j]
                        >= 1 by {
                        assert(before.counts@[j] >= 1);
                    }
                    assert forall|k: Seq<u8>| #[trigger] self@.count(k) > 0 implies self.spec_keys().contains(
                        k,
                    ) by {
                        if k != token@ {
                            assert(before@.count(k) > 0);
                        } else {
                            assert(self.spec_keys()[i as int] == k);
                        }
                    }
                }
            },
            None => {
                self.keys.push(token);
                self.counts.push(1);
                self.total_count = self.total_count + 1;
                self.tokens = Ghost(self.tokens@.push(token@));
                proof {
                    let n = before.keys@.len() as int;
                    assert(self.spec_keys() == before.spec_keys().push(token@));
                    assert(self@ == before@.insert(token@));
                    assert forall|a: int, b: int|
                        0 <= a < self.spec_keys().len() && 0 <= b < self.spec_keys().len() && a
                            != b implies self.spec_keys()[a] != self.spec_keys()[b] by {
                        if a < n && b < n {
                            assert(before.spec_keys()[a] != before.spec_keys()[b]);
                        } else if a < n {
                            assert(before@.count(before.spec_keys()[a]) == before.counts@[a]);
                            assert(before.counts@[a] >= 1);
                        } else if b < n {
                            assert(before@.count(before.spec_keys()[b]) == before.counts@[b]);
                            assert(before.counts@[b] >= 1);
                        }
                    }
                    assert forall|j: int| 0 <= j < self.keys@.len() implies self@.count(
                        #[trigger] self.spec_keys()[j],
                    ) == self.counts@[j] by {
                        if j < n {
                            assert(before@.count(before.spec_keys()[j]) == before.counts@[j]);
                            assert(before.counts@[j] >= 1);
                        }
                    }
                    assert forall|j: int| 0 <= j < self.counts@.len() implies #[trigger] self.counts@[j]
                        >= 1 by {
                        if j < n {
                            assert(before.counts@[j] >= 1);
                        }
                    }
                    assert forall|k: Seq<u8>| #[trigger] self@.count(k) > 0 implies self.spec_keys().contains(
                        k,
                    ) by {
                        if k != token@ {
                            assert(before@.count(k) > 0);
                            let j = choose|j: int|
                                0 <= j < before.spec_keys().len() && before.spec_keys()[j] == k;
                            assert(self.spec_keys()[j] == k);
                        } else {
                            assert(self.spec_keys()[n] == k);
                        }
                    }
                }
            },
        }
    }

    /// The identifier tokens of `text`.
    pub fn within_string(text: &[u8]) -> (occurrences: Self)
        ensures
            occurrences.wf(),
            occurrences@ == spec_occurrences(text@),
    {
        let mut occurrences = Self::empty();
        let mut i: usize = 0;
        proof {
            assert(occurrences.tokens@ + spec_tokens_from(text@, 0) == spec_tokens(text@));
        }
        while i < text.len()
            invariant
                i <= text.len(),
                occurrences.wf(),
                occurrences.tokens@ + spec_tokens_from(text@, i as int) == spec_tokens(text@),
                occurrences.tokens@.len() <= i,
            decreases text.len() - i,
        {
            if !is_identifier_byte(text[i]) {
                i = i + 1;
            } else {
                let start: usize = i;
                i = i + 1;
                while i < text.len() && is_identifier_byte(text[i])
                    invariant
                        start < i <= text.len(),
                        spec_run_end(text@, i as int) == spec_run_end(text@, start + 1),
                    decreases text.len() - i,
                {
                    i = i + 1;
                }
                let token = slice_to_vec(text, &Range { start, end: i });
                proof {
                    occurrences.lemma_keys_are_dom();
                    let rest = spec_tokens_from(text@, i as int);
                    assert(spec_tokens_from(text@, start as int) == seq![token@] + rest);
                    assert(occurrences.tokens@.push(token@) + rest == occurrences.tokens@ + (
                    seq![token@] + rest));
                }
                occurrences.insert_token(token);
            }
        }
        proof {
            assert(occurrences.tokens@ + Seq::<Seq<u8>>::empty() == occurrences.tokens@);
        }
        occurrences
    }
}

/// Numerator of the Jaccard similarity: the number of distinct tokens that occur on
/// both sides.
pub open spec fn spec_jaccard_numerator(a: Multiset<Seq<u8>>, b: Multiset<Seq<u8>>) -> nat {
    a.dom().intersect(b.dom()).len()
}

/// Denominator of the Jaccard similarity: the number of distinct tokens that occur on
/// either side.
pub open spec fn spec_jaccard_denominator(a: Multiset<Seq<u8>>, b: Multiset<Seq<u8>>) -> nat {
    a.dom().union(b.dom()).len()
}

/// Numerator of the weighted overlap coefficient: for every token the smaller of its two
/// counts, summed up.
pub open spec fn spec_weighted_overlap_numerator(
    a: Multiset<Seq<u8>>,
    b: Multiset<Seq<u8>>,
) -> nat {
    a.intersection_with(b).len()
}

/// Denominator of the weighted overlap coefficient: the number of tokens on the smaller
/// side, each occurrence counted.
pub open spec fn spec_weighted_overlap_denominator(
    a: Multiset<Seq<u8>>,
    b: Multiset<Seq<u8>>,
) -> nat {
    if a.len() <= b.len() {
        a.len()
    } else {
        b.len()
    }
}

/// Whether `ratio` is the Jaccard similarity of `a` and `b`, each part the count itself.
/// The similarity is at most 1. Each side has at most `usize::MAX` distinct tokens, so
/// the two together have at most twice as many.
pub open spec fn spec_is_jaccard(ratio: Ratio, a: Multiset<Seq<u8>>, b: Multiset<Seq<u8>>) -> bool {
    &&& ratio.numerator == spec_jaccard_numerator(a, b)
    &&& ratio.denominator == spec_jaccard_denominator(a, b)
    &&& ratio.numerator <= usize::MAX
    &&& ratio.numerator <= ratio.denominator <= 2 * usize::MAX
}

/// Whether `ratio` is the weighted overlap coefficient of `a` and `b`, each part the
/// count itself. The coefficient is at most 1, and its parts are counts of tokens of
/// one side.
pub open spec fn spec_is_weighted_overlap(
    ratio: Ratio,
    a: Multiset<Seq<u8>>,
    b: Multiset<Seq<u8>>,
) -> bool {
    &&& ratio.numerator == spec_weighted_overlap_numerator(a, b)
    &&& ratio.denominator == spec_weighted_overlap_denominator(a, b)
    &&& ratio.numerator <= ratio.denominator <= usize::MAX
}

/// The part of `m` whose tokens stand among the first `n` of `keys`.
pub open spec fn spec_restrict(m: Multiset<Seq<u8>>, keys: Seq<Seq<u8>>, n: int) -> Multiset<
    Seq<u8>,
> {
    m.filter(|v: Seq<u8>| keys.take(n).contains(v))
}

/// A multiset in which only `k` occurs has as many elements as `k` has occurrences.
pub proof fn lemma_single_token_len(m: Multiset<Seq<u8>>, k: Seq<u8>)
    requires
        forall|v: Seq<u8>| v != k ==> m.count(v) == 0,
    ensures
        m.len() == m.count(k),
    decreases m.count(k),
{
    broadcast use vstd::multiset::group_multiset_axioms;

    if m.count(k) == 0 {
        assert(m =~= Multiset::<Seq<u8>>::empty());
    } else {
        let rest = m.remove(k);
        assert(rest.count(k) == m.count(k) - 1);
        assert forall|v: Seq<u8>| v != k implies rest.count(v) == 0 by {
            assert(m.count(v) == 0);
        }
        lemma_single_token_len(rest, k);
        assert(m =~= rest.insert(k));
        vstd::multiset::lemma_insert_len(rest, k);
    }
}

/// What two multisets share is no larger than either of them.
pub proof fn lemma_intersection_len(a: Multiset<Seq<u8>>, b: Multiset<Seq<u8>>)
    ensures
        a.intersection_with(b).len() <= a.len(),
        a.intersection_with(b).len() <= b.len(),
{
    broadcast use vstd::multiset::group_multiset_axioms;

    let i = a.intersection_with(b);
    assert forall|v: Seq<u8>| i.count(v) <= a.count(v) && i.count(v) <= b.count(v) by {
        vstd::multiset::lemma_intersection_count(a, b, v);
    }
    assert(i.subset_of(a));
    assert(i.subset_of(b));
    vstd::multiset::axiom_len_sub(a, i);
    vstd::multiset::axiom_len_sub(b, i);
}

proof fn lemma_take_next_set(keys: Seq<Seq<u8>>, i: int)
    requires
        0 <= i < keys.len(),
    ensures
        keys.take(i + 1).to_set() == keys.take(i).to_set().insert(keys[i]),
        keys.no_duplicates() ==> !keys.take(i).to_set().contains(keys[i]),
        keys.take(i).to_set().finite(),
{
    let shorter = keys.take(i);
    let longer = keys.take(i + 1);
    assert(longer == shorter.push(keys[i]));
    assert forall|v: Seq<u8>| longer.to_set().contains(v) == shorter.to_set().insert(
        keys[i],
    ).contains(v) by {
        if longer.contains(v) {
            let j = choose|j: int| 0 <= j < longer.len() && longer[j] == v;
            if j < i {
                assert(shorter[j] == v);
            }
        }
        if shorter.contains(v) {
            let j = choose|j: int| 0 <= j < shorter.len() && shorter[j] == v;
            assert(longer[j] == v);
        }
        if v == keys[i] {
            assert(longer[i] == v);
        }
    }
    assert(longer.to_set() =~= shorter.to_set().insert(keys[i]));
    if keys.no_duplicates() && shorter.contains(keys[i]) {
        let j = choose|j: int| 0 <= j < shorter.len() && shorter[j] == keys[i];
        assert(keys[j] == keys[i]);
    }
    vstd::seq_lib::seq_to_set_is_finite(shorter);
}

/// Jaccard similarity of two token tables: the distinct tokens they share, over the
/// distinct tokens of both. How often a token occurs plays no part.
pub fn jaccard_similarity(a: &IdentifierOccurrences, b: &IdentifierOccurrences) -> (ratio: Ratio)
    requires
        a.wf(),
        b.wf(),
    ensures
        ratio.numerator == spec_jaccard_numerator(a@, b@),
        ratio.denominator == spec_jaccard_denominator(a@, b@),
        ratio.numerator <= usize::MAX,
        ratio.numerator <= ratio.denominator <= 2 * usize::MAX,
{
    proof {
        a.lemma_keys_are_dom();
        b.lemma_keys_are_dom();
    }
    let ghost keys = a.spec_keys();
    let ghost other = b@.dom();
    let mut shared: usize = 0;
    let mut i: usize = 0;
    proof {
        assert(keys.take(0).to_set().intersect(other) =~= Set::<Seq<u8>>::empty());
    }
    while i < a.keys.len()
        invariant
            i <= a.keys@.len(),
            a.wf(),
            b.wf(),
            keys == a.spec_keys(),
            other == b@.dom(),
            shared <= i,
            shared == keys.take(i as int).to_set().intersect(other).len(),
        decreases a.keys@.len() - i,
    {
        let found = b.find(a.keys[i].as_slice());
        proof {
            broadcast use vstd::set::group_set_axioms;

            lemma_take_next_set(keys, i as int);
            let before = keys.take(i as int).to_set();
            let k = keys[i as int];
            if found.is_some() {
                let j = found.unwrap() as int;
                assert(b@.count(b.spec_keys()[j]) == b.counts@[j]);
                assert(b.counts@[j] >= 1);
                assert(other.contains(k));
                assert(before.insert(k).intersect(other) =~= before.intersect(other).insert(k));
            } else {
                assert(!other.contains(k));
                assert(before.insert(k).intersect(other) =~= before.intersect(other));
            }
        }
        if found.is_some() {
            shared = shared + 1;
        }
        i = i + 1;
    }
    proof {
        assert(keys.take(keys.len() as int) == keys);
        vstd::set_lib::lemma_set_intersect_union_lens(a@.dom(), b@.dom());
        assert(a@.dom().intersect(b@.dom()) =~= b@.dom().intersect(a@.dom()));
        vstd::set_lib::lemma_len_intersect(b@.dom(), a@.dom());
    }
    let distinct: u128 = a.keys.len() as u128 + (b.keys.len() as u128 - shared as u128);
    Ratio { numerator: shared as u128, denominator: distinct }
}

/// Weighted overlap coefficient of two token tables: for every token the smaller of its
/// two counts, summed up, over the number of tokens on the smaller side.
pub fn weighted_overlap_coefficient(a: &IdentifierOccurrences, b: &IdentifierOccurrences) -> (ratio:
    Ratio)
    requires
        a.wf(),
        b.wf(),
    ensures
        ratio.numerator == spec_weighted_overlap_numerator(a@, b@),
        ratio.denominator == spec_weighted_overlap_denominator(a@, b@),
        ratio.numerator <= ratio.denominator <= usize::MAX,
{
    proof {
        a.lemma_keys_are_dom();
        b.lemma_keys_are_dom();
        lemma_intersection_len(a@, b@);
    }
    let ghost keys = a.spec_keys();
    let mut shared: usize = 0;
    let mut i: usize = 0;
    proof {
        broadcast use vstd::multiset::group_multiset_axioms;

        assert(spec_restrict(a@, keys, 0).intersection_with(b@) =~= Multiset::<Seq<u8>>::empty())
            by {
            assert forall|v: Seq<u8>|
                spec_restrict(a@, keys, 0).intersection_with(b@).count(v) == 0 by {
                vstd::multiset::lemma_intersection_count(spec_restrict(a@, keys, 0), b@, v);
            }
        }
    }
    while i < a.keys.len()
        invariant
            i <= a.keys@.len(),
            a.wf(),
            b.wf(),
            keys == a.spec_keys(),
            shared == spec_restrict(a@, keys, i as int).intersection_with(b@).len(),
        decreases a.keys@.len() - i,
    {
        let count_a: usize = a.counts[i];
        let count_b: usize = b.count(a.keys[i].as_slice());
        let smaller: usize = if count_a <= count_b { count_a } else { count_b };
        proof {
            broadcast use vstd::multiset::group_multiset_axioms;

            let k = keys[i as int];
            let before = spec_restrict(a@, keys, i as int);
            let after = spec_restrict(a@, keys, i + 1);
            let only = a@.filter(|v: Seq<u8>| v == k);
            lemma_take_next_set(keys, i as int);
            assert(a@.count(a.spec_keys()[i as int]) == a.counts@[i as int]);
            assert forall|v: Seq<u8>|
                after.intersection_with(b@).count(v) == before.intersection_with(b@).add(
                    only.intersection_with(b@),
                ).count(v) by {
                vstd::multiset::lemma_intersection_count(after, b@, v);
                vstd::multiset::lemma_intersection_count(before, b@, v);
                vstd::multiset::lemma_intersection_count(only, b@, v);
                assert(keys.take(i + 1).to_set().contains(v) == keys.take(i + 1).contains(v));
                assert(keys.take(i as int).to_set().contains(v) == keys.take(i as int).contains(
                    v,
                ));
            }
            assert(after.intersection_with(b@) =~= before.intersection_with(b@).add(
                only.intersection_with(b@),
            ));
            assert forall|v: Seq<u8>| v != k implies only.intersection_with(b@).count(v) == 0 by {
                vstd::multiset::lemma_intersection_count(only, b@, v);
            }
            vstd::multiset::lemma_intersection_count(only, b@, k);
            lemma_single_token_len(only.intersection_with(b@), k);
            lemma_intersection_len(after, b@);
            assert(after.len() <= a@.len()) by {
                assert(after.subset_of(a@));
                vstd::multiset::axiom_len_sub(a@, after);
            }
            a.lemma_keys_are_dom();
            assert(only.count(k) == count_a);
            assert(only.intersection_with(b@).len() == smaller);
            assert(after.intersection_with(b@).len() == shared + smaller);
        }
        shared = shared + smaller;
        i = i + 1;
    }
    proof {
        broadcast use vstd::multiset::group_multiset_axioms;

        assert(keys.take(keys.len() as int) == keys);
        assert(spec_restrict(a@, keys, keys.len() as int) =~= a@);
    }
    let total_a = a.total_count();
    let total_b = b.total_count();
    let smaller_total: usize = if total_a <= total_b { total_a } else { total_b };
    Ratio { numerator: shared as u128, denominator: smaller_total as u128 }
}

/// Jaccard similarity does not depend on the order of the two sides.
pub proof fn lemma_jaccard_symmetric(a: Multiset<Seq<u8>>, b: Multiset<Seq<u8>>)
    ensures
        spec_jaccard_numerator(a, b) == spec_jaccard_numerator(b, a),
        spec_jaccard_denominator(a, b) == spec_jaccard_denominator(b, a),
{
    assert(a.dom().intersect(b.dom()) =~= b.dom().intersect(a.dom()));
    assert(a.dom().union(b.dom()) =~= b.dom().union(a.dom()));
}

/// Jaccard similarity is at most 1.
pub proof fn lemma_jaccard_at_most_one(a: Multiset<Seq<u8>>, b: Multiset<Seq<u8>>)
    ensures
        spec_jaccard_numerator(a, b) <= spec_jaccard_denominator(a, b),
{
    broadcast use {vstd::multiset::group_multiset_axioms, vstd::set::group_set_axioms};

    assert(a.dom().finite() && b.dom().finite());
    assert(a.dom().intersect(b.dom()).subset_of(a.dom().union(b.dom())));
    vstd::set_lib::lemma_len_subset(a.dom().intersect(b.dom()), a.dom().union(b.dom()));
}

/// The Jaccard similarity of a side with itself is 1, where it holds any token.
pub proof fn lemma_jaccard_identical(a: Multiset<Seq<u8>>)
    requires
        a.len() > 0,
    ensures
        spec_jaccard_numerator(a, a) == spec_jaccard_denominator(a, a),
        spec_jaccard_denominator(a, a) > 0,
{
    broadcast use {vstd::multiset::group_multiset_axioms, vstd::set::group_set_axioms};

    assert(a.dom().intersect(a.dom()) =~= a.dom());
    assert(a.dom().union(a.dom()) =~= a.dom());
    let v = a.choose();
    assert(a.count(v) > 0);
    assert(a.dom().contains(v));
    assert(a.dom().finite());
    if a.dom().len() == 0 {
        assert(a.dom() =~= Set::<Seq<u8>>::empty());
    }
}

/// The Jaccard similarity of two sides that share no token is 0.
pub proof fn lemma_jaccard_disjoint(a: Multiset<Seq<u8>>, b: Multiset<Seq<u8>>)
    requires
        a.is_disjoint_from(b),
    ensures
        spec_jaccard_numerator(a, b) == 0,
{
    broadcast use vstd::set::group_set_axioms;

    assert forall|v: Seq<u8>| !a.dom().intersect(b.dom()).contains(v) by {
        assert(a.count(v) == 0 || b.count(v) == 0);
    }
    assert(a.dom().intersect(b.dom()) =~= Set::<Seq<u8>>::empty());
}

/// The weighted overlap coefficient does not depend on the order of the two sides.
pub proof fn lemma_weighted_overlap_symmetric(a: Multiset<Seq<u8>>, b: Multiset<Seq<u8>>)
    ensures
        spec_weighted_overlap_numerator(a, b) == spec_weighted_overlap_numerator(b, a),
        spec_weighted_overlap_denominator(a, b) == spec_weighted_overlap_denominator(b, a),
{
    broadcast use vstd::multiset::group_multiset_axioms;

    assert forall|v: Seq<u8>| a.intersection_with(b).count(v) == b.intersection_with(a).count(v) by {
        vstd::multiset::lemma_intersection_count(a, b, v);
        vstd::multiset::lemma_intersection_count(b, a, v);
    }
    assert(a.intersection_with(b) =~= b.intersection_with(a));
}

/// The weighted overlap coefficient is at most 1.
pub proof fn lemma_weighted_overlap_at_most_one(a: Multiset<Seq<u8>>, b: Multiset<Seq<u8>>)
    ensures
        spec_weighted_overlap_numerator(a, b) <= spec_weighted_overlap_denominator(a, b),
{
    lemma_intersection_len(a, b);
}

/// The weighted overlap coefficient of a side with itself is 1, where it holds any
/// token.
pub proof fn lemma_weighted_overlap_identical(a: Multiset<Seq<u8>>)
    requires
        a.len() > 0,
    ensures
        spec_weighted_overlap_numerator(a, a) == spec_weighted_overlap_denominator(a, a),
        spec_weighted_overlap_denominator(a, a) > 0,
{
    broadcast use vstd::multiset::group_multiset_axioms;

    assert forall|v: Seq<u8>| a.intersection_with(a).count(v) == a.count(v) by {
        vstd::multiset::lemma_intersection_count(a, a, v);
    }
    assert(a.intersection_with(a) =~= a);
}

/// Whether `b` can be part of an identifier.
pub fn is_identifier_byte(b: u8) -> (is_identifier: bool)
    ensures
        is_identifier == spec_is_identifier_byte(b),
{
    (97 <= b && b <= 122) || (65 <= b && b <= 90) || (48 <= b && b <= 57) || b == 95
}

} // verus!
