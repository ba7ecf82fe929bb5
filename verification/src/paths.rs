//! Fuzzy matching of paths: candidates are matched against a query, and the best
//! matches are kept, best first.

use crate::text::bytes_eq;
use nucleo::pattern::AtomKind;
use nucleo::pattern::CaseMatching;
use nucleo::pattern::Normalization;
use nucleo::pattern::Pattern;
use std::cmp::Ordering;
use vstd::prelude::*;
use vstd::string::StrSliceExecFns;
use vstd::string::StringExecFns;
use vstd::utf8::encode_utf8;

verus! {

/// A path that can be matched.
#[derive(Clone, Debug)]
pub struct PathMatchCandidate {
    pub is_dir: bool,
    pub path: String,
}

/// A path that matched a query.
#[derive(Clone, Debug)]
pub struct PathMatch {
    pub score: u32,
    pub positions: Vec<usize>,
    pub worktree_id: usize,
    pub path: String,
    pub path_prefix: String,
    pub is_dir: bool,
    /// Number of steps from the path to the path that matches are wanted near, by way
    /// of the parent they share. Nearer paths rank first.
    pub distance_to_relative_ancestor: usize,
}

/// A set of candidates of one worktree.
#[derive(Clone, Debug)]
pub struct PathMatchCandidateSet {
    pub id: usize,
    pub root_is_file: bool,
    pub prefix: String,
    /// Whether the paths of the worktree are written as on Windows.
    pub is_windows: bool,
    pub candidates: Vec<PathMatchCandidate>,
}

impl PathMatchCandidateSet {
    /// Number of candidates.
    pub fn len(&self) -> (len: usize)
        ensures
            len == self.candidates@.len(),
    {
        self.candidates.len()
    }

    /// Whether there is no candidate.
    pub fn is_empty(&self) -> (empty: bool)
        ensures
            empty == (self.candidates@.len() == 0),
    {
        self.len() == 0
    }
}

/// A match as a value.
pub struct PathMatchView {
    pub score: u32,
    pub positions: Seq<usize>,
    pub worktree_id: usize,
    pub path: Seq<char>,
    pub path_prefix: Seq<char>,
    pub is_dir: bool,
    pub distance_to_relative_ancestor: usize,
}

impl View for PathMatch {
    type V = PathMatchView;

    open spec fn view(&self) -> PathMatchView {
        PathMatchView {
            score: self.score,
            positions: self.positions@,
            worktree_id: self.worktree_id,
            path: self.path@,
            path_prefix: self.path_prefix@,
            is_dir: self.is_dir,
            distance_to_relative_ancestor: self.distance_to_relative_ancestor,
        }
    }
}

/// Whether `a` comes before `b` in the order of byte strings, given that they agree
/// in front of place `from`: at the first place from there on where they differ, `a`
/// has the smaller byte, or `a` ends there and `b` does not.
pub open spec fn spec_bytes_less(a: Seq<u8>, b: Seq<u8>, from: int) -> bool
    decreases a.len() - from,
{
    if from < 0 || from >= b.len() {
        false
    } else if from >= a.len() {
        true
    } else if a[from] != b[from] {
        a[from] < b[from]
    } else {
        spec_bytes_less(a, b, from + 1)
    }
}

/// Whether `a` ranks below `b`: by score; at equal scores by the number of the
/// worktree; then the match farther from the wanted path ranks below the nearer one;
/// and last by the bytes of the path.
pub open spec fn spec_ranks_below(a: PathMatchView, b: PathMatchView) -> bool {
    if a.score != b.score {
        a.score < b.score
    } else if a.worktree_id != b.worktree_id {
        a.worktree_id < b.worktree_id
    } else if a.distance_to_relative_ancestor != b.distance_to_relative_ancestor {
        a.distance_to_relative_ancestor > b.distance_to_relative_ancestor
    } else {
        spec_bytes_less(encode_utf8(a.path), encode_utf8(b.path), 0)
    }
}

/// How `a` stands to `b` in the order of matches.
pub open spec fn order_of(a: PathMatchView, b: PathMatchView) -> Ordering {
    if spec_ranks_below(a, b) {
        Ordering::Less
    } else if spec_ranks_below(b, a) {
        Ordering::Greater
    } else {
        Ordering::Equal
    }
}

/// Whether `a` comes before `b` in the order of byte strings.
pub fn bytes_less(a: &[u8], b: &[u8]) -> (less: bool)
    ensures
        less == spec_bytes_less(a@, b@, 0),
{
    let mut i: usize = 0;
    while i < a.len() && i < b.len() && a[i] == b[i]
        invariant
            i <= a@.len(),
            i <= b@.len(),
            spec_bytes_less(a@, b@, i as int) == spec_bytes_less(a@, b@, 0),
        decreases a@.len() - i,
    {
        i = i + 1;
    }
    if i >= b.len() {
        false
    } else if i >= a.len() {
        true
    } else {
        a[i] < b[i]
    }
}

impl PathMatch {
    /// Whether this match ranks below `other`.
    pub fn ranks_below(&self, other: &PathMatch) -> (below: bool)
        ensures
            below == spec_ranks_below(self@, other@),
    {
        if self.score != other.score {
            self.score < other.score
        } else if self.worktree_id != other.worktree_id {
            self.worktree_id < other.worktree_id
        } else if self.distance_to_relative_ancestor != other.distance_to_relative_ancestor {
            self.distance_to_relative_ancestor > other.distance_to_relative_ancestor
        } else {
            bytes_less(self.path.as_str().as_bytes(), other.path.as_str().as_bytes())
        }
    }

    /// How this match stands to `other` in the order of matches.
    pub fn cmp(&self, other: &PathMatch) -> (order: Ordering)
        ensures
            order == order_of(self@, other@),
    {
        if self.ranks_below(other) {
            Ordering::Less
        } else if other.ranks_below(self) {
            Ordering::Greater
        } else {
            Ordering::Equal
        }
    }

    /// Whether neither match ranks below the other.
    pub fn eq(&self, other: &PathMatch) -> (equal: bool)
        ensures
            equal == (order_of(self@, other@) == Ordering::Equal),
    {
        !self.ranks_below(other) && !other.ranks_below(self)
    }
}

/// Most that a word of a query may weigh. The matcher scores a word in 16 bits: at
/// most 36 for the first character that it matches and at most 26 for every further
/// one, and it matches as many characters as the word gives it. 2,520 of them come to
/// 65,530 at most; one more can exceed `u16::MAX`.
pub const MAX_WORD_WEIGHT: usize = 2_520;

/// Most breaks between the words of a query. The matcher sums the scores of the words,
/// each at most `u16::MAX`, in 32 bits, which bears 65,536 of them.
pub const MAX_WORD_BREAKS: usize = 65_535;

/// Whether a word of the query ends at place `i`: a space stands there, and no
/// backslash in front of it.
pub open spec fn spec_is_word_break(query: Seq<char>, i: int) -> bool {
    query[i] == ' ' && (i == 0 || query[i - 1] != '\\')
}

/// What a character of a word gives the matcher to match, at most: a backslash can
/// come to two characters, any other character is one.
pub open spec fn spec_char_weight(c: char) -> int {
    if c == '\\' {
        2
    } else {
        1
    }
}

/// Weight of the word that the first `upto` characters of the query end in.
pub open spec fn spec_word_weight(query: Seq<char>, upto: int) -> int
    decreases upto,
{
    if upto <= 0 || upto > query.len() || spec_is_word_break(query, upto - 1) {
        0
    } else {
        spec_word_weight(query, upto - 1) + spec_char_weight(query[upto - 1])
    }
}

/// Weight of the heaviest word among the first `upto` characters of the query.
pub open spec fn spec_heaviest_word(query: Seq<char>, upto: int) -> int
    decreases upto,
{
    if upto <= 0 {
        0
    } else {
        let rest = spec_heaviest_word(query, upto - 1);
        let last = spec_word_weight(query, upto);
        if last > rest {
            last
        } else {
            rest
        }
    }
}

/// Number of breaks between words among the first `upto` characters of the query.
pub open spec fn spec_word_breaks(query: Seq<char>, upto: int) -> int
    decreases upto,
{
    if upto <= 0 {
        0
    } else if upto <= query.len() && spec_is_word_break(query, upto - 1) {
        spec_word_breaks(query, upto - 1) + 1
    } else {
        spec_word_breaks(query, upto - 1)
    }
}

/// Whether the matcher can score the query: no word weighs more than it can score in
/// 16 bits, and there are no more words than it can sum in 32.
pub open spec fn spec_query_fits(query: Seq<char>) -> bool {
    &&& spec_heaviest_word(query, query.len() as int) <= MAX_WORD_WEIGHT
    &&& spec_word_breaks(query, query.len() as int) <= MAX_WORD_BREAKS
}

/// Whether the matcher can take the path: it counts a path in characters or in bytes,
/// of which it takes `u32::MAX`, and it multiplies that count by the length of a word.
pub open spec fn spec_path_fits(path: Seq<char>) -> bool {
    &&& encode_utf8(path).len() <= u32::MAX
    &&& encode_utf8(path).len() * MAX_WORD_WEIGHT <= usize::MAX
}

pub proof fn lemma_word_weights(query: Seq<char>, upto: int)
    requires
        0 <= upto <= query.len(),
    ensures
        0 <= spec_word_weight(query, upto) <= spec_heaviest_word(query, upto) <= 2 * upto,
        0 <= spec_word_breaks(query, upto) <= upto,
    decreases upto,
{
    if upto > 0 {
        lemma_word_weights(query, upto - 1);
    }
}

/// Whether the matcher can score the query.
pub fn query_fits(query: &str) -> (fits: bool)
    ensures
        fits == spec_query_fits(query@),
{
    let mut weight: usize = 0;
    let mut breaks: usize = 0;
    let mut after_backslash = false;
    let mut fits = true;
    for c in it: query.chars()
        invariant
            it.seq() == query@,
            fits ==> {
                &&& after_backslash == (it.index() > 0 && query@[it.index() - 1] == '\\')
                &&& weight == spec_word_weight(query@, it.index() as int)
                &&& breaks == spec_word_breaks(query@, it.index() as int)
                &&& spec_heaviest_word(query@, it.index() as int) <= MAX_WORD_WEIGHT
                &&& breaks <= MAX_WORD_BREAKS
            },
            !fits ==> !spec_query_fits(query@),
    {
        if fits {
            proof {
                lemma_word_weights(query@, it.index() as int);
            }
            if c == ' ' && !after_backslash {
                weight = 0;
                breaks = breaks + 1;
            } else if c == '\\' {
                weight = weight + 2;
            } else {
                weight = weight + 1;
            }
            after_backslash = c == '\\';
            if weight > MAX_WORD_WEIGHT || breaks > MAX_WORD_BREAKS {
                proof {
                    lemma_query_does_not_fit(query@, it.index() + 1);
                }
                fits = false;
            }
        }
    }
    fits
}

/// A query that does not fit in its first characters does not fit as a whole.
pub proof fn lemma_query_does_not_fit(query: Seq<char>, upto: int)
    requires
        0 <= upto <= query.len(),
        spec_heaviest_word(query, upto) > MAX_WORD_WEIGHT || spec_word_breaks(query, upto)
            > MAX_WORD_BREAKS,
    ensures
        !spec_query_fits(query),
    decreases query.len() - upto,
{
    if upto < query.len() {
        lemma_query_does_not_fit(query, upto + 1);
    }
}

/// Whether the matcher can take the path.
pub fn path_fits(path: &str) -> (fits: bool)
    ensures
        fits == spec_path_fits(path@),
{
    let bytes: usize = path.as_bytes().len();
    bytes <= 0xFFFF_FFFF && bytes.checked_mul(MAX_WORD_WEIGHT).is_some()
}

/// What the fuzzy matcher makes of a path: nothing where the path does not match the
/// query, and else the score of the match and the places of the characters that
/// matched. The matcher is `nucleo`'s, with its default configuration; the query is
/// taken word by word, every word matched fuzzily, with smart normalization, and with
/// smart case where `smart_case` is set and without regard to case where it is not.
pub uninterp spec fn spec_fuzzy_indices(query: Seq<char>, smart_case: bool, path: Seq<char>) -> Option<
    (u32, Seq<usize>),
>;

/// Matches `path` against `query` with `nucleo::pattern::Pattern::indices`. The matcher
/// asserts that a path has at most `u32::MAX` characters, or bytes where it takes the
/// path by its bytes; it scores each word of the query in 16 bits and sums the scores
/// in 32, both by plain addition. Paths and queries on which one of these can fail are
/// left out here. The contract gives what the matcher returns a name and claims
/// nothing else of it.
#[verifier::external_body]
fn fuzzy_indices(query: &str, smart_case: bool, path: &str) -> (found: Option<(u32, Vec<usize>)>)
    requires
        spec_path_fits(path@),
        spec_query_fits(query@),
    ensures
        match found {
            Some((score, positions)) => spec_fuzzy_indices(query@, smart_case, path@) == Some(
                (score, positions@),
            ),
            None => spec_fuzzy_indices(query@, smart_case, path@).is_none(),
        },
{
    let case = match smart_case {
        true => CaseMatching::Smart,
        false => CaseMatching::Ignore,
    };
    let pattern = Pattern::new(query, case, Normalization::Smart, AtomKind::Fuzzy);
    let mut matcher = nucleo::Matcher::new(nucleo::Config::DEFAULT);
    let (mut indices, mut buffer) = (Vec::new(), Vec::new());
    let haystack = nucleo::Utf32Str::new(path, &mut buffer);
    let score = pattern.indices(haystack, &mut matcher, &mut indices);
    score.map(|score| (score, indices.into_iter().map(|place| place as usize).collect()))
}

/// The match of a candidate, if it matches the query.
pub open spec fn spec_match_of(
    query: Seq<char>,
    smart_case: bool,
    candidate: PathMatchCandidate,
    worktree_id: usize,
    path_prefix: Seq<char>,
    distance_to_relative_ancestor: usize,
) -> Option<PathMatchView> {
    match spec_fuzzy_indices(query, smart_case, candidate.path@) {
        Some((score, positions)) => Some(
            PathMatchView {
                score,
                positions,
                worktree_id,
                path: candidate.path@,
                path_prefix,
                is_dir: candidate.is_dir,
                distance_to_relative_ancestor,
            },
        ),
        None => None,
    }
}

/// The place at which a new match goes into matches that stand best first, looking
/// from place `from` on: behind every match that does not rank below it.
pub open spec fn spec_insert_place(matches: Seq<PathMatchView>, new: PathMatchView, from: int) -> int
    decreases matches.len() - from,
{
    if from < 0 || from >= matches.len() {
        from
    } else if spec_ranks_below(matches[from], new) {
        from
    } else {
        spec_insert_place(matches, new, from + 1)
    }
}

/// Matches that stand best first, with one more put in at its place and cut to the
/// best `max_results`.
pub open spec fn spec_insert_match(
    matches: Seq<PathMatchView>,
    new: PathMatchView,
    max_results: int,
) -> Seq<PathMatchView> {
    let all = matches.insert(spec_insert_place(matches, new, 0), new);
    if all.len() > max_results {
        all.take(max_results)
    } else {
        all
    }
}

/// The matches of a run, as values.
pub open spec fn spec_match_views(matches: Seq<PathMatch>) -> Seq<PathMatchView> {
    Seq::new(matches.len(), |i: int| matches[i]@)
}

pub proof fn lemma_insert_place_bounds(matches: Seq<PathMatchView>, new: PathMatchView, from: int)
    requires
        0 <= from <= matches.len(),
    ensures
        from <= spec_insert_place(matches, new, from) <= matches.len(),
    decreases matches.len() - from,
{
    if from < matches.len() && !spec_ranks_below(matches[from], new) {
        lemma_insert_place_bounds(matches, new, from + 1);
    }
}

/// Puts a match into matches that stand best first, behind those that do not rank
/// below it, and drops the last where more than `max_results` would be kept.
pub fn insert_match(matches: &mut Vec<PathMatch>, new: PathMatch, max_results: usize)
    ensures
        spec_match_views(final(matches)@) == spec_insert_match(
            spec_match_views(old(matches)@),
            new@,
            max_results as int,
        ),
        final(matches)@.len() <= max_results,
{
    let ghost before = spec_match_views(matches@);
    let ghost given = matches@;
    let mut place: usize = 0;
    proof {
        lemma_insert_place_bounds(before, new@, 0);
    }
    while place < matches.len() && !matches[place].ranks_below(&new)
        invariant
            place <= matches@.len(),
            matches@ == given,
            before == spec_match_views(given),
            spec_insert_place(before, new@, place as int) == spec_insert_place(before, new@, 0),
        decreases matches@.len() - place,
    {
        assert(before[place as int] == matches@[place as int]@);
        proof {
            lemma_insert_place_bounds(before, new@, place + 1);
        }
        place = place + 1;
    }
    proof {
        if place < matches@.len() {
            assert(before[place as int] == matches@[place as int]@);
        }
    }
    matches.insert(place, new);
    proof {
        assert(spec_match_views(matches@) =~= before.insert(place as int, new@));
    }
    if matches.len() > max_results {
        let ghost longer = matches@;
        matches.truncate(max_results);
        proof {
            assert(spec_match_views(matches@) =~= spec_match_views(longer).take(
                max_results as int,
            ));
        }
    }
}

/// The best matches among the first `upto` candidates, best first: each candidate
/// that matches is put in at its place, and the best `max_results` are kept.
pub open spec fn spec_best_matches(
    candidates: Seq<PathMatchCandidate>,
    worktree_id: usize,
    query: Seq<char>,
    smart_case: bool,
    max_results: int,
    upto: int,
) -> Seq<PathMatchView>
    decreases upto,
{
    if upto <= 0 {
        Seq::empty()
    } else {
        let rest = spec_best_matches(candidates, worktree_id, query, smart_case, max_results, upto - 1);
        if upto > candidates.len() {
            rest
        } else {
            match spec_match_of(
                query,
                smart_case,
                candidates[upto - 1],
                worktree_id,
                Seq::empty(),
                usize::MAX,
            ) {
                Some(new) => spec_insert_match(rest, new, max_results),
                None => rest,
            }
        }
    }
}

/// Whether every candidate has a path that the matcher can take.
pub open spec fn spec_paths_fit(candidates: Seq<PathMatchCandidate>) -> bool {
    forall|i: int| 0 <= i < candidates.len() ==> spec_path_fits((#[trigger] candidates[i]).path@)
}

/// Matches the candidates of one worktree against `query` and gives the best
/// `max_results` matches, best first. Matches that rank the same stand in the order of
/// their candidates.
pub fn match_fixed_path_set(
    candidates: Vec<PathMatchCandidate>,
    worktree_id: usize,
    query: &str,
    smart_case: bool,
    max_results: usize,
) -> (results: Vec<PathMatch>)
    requires
        spec_paths_fit(candidates@),
        spec_query_fits(query@),
    ensures
        spec_match_views(results@) == spec_best_matches(
            candidates@,
            worktree_id,
            query@,
            smart_case,
            max_results as int,
            candidates@.len() as int,
        ),
        results@.len() <= max_results,
{
    let mut results: Vec<PathMatch> = Vec::new();
    let mut i: usize = 0;
    proof {
        reveal_strlit("");
        assert(""@ =~= Seq::<char>::empty());
        assert(spec_match_views(results@) =~= Seq::<PathMatchView>::empty());
    }
    while i < candidates.len()
        invariant
            i <= candidates@.len(),
            spec_paths_fit(candidates@),
            spec_query_fits(query@),
            results@.len() <= max_results,
            ""@ == Seq::<char>::empty(),
            spec_match_views(results@) == spec_best_matches(
                candidates@,
                worktree_id,
                query@,
                smart_case,
                max_results as int,
                i as int,
            ),
        decreases candidates@.len() - i,
    {
        let candidate = &candidates[i];
        match fuzzy_indices(query, smart_case, candidate.path.as_str()) {
            Some((score, positions)) => {
                let new = PathMatch {
                    score,
                    worktree_id,
                    positions,
                    is_dir: candidate.is_dir,
                    path: candidate.path.clone(),
                    path_prefix: String::from_str(""),
                    distance_to_relative_ancestor: usize::MAX,
                };
                insert_match(&mut results, new, max_results);
            },
            None => {},
        }
        i = i + 1;
    }
    results
}

/// A query with every backslash turned into a slash.
pub open spec fn spec_with_slashes(query: Seq<char>) -> Seq<char> {
    Seq::new(query.len(), |i: int| if query[i] == '\\' { '/' } else { query[i] })
}

/// The distance of a candidate from the path that matches are wanted near, or the
/// greatest distance there is where none is wanted.
pub open spec fn spec_distance_to(path: Seq<char>, relative_to: Option<Seq<char>>) -> usize {
    match relative_to {
        Some(relative_to) => spec_distance(
            spec_components(encode_utf8(path)),
            spec_components(encode_utf8(relative_to)),
        ) as usize,
        None => usize::MAX,
    }
}

/// The best matches when the first `upto` candidates of `set` are added to the best
/// matches `found` so far.
pub open spec fn spec_best_with_set(
    found: Seq<PathMatchView>,
    set: PathMatchCandidateSet,
    query: Seq<char>,
    relative_to: Option<Seq<char>>,
    smart_case: bool,
    max_results: int,
    upto: int,
) -> Seq<PathMatchView>
    decreases upto,
{
    if upto <= 0 {
        found
    } else {
        let rest = spec_best_with_set(
            found,
            set,
            query,
            relative_to,
            smart_case,
            max_results,
            upto - 1,
        );
        if upto > set.candidates@.len() {
            rest
        } else {
            let candidate = set.candidates@[upto - 1];
            match spec_match_of(
                query,
                smart_case,
                candidate,
                set.id,
                set.prefix@,
                spec_distance_to(candidate.path@, relative_to),
            ) {
                Some(new) => spec_insert_match(rest, new, max_results),
                None => rest,
            }
        }
    }
}

/// The best matches among the candidates of the first `upto` sets, best first.
pub open spec fn spec_best_of_sets(
    sets: Seq<PathMatchCandidateSet>,
    query: Seq<char>,
    relative_to: Option<Seq<char>>,
    smart_case: bool,
    max_results: int,
    upto: int,
) -> Seq<PathMatchView>
    decreases upto,
{
    if upto <= 0 {
        Seq::empty()
    } else {
        let rest = spec_best_of_sets(sets, query, relative_to, smart_case, max_results, upto - 1);
        if upto > sets.len() {
            rest
        } else {
            spec_best_with_set(
                rest,
                sets[upto - 1],
                query,
                relative_to,
                smart_case,
                max_results,
                sets[upto - 1].candidates@.len() as int,
            )
        }
    }
}

/// The query as it is matched: with slashes for backslashes where the first set's
/// paths are written as on Windows.
pub open spec fn spec_query_for(sets: Seq<PathMatchCandidateSet>, query: Seq<char>) -> Seq<char> {
    if sets.len() > 0 && sets[0].is_windows {
        spec_with_slashes(query)
    } else {
        query
    }
}

/// Whether every path of every set can be matched and measured: it has at most
/// `u32::MAX` characters, and its bytes and those of `relative_to` together are fewer
/// than `usize::MAX`.
pub open spec fn spec_sets_fit(
    sets: Seq<PathMatchCandidateSet>,
    relative_to: Option<Seq<char>>,
) -> bool {
    forall|i: int, j: int|
        0 <= i < sets.len() && 0 <= j < sets[i].candidates@.len() ==> {
            let path = (#[trigger] sets[i].candidates@[j]).path@;
            &&& spec_path_fits(path)
            &&& match relative_to {
                Some(relative_to) => encode_utf8(path).len() + encode_utf8(relative_to).len()
                    < usize::MAX,
                None => true,
            }
        }
}

/// A query with every backslash turned into a slash.
pub fn with_slashes(query: &str) -> (replaced: String)
    ensures
        replaced@ == spec_with_slashes(query@),
{
    let len = query.unicode_len();
    let mut replaced = String::from_str("");
    proof {
        reveal_strlit("");
        reveal_strlit("/");
        assert(""@ =~= Seq::<char>::empty());
        assert("/"@ =~= seq!['/']);
    }
    let mut i: usize = 0;
    while i < len
        invariant
            i <= len,
            len == query@.len(),
            "/"@ == seq!['/'],
            replaced@ == spec_with_slashes(query@).subrange(0, i as int),
        decreases len - i,
    {
        let ghost before = replaced@;
        if query.get_char(i) == '\\' {
            replaced.append("/");
        } else {
            replaced.append(query.substring_char(i, i + 1));
            assert(query@.subrange(i as int, i + 1) =~= seq![query@[i as int]]);
        }
        assert(replaced@ =~= spec_with_slashes(query@).subrange(0, i + 1));
        i = i + 1;
    }
    assert(spec_with_slashes(query@).subrange(0, len as int) == spec_with_slashes(query@));
    replaced
}

/// The query as it is matched against the candidates of these sets.
pub fn query_for(candidate_sets: &Vec<PathMatchCandidateSet>, query: &str) -> (matched: String)
    ensures
        matched@ == spec_query_for(candidate_sets@, query@),
{
    if candidate_sets.len() > 0 && candidate_sets[0].is_windows {
        with_slashes(query)
    } else {
        String::from_str(query)
    }
}

/// Matches the candidates of all sets against `query` and gives the best `max_results`
/// matches, best first. Each match carries the number and prefix of its set, and its
/// distance from `relative_to` where that is given. Matches that rank the same stand in
/// the order of their candidates.
pub fn match_path_sets(
    candidate_sets: &Vec<PathMatchCandidateSet>,
    query: &str,
    relative_to: Option<&str>,
    smart_case: bool,
    max_results: usize,
) -> (results: Vec<PathMatch>)
    requires
        spec_sets_fit(
            candidate_sets@,
            match relative_to {
                Some(relative_to) => Some(relative_to@),
                None => None,
            },
        ),
        spec_query_fits(spec_query_for(candidate_sets@, query@)),
    ensures
        spec_match_views(results@) == spec_best_of_sets(
            candidate_sets@,
            spec_query_for(candidate_sets@, query@),
            match relative_to {
                Some(relative_to) => Some(relative_to@),
                None => None,
            },
            smart_case,
            max_results as int,
            candidate_sets@.len() as int,
        ),
        results@.len() <= max_results,
{
    let ghost near: Option<Seq<char>> = match relative_to {
        Some(relative_to) => Some(relative_to@),
        None => None,
    };
    let query: String = query_for(candidate_sets, query);
    let mut results: Vec<PathMatch> = Vec::new();
    proof {
        assert(spec_match_views(results@) =~= Seq::<PathMatchView>::empty());
    }
    let mut s: usize = 0;
    while s < candidate_sets.len()
        invariant
            s <= candidate_sets@.len(),
            spec_query_fits(query@),
            spec_sets_fit(candidate_sets@, near),
            near == (match relative_to {
                Some(relative_to) => Some(relative_to@),
                None => None,
            }),
            results@.len() <= max_results,
            spec_match_views(results@) == spec_best_of_sets(
                candidate_sets@,
                query@,
                near,
                smart_case,
                max_results as int,
                s as int,
            ),
        decreases candidate_sets@.len() - s,
    {
        let set = &candidate_sets[s];
        let ghost found = spec_match_views(results@);
        let mut i: usize = 0;
        while i < set.candidates.len()
            invariant
                i <= set.candidates@.len(),
                s < candidate_sets@.len(),
                *set == candidate_sets@[s as int],
                spec_query_fits(query@),
                spec_sets_fit(candidate_sets@, near),
                near == (match relative_to {
                    Some(relative_to) => Some(relative_to@),
                    None => None,
                }),
                results@.len() <= max_results,
                spec_match_views(results@) == spec_best_with_set(
                    found,
                    *set,
                    query@,
                    near,
                    smart_case,
                    max_results as int,
                    i as int,
                ),
            decreases set.candidates@.len() - i,
        {
            let candidate = &set.candidates[i];
            assert(*candidate == candidate_sets@[s as int].candidates@[i as int]);
            match fuzzy_indices(query.as_str(), smart_case, candidate.path.as_str()) {
                Some((score, positions)) => {
                    let distance: usize = match relative_to {
                        Some(relative_to) => distance_between_paths(
                            candidate.path.as_str(),
                            relative_to,
                        ),
                        None => usize::MAX,
                    };
                    let new = PathMatch {
                        score,
                        worktree_id: set.id,
                        positions,
                        path: candidate.path.clone(),
                        is_dir: candidate.is_dir,
                        path_prefix: set.prefix.clone(),
                        distance_to_relative_ancestor: distance,
                    };
                    insert_match(&mut results, new, max_results);
                },
                None => {},
            }
            i = i + 1;
        }
        s = s + 1;
    }
    results
}

/// Whether the matches stand best first: none ranks below one behind it.
pub open spec fn spec_best_first(matches: Seq<PathMatchView>) -> bool {
    forall|i: int, j: int|
        0 <= i < j < matches.len() ==> !spec_ranks_below(#[trigger] matches[i], #[trigger] matches[j])
}

pub proof fn lemma_bytes_less_transitive(a: Seq<u8>, b: Seq<u8>, c: Seq<u8>, from: int)
    requires
        0 <= from,
        spec_bytes_less(a, b, from),
        spec_bytes_less(b, c, from),
    ensures
        spec_bytes_less(a, c, from),
    decreases a.len() - from,
{
    if from < a.len() && a[from] == b[from] && b[from] == c[from] {
        lemma_bytes_less_transitive(a, b, c, from + 1);
    }
}

pub proof fn lemma_bytes_less_asymmetric(a: Seq<u8>, b: Seq<u8>, from: int)
    requires
        0 <= from,
        spec_bytes_less(a, b, from),
    ensures
        !spec_bytes_less(b, a, from),
    decreases a.len() - from,
{
    if from < a.len() && from < b.len() && a[from] == b[from] {
        lemma_bytes_less_asymmetric(a, b, from + 1);
    }
}

/// Ranking below is transitive, and no two matches rank below each other.
pub proof fn lemma_ranks_below_is_an_order(a: PathMatchView, b: PathMatchView, c: PathMatchView)
    ensures
        spec_ranks_below(a, b) && spec_ranks_below(b, c) ==> spec_ranks_below(a, c),
        spec_ranks_below(a, b) ==> !spec_ranks_below(b, a),
{
    if spec_ranks_below(a, b) {
        if a.score == b.score && a.worktree_id == b.worktree_id && a.distance_to_relative_ancestor
            == b.distance_to_relative_ancestor {
            lemma_bytes_less_asymmetric(encode_utf8(a.path), encode_utf8(b.path), 0);
            if spec_ranks_below(b, c) && b.score == c.score && b.worktree_id == c.worktree_id
                && b.distance_to_relative_ancestor == c.distance_to_relative_ancestor {
                lemma_bytes_less_transitive(
                    encode_utf8(a.path),
                    encode_utf8(b.path),
                    encode_utf8(c.path),
                    0,
                );
            }
        }
    }
}

proof fn lemma_insert_place(matches: Seq<PathMatchView>, new: PathMatchView, from: int)
    requires
        0 <= from <= matches.len(),
    ensures
        forall|k: int|
            from <= k < spec_insert_place(matches, new, from) ==> !spec_ranks_below(
                #[trigger] matches[k],
                new,
            ),
        spec_insert_place(matches, new, from) < matches.len() ==> spec_ranks_below(
            matches[spec_insert_place(matches, new, from)],
            new,
        ),
    decreases matches.len() - from,
{
    if from < matches.len() && !spec_ranks_below(matches[from], new) {
        lemma_insert_place(matches, new, from + 1);
    }
}

/// Putting a match in keeps matches best first.
pub proof fn lemma_insert_keeps_best_first(
    matches: Seq<PathMatchView>,
    new: PathMatchView,
    max_results: int,
)
    requires
        spec_best_first(matches),
        0 <= max_results,
    ensures
        spec_best_first(spec_insert_match(matches, new, max_results)),
        spec_insert_match(matches, new, max_results).len() == if matches.len() + 1 <= max_results {
            matches.len() as int + 1
        } else {
            max_results
        },
{
    lemma_insert_place_bounds(matches, new, 0);
    lemma_insert_place(matches, new, 0);
    let place = spec_insert_place(matches, new, 0);
    let all = matches.insert(place, new);
    assert forall|i: int, j: int| 0 <= i < j < all.len() implies !spec_ranks_below(
        #[trigger] all[i],
        #[trigger] all[j],
    ) by {
        if j < place {
            assert(all[i] == matches[i] && all[j] == matches[j]);
        } else if j == place {
            assert(all[i] == matches[i]);
        } else if i < place {
            assert(all[i] == matches[i] && all[j] == matches[j - 1]);
        } else if i == place {
            let behind = matches[j - 1];
            assert(all[j] == behind);
            lemma_ranks_below_is_an_order(matches[place], new, behind);
            if j - 1 > place {
                assert(!spec_ranks_below(matches[place], matches[j - 1]));
            }
        } else {
            assert(all[i] == matches[i - 1] && all[j] == matches[j - 1]);
        }
    }
    let kept = spec_insert_match(matches, new, max_results);
    assert forall|i: int, j: int| 0 <= i < j < kept.len() implies !spec_ranks_below(
        #[trigger] kept[i],
        #[trigger] kept[j],
    ) by {
        assert(kept[i] == all[i] && kept[j] == all[j]);
    }
}

/// The best matches of one worktree stand best first, and there are at most
/// `max_results` of them.
pub proof fn lemma_best_matches_stand_best_first(
    candidates: Seq<PathMatchCandidate>,
    worktree_id: usize,
    query: Seq<char>,
    smart_case: bool,
    max_results: int,
    upto: int,
)
    requires
        0 <= max_results,
    ensures
        spec_best_first(
            spec_best_matches(candidates, worktree_id, query, smart_case, max_results, upto),
        ),
        spec_best_matches(candidates, worktree_id, query, smart_case, max_results, upto).len()
            <= max_results,
    decreases upto,
{
    if upto > 0 {
        lemma_best_matches_stand_best_first(
            candidates,
            worktree_id,
            query,
            smart_case,
            max_results,
            upto - 1,
        );
        let rest = spec_best_matches(candidates, worktree_id, query, smart_case, max_results, upto - 1);
        if upto <= candidates.len() {
            match spec_match_of(
                query,
                smart_case,
                candidates[upto - 1],
                worktree_id,
                Seq::empty(),
                usize::MAX,
            ) {
                Some(new) => {
                    lemma_insert_keeps_best_first(rest, new, max_results);
                },
                None => {},
            }
        }
    }
}

/// The best matches of several worktrees stand best first, and there are at most
/// `max_results` of them.
pub proof fn lemma_best_of_sets_stand_best_first(
    sets: Seq<PathMatchCandidateSet>,
    query: Seq<char>,
    relative_to: Option<Seq<char>>,
    smart_case: bool,
    max_results: int,
    upto: int,
)
    requires
        0 <= max_results,
    ensures
        spec_best_first(
            spec_best_of_sets(sets, query, relative_to, smart_case, max_results, upto),
        ),
        spec_best_of_sets(sets, query, relative_to, smart_case, max_results, upto).len()
            <= max_results,
    decreases upto,
{
    if upto > 0 {
        lemma_best_of_sets_stand_best_first(
            sets,
            query,
            relative_to,
            smart_case,
            max_results,
            upto - 1,
        );
        if upto <= sets.len() {
            lemma_best_with_set_stand_best_first(
                spec_best_of_sets(sets, query, relative_to, smart_case, max_results, upto - 1),
                sets[upto - 1],
                query,
                relative_to,
                smart_case,
                max_results,
                sets[upto - 1].candidates@.len() as int,
            );
        }
    }
}

proof fn lemma_best_with_set_stand_best_first(
    found: Seq<PathMatchView>,
    set: PathMatchCandidateSet,
    query: Seq<char>,
    relative_to: Option<Seq<char>>,
    smart_case: bool,
    max_results: int,
    upto: int,
)
    requires
        0 <= max_results,
        spec_best_first(found),
        found.len() <= max_results,
    ensures
        spec_best_first(
            spec_best_with_set(found, set, query, relative_to, smart_case, max_results, upto),
        ),
        spec_best_with_set(found, set, query, relative_to, smart_case, max_results, upto).len()
            <= max_results,
    decreases upto,
{
    if upto > 0 {
        lemma_best_with_set_stand_best_first(
            found,
            set,
            query,
            relative_to,
            smart_case,
            max_results,
            upto - 1,
        );
        let rest = spec_best_with_set(
            found,
            set,
            query,
            relative_to,
            smart_case,
            max_results,
            upto - 1,
        );
        if upto <= set.candidates@.len() {
            let candidate = set.candidates@[upto - 1];
            match spec_match_of(
                query,
                smart_case,
                candidate,
                set.id,
                set.prefix@,
                spec_distance_to(candidate.path@, relative_to),
            ) {
                Some(new) => {
                    lemma_insert_keeps_best_first(rest, new, max_results);
                },
                None => {},
            }
        }
    }
}

/// End of the component of a path that starts at `i`: the place of the next `/`, or the
/// end of the path.
pub open spec fn spec_component_end(path: Seq<u8>, i: int) -> int
    decreases path.len() - i,
{
    if 0 <= i < path.len() && path[i] != 47 {
        spec_component_end(path, i + 1)
    } else {
        i
    }
}

/// The components of a path from place `i` on: the runs of bytes between its slashes
/// that are not empty.
pub open spec fn spec_components_from(path: Seq<u8>, i: int) -> Seq<Seq<u8>>
    decreases path.len() - i,
    via spec_components_from_terminates
{
    if i < 0 || i >= path.len() {
        Seq::empty()
    } else if path[i] == 47 {
        spec_components_from(path, i + 1)
    } else {
        let end = spec_component_end(path, i + 1);
        seq![path.subrange(i, end)] + spec_components_from(path, end)
    }
}

#[via_fn]
proof fn spec_components_from_terminates(path: Seq<u8>, i: int) {
    if 0 <= i < path.len() {
        lemma_component_end_bounds(path, i + 1);
    }
}

/// The components of a path.
pub open spec fn spec_components(path: Seq<u8>) -> Seq<Seq<u8>> {
    spec_components_from(path, 0)
}

pub proof fn lemma_component_end_bounds(path: Seq<u8>, i: int)
    requires
        0 <= i <= path.len(),
    ensures
        i <= spec_component_end(path, i) <= path.len(),
    decreases path.len() - i,
{
    if i < path.len() && path[i] != 47 {
        lemma_component_end_bounds(path, i + 1);
    }
}

/// A path has at most as many components as it has bytes left.
pub proof fn lemma_components_len(path: Seq<u8>, i: int)
    requires
        0 <= i <= path.len(),
    ensures
        spec_components_from(path, i).len() <= path.len() - i,
    decreases path.len() - i,
{
    if i < path.len() {
        if path[i] == 47 {
            lemma_components_len(path, i + 1);
        } else {
            lemma_component_end_bounds(path, i + 1);
            lemma_components_len(path, spec_component_end(path, i + 1));
        }
    }
}

/// Number of components that two paths share at their start, from place `k` on.
pub open spec fn spec_shared_from(a: Seq<Seq<u8>>, b: Seq<Seq<u8>>, k: int) -> int
    decreases a.len() - k,
{
    if 0 <= k < a.len() && k < b.len() && a[k] == b[k] {
        spec_shared_from(a, b, k + 1)
    } else {
        k
    }
}

/// The distance between two paths, given by their components: one, and for each path
/// the components that are left when those that both share at their start are taken
/// away, and one more where any is left.
pub open spec fn spec_distance(a: Seq<Seq<u8>>, b: Seq<Seq<u8>>) -> int {
    let shared = spec_shared_from(a, b, 0);
    let left_a = if shared < a.len() { a.len() - shared - 1 } else { 0 };
    let left_b = if shared < b.len() { b.len() - shared - 1 } else { 0 };
    left_a + left_b + 1
}

/// The components of a path.
pub fn components(path: &[u8]) -> (parts: Vec<Vec<u8>>)
    ensures
        parts@.len() == spec_components(path@).len(),
        forall|k: int| 0 <= k < parts@.len() ==> (#[trigger] parts@[k])@ == spec_components(path@)[k],
        parts@.len() <= path@.len(),
{
    let mut parts: Vec<Vec<u8>> = Vec::new();
    let ghost mut done: Seq<Seq<u8>> = Seq::empty();
    let mut i: usize = 0;
    proof {
        assert(done + spec_components_from(path@, 0) == spec_components(path@));
        lemma_components_len(path@, 0);
    }
    while i < path.len()
        invariant
            i <= path@.len(),
            done + spec_components_from(path@, i as int) == spec_components(path@),
            parts@.len() == done.len(),
            forall|k: int| 0 <= k < parts@.len() ==> (#[trigger] parts@[k])@ == done[k],
        decreases path@.len() - i,
    {
        if path[i] == 47 {
            i = i + 1;
        } else {
            let start: usize = i;
            let mut part: Vec<u8> = Vec::new();
            part.push(path[i]);
            i = i + 1;
            while i < path.len() && path[i] != 47
                invariant
                    start < i <= path@.len(),
                    spec_component_end(path@, i as int) == spec_component_end(path@, start + 1),
                    part@ == path@.subrange(start as int, i as int),
                decreases path@.len() - i,
            {
                part.push(path[i]);
                i = i + 1;
            }
            proof {
                let rest = spec_components_from(path@, i as int);
                assert(spec_components_from(path@, start as int) == seq![part@] + rest);
                assert(done.push(part@) + rest == done + (seq![part@] + rest));
                done = done.push(part@);
            }
            parts.push(part);
        }
    }
    proof {
        assert(done + Seq::<Seq<u8>>::empty() == done);
    }
    parts
}

/// The distance from a path to another: the number of steps from one to the other by
/// way of the components they share at their start.
pub fn distance_between_paths(path: &str, relative_to: &str) -> (distance: usize)
    requires
        encode_utf8(path@).len() + encode_utf8(relative_to@).len() < usize::MAX,
    ensures
        distance == spec_distance(
            spec_components(encode_utf8(path@)),
            spec_components(encode_utf8(relative_to@)),
        ),
{
    let a = components(path.as_bytes());
    let b = components(relative_to.as_bytes());
    let ghost parts_a = spec_components(encode_utf8(path@));
    let ghost parts_b = spec_components(encode_utf8(relative_to@));
    let mut shared: usize = 0;
    while shared < a.len() && shared < b.len() && bytes_eq(
        a[shared].as_slice(),
        b[shared].as_slice(),
    )
        invariant
            shared <= a@.len(),
            shared <= b@.len(),
            a@.len() == parts_a.len(),
            b@.len() == parts_b.len(),
            forall|k: int| 0 <= k < a@.len() ==> (#[trigger] a@[k])@ == parts_a[k],
            forall|k: int| 0 <= k < b@.len() ==> (#[trigger] b@[k])@ == parts_b[k],
            spec_shared_from(parts_a, parts_b, shared as int) == spec_shared_from(
                parts_a,
                parts_b,
                0,
            ),
        decreases a@.len() - shared,
    {
        shared = shared + 1;
    }
    let left_a: usize = if shared < a.len() { a.len() - shared - 1 } else { 0 };
    let left_b: usize = if shared < b.len() { b.len() - shared - 1 } else { 0 };
    left_a + left_b + 1
}

} // verus!
