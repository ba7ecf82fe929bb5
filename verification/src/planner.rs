//! Packing of the context: the excerpt first, then the best-scored declarations for as
//! long as each still fits the budget.

use crate::buffer::BufferStore;
use crate::declaration_scoring::ScoredSnippet;
use crate::declaration_scoring::SnippetStyle;
use crate::excerpt::EditPredictionExcerptText;
use crate::ranking::rank;
use crate::ranking::spec_ranked;
use vstd::prelude::*;

verus! {

/// The context that was packed.
#[derive(Debug)]
pub struct PlannedContext {
    /// The text: the signatures of the excerpt, its lines, and the text of each
    /// declaration that was taken.
    pub text: Vec<u8>,
    /// The declarations that were taken, by their place among the snippets, best first.
    pub included: Vec<usize>,
}

/// The score of `snippet` for `style`.
pub open spec fn spec_style_score(snippet: ScoredSnippet, style: SnippetStyle) -> u64 {
    match style {
        SnippetStyle::Signature => snippet.scores.signature,
        SnippetStyle::Declaration => snippet.scores.declaration,
    }
}

/// One key for each snippet, by which the best score ranks first and equal scores rank
/// in the order of the snippets.
pub open spec fn spec_plan_keys(snippets: Seq<ScoredSnippet>, style: SnippetStyle) -> Seq<
    (u64, usize),
> {
    Seq::new(
        snippets.len(),
        |i: int| ((u64::MAX - spec_style_score(snippets[i], style)) as u64, i as usize),
    )
}

/// The first `upto` texts, one behind the other.
pub open spec fn spec_concat(texts: Seq<Seq<u8>>, upto: int) -> Seq<u8>
    decreases upto,
{
    if upto <= 0 {
        Seq::empty()
    } else if upto > texts.len() {
        spec_concat(texts, upto - 1)
    } else {
        spec_concat(texts, upto - 1) + texts[upto - 1]
    }
}

/// The texts of an excerpt's signatures, as byte strings.
pub open spec fn spec_signature_texts(excerpt_text: EditPredictionExcerptText) -> Seq<Seq<u8>> {
    Seq::new(
        excerpt_text.parent_signatures@.len(),
        |i: int| excerpt_text.parent_signatures@[i]@,
    )
}

/// The part of the context that is always there: the excerpt's signatures, outermost
/// first, and then its lines.
pub open spec fn spec_excerpt_part(excerpt_text: EditPredictionExcerptText) -> Seq<u8> {
    spec_concat(
        spec_signature_texts(excerpt_text),
        excerpt_text.parent_signatures@.len() as int,
    ) + excerpt_text.body@
}

/// The texts of the snippets in their rank.
pub open spec fn spec_ranked_texts(
    snippets: Seq<ScoredSnippet>,
    ranked: Seq<(u64, usize)>,
    style: SnippetStyle,
    buffers: &BufferStore,
) -> Seq<Seq<u8>> {
    Seq::new(ranked.len(), |r: int| snippets[ranked[r].1 as int].spec_text(style, buffers))
}

/// How many of the ranked texts are taken, given that those before `from` are taken
/// and `budget` bytes are left: texts are taken in their rank for as long as the next
/// one fits; the first that does not fit ends the taking, whatever comes after it.
pub open spec fn spec_taken(texts: Seq<Seq<u8>>, budget: int, from: int) -> int
    decreases texts.len() - from,
{
    if from < 0 || from >= texts.len() {
        from
    } else if texts[from].len() <= budget {
        spec_taken(texts, budget - texts[from].len(), from + 1)
    } else {
        from
    }
}

pub proof fn lemma_taken(texts: Seq<Seq<u8>>, budget: int, from: int)
    requires
        0 <= from <= texts.len(),
        0 <= budget,
    ensures
        from <= spec_taken(texts, budget, from) <= texts.len(),
        spec_concat(texts, spec_taken(texts, budget, from)).len() <= spec_concat(texts, from).len()
            + budget,
    decreases texts.len() - from,
{
    if from < texts.len() && texts[from].len() <= budget {
        lemma_taken(texts, budget - texts[from].len(), from + 1);
    }
}

/// Appends `bytes` to `out`.
pub fn append_bytes(out: &mut Vec<u8>, bytes: &[u8])
    ensures
        final(out)@ == old(out)@ + bytes@,
{
    let mut i: usize = 0;
    while i < bytes.len()
        invariant
            i <= bytes@.len(),
            out@ == old(out)@ + bytes@.subrange(0, i as int),
        decreases bytes@.len() - i,
    {
        out.push(bytes[i]);
        i = i + 1;
    }
    proof {
        assert(bytes@.subrange(0, bytes@.len() as int) == bytes@);
    }
}

/// Packs the context for a budget of `byte_budget` bytes. The excerpt's signatures and
/// lines always come first, whatever they take. The snippets follow in falling order
/// of their score for `style`, equal scores in the order of the snippets, each with its
/// whole text for `style`, for as long as the next one fits into what is left of the
/// budget. The first snippet that does not fit ends the packing: none is cut, and none
/// that ranks behind it is tried.
pub fn plan_context(
    excerpt_text: &EditPredictionExcerptText,
    snippets: &Vec<ScoredSnippet>,
    style: SnippetStyle,
    byte_budget: usize,
    buffers: &BufferStore,
) -> (plan: PlannedContext)
    requires
        buffers.wf(),
    ensures
        ({
            let ranked = spec_ranked(spec_plan_keys(snippets@, style));
            let texts = spec_ranked_texts(snippets@, ranked, style, buffers);
            let fixed = spec_excerpt_part(*excerpt_text);
            let budget = if fixed.len() <= byte_budget {
                byte_budget - fixed.len()
            } else {
                0
            };
            let taken = spec_taken(texts, budget, 0);
            &&& 0 <= taken <= snippets@.len()
            &&& plan.included@ == Seq::new(taken as nat, |r: int| ranked[r].1)
            &&& plan.text@ == fixed + spec_concat(texts, taken)
            &&& fixed.len() <= byte_budget ==> plan.text@.len() <= byte_budget
        }),
{
    let mut text: Vec<u8> = Vec::new();
    let mut s: usize = 0;
    while s < excerpt_text.parent_signatures.len()
        invariant
            s <= excerpt_text.parent_signatures@.len(),
            text@ == spec_concat(spec_signature_texts(*excerpt_text), s as int),
        decreases excerpt_text.parent_signatures@.len() - s,
    {
        append_bytes(&mut text, excerpt_text.parent_signatures[s].as_slice());
        s = s + 1;
    }
    append_bytes(&mut text, excerpt_text.body.as_slice());
    let ghost fixed = text@;
    let mut budget: usize = if text.len() <= byte_budget { byte_budget - text.len() } else { 0 };
    let ghost first_budget = budget as int;
    let mut keys: Vec<(u64, usize)> = Vec::new();
    let mut i: usize = 0;
    while i < snippets.len()
        invariant
            i <= snippets@.len(),
            keys@ == spec_plan_keys(snippets@, style).subrange(0, i as int),
        decreases snippets@.len() - i,
    {
        keys.push((u64::MAX - snippets[i].score(style), i));
        i = i + 1;
    }
    proof {
        assert(keys@ == spec_plan_keys(snippets@, style));
    }
    let ranked = rank(keys);
    let ghost texts = spec_ranked_texts(snippets@, ranked@, style, buffers);
    let mut included: Vec<usize> = Vec::new();
    let mut r: usize = 0;
    proof {
        lemma_taken(texts, first_budget, 0);
    }
    while r < ranked.len()
        invariant
            r <= ranked@.len(),
            buffers.wf(),
            ranked@ == spec_ranked(spec_plan_keys(snippets@, style)),
            ranked@.len() == snippets@.len(),
            forall|k: int|
                0 <= k < ranked@.len() ==> spec_plan_keys(snippets@, style).contains(
                    #[trigger] ranked@[k],
                ),
            texts == spec_ranked_texts(snippets@, ranked@, style, buffers),
            included@ == Seq::new(r as nat, |k: int| ranked@[k].1),
            text@ == fixed + spec_concat(texts, r as int),
            spec_taken(texts, budget as int, r as int) == spec_taken(texts, first_budget, 0),
        ensures
            r <= ranked@.len(),
            r == spec_taken(texts, first_budget, 0),
            included@ == Seq::new(r as nat, |k: int| ranked@[k].1),
            text@ == fixed + spec_concat(texts, r as int),
        decreases ranked@.len() - r,
    {
        let place: usize = ranked[r].1;
        proof {
            let keys = spec_plan_keys(snippets@, style);
            assert(keys.contains(ranked@[r as int]));
            let j = choose|j: int| 0 <= j < keys.len() && keys[j] == ranked@[r as int];
            assert(place == j);
        }
        let snippet_text = snippets[place].text(style, buffers);
        assert(snippet_text@ == texts[r as int]);
        if snippet_text.len() > budget {
            break ;
        }
        let ghost before = included@;
        budget = budget - snippet_text.len();
        append_bytes(&mut text, snippet_text.as_slice());
        included.push(place);
        proof {
            assert(included@ == Seq::new((r + 1) as nat, |k: int| ranked@[k].1));
            assert(fixed + spec_concat(texts, r as int) + texts[r as int] == fixed + spec_concat(
                texts,
                r + 1,
            ));
        }
        r = r + 1;
    }
    PlannedContext { text, included }
}

} // verus!
