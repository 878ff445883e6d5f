use crate::signature::{compile_outcome, is_first_match, matches_at, MalformedSignature, Signature};
use vstd::prelude::*;

verus! {

/// Compiling is a function of the text: two compilations of one text give the
/// same pattern and mask, or fail on the same token.
pub proof fn lemma_compile_deterministic(
    s: Seq<char>,
    r1: Result<Signature, MalformedSignature>,
    r2: Result<Signature, MalformedSignature>,
)
    requires
        compile_outcome(s, r1),
        compile_outcome(s, r2),
    ensures
        r1 is Ok <==> r2 is Ok,
        r1 is Ok ==> r1->Ok_0.pattern_view() == r2->Ok_0.pattern_view()
            && r1->Ok_0.mask_view() == r2->Ok_0.mask_view(),
        r1 is Err ==> r1->Err_0.token@ == r2->Err_0.token@,
{
}

/// The empty text compiles to the empty signature.
pub proof fn lemma_empty_text_compiles(r: Result<Signature, MalformedSignature>)
    requires
        compile_outcome(Seq::empty(), r),
    ensures
        r is Ok,
        r->Ok_0.pattern_view().len() == 0,
        r->Ok_0.mask_view().len() == 0,
{
}

/// A search for the empty signature finds it at offset 0.
pub proof fn lemma_empty_signature_found_at_zero(
    pattern: Seq<u8>,
    mask: Seq<bool>,
    subject: Seq<u8>,
    found: Option<usize>,
)
    requires
        pattern.len() == 0,
        is_first_match(pattern, mask, subject, found),
    ensures
        found == Some(0usize),
{
    assert(matches_at(pattern, mask, subject, 0));
}

/// A signature longer than the subject is found nowhere in it.
pub proof fn lemma_longer_signature_absent(
    pattern: Seq<u8>,
    mask: Seq<bool>,
    subject: Seq<u8>,
    found: Option<usize>,
)
    requires
        pattern.len() > subject.len(),
        is_first_match(pattern, mask, subject, found),
    ensures
        found is None,
{
}

/// A signature without wildcards that occurs literally at `k`, and nowhere
/// before `k`, is found at `k`.
pub proof fn lemma_literal_occurrence_found(
    pattern: Seq<u8>,
    mask: Seq<bool>,
    subject: Seq<u8>,
    k: int,
    found: Option<usize>,
)
    requires
        mask.len() == pattern.len(),
        forall|i: int| 0 <= i < mask.len() ==> mask[i],
        0 <= k,
        k + pattern.len() <= subject.len(),
        subject.subrange(k, k + pattern.len()) == pattern,
        forall|j: int| 0 <= j < k ==> #[trigger] subject.subrange(j, j + pattern.len()) != pattern,
        is_first_match(pattern, mask, subject, found),
    ensures
        found == Some(k as usize),
{
    assert forall|j: int| 0 <= j <= k implies matches_at(pattern, mask, subject, j)
        <==> subject.subrange(j, j + pattern.len()) == pattern by {
        if matches_at(pattern, mask, subject, j) {
            assert forall|i: int| 0 <= i < pattern.len() implies subject.subrange(
                j,
                j + pattern.len(),
            )[i] == pattern[i] by {
                assert(mask[i]);
            }
            assert(subject.subrange(j, j + pattern.len()) =~= pattern);
        }
        if subject.subrange(j, j + pattern.len()) == pattern {
            assert forall|i: int| 0 <= i < pattern.len() && #[trigger] mask[i] implies subject[j
                + i] == pattern[i] by {
                assert(subject.subrange(j, j + pattern.len())[i] == subject[j + i]);
            }
        }
    }
    assert(matches_at(pattern, mask, subject, k));
}

/// A signature without wildcards, embedded in a subject after `before`, is
/// found there or earlier, and exactly there where it matches nowhere in the
/// bytes before.
pub proof fn lemma_embedded_pattern_found(
    pattern: Seq<u8>,
    mask: Seq<bool>,
    before: Seq<u8>,
    after: Seq<u8>,
    found: Option<usize>,
)
    requires
        mask.len() == pattern.len(),
        forall|i: int| 0 <= i < mask.len() ==> mask[i],
        is_first_match(pattern, mask, before + pattern + after, found),
    ensures
        found is Some,
        found->0 <= before.len(),
        (forall|j: int|
            0 <= j < before.len() ==> !#[trigger] matches_at(
                pattern,
                mask,
                before + pattern + after,
                j,
            )) ==> found == Some(before.len() as usize),
{
    let subject = before + pattern + after;
    assert forall|i: int| 0 <= i < pattern.len() && #[trigger] mask[i] implies subject[before.len()
        + i] == pattern[i] by {}
    assert(matches_at(pattern, mask, subject, before.len() as int));
}

/// Turning bytes of a signature into wildcards keeps every offset at which it
/// matched a match.
pub proof fn lemma_wildcards_keep_matches(
    pattern: Seq<u8>,
    mask: Seq<bool>,
    relaxed_pattern: Seq<u8>,
    relaxed_mask: Seq<bool>,
    subject: Seq<u8>,
    offset: int,
)
    requires
        relaxed_pattern.len() == pattern.len(),
        mask.len() == pattern.len(),
        relaxed_mask.len() == pattern.len(),
        forall|i: int|
            0 <= i < pattern.len() && #[trigger] relaxed_mask[i] ==> mask[i]
                && relaxed_pattern[i] == pattern[i],
        matches_at(pattern, mask, subject, offset),
    ensures
        matches_at(relaxed_pattern, relaxed_mask, subject, offset),
{
    assert forall|i: int|
        0 <= i < relaxed_pattern.len() && #[trigger] relaxed_mask[i] implies subject[offset + i]
        == relaxed_pattern[i] by {
        assert(mask[i]);
    }
}

/// Turning bytes of a signature into wildcards never moves the result of a
/// search later, nor loses it.
pub proof fn lemma_wildcards_find_no_later(
    pattern: Seq<u8>,
    mask: Seq<bool>,
    relaxed_pattern: Seq<u8>,
    relaxed_mask: Seq<bool>,
    subject: Seq<u8>,
    found: Option<usize>,
    relaxed_found: Option<usize>,
)
    requires
        relaxed_pattern.len() == pattern.len(),
        mask.len() == pattern.len(),
        relaxed_mask.len() == pattern.len(),
        forall|i: int|
            0 <= i < pattern.len() && #[trigger] relaxed_mask[i] ==> mask[i]
                && relaxed_pattern[i] == pattern[i],
        is_first_match(pattern, mask, subject, found),
        is_first_match(relaxed_pattern, relaxed_mask, subject, relaxed_found),
    ensures
        found is Some ==> relaxed_found is Some && relaxed_found->0 <= found->0,
{
    if found is Some {
        lemma_wildcards_keep_matches(
            pattern,
            mask,
            relaxed_pattern,
            relaxed_mask,
            subject,
            found->0 as int,
        );
    }
}

/// A search has one outcome: any two outcomes for the same signature and
/// subject are equal, however the offsets were scanned.
pub proof fn lemma_search_deterministic(
    pattern: Seq<u8>,
    mask: Seq<bool>,
    subject: Seq<u8>,
    found1: Option<usize>,
    found2: Option<usize>,
)
    requires
        is_first_match(pattern, mask, subject, found1),
        is_first_match(pattern, mask, subject, found2),
    ensures
        found1 == found2,
{
    if found1 is Some {
        assert(matches_at(pattern, mask, subject, found1->0 as int));
    }
    if found2 is Some {
        assert(matches_at(pattern, mask, subject, found2->0 as int));
    }
}

} // verus!
