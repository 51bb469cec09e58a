//! Properties of the whole token sequence a scan produces: the spans are
//! non-empty, ordered and disjoint; joined with the skipped whitespace they
//! rebuild the input; and an exhausted scan stays exhausted.

use crate::scan::{
    has_token, is_ws_byte, lemma_skip_ws_bounds, lemma_token_nonempty, token_end, token_start,
};
use vstd::prelude::*;

verus! {

/// The spans of all tokens a scan finds when it resumes at `i`, in the order
/// they are produced.
pub open spec fn spans_from(s: Seq<u8>, i: int) -> Seq<(int, int)>
    decreases s.len() - i
        when 0 <= i <= s.len()
        via spans_from_decreases
{
    if has_token(s, i) {
        let start = token_start(s, i);
        let end = token_end(s, start);
        seq![(start, end)] + spans_from(s, end)
    } else {
        Seq::empty()
    }
}

#[via_fn]
proof fn spans_from_decreases(s: Seq<u8>, i: int) {
    if 0 <= i <= s.len() && has_token(s, i) {
        lemma_skip_ws_bounds(s, i);
        lemma_token_nonempty(s, token_start(s, i));
    }
}

/// The spans produced are disjoint, ordered by increasing start, and each is
/// non-empty: every span lies within the input at or after the position the
/// scan resumed at, starts strictly before it ends, and each span ends no
/// later than the next one starts.
pub proof fn lemma_spans_ordered(s: Seq<u8>, i: int)
    requires
        0 <= i <= s.len(),
    ensures
        forall|k: int|
            0 <= k < spans_from(s, i).len() ==> i <= (#[trigger] spans_from(s, i)[k]).0
                < spans_from(s, i)[k].1 <= s.len(),
        forall|j: int, k: int|
            0 <= j < k < spans_from(s, i).len() ==> (#[trigger] spans_from(s, i)[j]).1
                <= (#[trigger] spans_from(s, i)[k]).0,
    decreases s.len() - i,
{
    if has_token(s, i) {
        let start = token_start(s, i);
        let end = token_end(s, start);
        lemma_skip_ws_bounds(s, i);
        lemma_token_nonempty(s, start);
        lemma_spans_ordered(s, end);
        let tail = spans_from(s, end);
        assert forall|k: int| 0 <= k < spans_from(s, i).len() implies i <= (#[trigger] spans_from(
            s,
            i,
        )[k]).0 < spans_from(s, i)[k].1 <= s.len() by {
            if k > 0 {
                assert(spans_from(s, i)[k] == tail[k - 1]);
            }
        }
        assert forall|j: int, k: int| 0 <= j < k < spans_from(s, i).len() implies (
        #[trigger] spans_from(s, i)[j]).1 <= (#[trigger] spans_from(s, i)[k]).0 by {
            assert(spans_from(s, i)[k] == tail[k - 1]);
            if j == 0 {
                assert(end <= tail[k - 1].0);
            } else {
                assert(spans_from(s, i)[j] == tail[j - 1]);
            }
        }
    }
}

/// The input as rebuilt from a scan's output: the whitespace gap up to each
/// span, then the span's bytes, and after the last span whatever remains.
pub open spec fn joined(s: Seq<u8>, i: int, spans: Seq<(int, int)>) -> Seq<u8>
    decreases spans.len(),
{
    if spans.len() == 0 {
        s.subrange(i, s.len() as int)
    } else {
        s.subrange(i, spans[0].0) + s.subrange(spans[0].0, spans[0].1) + joined(
            s,
            spans[0].1,
            spans.drop_first(),
        )
    }
}

/// Reconstruction law: joining the whitespace-skipped regions and the token
/// spans in order reproduces the input exactly, no bytes gained or lost; for
/// a scan over the whole input (`i == 0`) the result is the input itself.
pub proof fn lemma_reconstruction(s: Seq<u8>, i: int)
    requires
        0 <= i <= s.len(),
    ensures
        joined(s, i, spans_from(s, i)) == s.subrange(i, s.len() as int),
        i == 0 ==> joined(s, 0, spans_from(s, 0)) == s,
    decreases s.len() - i,
{
    if has_token(s, i) {
        let start = token_start(s, i);
        let end = token_end(s, start);
        lemma_skip_ws_bounds(s, i);
        lemma_token_nonempty(s, start);
        lemma_reconstruction(s, end);
        assert(spans_from(s, i)[0] == (start, end));
        assert(spans_from(s, i).drop_first() =~= spans_from(s, end));
        assert(joined(s, i, spans_from(s, i)) =~= s.subrange(i, s.len() as int));
    }
    if i == 0 {
        assert(s.subrange(0, s.len() as int) =~= s);
    }
}

/// Idempotence of exhaustion: at the end of the input no token remains, so a
/// scan whose cursor has reached the end keeps returning "no token".
pub proof fn lemma_exhaustion_idempotent(s: Seq<u8>)
    ensures
        !has_token(s, s.len() as int),
        spans_from(s, s.len() as int) == Seq::<(int, int)>::empty(),
{
}

/// An empty or whitespace-only input yields zero tokens.
pub proof fn lemma_all_ws_no_tokens(s: Seq<u8>)
    requires
        forall|k: int| 0 <= k < s.len() ==> is_ws_byte(#[trigger] s[k]),
    ensures
        !has_token(s, 0),
        spans_from(s, 0) == Seq::<(int, int)>::empty(),
{
    lemma_skip_ws_bounds(s, 0);
}

} // verus!
