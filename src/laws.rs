use vstd::prelude::*;
use crate::decode::INTERRUPT_SOURCE_NUM;
use crate::model::{
    arbitrate, arbitrate_context, claim_model, complete_model, eligible, has_candidate, is_winner,
    lemma_winner_exists, lemma_winner_unique, preferred, raise_model, winner, PlicView,
    SourceView,
};

verus! {

/// The state right after a raise of `s` has passed its gateway.
pub open spec fn latched(m: PlicView, s: int) -> PlicView {
    PlicView {
        sources: m.sources.update(s, SourceView { pending: true, gate_open: false, ..m.sources[s] }),
        ..m
    }
}

/// Every context holds what arbitration would give it: no write since the
/// last arbitration has left a context behind.
pub open spec fn settled(m: PlicView) -> bool {
    forall|c: int| 0 <= c < m.contexts.len() ==> #[trigger] arbitrate_context(m, c) == m.contexts[c]
}

/// Raising an enabled source `s` through its open gateway, with a priority
/// above context `c`'s threshold and preferred over every other candidate of
/// `c`, puts `s` in `c`'s claim register.
pub proof fn lemma_raise_reaches_context(m: PlicView, s: int, c: int)
    requires
        m.wf(),
        1 <= s < INTERRUPT_SOURCE_NUM,
        0 <= c < m.contexts.len(),
        m.contexts[c].enable[s],
        m.sources[s].priority > m.contexts[c].threshold,
        m.sources[s].gate_open,
        forall|t: int| eligible(m, c, t) && t != s ==> preferred(m, s, t),
    ensures
        raise_model(m, s).contexts[c].claim == s,
        raise_model(m, s).contexts[c].notified,
{
    let l = latched(m, s);
    assert(eligible(l, c, s));
    assert forall|t: int| eligible(l, c, t) && t != s implies preferred(l, s, t) by {
        assert(eligible(m, c, t));
    }
    assert(is_winner(l, c, s));
    lemma_winner_unique(l, c, s);
}

/// From a settled state, a raise of `s` changes the claim register of a
/// context only to put `s` there, and only in a context where `s` is
/// enabled.
pub proof fn lemma_raise_leaves_other_contexts(m: PlicView, s: int, c: int)
    requires
        m.wf(),
        settled(m),
        1 <= s < INTERRUPT_SOURCE_NUM,
        0 <= c < m.contexts.len(),
    ensures
        raise_model(m, s).contexts[c].claim != m.contexts[c].claim ==> {
            &&& raise_model(m, s).contexts[c].claim == s
            &&& m.contexts[c].enable[s]
        },
{
    if m.sources[s].gate_open {
        let l = latched(m, s);
        assert(arbitrate_context(m, c) == m.contexts[c]);
        if eligible(l, c, s) {
            let w = winner(l, c);
            lemma_winner_exists(l, c);
            if w != s {
                assert(eligible(m, c, w));
                assert forall|t: int| eligible(m, c, t) && t != w implies preferred(m, w, t) by {
                    assert(eligible(l, c, t));
                }
                assert(is_winner(m, c, w));
                lemma_winner_unique(m, c, w);
            }
        } else {
            assert forall|t: int| eligible(l, c, t) == eligible(m, c, t) by {}
            if has_candidate(m, c) {
                lemma_winner_exists(m, c);
                let w = winner(m, c);
                assert forall|t: int| eligible(l, c, t) && t != w implies preferred(l, w, t) by {
                    assert(eligible(m, c, t));
                }
                assert(is_winner(l, c, w));
                lemma_winner_unique(l, c, w);
            } else {
                assert(!has_candidate(l, c));
            }
        }
    }
}

/// Among the candidates of context `c` at the highest priority, arbitration
/// selects the one with the lowest id.
pub proof fn lemma_tie_break_lowest_id(m: PlicView, c: int, s: int)
    requires
        m.wf(),
        0 <= c < m.contexts.len(),
        eligible(m, c, s),
        forall|u: int| #[trigger] eligible(m, c, u) ==> m.sources[u].priority <= m.sources[s].priority,
        forall|u: int|
            #[trigger] eligible(m, c, u) && m.sources[u].priority == m.sources[s].priority ==> s <= u,
    ensures
        arbitrate(m).contexts[c].claim == s,
{
    assert(is_winner(m, c, s));
    assert(has_candidate(m, c));
    lemma_winner_unique(m, c, s);
}

/// Raising `s` a second time, before the first occurrence is completed,
/// changes nothing: the gateway stays closed and `pending` is latched once.
pub proof fn lemma_raise_twice(m: PlicView, s: int)
    requires
        m.wf(),
        1 <= s < INTERRUPT_SOURCE_NUM,
    ensures
        raise_model(raise_model(m, s), s) == raise_model(m, s),
        !raise_model(m, s).sources[s].gate_open,
{
}

/// A claim returns the source in the claim register; completing with that
/// value reopens its gateway and resets the register, after which a fresh
/// raise of the source passes its gateway, and where the source still wins
/// in the context, it is claimed there again.
pub proof fn lemma_claim_complete_round_trip(m: PlicView, c: int)
    requires
        m.wf(),
        0 <= c < m.contexts.len(),
        m.contexts[c].claim != 0,
        !m.sources[m.contexts[c].claim as int].gate_open,
    ensures
        ({
            let s = m.contexts[c].claim as int;
            let m1 = claim_model(m, c);
            let m2 = complete_model(m1, c);
            let m3 = raise_model(m2, s);
            &&& m1.contexts == m.contexts
            &&& m1.contexts[c].claim == s
            &&& !m1.sources[s].pending
            &&& !m1.sources[s].gate_open
            &&& m2.sources[s].gate_open
            &&& m2.sources[s].pending == m1.sources[s].pending
            &&& m2.sources[s].priority == m.sources[s].priority
            &&& (forall|t: int| 0 <= t < m.sources.len() && t != s ==> m2.sources[t] == m.sources[t])
            &&& m2.contexts[c].claim == 0
            &&& !m2.contexts[c].notified
            &&& m2.contexts[c].enable == m.contexts[c].enable
            &&& m2.contexts[c].threshold == m.contexts[c].threshold
            &&& (forall|k: int| 0 <= k < m.contexts.len() && k != c ==> m2.contexts[k] == m.contexts[k])
            &&& m3.sources[s].pending
            &&& !m3.sources[s].gate_open
            &&& (m.contexts[c].enable[s] && m.sources[s].priority > m.contexts[c].threshold
                && (forall|t: int| eligible(m, c, t) && t != s ==> preferred(m, s, t)))
                ==> m3.contexts[c].claim == s
        }),
{
    let s = m.contexts[c].claim as int;
    let m1 = claim_model(m, c);
    let m2 = complete_model(m1, c);
    assert(m2.wf());
    if m.contexts[c].enable[s] && m.sources[s].priority > m.contexts[c].threshold
        && (forall|t: int| eligible(m, c, t) && t != s ==> preferred(m, s, t)) {
        assert forall|t: int| eligible(m2, c, t) && t != s implies preferred(m2, s, t) by {
            assert(eligible(m, c, t));
        }
        lemma_raise_reaches_context(m2, s, c);
    }
}

/// A source at or below context `c`'s threshold never enters `c`'s claim
/// register by being raised.
pub proof fn lemma_threshold_masks(m: PlicView, s: int, c: int)
    requires
        m.wf(),
        1 <= s < INTERRUPT_SOURCE_NUM,
        0 <= c < m.contexts.len(),
        m.sources[s].priority <= m.contexts[c].threshold,
    ensures
        raise_model(m, s).contexts[c].claim == s ==> m.contexts[c].claim == s,
{
    if m.sources[s].gate_open {
        let l = latched(m, s);
        if has_candidate(l, c) {
            lemma_winner_exists(l, c);
        }
    }
}


/// Arbitration writes into a claim register only a candidate of that
/// context: a real source, enabled there, pending, and above the threshold.
/// So a source at or below the threshold never enters the register, and a
/// register is never changed to 0.
pub proof fn lemma_arbitration_claims_candidate(m: PlicView, c: int)
    requires
        m.wf(),
        0 <= c < m.contexts.len(),
    ensures
        arbitrate(m).contexts[c].claim != m.contexts[c].claim ==> eligible(
            m,
            c,
            arbitrate(m).contexts[c].claim as int,
        ),
{
    if has_candidate(m, c) {
        lemma_winner_exists(m, c);
    }
}

} // verus!
