use vstd::prelude::*;
use crate::decode::{spec_decode, Register, INTERRUPT_SOURCE_NUM, MAX_CONTEXT_NUM};

verus! {

/// The abstract state of one interrupt source.
pub struct SourceView {
    pub priority: u32,
    /// Latched from a successful raise until claimed.
    pub pending: bool,
    /// Closed while an occurrence of the source is outstanding.
    pub gate_open: bool,
}

/// The abstract state of one hart context.
pub struct ContextView {
    /// Membership of each source id in the context's enable set.
    pub enable: Seq<bool>,
    /// Priorities at or below this value are masked.
    pub threshold: u32,
    /// The claim register: a source id, or 0 for none.
    pub claim: u32,
    /// Whether the context's external-interrupt notification is asserted.
    pub notified: bool,
}

/// The abstract state of the whole controller.
pub struct PlicView {
    pub base: usize,
    pub sources: Seq<SourceView>,
    pub contexts: Seq<ContextView>,
}

impl PlicView {
    /// Table sizes are fixed, source 0 is never enabled nor pending, and every
    /// claim register names a source of the table.
    pub open spec fn wf(self) -> bool {
        &&& self.sources.len() == INTERRUPT_SOURCE_NUM
        &&& self.contexts.len() <= MAX_CONTEXT_NUM
        &&& !self.sources[0].pending
        &&& forall|c: int|
            0 <= c < self.contexts.len() ==> {
                &&& (#[trigger] self.contexts[c]).enable.len() == INTERRUPT_SOURCE_NUM
                &&& !self.contexts[c].enable[0]
                &&& self.contexts[c].claim < INTERRUPT_SOURCE_NUM
            }
    }
}

/// The state right after construction: every priority, threshold, claim and
/// enable bit zero, nothing pending, every gateway open.
pub open spec fn initial(base: usize, contexts: nat) -> PlicView {
    PlicView {
        base,
        sources: Seq::new(
            INTERRUPT_SOURCE_NUM as nat,
            |s: int| SourceView { priority: 0, pending: false, gate_open: true },
        ),
        contexts: Seq::new(
            contexts,
            |c: int|
                ContextView {
                    enable: Seq::new(INTERRUPT_SOURCE_NUM as nat, |s: int| false),
                    threshold: 0,
                    claim: 0,
                    notified: false,
                },
        ),
    }
}

/// Source `s` is a candidate for context `c`: a real source, enabled there,
/// pending, and above the context's threshold.
pub open spec fn eligible(m: PlicView, c: int, s: int) -> bool {
    &&& 1 <= s < m.sources.len()
    &&& m.contexts[c].enable[s]
    &&& m.sources[s].pending
    &&& m.sources[s].priority > m.contexts[c].threshold
}

/// Source `s` wins over source `t`: a higher priority, or the same priority
/// and a lower id.
pub open spec fn preferred(m: PlicView, s: int, t: int) -> bool {
    ||| m.sources[s].priority > m.sources[t].priority
    ||| (m.sources[s].priority == m.sources[t].priority && s < t)
}

pub open spec fn has_candidate(m: PlicView, c: int) -> bool {
    exists|s: int| eligible(m, c, s)
}

/// `w` is the candidate of context `c` preferred over every other candidate.
pub open spec fn is_winner(m: PlicView, c: int, w: int) -> bool {
    &&& eligible(m, c, w)
    &&& forall|t: int| #[trigger] eligible(m, c, t) && t != w ==> preferred(m, w, t)
}

pub open spec fn winner(m: PlicView, c: int) -> int {
    choose|w: int| is_winner(m, c, w)
}

/// Context `c` after arbitration: with a candidate, the winner goes to the
/// claim register and the notification is asserted; without one, the
/// notification is deasserted and the claim register is left as it was,
/// a stale value included.
///
/// A claim register that was claimed but not yet completed is overwritten
/// when another candidate wins. The claimed source's gateway then stays
/// closed until a completion names it, so "gateway closed" does not imply
/// that some claim register holds the source.
pub open spec fn arbitrate_context(m: PlicView, c: int) -> ContextView {
    if has_candidate(m, c) {
        ContextView { claim: winner(m, c) as u32, notified: true, ..m.contexts[c] }
    } else {
        ContextView { notified: false, ..m.contexts[c] }
    }
}

/// Arbitration re-run over every context.
pub open spec fn arbitrate(m: PlicView) -> PlicView {
    PlicView {
        contexts: Seq::new(m.contexts.len(), |c: int| arbitrate_context(m, c)),
        ..m
    }
}

/// A raise of source `s`: through an open gateway, it closes the gateway,
/// latches `pending` and re-runs arbitration; at a closed gateway it is
/// dropped.
pub open spec fn raise_model(m: PlicView, s: int) -> PlicView {
    if m.sources[s].gate_open {
        arbitrate(
            PlicView {
                sources: m.sources.update(
                    s,
                    SourceView { pending: true, gate_open: false, ..m.sources[s] },
                ),
                ..m
            },
        )
    } else {
        m
    }
}

/// A claim by context `c`: the source in its claim register stops pending.
pub open spec fn claim_model(m: PlicView, c: int) -> PlicView {
    let s = m.contexts[c].claim as int;
    PlicView {
        sources: m.sources.update(s, SourceView { pending: false, ..m.sources[s] }),
        ..m
    }
}

/// A completion by context `c`: its claim register is reset, its
/// notification deasserted, and the claimed source's gateway reopened.
pub open spec fn complete_model(m: PlicView, c: int) -> PlicView {
    let s = m.contexts[c].claim as int;
    PlicView {
        sources: m.sources.update(s, SourceView { gate_open: true, ..m.sources[s] }),
        contexts: m.contexts.update(c, ContextView { claim: 0, notified: false, ..m.contexts[c] }),
        ..m
    }
}

/// Bit `i` of `v` is set.
pub open spec fn bit_set(v: u32, i: u32) -> bool {
    (v >> i) & 1u32 != 0
}

/// The enable set after a write of `val` to word `word`: bit `i` of `val`
/// gives source `32 * word + i`, except that source 0 stays disabled.
pub open spec fn enable_after(e: Seq<bool>, word: int, val: u32) -> Seq<bool> {
    Seq::new(
        e.len(),
        |s: int|
            if word * 32 <= s < word * 32 + 32 {
                s != 0 && bit_set(val, (s - word * 32) as u32)
            } else {
                e[s]
            },
    )
}

pub open spec fn set_priority_model(m: PlicView, s: int, v: u32) -> PlicView {
    arbitrate(
        PlicView { sources: m.sources.update(s, SourceView { priority: v, ..m.sources[s] }), ..m },
    )
}

pub open spec fn set_enable_model(m: PlicView, c: int, word: int, v: u32) -> PlicView {
    arbitrate(
        PlicView {
            contexts: m.contexts.update(
                c,
                ContextView { enable: enable_after(m.contexts[c].enable, word, v), ..m.contexts[c] },
            ),
            ..m
        },
    )
}

pub open spec fn set_threshold_model(m: PlicView, c: int, v: u32) -> PlicView {
    arbitrate(
        PlicView {
            contexts: m.contexts.update(c, ContextView { threshold: v, ..m.contexts[c] }),
            ..m
        },
    )
}

/// A winner is the only one.
pub proof fn lemma_winner_unique(m: PlicView, c: int, w: int)
    requires
        is_winner(m, c, w),
    ensures
        winner(m, c) == w,
{
    let v = winner(m, c);
    assert(is_winner(m, c, v));
    if v != w {
        assert(preferred(m, w, v));
        assert(preferred(m, v, w));
    }
}

/// Among the candidates below `n`, if any, one is preferred over the others.
proof fn lemma_prefix_winner(m: PlicView, c: int, n: int) -> (w: int)
    requires
        0 <= n,
        exists|s: int| eligible(m, c, s) && s < n,
    ensures
        eligible(m, c, w),
        w < n,
        forall|t: int| eligible(m, c, t) && t < n && t != w ==> preferred(m, w, t),
    decreases n,
{
    if exists|s: int| eligible(m, c, s) && s < n - 1 {
        let v = lemma_prefix_winner(m, c, n - 1);
        if eligible(m, c, n - 1) && m.sources[n - 1].priority > m.sources[v].priority {
            n - 1
        } else {
            v
        }
    } else {
        let w = choose|s: int| eligible(m, c, s) && s < n;
        assert(w == n - 1);
        w
    }
}

/// A context with a candidate has a winner.
pub proof fn lemma_winner_exists(m: PlicView, c: int)
    requires
        has_candidate(m, c),
    ensures
        is_winner(m, c, winner(m, c)),
{
    let s = choose|s: int| eligible(m, c, s);
    let w = lemma_prefix_winner(m, c, m.sources.len() as int);
    assert(is_winner(m, c, w));
}

/// Arbitration keeps the controller well formed.
pub proof fn lemma_arbitrate_wf(m: PlicView)
    requires
        m.wf(),
    ensures
        arbitrate(m).wf(),
{
    let a = arbitrate(m);
    assert forall|c: int| 0 <= c < a.contexts.len() implies {
        &&& (#[trigger] a.contexts[c]).enable.len() == INTERRUPT_SOURCE_NUM
        &&& !a.contexts[c].enable[0]
        &&& a.contexts[c].claim < INTERRUPT_SOURCE_NUM
    } by {
        assert(m.contexts[c].enable.len() == INTERRUPT_SOURCE_NUM);
        if has_candidate(m, c) {
            lemma_winner_exists(m, c);
        }
    }
}


/// The offset of `addr` in a window at `base`, wrapping below the base.
pub open spec fn mmio_offset(base: usize, addr: usize) -> int {
    if addr >= base {
        addr - base
    } else {
        addr - base + usize::MAX + 1
    }
}

/// The register that an access at `addr` reaches, if any.
pub open spec fn register_at(m: PlicView, addr: usize) -> Option<Register> {
    spec_decode(mmio_offset(m.base, addr), m.contexts.len() as int)
}

/// The result of a read of register `reg`.
pub open spec fn read_returns(m: PlicView, reg: Register, r: u32) -> bool {
    match reg {
        Register::Priority { source } => r == m.sources[source as int].priority,
        Register::Enable { ctx, word } => forall|i: u32|
            i < 32 ==> bit_set(r, i) == m.contexts[ctx as int].enable[word * 32 + i],
        Register::Threshold { ctx } => r == m.contexts[ctx as int].threshold,
        Register::Claim { ctx } => r == m.contexts[ctx as int].claim,
    }
}

/// The state after a read of register `reg`: only a claim changes it.
pub open spec fn read_model(m: PlicView, reg: Register) -> PlicView {
    match reg {
        Register::Claim { ctx } => claim_model(m, ctx as int),
        _ => m,
    }
}

/// A write of `val` to `addr` is admitted: the address names a register,
/// and a completion names the outstanding claim of its context, whose
/// gateway is closed.
pub open spec fn write_allowed(m: PlicView, addr: usize, val: u32) -> bool {
    match register_at(m, addr) {
        Some(Register::Claim { ctx }) => val == m.contexts[ctx as int].claim
            && !m.sources[val as int].gate_open,
        Some(_) => true,
        None => false,
    }
}

/// The state after a write of `val` to register `reg`.
pub open spec fn write_model(m: PlicView, reg: Register, val: u32) -> PlicView {
    match reg {
        Register::Priority { source } => set_priority_model(m, source as int, val),
        Register::Enable { ctx, word } => set_enable_model(m, ctx as int, word as int, val),
        Register::Threshold { ctx } => set_threshold_model(m, ctx as int, val),
        Register::Claim { ctx } => complete_model(m, ctx as int),
    }
}

} // verus!
