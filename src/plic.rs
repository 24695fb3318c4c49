use vstd::prelude::*;
use crate::decode::{decode, Register, INTERRUPT_SOURCE_NUM, MAX_CONTEXT_NUM};
use crate::gateway::{gate_open, new_gate, read_gate, swap_gate};
use crate::model::{
    arbitrate, arbitrate_context, bit_set, claim_model, complete_model, eligible, enable_after,
    has_candidate, initial, mmio_offset, read_model, read_returns, register_at, write_allowed,
    write_model, is_winner, lemma_arbitrate_wf, lemma_winner_unique, preferred,
    raise_model, ContextView, PlicView,
    SourceView,
};

verus! {

/// How many times a raise tries to enter a closed gateway before the event
/// is dropped.
pub const GATEWAY_RETRIES: u32 = 10;

/// Registers and handshake state of one interrupt source.
struct InterruptState {
    /// Open when no occurrence of the source is outstanding.
    gateway: spin::mutex::Mutex<bool>,
    /// Pending bit of the source.
    interrupt_pending: bool,
    /// Priority register of the source.
    interrupt_priority: u32,
}

/// Registers of one hart context.
struct HartContext {
    /// One enable bit per interrupt source.
    interrupt_enable: Vec<bool>,
    /// Interrupts of a priority at or below this are masked.
    interrupt_threshold: u32,
    /// Claim register, also written on completion.
    interrupt_claim: u32,
    /// Whether an external interrupt is signalled to this context.
    notified: bool,
}

/// A virtual platform-level interrupt controller.
pub struct Plic {
    /// Base address of the register window.
    base: usize,
    interrupt_sources: Vec<InterruptState>,
    hart_contexts: Vec<HartContext>,
}

spec fn source_view(s: InterruptState) -> SourceView {
    SourceView {
        priority: s.interrupt_priority,
        pending: s.interrupt_pending,
        gate_open: gate_open(s.gateway),
    }
}

spec fn context_view(c: HartContext) -> ContextView {
    ContextView {
        enable: c.interrupt_enable@,
        threshold: c.interrupt_threshold,
        claim: c.interrupt_claim,
        notified: c.notified,
    }
}

impl View for Plic {
    type V = PlicView;

    closed spec fn view(&self) -> PlicView {
        PlicView {
            base: self.base,
            sources: self.interrupt_sources@.map_values(|s: InterruptState| source_view(s)),
            contexts: self.hart_contexts@.map_values(|c: HartContext| context_view(c)),
        }
    }
}

/// Relies on `axconfig::plat::CPU_NUM`: the number of CPUs that the
/// platform is configured with, 16 in the configuration this crate builds.
#[verifier::external_body]
fn configured_harts() -> (r: usize)
    ensures
        r == 16,
{
    axconfig::plat::CPU_NUM
}

impl Plic {
    pub open spec fn wf(&self) -> bool {
        self@.wf()
    }

    /// A controller at `base` with two contexts for each of `harts` harts,
    /// every register zero and every gateway open.
    pub fn with_harts(base: usize, harts: usize) -> (r: Plic)
        requires
            harts <= MAX_CONTEXT_NUM / 2,
        ensures
            r.wf(),
            r@ == initial(base, 2 * harts as nat),
    {
        let mut sources: Vec<InterruptState> = Vec::new();
        let mut s: usize = 0;
        while s < INTERRUPT_SOURCE_NUM
            invariant
                s <= INTERRUPT_SOURCE_NUM,
                sources@.len() == s,
                forall|k: int|
                    0 <= k < s ==> source_view(#[trigger] sources@[k]) == (SourceView {
                        priority: 0,
                        pending: false,
                        gate_open: true,
                    }),
            decreases INTERRUPT_SOURCE_NUM - s,
        {
            sources.push(
                InterruptState { gateway: new_gate(true), interrupt_pending: false, interrupt_priority: 0 },
            );
            s += 1;
        }
        let n = 2 * harts;
        let mut contexts: Vec<HartContext> = Vec::new();
        let mut c: usize = 0;
        while c < n
            invariant
                c <= n,
                contexts@.len() == c,
                forall|k: int|
                    0 <= k < c ==> context_view(#[trigger] contexts@[k]) == (ContextView {
                        enable: Seq::new(INTERRUPT_SOURCE_NUM as nat, |s: int| false),
                        threshold: 0,
                        claim: 0,
                        notified: false,
                    }),
            decreases n - c,
        {
            let mut enable: Vec<bool> = Vec::new();
            let mut s: usize = 0;
            while s < INTERRUPT_SOURCE_NUM
                invariant
                    s <= INTERRUPT_SOURCE_NUM,
                    enable@.len() == s,
                    forall|k: int| 0 <= k < s ==> !enable@[k],
                decreases INTERRUPT_SOURCE_NUM - s,
            {
                enable.push(false);
                s += 1;
            }
            assert(enable@ =~= Seq::new(INTERRUPT_SOURCE_NUM as nat, |s: int| false));
            contexts.push(
                HartContext {
                    interrupt_enable: enable,
                    interrupt_threshold: 0,
                    interrupt_claim: 0,
                    notified: false,
                },
            );
            c += 1;
        }
        let r = Plic { base, interrupt_sources: sources, hart_contexts: contexts };
        assert(r@.sources =~= initial(base, n as nat).sources);
        assert(r@.contexts =~= initial(base, n as nat).contexts);
        r
    }

    /// A controller at `base` with two contexts for each of the 16
    /// configured harts, bounded by the largest number of contexts the layout
    /// addresses.
    pub fn new(base: usize) -> (r: Plic)
        ensures
            r.wf(),
            r@.contexts.len() == 2 * 16,
            r@ == initial(base, 2 * 16),
    {
        let configured = configured_harts();
        let harts = if configured <= MAX_CONTEXT_NUM / 2 {
            configured
        } else {
            MAX_CONTEXT_NUM / 2
        };
        Plic::with_harts(base, harts)
    }

    pub fn base(&self) -> (r: usize)
        ensures
            r == self@.base,
    {
        self.base
    }

    /// Number of hart contexts.
    pub fn context_count(&self) -> (r: usize)
        ensures
            r == self@.contexts.len(),
    {
        self.hart_contexts.len()
    }

    /// The claim register of context `ctx`.
    pub fn claim_register(&self, ctx: usize) -> (r: u32)
        requires
            ctx < self@.contexts.len(),
        ensures
            r == self@.contexts[ctx as int].claim,
    {
        self.hart_contexts[ctx].interrupt_claim
    }

    /// Whether context `ctx` is signalled an external interrupt.
    pub fn is_notified(&self, ctx: usize) -> (r: bool)
        requires
            ctx < self@.contexts.len(),
        ensures
            r == self@.contexts[ctx as int].notified,
    {
        self.hart_contexts[ctx].notified
    }

    /// Whether source `source` is pending.
    pub fn is_pending(&self, source: usize) -> (r: bool)
        requires
            self.wf(),
            source < INTERRUPT_SOURCE_NUM,
        ensures
            r == self@.sources[source as int].pending,
    {
        self.interrupt_sources[source].interrupt_pending
    }
}


impl Plic {
    /// Scans the sources in ascending id order for the candidate of context
    /// `c` with the highest priority, the lowest id among equals; 0 if none.
    fn select(&self, c: usize) -> (r: u32)
        requires
            self.wf(),
            c < self@.contexts.len(),
        ensures
            r < INTERRUPT_SOURCE_NUM,
            r == 0 ==> !has_candidate(self@, c as int),
            r != 0 ==> is_winner(self@, c as int, r as int),
    {
        let ghost m = self@;
        let ctx = &self.hart_contexts[c];
        assert(context_view(*ctx) == m.contexts[c as int]);
        let mut selected_prio: u32 = 0;
        let mut selected_irq: u32 = 0;
        let mut i: usize = 1;
        while i < INTERRUPT_SOURCE_NUM
            invariant
                m == self@,
                m.wf(),
                c < m.contexts.len(),
                context_view(*ctx) == m.contexts[c as int],
                1 <= i <= INTERRUPT_SOURCE_NUM,
                selected_irq < i,
                selected_irq == 0 ==> selected_prio == 0,
                selected_irq == 0 ==> forall|t: int|
                    1 <= t < i ==> !#[trigger] eligible(m, c as int, t),
                selected_irq != 0 ==> eligible(m, c as int, selected_irq as int),
                selected_irq != 0 ==> selected_prio == m.sources[selected_irq as int].priority,
                selected_irq != 0 ==> forall|t: int|
                    #![trigger eligible(m, c as int, t)]
                    1 <= t < i && eligible(m, c as int, t) && t != selected_irq
                        ==> preferred(m, selected_irq as int, t),
            decreases INTERRUPT_SOURCE_NUM - i,
        {
            let irq = &self.interrupt_sources[i];
            assert(source_view(*irq) == m.sources[i as int]);
            if ctx.interrupt_enable[i] && irq.interrupt_pending
                && irq.interrupt_priority > ctx.interrupt_threshold
                && irq.interrupt_priority > selected_prio {
                selected_irq = i as u32;
                selected_prio = irq.interrupt_priority;
            }
            i += 1;
        }
        selected_irq
    }

    /// Re-runs arbitration for every context.
    fn notification(&mut self)
        requires
            old(self).wf(),
        ensures
            final(self).wf(),
            final(self)@ == arbitrate(old(self)@),
    {
        let ghost m = self@;
        let n = self.hart_contexts.len();
        let mut c: usize = 0;
        while c < n
            invariant
                n == m.contexts.len(),
                m.wf(),
                m == old(self)@,
                self@.base == m.base,
                self@.sources == m.sources,
                self@.contexts.len() == n,
                c <= n,
                forall|k: int| 0 <= k < c ==> #[trigger] self@.contexts[k] == arbitrate_context(m, k),
                forall|k: int| c <= k < n ==> #[trigger] self@.contexts[k] == m.contexts[k],
            decreases n - c,
        {
            proof {
                lemma_arbitrate_wf(m);
                assert(self@.wf()) by {
                    assert forall|k: int| 0 <= k < self@.contexts.len() implies
                        #[trigger] self@.contexts[k] == arbitrate(m).contexts[k] || self@.contexts[k] == m.contexts[k] by {
                        if k < c {
                            assert(self@.contexts[k] == arbitrate(m).contexts[k]);
                        }
                    }
                    assert forall|k: int| 0 <= k < self@.contexts.len() implies {
                        &&& (#[trigger] self@.contexts[k]).enable.len() == INTERRUPT_SOURCE_NUM
                        &&& !self@.contexts[k].enable[0]
                        &&& self@.contexts[k].claim < INTERRUPT_SOURCE_NUM
                    } by {
                        if k < c {
                            assert(self@.contexts[k] == arbitrate(m).contexts[k]);
                            assert(arbitrate(m).wf());
                        } else {
                            assert(m.contexts[k] == self@.contexts[k]);
                        }
                    }
                }
                assert forall|t: int| eligible(self@, c as int, t) == eligible(m, c as int, t) by {}
            }
            let sel = self.select(c);
            proof {
                if sel != 0 {
                    assert(is_winner(m, c as int, sel as int));
                    lemma_winner_unique(m, c as int, sel as int);
                } else {
                    assert(!has_candidate(m, c as int));
                }
            }
            let ghost before = self@;
            assert(before.contexts[c as int] == m.contexts[c as int]);
            if sel != 0 {
                self.hart_contexts[c].interrupt_claim = sel;
                self.hart_contexts[c].notified = true;
            } else {
                self.hart_contexts[c].notified = false;
            }
            proof {
                assert(context_view(self.hart_contexts@[c as int]) == arbitrate_context(m, c as int));
                assert(self@.contexts =~= before.contexts.update(c as int, arbitrate_context(m, c as int)));
            }
            c += 1;
        }
        proof {
            lemma_arbitrate_wf(m);
            assert(self@.contexts =~= arbitrate(m).contexts);
        }
    }

    /// Raises source `irq_source_id`. Through an open gateway the source is
    /// latched pending and arbitration re-runs; while a previous occurrence
    /// is outstanding the gateway stays closed and, after a bounded number of
    /// tries, the event is dropped.
    pub fn raise_interrupt(&mut self, irq_source_id: u32)
        requires
            old(self).wf(),
            0 < irq_source_id < INTERRUPT_SOURCE_NUM,
        ensures
            final(self).wf(),
            final(self)@ == raise_model(old(self)@, irq_source_id as int),
    {
        let ghost m = self@;
        let s = irq_source_id as usize;
        let ghost latched = PlicView {
            sources: m.sources.update(
                s as int,
                SourceView { pending: true, gate_open: false, ..m.sources[s as int] },
            ),
            ..m
        };
        let mut attempts: u32 = 0;
        let mut entered = false;
        while !entered && attempts < GATEWAY_RETRIES
            invariant
                m == old(self)@,
                m.wf(),
                s == irq_source_id,
                0 < s < INTERRUPT_SOURCE_NUM,
                attempts <= GATEWAY_RETRIES,
                self@.base == m.base,
                self@.contexts == m.contexts,
                self.interrupt_sources@.len() == INTERRUPT_SOURCE_NUM,
                attempts == 0 ==> !entered && self@ == m,
                attempts > 0 ==> entered == m.sources[s as int].gate_open,
                !entered ==> self@ == m,
                entered ==> self@.sources == m.sources.update(
                    s as int,
                    SourceView { gate_open: false, ..m.sources[s as int] },
                ),
            decreases GATEWAY_RETRIES - attempts,
        {
            entered = swap_gate(&mut self.interrupt_sources[s].gateway, false);
            attempts += 1;
            proof {
                if !entered {
                    assert(self@.sources =~= m.sources);
                } else {
                    assert(self@.sources =~= m.sources.update(
                        s as int,
                        SourceView { gate_open: false, ..m.sources[s as int] },
                    ));
                }
            }
        }
        if !entered {
            return;
        }
        let ghost before = self@;
        self.interrupt_sources[s].interrupt_pending = true;
        proof {
            assert(self@.sources =~= before.sources.update(
                s as int,
                SourceView { pending: true, ..before.sources[s as int] },
            ));
            assert(self@.sources =~= latched.sources);
            assert(self@ == latched);
        }
        self.notification();
    }

    /// Context `context_id` claims the source in its claim register: the
    /// source stops pending; its gateway stays closed until completion.
    /// The claim register itself is not reset, so a second claim before
    /// completion returns the same id again; only completion resets it.
    fn claim(&mut self, context_id: usize) -> (r: u32)
        requires
            old(self).wf(),
            context_id < old(self)@.contexts.len(),
        ensures
            final(self).wf(),
            r == old(self)@.contexts[context_id as int].claim,
            final(self)@ == claim_model(old(self)@, context_id as int),
    {
        let ghost m = self@;
        let claim = self.hart_contexts[context_id].interrupt_claim;
        assert(claim == m.contexts[context_id as int].claim);
        self.interrupt_sources[claim as usize].interrupt_pending = false;
        proof {
            assert(self@.sources =~= claim_model(m, context_id as int).sources);
            assert(self@.contexts =~= m.contexts);
        }
        claim
    }

    /// Context `context_id` completes the claimed source `val`: the claim
    /// register is reset, the notification deasserted and the source's
    /// gateway reopened.
    fn complete(&mut self, context_id: usize, val: u32)
        requires
            old(self).wf(),
            context_id < old(self)@.contexts.len(),
            val == old(self)@.contexts[context_id as int].claim,
            !old(self)@.sources[val as int].gate_open,
        ensures
            final(self).wf(),
            final(self)@ == complete_model(old(self)@, context_id as int),
    {
        let ghost m = self@;
        let claim = self.hart_contexts[context_id].interrupt_claim;
        self.hart_contexts[context_id].interrupt_claim = 0;
        self.hart_contexts[context_id].notified = false;
        let was_open = swap_gate(&mut self.interrupt_sources[claim as usize].gateway, true);
        assert(!was_open);
        proof {
            assert(self@.sources =~= complete_model(m, context_id as int).sources);
            assert(self@.contexts =~= complete_model(m, context_id as int).contexts);
        }
    }
}


proof fn lemma_bit_or(t: u32, i: u32, k: u32)
    by (bit_vector)
    requires
        i < 32,
        k < 32,
    ensures
        ((t | (1u32 << i)) >> k) & 1u32 != 0 <==> (k == i || (t >> k) & 1u32 != 0),
{
}

proof fn lemma_bit_zero(k: u32)
    by (bit_vector)
    requires
        k < 32,
    ensures
        (0u32 >> k) & 1u32 == 0,
{
}

impl Plic {
    fn offset_of(&self, addr: usize) -> (r: usize)
        ensures
            r == mmio_offset(self@.base, addr),
    {
        if addr >= self.base {
            addr - self.base
        } else {
            usize::MAX - (self.base - addr) + 1
        }
    }

    /// Whether source `source`'s gateway is open.
    pub fn gateway_open(&self, source: usize) -> (r: bool)
        requires
            self.wf(),
            source < INTERRUPT_SOURCE_NUM,
        ensures
            r == self@.sources[source as int].gate_open,
    {
        read_gate(&self.interrupt_sources[source].gateway)
    }

    /// Whether a read at `addr` names a register.
    pub fn can_read(&self, addr: usize) -> (r: bool)
        ensures
            r == register_at(self@, addr).is_some(),
    {
        decode(self.offset_of(addr), self.hart_contexts.len()).is_some()
    }

    /// Whether a write of `val` at `addr` is admitted.
    pub fn can_write(&self, addr: usize, val: u32) -> (r: bool)
        requires
            self.wf(),
        ensures
            r == write_allowed(self@, addr, val),
    {
        match decode(self.offset_of(addr), self.hart_contexts.len()) {
            Some(Register::Claim { ctx }) => {
                let claim = self.hart_contexts[ctx].interrupt_claim;
                assert(self@.contexts[ctx as int].claim == claim);
                val == claim && !read_gate(&self.interrupt_sources[claim as usize].gateway)
            },
            Some(_) => true,
            None => false,
        }
    }

    /// Word `word` of context `ctx`'s enable bitmap.
    fn read_enable_word(&self, ctx: usize, word: usize) -> (r: u32)
        requires
            self.wf(),
            ctx < self@.contexts.len(),
            word < 32,
        ensures
            forall|i: u32|
                i < 32 ==> bit_set(r, i) == self@.contexts[ctx as int].enable[word * 32 + i],
    {
        let ghost e = self@.contexts[ctx as int].enable;
        assert(self.hart_contexts@[ctx as int].interrupt_enable@ == e);
        let mut tmp: u32 = 0;
        let mut i: u32 = 0;
        proof {
            assert forall|k: u32| k < 32 implies !bit_set(tmp, k) by {
                lemma_bit_zero(k);
            }
        }
        while i < 32
            invariant
                self.wf(),
                ctx < self@.contexts.len(),
                word < 32,
                e == self@.contexts[ctx as int].enable,
                self.hart_contexts@[ctx as int].interrupt_enable@ == e,
                e.len() == INTERRUPT_SOURCE_NUM,
                i <= 32,
                forall|k: u32| k < i ==> bit_set(tmp, k) == e[word * 32 + k],
                forall|k: u32| i <= k < 32 ==> !bit_set(tmp, k),
            decreases 32 - i,
        {
            let irq = word * 32 + i as usize;
            let enabled = self.hart_contexts[ctx].interrupt_enable[irq];
            assert(enabled == e[word * 32 + i]);
            let ghost prev = tmp;
            if enabled {
                tmp = tmp | (1u32 << i);
                proof {
                    assert forall|k: u32| k < 32 implies bit_set(tmp, k) == (k == i || bit_set(prev, k)) by {
                        lemma_bit_or(prev, i, k);
                    }
                }
            }
            i += 1;
        }
        tmp
    }

    /// Reads the register at `addr`. A read of a context's claim register
    /// claims the source it holds.
    pub fn read_u32(&mut self, addr: usize) -> (r: u32)
        requires
            old(self).wf(),
            register_at(old(self)@, addr).is_some(),
        ensures
            final(self).wf(),
            read_returns(old(self)@, register_at(old(self)@, addr)->Some_0, r),
            final(self)@ == read_model(old(self)@, register_at(old(self)@, addr)->Some_0),
    {
        let offset = self.offset_of(addr);
        match decode(offset, self.hart_contexts.len()) {
            Some(Register::Priority { source }) => self.interrupt_sources[source].interrupt_priority,
            Some(Register::Enable { ctx, word }) => self.read_enable_word(ctx, word),
            Some(Register::Threshold { ctx }) => self.hart_contexts[ctx].interrupt_threshold,
            Some(Register::Claim { ctx }) => self.claim(ctx),
            None => 0,
        }
    }

    /// Stores `val` as word `word` of context `ctx`'s enable bitmap, keeping
    /// source 0 disabled.
    fn write_enable_word(&mut self, ctx: usize, word: usize, val: u32)
        requires
            old(self).wf(),
            ctx < old(self)@.contexts.len(),
            word < 32,
        ensures
            final(self)@ == (PlicView {
                contexts: old(self)@.contexts.update(
                    ctx as int,
                    ContextView {
                        enable: enable_after(old(self)@.contexts[ctx as int].enable, word as int, val),
                        ..old(self)@.contexts[ctx as int]
                    },
                ),
                ..old(self)@
            }),
    {
        let ghost m = self@;
        let ghost e = m.contexts[ctx as int].enable;
        let mut i: usize = 0;
        while i < 32
            invariant
                m == old(self)@,
                m.wf(),
                ctx < m.contexts.len(),
                word < 32,
                e == m.contexts[ctx as int].enable,
                i <= 32,
                self@.base == m.base,
                self@.sources == m.sources,
                self@.contexts.len() == m.contexts.len(),
                forall|k: int| 0 <= k < m.contexts.len() && k != ctx ==> #[trigger] self@.contexts[k] == m.contexts[k],
                self@.contexts[ctx as int].threshold == m.contexts[ctx as int].threshold,
                self@.contexts[ctx as int].claim == m.contexts[ctx as int].claim,
                self@.contexts[ctx as int].notified == m.contexts[ctx as int].notified,
                self@.contexts[ctx as int].enable.len() == INTERRUPT_SOURCE_NUM,
                forall|s: int|
                    0 <= s < INTERRUPT_SOURCE_NUM ==> #[trigger] self@.contexts[ctx as int].enable[s] == if word * 32 <= s < word * 32 + i {
                        s != 0 && bit_set(val, (s - word * 32) as u32)
                    } else {
                        e[s]
                    },
            decreases 32 - i,
        {
            let irq = word * 32 + i;
            let flag = irq != 0 && (val >> (i as u32)) & 1u32 != 0;
            let ghost before = self@;
            self.hart_contexts[ctx].interrupt_enable.set(irq, flag);
            proof {
                assert(self@.contexts =~= before.contexts.update(
                    ctx as int,
                    ContextView {
                        enable: before.contexts[ctx as int].enable.update(irq as int, flag),
                        ..before.contexts[ctx as int]
                    },
                ));
            }
            i += 1;
        }
        proof {
            assert(self@.contexts[ctx as int].enable =~= enable_after(e, word as int, val));
            assert(self@.contexts =~= m.contexts.update(
                ctx as int,
                ContextView { enable: enable_after(e, word as int, val), ..m.contexts[ctx as int] },
            ));
        }
    }

    /// Writes `val` to the register at `addr`. A write of a priority, an
    /// enable word or a threshold re-runs arbitration; a write of a
    /// context's claim register completes the claimed source.
    pub fn write_u32(&mut self, addr: usize, val: u32)
        requires
            old(self).wf(),
            write_allowed(old(self)@, addr, val),
        ensures
            final(self).wf(),
            final(self)@ == write_model(old(self)@, register_at(old(self)@, addr)->Some_0, val),
    {
        let ghost m = self@;
        let offset = self.offset_of(addr);
        match decode(offset, self.hart_contexts.len()) {
            Some(Register::Priority { source }) => {
                self.interrupt_sources[source].interrupt_priority = val;
                proof {
                    assert(self@.sources =~= m.sources.update(
                        source as int,
                        SourceView { priority: val, ..m.sources[source as int] },
                    ));
                }
                self.notification();
            },
            Some(Register::Enable { ctx, word }) => {
                self.write_enable_word(ctx, word, val);
                proof {
                    let e2 = enable_after(m.contexts[ctx as int].enable, word as int, val);
                    assert(e2.len() == INTERRUPT_SOURCE_NUM);
                    assert(!e2[0]);
                    assert forall|k: int| 0 <= k < self@.contexts.len() implies {
                        &&& (#[trigger] self@.contexts[k]).enable.len() == INTERRUPT_SOURCE_NUM
                        &&& !self@.contexts[k].enable[0]
                        &&& self@.contexts[k].claim < INTERRUPT_SOURCE_NUM
                    } by {
                        if k != ctx {
                            assert(self@.contexts[k] == m.contexts[k]);
                        }
                    }
                }
                self.notification();
            },
            Some(Register::Threshold { ctx }) => {
                self.hart_contexts[ctx].interrupt_threshold = val;
                proof {
                    assert(self@.contexts =~= m.contexts.update(
                        ctx as int,
                        ContextView { threshold: val, ..m.contexts[ctx as int] },
                    ));
                }
                self.notification();
            },
            Some(Register::Claim { ctx }) => {
                self.complete(ctx, val);
            },
            None => {},
        }
    }
}


impl Default for Plic {
    /// A controller at the conventional base address `0xC00_0000`.
    fn default() -> (r: Plic)
        ensures
            r.wf(),
            r@ == initial(0xC00_0000, 2 * 16),
    {
        Plic::new(0xC00_0000)
    }
}

} // verus!
