use vstd::prelude::*;

verus! {

/// Number of interrupt sources; source 0 is reserved to mean "no interrupt".
pub const INTERRUPT_SOURCE_NUM: usize = 1024;

/// Largest number of hart contexts the register layout can address.
pub const MAX_CONTEXT_NUM: usize = 15872;

/// Offset of the priority registers, one word per source.
pub const PRIORITY_BASE: usize = 0;

/// Last byte offset of the priority block.
pub const PRIORITY_END: usize = 0xFFC;

/// Offset of the per-context enable bitmaps.
pub const ENABLE_BASE: usize = 0x2000;

/// Stride between two contexts' enable bitmaps.
pub const ENABLE_PER_HART: usize = 0x80;

/// Offset of the per-context control blocks.
pub const CONTEXT_BASE: usize = 0x20_0000;

/// Stride between two contexts' control blocks.
pub const CONTEXT_PER_HART: usize = 0x1000;

/// Offset of the threshold register inside a control block.
pub const CONTEXT_THRESHOLD: usize = 0;

/// Offset of the claim/complete register inside a control block.
pub const CONTEXT_CLAIM: usize = 4;

/// A register of the controller's window, as named by an offset.
#[derive(Clone, Copy, Debug, PartialEq, Eq, Structural)]
pub enum Register {
    /// The priority of a source.
    Priority { source: usize },
    /// Word `word` of the enable bitmap of context `ctx`: bit `i` stands for
    /// source `32 * word + i`.
    Enable { ctx: usize, word: usize },
    /// The threshold of a context.
    Threshold { ctx: usize },
    /// The claim (on read) / complete (on write) register of a context.
    Claim { ctx: usize },
}

/// The register that `offset` names in a controller with `contexts` contexts,
/// or `None` where the offset is unaligned, falls in the pending block, names
/// a context past the table, or matches no register.
pub open spec fn spec_decode(offset: int, contexts: int) -> Option<Register> {
    if offset < 0 || offset % 4 != 0 {
        None
    } else if offset <= PRIORITY_END {
        Some(Register::Priority { source: (offset / 4) as usize })
    } else if ENABLE_BASE <= offset < CONTEXT_BASE
        && (offset - ENABLE_BASE) / (ENABLE_PER_HART as int) < contexts {
        Some(Register::Enable {
            ctx: ((offset - ENABLE_BASE) / ENABLE_PER_HART as int) as usize,
            word: (((offset - ENABLE_BASE) % ENABLE_PER_HART as int) / 4) as usize,
        })
    } else if CONTEXT_BASE <= offset
        && (offset - CONTEXT_BASE) / (CONTEXT_PER_HART as int) < contexts {
        let ctx = ((offset - CONTEXT_BASE) / CONTEXT_PER_HART as int) as usize;
        let inner = (offset - CONTEXT_BASE) % CONTEXT_PER_HART as int;
        if inner == CONTEXT_THRESHOLD {
            Some(Register::Threshold { ctx })
        } else if inner == CONTEXT_CLAIM {
            Some(Register::Claim { ctx })
        } else {
            None
        }
    } else {
        None
    }
}

/// Every register that decodes lies inside the tables: sources below
/// `INTERRUPT_SOURCE_NUM`, contexts below `contexts`, enable words below 32.
pub open spec fn register_in_bounds(r: Register, contexts: int) -> bool {
    match r {
        Register::Priority { source } => source < INTERRUPT_SOURCE_NUM,
        Register::Enable { ctx, word } => ctx < contexts && word < 32,
        Register::Threshold { ctx } => ctx < contexts,
        Register::Claim { ctx } => ctx < contexts,
    }
}

/// Resolves an offset into the register window to the register it names.
pub fn decode(offset: usize, contexts: usize) -> (r: Option<Register>)
    ensures
        r == spec_decode(offset as int, contexts as int),
        r matches Some(reg) ==> register_in_bounds(reg, contexts as int),
{
    if offset % 4 != 0 {
        None
    } else if offset <= PRIORITY_END {
        Some(Register::Priority { source: offset / 4 })
    } else if ENABLE_BASE <= offset && offset < CONTEXT_BASE
        && (offset - ENABLE_BASE) / ENABLE_PER_HART < contexts {
        Some(Register::Enable {
            ctx: (offset - ENABLE_BASE) / ENABLE_PER_HART,
            word: ((offset - ENABLE_BASE) % ENABLE_PER_HART) / 4,
        })
    } else if CONTEXT_BASE <= offset && (offset - CONTEXT_BASE) / CONTEXT_PER_HART < contexts {
        let ctx = (offset - CONTEXT_BASE) / CONTEXT_PER_HART;
        let inner = (offset - CONTEXT_BASE) % CONTEXT_PER_HART;
        if inner == CONTEXT_THRESHOLD {
            Some(Register::Threshold { ctx })
        } else if inner == CONTEXT_CLAIM {
            Some(Register::Claim { ctx })
        } else {
            None
        }
    } else {
        None
    }
}

} // verus!
