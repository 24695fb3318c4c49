use vplic::decode::{decode, Register};
use vplic::plic::Plic;

const BASE: usize = 0x0C00_0000;

fn claim_addr(ctx: usize) -> usize {
    BASE + 0x20_0000 + ctx * 0x1000 + 4
}

fn threshold_addr(ctx: usize) -> usize {
    BASE + 0x20_0000 + ctx * 0x1000
}

fn enable_addr(ctx: usize, word: usize) -> usize {
    BASE + 0x2000 + ctx * 0x80 + word * 4
}

fn priority_addr(source: usize) -> usize {
    BASE + source * 4
}

#[test]
fn scenario_raise_claim_complete() {
    let mut plic = Plic::new(BASE);
    plic.write_u32(BASE + 0x4, 5);
    plic.write_u32(BASE + 0x2000, 0x2);
    plic.raise_interrupt(1);
    assert_eq!(plic.read_u32(BASE + 0x20_0004), 1);
    assert_eq!(plic.read_u32(BASE + 0x20_0004), 1);
    assert!(!plic.is_pending(1));
    assert!(plic.can_write(BASE + 0x20_0004, 1));
    plic.write_u32(BASE + 0x20_0004, 1);
    assert!(plic.gateway_open(1));
    assert_eq!(plic.claim_register(0), 0);
    plic.raise_interrupt(1);
    assert!(plic.is_pending(1));
    assert!(!plic.gateway_open(1));
    assert_eq!(plic.read_u32(BASE + 0x20_0004), 1);
}

#[test]
fn second_claim_reads_nothing_new_after_completion_reset() {
    let mut plic = Plic::with_harts(BASE, 1);
    plic.write_u32(priority_addr(1), 5);
    plic.write_u32(enable_addr(0, 0), 0x2);
    plic.raise_interrupt(1);
    assert_eq!(plic.read_u32(claim_addr(0)), 1);
    plic.write_u32(claim_addr(0), 1);
    assert_eq!(plic.read_u32(claim_addr(0)), 0);
}

#[test]
fn new_has_two_contexts_per_configured_hart() {
    let plic = Plic::new(BASE);
    assert_eq!(plic.context_count(), 2 * axconfig::plat::CPU_NUM);
    assert_eq!(plic.base(), BASE);
}

#[test]
fn with_harts_starts_zeroed_and_open() {
    let mut plic = Plic::with_harts(BASE, 2);
    assert_eq!(plic.context_count(), 4);
    for s in 0..1024 {
        assert!(plic.gateway_open(s));
        assert!(!plic.is_pending(s));
    }
    for c in 0..4 {
        assert_eq!(plic.claim_register(c), 0);
        assert!(!plic.is_notified(c));
        assert_eq!(plic.read_u32(threshold_addr(c)), 0);
        assert_eq!(plic.read_u32(enable_addr(c, 31)), 0);
    }
    assert_eq!(plic.read_u32(priority_addr(1023)), 0);
}

#[test]
fn raise_reaches_only_enabled_context() {
    let mut plic = Plic::with_harts(BASE, 2);
    plic.write_u32(priority_addr(40), 3);
    plic.write_u32(enable_addr(2, 1), 1 << 8);
    plic.raise_interrupt(40);
    assert_eq!(plic.claim_register(2), 40);
    assert!(plic.is_notified(2));
    for c in [0, 1, 3] {
        assert_eq!(plic.claim_register(c), 0);
        assert!(!plic.is_notified(c));
    }
}

#[test]
fn higher_priority_wins() {
    let mut plic = Plic::with_harts(BASE, 1);
    plic.write_u32(priority_addr(2), 1);
    plic.write_u32(priority_addr(9), 7);
    plic.write_u32(enable_addr(0, 0), (1 << 2) | (1 << 9));
    plic.raise_interrupt(2);
    assert_eq!(plic.claim_register(0), 2);
    plic.raise_interrupt(9);
    assert_eq!(plic.claim_register(0), 9);
}

#[test]
fn tie_break_prefers_lower_id() {
    let mut plic = Plic::with_harts(BASE, 1);
    plic.write_u32(priority_addr(3), 4);
    plic.write_u32(priority_addr(5), 4);
    plic.write_u32(enable_addr(0, 0), (1 << 3) | (1 << 5));
    plic.raise_interrupt(5);
    assert_eq!(plic.claim_register(0), 5);
    plic.raise_interrupt(3);
    assert_eq!(plic.claim_register(0), 3);
}

#[test]
fn raise_while_outstanding_is_dropped() {
    let mut plic = Plic::with_harts(BASE, 1);
    plic.write_u32(priority_addr(7), 2);
    plic.write_u32(enable_addr(0, 0), 1 << 7);
    plic.raise_interrupt(7);
    assert!(plic.is_pending(7));
    assert!(!plic.gateway_open(7));
    plic.raise_interrupt(7);
    assert!(plic.is_pending(7));
    assert_eq!(plic.read_u32(claim_addr(0)), 7);
    assert!(!plic.is_pending(7));
    plic.raise_interrupt(7);
    assert!(!plic.is_pending(7));
    assert!(!plic.gateway_open(7));
}

#[test]
fn complete_reopens_gateway_and_deasserts() {
    let mut plic = Plic::with_harts(BASE, 1);
    plic.write_u32(priority_addr(12), 6);
    plic.write_u32(enable_addr(0, 0), 1 << 12);
    plic.raise_interrupt(12);
    assert!(plic.is_notified(0));
    let claimed = plic.read_u32(claim_addr(0));
    assert_eq!(claimed, 12);
    assert!(!plic.can_write(claim_addr(0), 11));
    assert!(plic.can_write(claim_addr(0), 12));
    plic.write_u32(claim_addr(0), claimed);
    assert!(plic.gateway_open(12));
    assert!(!plic.is_notified(0));
    assert_eq!(plic.claim_register(0), 0);
    assert!(!plic.can_write(claim_addr(0), 0));
}

#[test]
fn threshold_masks_low_priority() {
    let mut plic = Plic::with_harts(BASE, 1);
    plic.write_u32(priority_addr(4), 3);
    plic.write_u32(threshold_addr(0), 3);
    plic.write_u32(enable_addr(0, 0), 1 << 4);
    plic.raise_interrupt(4);
    assert_eq!(plic.claim_register(0), 0);
    assert!(!plic.is_notified(0));
    assert_eq!(plic.read_u32(threshold_addr(0)), 3);
    plic.write_u32(threshold_addr(0), 2);
    assert_eq!(plic.claim_register(0), 4);
    assert!(plic.is_notified(0));
}

#[test]
fn enable_word_reads_back_bit_for_bit() {
    let mut plic = Plic::with_harts(BASE, 1);
    plic.write_u32(enable_addr(0, 1), 0x8000_0001);
    assert_eq!(plic.read_u32(enable_addr(0, 1)), 0x8000_0001);
    plic.write_u32(enable_addr(0, 31), 0x1234_5678);
    assert_eq!(plic.read_u32(enable_addr(0, 31)), 0x1234_5678);
    assert_eq!(plic.read_u32(enable_addr(0, 2)), 0);
}

#[test]
fn source_zero_cannot_be_enabled() {
    let mut plic = Plic::with_harts(BASE, 1);
    plic.write_u32(enable_addr(0, 0), 0xFFFF_FFFF);
    assert_eq!(plic.read_u32(enable_addr(0, 0)), 0xFFFF_FFFE);
}

#[test]
fn priority_reads_back() {
    let mut plic = Plic::with_harts(BASE, 1);
    plic.write_u32(priority_addr(1023), 0xDEAD_BEEF);
    assert_eq!(plic.read_u32(priority_addr(1023)), 0xDEAD_BEEF);
}

#[test]
fn address_below_base_wraps_out_of_the_window() {
    let plic = Plic::with_harts(BASE, 1);
    assert!(!plic.can_read(BASE - 4));
    assert!(plic.can_read(BASE));
    assert!(!plic.can_read(BASE + 0x1000));
}

#[test]
fn decode_boundaries() {
    assert_eq!(decode(0x0, 1), Some(Register::Priority { source: 0 }));
    assert_eq!(decode(0xFFC, 1), Some(Register::Priority { source: 1023 }));
    assert_eq!(decode(0x1000, 1), None);
    assert_eq!(decode(0x107C, 1), None);
    assert_eq!(decode(0x2000, 1), Some(Register::Enable { ctx: 0, word: 0 }));
    assert_eq!(decode(0x207C, 1), Some(Register::Enable { ctx: 0, word: 31 }));
    assert_eq!(decode(0x2080, 1), None);
    assert_eq!(decode(0x2080, 2), Some(Register::Enable { ctx: 1, word: 0 }));
    assert_eq!(decode(0x20_0000, 1), Some(Register::Threshold { ctx: 0 }));
    assert_eq!(decode(0x20_0004, 1), Some(Register::Claim { ctx: 0 }));
    assert_eq!(decode(0x20_0008, 1), None);
    assert_eq!(decode(0x20_1000, 1), None);
    assert_eq!(decode(0x20_1004, 2), Some(Register::Claim { ctx: 1 }));
}

#[test]
fn decode_rejects_unaligned_offsets() {
    assert_eq!(decode(0x2, 1), None);
    assert_eq!(decode(0x2001, 1), None);
    assert_eq!(decode(0x20_0006, 1), None);
}

#[test]
fn default_sits_at_conventional_base() {
    let plic = Plic::default();
    assert_eq!(plic.base(), 0xC00_0000);
    assert_eq!(plic.context_count(), 32);
    assert_eq!(plic.claim_register(31), 0);
}

#[test]
fn new_builds_two_contexts_per_hart() {
    let mut plic = Plic::new(BASE);
    assert_eq!(plic.context_count(), 32);
    plic.write_u32(BASE + 0x207C, 0x8000_0000);
    assert_eq!(plic.read_u32(BASE + 0x207C), 0x8000_0000);
    plic.write_u32(BASE + 0x20_0000, 3);
    assert_eq!(plic.read_u32(BASE + 0x20_0000), 3);
    assert!(plic.can_read(threshold_addr(31)));
    assert!(!plic.can_read(threshold_addr(32)));
}
