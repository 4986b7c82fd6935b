//! Arpeggiator panel decisions: the ARP button, and the ring gate pattern
//! (one bit per ring step) that decides which arp steps fire.

use vstd::prelude::*;

verus! {

/// What pressing the ARP button did.
#[derive(Clone, Copy, Debug, PartialEq, Eq, Structural)]
pub enum ArpPress {
    /// The arp was waiting for a bar boundary: the wait is cancelled.
    CancelPending,
    /// The arp turns on; with freeze on, the frozen notes become the held
    /// chord and freeze turns off.
    Enable,
    /// The arp turns off and its held chord is cleared.
    Disable,
}

/// The part of the keyboard and arp state the ARP button changes.
#[derive(Clone, Copy, Debug, PartialEq, Eq, Structural)]
pub struct ArpButtonState {
    pub enabled: bool,
    pub pending_start: bool,
    pub freeze: bool,
}

/// State and outcome after pressing ARP.
pub open spec fn after_arp_press(s: ArpButtonState) -> (ArpButtonState, ArpPress) {
    if s.pending_start {
        (ArpButtonState { pending_start: false, ..s }, ArpPress::CancelPending)
    } else if !s.enabled {
        (ArpButtonState { enabled: true, freeze: false, ..s }, ArpPress::Enable)
    } else {
        (ArpButtonState { enabled: false, pending_start: false, ..s }, ArpPress::Disable)
    }
}

impl ArpButtonState {
    /// The ARP button. Returns what happened and the chord the arp is to
    /// hold: the frozen notes when it turns on under freeze, else none.
    pub fn press(&mut self, frozen: &Vec<u8>) -> (r: (ArpPress, Vec<u8>))
        ensures
            (*final(self), r.0) == after_arp_press(*old(self)),
            r.1@ == if r.0 == ArpPress::Enable && old(self).freeze { frozen@ } else { Seq::<u8>::empty() },
    {
        if self.pending_start {
            self.pending_start = false;
            (ArpPress::CancelPending, Vec::new())
        } else if !self.enabled {
            let chord = if self.freeze { frozen.clone() } else { Vec::new() };
            self.enabled = true;
            self.freeze = false;
            (ArpPress::Enable, chord)
        } else {
            self.enabled = false;
            self.pending_start = false;
            (ArpPress::Disable, Vec::new())
        }
    }
}

/// Step `i` of a ring pattern fires.
pub open spec fn ring_bit(pattern: u32, i: u32) -> bool {
    (pattern >> i) & 1 == 1
}

/// The ring pattern kept when the ring gets `n` steps (2–16 in the panel):
/// the bits of the steps past the end are cleared.
pub fn ring_resize(pattern: u32, n: u32) -> (r: u32)
    ensures
        forall|i: u32| i < 32 ==> #[trigger] ring_bit(r, i) == (i < n && ring_bit(pattern, i)),
{
    if n >= 32 {
        proof {
            assert(forall|i: u32| i < 32 ==> #[trigger] ring_bit(pattern, i) == (i < n && ring_bit(pattern, i)));
        }
        pattern
    } else {
        assert(1u32 << n >= 1) by (bit_vector)
            requires
                n < 32,
        ;
        let mask: u32 = (1u32 << n) - 1;
        let r = pattern & mask;
        assert(forall|i: u32| i < 32 ==> #[trigger] ring_bit(r, i) == (i < n && ring_bit(pattern, i))) by (bit_vector)
            requires
                n < 32,
                mask == (1u32 << n) - 1,
                r == pattern & mask,
        ;
        r
    }
}

/// The ring pattern after a click on step `i`: that step flips.
pub fn ring_toggle(pattern: u32, i: u32) -> (r: u32)
    requires
        i < 32,
    ensures
        r == pattern ^ (1u32 << i),
        forall|j: u32| j < 32 ==> #[trigger] ring_bit(r, j) == if j == i { !ring_bit(pattern, j) } else { ring_bit(pattern, j) },
{
    let r = pattern ^ (1u32 << i);
    assert(forall|j: u32| j < 32 ==> #[trigger] ring_bit(r, j) == if j == i { !ring_bit(pattern, j) } else { ring_bit(pattern, j) })
        by (bit_vector)
        requires
            i < 32,
            r == pattern ^ (1u32 << i),
    ;
    r
}

/// Clicking the same ring step twice gives back the pattern.
pub proof fn lemma_ring_toggle_twice(pattern: u32, i: u32)
    requires
        i < 32,
    ensures
        (pattern ^ (1u32 << i)) ^ (1u32 << i) == pattern,
{
    assert((pattern ^ (1u32 << i)) ^ (1u32 << i) == pattern) by (bit_vector);
}

/// Pressing ARP twice from off turns it on and off again, clearing any
/// wait for a bar; freeze ends up off if the first press turned it off.
pub proof fn lemma_arp_on_then_off(s: ArpButtonState)
    requires
        !s.enabled,
        !s.pending_start,
    ensures
        after_arp_press(after_arp_press(s).0).0 == (ArpButtonState { enabled: false, pending_start: false, freeze: false }),
        after_arp_press(s).1 == ArpPress::Enable,
        after_arp_press(after_arp_press(s).0).1 == ArpPress::Disable,
{
}

} // verus!
