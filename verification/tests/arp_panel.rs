use forma::arp::{ring_resize, ring_toggle, ArpButtonState, ArpPress};

#[test]
fn arp_button_enables_with_the_frozen_chord() {
    let mut s = ArpButtonState { enabled: false, pending_start: false, freeze: true };
    let (what, chord) = s.press(&vec![60, 64, 67]);
    assert_eq!(what, ArpPress::Enable);
    assert_eq!(chord, vec![60, 64, 67]);
    assert_eq!(s, ArpButtonState { enabled: true, pending_start: false, freeze: false });
    let (what, chord) = s.press(&vec![60]);
    assert_eq!(what, ArpPress::Disable);
    assert!(chord.is_empty());
    assert!(!s.enabled);
}

#[test]
fn arp_button_without_freeze_holds_nothing() {
    let mut s = ArpButtonState { enabled: false, pending_start: false, freeze: false };
    let (what, chord) = s.press(&vec![60]);
    assert_eq!(what, ArpPress::Enable);
    assert!(chord.is_empty());
}

#[test]
fn arp_button_cancels_a_pending_start() {
    let mut s = ArpButtonState { enabled: true, pending_start: true, freeze: true };
    let (what, chord) = s.press(&vec![60]);
    assert_eq!(what, ArpPress::CancelPending);
    assert!(chord.is_empty());
    assert_eq!(s, ArpButtonState { enabled: true, pending_start: false, freeze: true });
}

#[test]
fn ring_pattern_bits() {
    assert_eq!(ring_resize(0b1111_0000_1111, 8), 0b0000_1111);
    assert_eq!(ring_resize(0xffff_ffff, 32), 0xffff_ffff);
    assert_eq!(ring_resize(0xffff_ffff, 2), 0b11);
    assert_eq!(ring_toggle(0b1010, 1), 0b1000);
    assert_eq!(ring_toggle(0b1010, 0), 0b1011);
    assert_eq!(ring_toggle(ring_toggle(0x1234, 9), 9), 0x1234);
    assert_eq!(ring_toggle(0, 31), 0x8000_0000);
}
