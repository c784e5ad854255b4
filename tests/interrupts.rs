use kernel_core::idt::{next_tick, Irq, PIC1_MASK, PIC1_OFFSET, PIC2_MASK, PIC2_OFFSET};

#[test]
fn irq_vectors_follow_exceptions() {
    assert_eq!(PIC1_OFFSET, 32);
    assert_eq!(PIC2_OFFSET, 40);
    assert_eq!(Irq::Timer.as_u8(), 32);
    assert_eq!(Irq::Keyboard.as_u8(), 33);
    assert_eq!(Irq::Keyboard.as_usize(), 33);
    assert_eq!(PIC1_MASK, 0xfc);
    assert_eq!(PIC2_MASK, 0xff);
}

#[test]
fn ticks_rise_and_wrap() {
    let mut t = 0u64;
    let mut last = t;
    for _ in 0..1000 {
        t = next_tick(t);
        assert!(t >= last);
        last = t;
    }
    assert_eq!(t, 1000);
    assert_eq!(next_tick(u64::MAX), 0);
}
