//! Interrupt numbering and the timer's tick counter.
use vstd::prelude::*;

verus! {

/// First vector of the primary interrupt controller, right after the 32
/// vectors the CPU reserves for exceptions.
pub const PIC1_OFFSET: u8 = 32;

/// First vector of the secondary interrupt controller.
pub const PIC2_OFFSET: u8 = PIC1_OFFSET + 8;

/// Mask of the primary controller: only line 0 (timer) and line 1
/// (keyboard) are let through.
pub const PIC1_MASK: u8 = 0xfc;

/// Mask of the secondary controller: every line is held back.
pub const PIC2_MASK: u8 = 0xff;

/// Hardware interrupts the kernel handles.
#[derive(Debug, Clone, Copy, PartialEq, Eq, Structural)]
pub enum Irq {
    Timer,
    Keyboard,
}

/// The controller line of each interrupt.
pub open spec fn irq_line(irq: Irq) -> u8 {
    match irq {
        Irq::Timer => 0,
        Irq::Keyboard => 1,
    }
}

impl Irq {
    /// The vector this interrupt arrives on.
    pub fn as_u8(self) -> (r: u8)
        ensures
            r == PIC1_OFFSET + irq_line(self),
    {
        match self {
            Irq::Timer => PIC1_OFFSET,
            Irq::Keyboard => PIC1_OFFSET + 1,
        }
    }

    /// The vector as an index into the vector table.
    pub fn as_usize(self) -> (r: usize)
        ensures
            r == PIC1_OFFSET + irq_line(self),
    {
        self.as_u8() as usize
    }
}

/// A line of the primary controller is enabled when its bit of the mask is
/// clear.
pub open spec fn line_enabled(mask: u8, line: u8) -> bool {
    (mask >> line) & 1 == 0
}

/// The masks let through exactly the timer and keyboard lines and hold back
/// all others, on both controllers.
pub proof fn lemma_masks_enable_timer_and_keyboard()
    ensures
        forall|line: u8| line < 8 ==> (line_enabled(PIC1_MASK, line) <==> line < 2),
        forall|line: u8| line < 8 ==> !line_enabled(PIC2_MASK, line),
        forall|irq: Irq| line_enabled(PIC1_MASK, #[trigger] irq_line(irq)),
{
    assert(forall|line: u8| line < 8 ==> (((0xfcu8 >> line) & 1 == 0) <==> line < 2)) by (bit_vector);
    assert(forall|line: u8| line < 8 ==> ((0xffu8 >> line) & 1 != 0)) by (bit_vector);
    assert forall|irq: Irq| line_enabled(PIC1_MASK, #[trigger] irq_line(irq)) by {
        assert(irq_line(irq) < 2);
    }
}

/// The tick count after `n` more timer interrupts, wrapping at the word
/// size.
pub open spec fn ticks_after(t: u64, n: nat) -> u64
    decreases n,
{
    if n == 0 {
        t
    } else {
        next_tick_spec(ticks_after(t, (n - 1) as nat))
    }
}

pub open spec fn next_tick_spec(t: u64) -> u64 {
    if t == u64::MAX {
        0
    } else {
        (t + 1) as u64
    }
}

/// The count after one more timer interrupt: one more, or zero after the
/// largest value, as an atomic `fetch_add(1)` leaves it.
pub fn next_tick(ticks: u64) -> (r: u64)
    ensures
        r == next_tick_spec(ticks),
{
    ticks.wrapping_add(1)
}

/// Without wraparound the count never goes down: after `n` more ticks it
/// is exactly `n` higher, so a later reading is at least an earlier one.
pub proof fn lemma_ticks_monotonic(t: u64, n: nat)
    requires
        t + n <= u64::MAX,
    ensures
        ticks_after(t, n) == t + n,
        ticks_after(t, n) >= t,
    decreases n,
{
    if n > 0 {
        lemma_ticks_monotonic(t, (n - 1) as nat);
    }
}

} // verus!
