//! What one received control command does to the hardware.
//!
//! The actuation task drains the mailbox and, for each command, sets the
//! shutdown output, writes the four DAC set-points over the shared SPI bus
//! — strictly serialized, channels 0 to 3, each three-byte frame bracketed
//! by that channel's own chip-select — and programs the PWM duty.

use vstd::prelude::*;

use crate::state::LoadControl;
use crate::wire::{as_u64, u64_from_i32};

verus! {

/// One step of the serialized DAC bus sequence: asserting a channel's
/// chip-select, one three-byte transfer on the shared bus, or releasing
/// the chip-select.
#[derive(Clone, Copy, PartialEq, Eq, Structural, Debug)]
pub enum DacEvent {
    Select(u8),
    Transfer(u8, u8, u8),
    Deselect(u8),
}

/// The DAC's packed word for a set-point: the low 16 bits of the value,
/// shifted left by 6 into the 24-bit frame.
pub open spec fn dac_word(dac: i32) -> int {
    (as_u64(dac) % 0x1_0000) * 64
}

/// The three big-endian bytes of the 24-bit packed word.
pub open spec fn dac_frame(dac: i32) -> (u8, u8, u8) {
    let w = dac_word(dac);
    ((w / 0x1_0000) as u8, ((w / 0x100) % 0x100) as u8, (w % 0x100) as u8)
}

/// Pack one DAC set-point into its three-byte SPI frame.
pub fn pack_dac_frame(dac: i32) -> (r: (u8, u8, u8))
    ensures
        r == dac_frame(dac),
{
    let low: u32 = (u64_from_i32(dac) % 0x1_0000) as u32;
    let word: u32 = low * 64;
    ((word / 0x1_0000) as u8, ((word / 0x100) % 0x100) as u8, (word % 0x100) as u8)
}

/// The bus events for one channel: select, one frame, deselect.
pub open spec fn channel_events(ch: u8, dac: i32) -> Seq<DacEvent> {
    let f = dac_frame(dac);
    seq![DacEvent::Select(ch), DacEvent::Transfer(f.0, f.1, f.2), DacEvent::Deselect(ch)]
}

/// The whole serialized bus sequence for one command: channels in order
/// 0 to 3.
pub open spec fn actuation_events_spec(c: LoadControl) -> Seq<DacEvent> {
    channel_events(0, c.dac0) + channel_events(1, c.dac1) + channel_events(2, c.dac2)
        + channel_events(3, c.dac3)
}

/// The serialized DAC bus sequence one command produces, in the order the
/// actuation task performs it.
pub fn actuation_events(c: &LoadControl) -> (events: Vec<DacEvent>)
    ensures
        events@ == actuation_events_spec(*c),
{
    let mut events: Vec<DacEvent> = Vec::new();
    let f0 = pack_dac_frame(c.dac0);
    events.push(DacEvent::Select(0));
    events.push(DacEvent::Transfer(f0.0, f0.1, f0.2));
    events.push(DacEvent::Deselect(0));
    let f1 = pack_dac_frame(c.dac1);
    events.push(DacEvent::Select(1));
    events.push(DacEvent::Transfer(f1.0, f1.1, f1.2));
    events.push(DacEvent::Deselect(1));
    let f2 = pack_dac_frame(c.dac2);
    events.push(DacEvent::Select(2));
    events.push(DacEvent::Transfer(f2.0, f2.1, f2.2));
    events.push(DacEvent::Deselect(2));
    let f3 = pack_dac_frame(c.dac3);
    events.push(DacEvent::Select(3));
    events.push(DacEvent::Transfer(f3.0, f3.1, f3.2));
    events.push(DacEvent::Deselect(3));
    assert(events@ =~= actuation_events_spec(*c));
    events
}

/// The bus sequence is twelve events: for each channel in order, exactly
/// one three-byte transfer, bracketed by that channel's own chip-select —
/// so no two chip-selects are ever asserted at once.
pub proof fn lemma_actuation_events_shape(c: LoadControl)
    ensures
        ({
            let e = actuation_events_spec(c);
            &&& e.len() == 12
            &&& forall|i: int|
                0 <= i < 4 ==> #[trigger] e[3 * i] == DacEvent::Select(i as u8)
            &&& forall|i: int|
                0 <= i < 4 ==> #[trigger] e[3 * i + 2] == DacEvent::Deselect(i as u8)
            &&& e[1] == (DacEvent::Transfer(
                dac_frame(c.dac0).0,
                dac_frame(c.dac0).1,
                dac_frame(c.dac0).2,
            ))
            &&& e[4] == (DacEvent::Transfer(
                dac_frame(c.dac1).0,
                dac_frame(c.dac1).1,
                dac_frame(c.dac1).2,
            ))
            &&& e[7] == (DacEvent::Transfer(
                dac_frame(c.dac2).0,
                dac_frame(c.dac2).1,
                dac_frame(c.dac2).2,
            ))
            &&& e[10] == (DacEvent::Transfer(
                dac_frame(c.dac3).0,
                dac_frame(c.dac3).1,
                dac_frame(c.dac3).2,
            ))
        }),
{
    let e = actuation_events_spec(c);
    assert(e.len() == 12);
    assert forall|i: int| 0 <= i < 4 implies #[trigger] e[3 * i] == DacEvent::Select(i as u8) by {
        assert(e[0] == DacEvent::Select(0u8));
        assert(e[3] == DacEvent::Select(1u8));
        assert(e[6] == DacEvent::Select(2u8));
        assert(e[9] == DacEvent::Select(3u8));
    }
    assert forall|i: int| 0 <= i < 4 implies #[trigger] e[3 * i + 2] == DacEvent::Deselect(
        i as u8,
    ) by {
        assert(e[2] == DacEvent::Deselect(0u8));
        assert(e[5] == DacEvent::Deselect(1u8));
        assert(e[8] == DacEvent::Deselect(2u8));
        assert(e[11] == DacEvent::Deselect(3u8));
    }
}

/// PWM duty for a percentage of the timer's maximum, rounded to the
/// nearest step.
pub open spec fn duty_spec(max_duty: u16, pwm: i32) -> int {
    (max_duty * pwm + 50) / 100
}

/// Compute the PWM compare value for a duty percentage.
pub fn pwm_duty(max_duty: u16, pwm: i32) -> (d: u16)
    requires
        0 <= pwm <= 100,
    ensures
        d == duty_spec(max_duty, pwm),
        0 <= d <= max_duty,
{
    proof {
        assert(max_duty * pwm + 50 <= 6553550 && (max_duty * pwm + 50) / 100
            <= max_duty) by (nonlinear_arith)
            requires
                0 <= pwm <= 100,
                0 <= max_duty <= 65535,
        ;
    }
    let prod: u32 = (max_duty as u32) * (pwm as u32);
    ((prod + 50) / 100) as u16
}

/// The level of the shutdown output (and its indicator) for a command:
/// low exactly when the flag is zero.
pub fn shutdown_high(sdn: i32) -> (r: bool)
    ensures
        r == (sdn != 0),
{
    sdn != 0
}

/// Duty boundaries: zero percent is a zero duty, a hundred percent is the
/// timer's maximum.
pub proof fn lemma_duty_boundaries(max_duty: u16)
    ensures
        duty_spec(max_duty, 0) == 0,
        duty_spec(max_duty, 100) == max_duty,
{
    assert((max_duty * 100 + 50) / 100 == max_duty && (max_duty * 0 + 50) / 100
        == 0) by (nonlinear_arith);
}

/// The hardware sequence is a function of the command and the timer range
/// alone: the same command twice means the same shutdown level, the same
/// bus sequence, and the same duty, twice.
pub proof fn lemma_actuation_deterministic(c1: LoadControl, c2: LoadControl, max_duty: u16)
    requires
        c1 == c2,
    ensures
        actuation_events_spec(c1) == actuation_events_spec(c2),
        duty_spec(max_duty, c1.pwm) == duty_spec(max_duty, c2.pwm),
        (c1.sdn != 0) == (c2.sdn != 0),
{
}

} // verus!
