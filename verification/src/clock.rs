use vstd::prelude::*;

verus! {

/// The frequency of the programmable interval timer's oscillator, in Hz.
pub const OSCILLATOR: u32 = 11932182;
pub const SPEAKER_REG: u16 = 0x61;
pub const BEEP_HZ: u16 = 440;
pub const BEEP_COUNTER: u64 = 27118;
pub const BEEP_MS: u8 = 100;
pub const PIT_CHAN0_REG: u16 = 0x40;
pub const PIT_CHAN2_REG: u16 = 0x42;
pub const PIT_CTRL_REG: u16 = 0x43;
/// Timer interrupts per second.
pub const HZ: u32 = 100;
pub const CLOCK_COUNTER: u32 = 119321;

/// The port writes that program the interval timer: channel 0 as the
/// clock at `HZ` interrupts a second (rate generator, low then high byte
/// of its divisor), channel 2 as the beeper at `BEEP_HZ` (square wave,
/// low then high byte of its divisor).
pub fn clock_init() -> (w: [(u16, u8); 6])
    ensures
        CLOCK_COUNTER == OSCILLATOR / HZ,
        BEEP_COUNTER == OSCILLATOR / (BEEP_HZ as u32),
        w@ == seq![
            (PIT_CTRL_REG, 0b00110100u8),
            (PIT_CHAN0_REG, (CLOCK_COUNTER % 256) as u8),
            (PIT_CHAN0_REG, ((CLOCK_COUNTER / 256) % 256) as u8),
            (PIT_CTRL_REG, 0b10110110u8),
            (PIT_CHAN2_REG, (BEEP_COUNTER % 256) as u8),
            (PIT_CHAN2_REG, ((BEEP_COUNTER / 256) % 256) as u8),
        ],
{
    let c0: u32 = CLOCK_COUNTER & 0xff;
    let c1: u32 = (CLOCK_COUNTER >> 8) & 0xff;
    let b0: u64 = BEEP_COUNTER & 0xff;
    let b1: u64 = (BEEP_COUNTER >> 8) & 0xff;
    assert(c0 == 0x19 && c1 == 0xd2) by (bit_vector) requires c0 == 119321u32 & 0xffu32, c1 == (119321u32 >> 8u32) & 0xffu32;
    assert(b0 == 0xee && b1 == 0x69) by (bit_vector) requires b0 == 27118u64 & 0xffu64, b1 == (27118u64 >> 8u64) & 0xffu64;
    [
        (PIT_CTRL_REG, 0b00110100),
        (PIT_CHAN0_REG, c0 as u8),
        (PIT_CHAN0_REG, c1 as u8),
        (PIT_CTRL_REG, 0b10110110),
        (PIT_CHAN2_REG, b0 as u8),
        (PIT_CHAN2_REG, b1 as u8),
    ]
}

/// The real-time clock reached through the CMOS ports.
pub struct RealTimeClock {}

impl RealTimeClock {
    /// The byte written to the CMOS address port to reach register
    /// `addr`: the register with non-maskable interrupts disabled.
    pub fn cmos_address(addr: u8) -> (b: u8)
        ensures
            b == (0x80u8 | addr),
    {
        0x80u8 | addr
    }
}

} // verus!
