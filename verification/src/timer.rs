//! The programmable interval timer (i8253): how a channel is programmed,
//! how its counter is read back, and the tick count it drives.

use vstd::prelude::*;

verus! {

/// The port that takes the timer's mode commands.
pub const COMMAND_PORT: u16 = 0x43;

/// The input frequency of the timer in Hz.
pub const BASE_FREQUENCY: u32 = 1193180;

/// A channel of the timer.
#[derive(Debug, Clone, Copy, PartialEq, Eq, Structural)]
pub enum Channel {
    CH0,
    CH1,
    CH2,
}

/// Which bytes of the counter a read or write transfers.
#[derive(Debug, Clone, Copy, PartialEq, Eq, Structural)]
pub enum AccessMode {
    Latch,
    LoByte,
    HiByte,
    LoHiByte,
}

/// How a channel counts.
#[derive(Debug, Clone, Copy, PartialEq, Eq, Structural)]
pub enum OperatingMode {
    InterruptOnTerminalCount,
    HardwareRetriggerableOneShot,
    RateGenerator,
    SquareWaveGenerator,
    SoftwareTriggeredStrobe,
    HardwareTriggeredStrobe,
}

/// Whether a channel counts in binary or in binary coded decimal.
#[derive(Debug, Clone, Copy, PartialEq, Eq, Structural)]
pub enum BCDMode {
    Binary,
    BCD,
}

impl Channel {
    /// The bits of the mode command that select this channel.
    pub open spec fn spec_bits(self) -> u8 {
        match self {
            Channel::CH0 => 0b0000_0000,
            Channel::CH1 => 0b0100_0000,
            Channel::CH2 => 0b1000_0000,
        }
    }

    /// The bits of the mode command that select this channel.
    pub fn bits(self) -> (r: u8)
        ensures
            r == self.spec_bits(),
    {
        match self {
            Channel::CH0 => 0b0000_0000,
            Channel::CH1 => 0b0100_0000,
            Channel::CH2 => 0b1000_0000,
        }
    }

    /// The data port of this channel.
    pub open spec fn spec_data_port(self) -> u16 {
        match self {
            Channel::CH0 => 0x40,
            Channel::CH1 => 0x41,
            Channel::CH2 => 0x42,
        }
    }

    /// The data port of this channel.
    pub fn data_port(self) -> (r: u16)
        ensures
            r == self.spec_data_port(),
    {
        match self {
            Channel::CH0 => 0x40,
            Channel::CH1 => 0x41,
            Channel::CH2 => 0x42,
        }
    }
}

impl AccessMode {
    /// The bits of the mode command that select this access mode.
    pub open spec fn spec_bits(self) -> u8 {
        match self {
            AccessMode::Latch => 0b0000_0000,
            AccessMode::LoByte => 0b0001_0000,
            AccessMode::HiByte => 0b0010_0000,
            AccessMode::LoHiByte => 0b0011_0000,
        }
    }

    /// The bits of the mode command that select this access mode.
    pub fn bits(self) -> (r: u8)
        ensures
            r == self.spec_bits(),
    {
        match self {
            AccessMode::Latch => 0b0000_0000,
            AccessMode::LoByte => 0b0001_0000,
            AccessMode::HiByte => 0b0010_0000,
            AccessMode::LoHiByte => 0b0011_0000,
        }
    }
}

impl OperatingMode {
    /// The bits of the mode command that select this operating mode.
    pub open spec fn spec_bits(self) -> u8 {
        match self {
            OperatingMode::InterruptOnTerminalCount => 0b0000_0000,
            OperatingMode::HardwareRetriggerableOneShot => 0b0000_0010,
            OperatingMode::RateGenerator => 0b0000_0100,
            OperatingMode::SquareWaveGenerator => 0b0000_0110,
            OperatingMode::SoftwareTriggeredStrobe => 0b0000_1000,
            OperatingMode::HardwareTriggeredStrobe => 0b0000_1010,
        }
    }

    /// The bits of the mode command that select this operating mode.
    pub fn bits(self) -> (r: u8)
        ensures
            r == self.spec_bits(),
    {
        match self {
            OperatingMode::InterruptOnTerminalCount => 0b0000_0000,
            OperatingMode::HardwareRetriggerableOneShot => 0b0000_0010,
            OperatingMode::RateGenerator => 0b0000_0100,
            OperatingMode::SquareWaveGenerator => 0b0000_0110,
            OperatingMode::SoftwareTriggeredStrobe => 0b0000_1000,
            OperatingMode::HardwareTriggeredStrobe => 0b0000_1010,
        }
    }
}

impl BCDMode {
    /// The bit of the mode command that selects this counting mode.
    pub open spec fn spec_bits(self) -> u8 {
        match self {
            BCDMode::Binary => 0,
            BCDMode::BCD => 1,
        }
    }

    /// The bit of the mode command that selects this counting mode.
    pub fn bits(self) -> (r: u8)
        ensures
            r == self.spec_bits(),
    {
        match self {
            BCDMode::Binary => 0,
            BCDMode::BCD => 1,
        }
    }
}

/// The fields of the 8253/8254 mode command: the channel in bits 6 and 7
/// (its number), the access mode in bits 4 and 5 (1 low byte, 2 high byte,
/// 3 both, 0 latch), the operating mode in bits 1 to 3 (its number 0 to 5)
/// and binary-coded decimal counting in bit 0.
pub proof fn lemma_mode_command_fields()
    ensures
        Channel::CH0.spec_bits() == 0 * 64,
        Channel::CH1.spec_bits() == 1 * 64,
        Channel::CH2.spec_bits() == 2 * 64,
        AccessMode::Latch.spec_bits() == 0 * 16,
        AccessMode::LoByte.spec_bits() == 1 * 16,
        AccessMode::HiByte.spec_bits() == 2 * 16,
        AccessMode::LoHiByte.spec_bits() == 3 * 16,
        OperatingMode::InterruptOnTerminalCount.spec_bits() == 0 * 2,
        OperatingMode::HardwareRetriggerableOneShot.spec_bits() == 1 * 2,
        OperatingMode::RateGenerator.spec_bits() == 2 * 2,
        OperatingMode::SquareWaveGenerator.spec_bits() == 3 * 2,
        OperatingMode::SoftwareTriggeredStrobe.spec_bits() == 4 * 2,
        OperatingMode::HardwareTriggeredStrobe.spec_bits() == 5 * 2,
        BCDMode::Binary.spec_bits() == 0,
        BCDMode::BCD.spec_bits() == 1,
{
}

/// The port writes that program a channel: `command` to [`COMMAND_PORT`],
/// then `divisor_low` and `divisor_high` to `data_port`.
#[derive(Debug, Clone, Copy, PartialEq, Eq, Structural)]
pub struct TimerProgram {
    pub command: u8,
    pub data_port: u16,
    pub divisor_low: u8,
    pub divisor_high: u8,
}

/// One channel of the timer and the ticks counted from its interrupts.
pub struct Timer {
    channel: Channel,
    access_mode: AccessMode,
    operating_mode: OperatingMode,
    bcd_mode: BCDMode,
    frequency: u32,
    ticks: u64,
}

impl Timer {
    /// The channel of the timer.
    pub closed spec fn spec_channel(&self) -> Channel {
        self.channel
    }

    /// The access mode of the timer.
    pub closed spec fn spec_access_mode(&self) -> AccessMode {
        self.access_mode
    }

    /// The operating mode of the timer.
    pub closed spec fn spec_operating_mode(&self) -> OperatingMode {
        self.operating_mode
    }

    /// The counting mode of the timer.
    pub closed spec fn spec_bcd_mode(&self) -> BCDMode {
        self.bcd_mode
    }

    /// The frequency in Hz that the timer was programmed for.
    pub closed spec fn spec_frequency(&self) -> u32 {
        self.frequency
    }

    /// The number of ticks counted since the timer was programmed.
    pub closed spec fn spec_ticks(&self) -> u64 {
        self.ticks
    }

    /// A timer on `channel` that has not been programmed: low and high byte
    /// access, rate generator, binary counting, frequency and ticks 0.
    pub fn unprogrammed(channel: Channel) -> (r: Timer)
        ensures
            r.spec_channel() == channel,
            r.spec_access_mode() == AccessMode::LoHiByte,
            r.spec_operating_mode() == OperatingMode::RateGenerator,
            r.spec_bcd_mode() == BCDMode::Binary,
            r.spec_frequency() == 0,
            r.spec_ticks() == 0,
    {
        Timer {
            channel,
            access_mode: AccessMode::LoHiByte,
            operating_mode: OperatingMode::RateGenerator,
            bcd_mode: BCDMode::Binary,
            frequency: 0,
            ticks: 0,
        }
    }

    /// Sets the timer up for `hz` interrupts per second with the given modes
    /// and restarts its tick count; gives back the port writes that program
    /// the hardware: the mode command made of the bits of the four settings,
    /// and the low and high byte of the divisor [`BASE_FREQUENCY`]` / hz`.
    pub fn init(
        &mut self,
        hz: u32,
        channel: Channel,
        access_mode: AccessMode,
        operating_mode: OperatingMode,
        bcd_mode: BCDMode,
    ) -> (program: TimerProgram)
        requires
            hz > 0,
        ensures
            program.command == channel.spec_bits() | access_mode.spec_bits()
                | operating_mode.spec_bits() | bcd_mode.spec_bits(),
            program.data_port == channel.spec_data_port(),
            program.divisor_low == (BASE_FREQUENCY / hz) % 256,
            program.divisor_high == (BASE_FREQUENCY / hz) / 256 % 256,
            final(self).spec_channel() == channel,
            final(self).spec_access_mode() == access_mode,
            final(self).spec_operating_mode() == operating_mode,
            final(self).spec_bcd_mode() == bcd_mode,
            final(self).spec_frequency() == hz,
            final(self).spec_ticks() == 0,
    {
        let mut mode: u8 = 0;
        mode = mode | channel.bits();
        mode = mode | access_mode.bits();
        mode = mode | operating_mode.bits();
        mode = mode | bcd_mode.bits();
        assert(0u8 | channel.spec_bits() == channel.spec_bits()) by (bit_vector);
        let divisor = BASE_FREQUENCY / hz;
        let low = (divisor & 0xFF) as u8;
        let high = ((divisor >> 8) & 0xFF) as u8;
        assert(divisor & 0xFF == divisor % 256) by (bit_vector);
        assert((divisor >> 8) & 0xFF == divisor / 256 % 256) by (bit_vector);
        self.channel = channel;
        self.access_mode = access_mode;
        self.operating_mode = operating_mode;
        self.bcd_mode = bcd_mode;
        self.frequency = hz;
        self.ticks = 0;
        TimerProgram {
            command: mode,
            data_port: channel.data_port(),
            divisor_low: low,
            divisor_high: high,
        }
    }

    /// Counts one tick.
    pub fn tick(&mut self)
        requires
            old(self).spec_ticks() < u64::MAX,
        ensures
            final(self).spec_ticks() == old(self).spec_ticks() + 1,
            final(self).spec_frequency() == old(self).spec_frequency(),
            final(self).spec_channel() == old(self).spec_channel(),
            final(self).spec_access_mode() == old(self).spec_access_mode(),
            final(self).spec_operating_mode() == old(self).spec_operating_mode(),
            final(self).spec_bcd_mode() == old(self).spec_bcd_mode(),
    {
        self.ticks = self.ticks + 1;
    }

    /// The number of ticks counted since the timer was programmed.
    pub fn ticks(&self) -> (r: u64)
        ensures
            r == self.spec_ticks(),
    {
        self.ticks
    }

    /// The frequency in Hz that the timer was programmed for.
    pub fn frequency(&self) -> (r: u32)
        ensures
            r == self.spec_frequency(),
    {
        self.frequency
    }

    /// The tick count at which a sleep of `ms` milliseconds that starts now
    /// ends: now plus `ms * frequency / 1000` ticks.
    pub fn sleep_until(&self, ms: u64) -> (r: u64)
        requires
            self.spec_ticks() + ms * self.spec_frequency() / 1000 <= u64::MAX,
        ensures
            r == self.spec_ticks() + ms * self.spec_frequency() / 1000,
    {
        let freq: u32 = self.frequency;
        assert(ms * freq <= u64::MAX * u32::MAX) by (nonlinear_arith)
            requires
                ms <= u64::MAX,
                freq <= u32::MAX,
        ;
        let product: u128 = (ms as u128) * (freq as u128);
        let ticks: u128 = product / 1000;
        self.ticks + (ticks as u64)
    }

    /// The data port that the counter is read from.
    pub fn data_port(&self) -> (r: u16)
        ensures
            r == self.spec_channel().spec_data_port(),
    {
        self.channel.data_port()
    }

    /// How many bytes a read of the counter takes from the data port: one
    /// for the low or the high byte alone, two for both, none when latching.
    pub fn counter_reads(&self) -> (r: usize)
        ensures
            r == match self.spec_access_mode() {
                AccessMode::LoByte | AccessMode::HiByte => 1usize,
                AccessMode::LoHiByte => 2usize,
                AccessMode::Latch => 0usize,
            },
    {
        match self.access_mode {
            AccessMode::LoByte | AccessMode::HiByte => 1,
            AccessMode::LoHiByte => 2,
            AccessMode::Latch => 0,
        }
    }

    /// The counter value from the bytes read from the data port, in the
    /// order they were read: the low byte, the high byte, or the low and then
    /// the high byte; 0 when latching.
    pub fn counter(&self, bytes: &[u8]) -> (r: u16)
        requires
            bytes@.len() == match self.spec_access_mode() {
                AccessMode::LoByte | AccessMode::HiByte => 1int,
                AccessMode::LoHiByte => 2int,
                AccessMode::Latch => 0int,
            },
        ensures
            r == match self.spec_access_mode() {
                AccessMode::LoByte => bytes@[0] as int,
                AccessMode::HiByte => bytes@[0] * 256,
                AccessMode::LoHiByte => bytes@[0] + bytes@[1] * 256,
                AccessMode::Latch => 0,
            },
    {
        match self.access_mode {
            AccessMode::LoByte => bytes[0] as u16,
            AccessMode::HiByte => {
                let b = bytes[0] as u16;
                assert(b << 8 == b * 256) by (bit_vector)
                    requires
                        b < 256,
                ;
                b << 8
            },
            AccessMode::LoHiByte => {
                let lo = bytes[0] as u16;
                let hi = bytes[1] as u16;
                assert(lo | (hi << 8) == lo + hi * 256) by (bit_vector)
                    requires
                        lo < 256,
                        hi < 256,
                ;
                lo | (hi << 8)
            },
            AccessMode::Latch => 0,
        }
    }
}

} // verus!
