//! The power management registers of an ACPI machine, as the guest reads
//! and writes them.

use byteorder::{ByteOrder, LittleEndian};
use vstd::prelude::*;

use crate::address::GuestAddress;
use crate::aml_compiler::dword_bytes;

verus! {

/// Frequency of the power management timer, in ticks a second.
pub const PM_TIMER_FREQUENCY: u128 = 3_579_545;

/// Nanoseconds in a second.
pub const NANOSECONDS_PER_SECOND: u128 = 1_000_000_000;

/// The bit of the control register by which the guest asks for sleep.
pub const ACPI_BITMASK_SLEEP_ENABLE: u16 = 0x2000;

/// The word whose low byte is `lo` and whose high byte is `hi`.
pub open spec fn word_of(lo: u8, hi: u8) -> u16 {
    (lo as u16) | ((hi as u16) << 8)
}

/// The bytes `buf` with the word `n` written over the first two of them,
/// low byte first.
pub open spec fn with_word(buf: Seq<u8>, n: u16) -> Seq<u8> {
    buf.update(0, n as u8).update(1, (n >> 8) as u8)
}

/// What a read of a register that holds `value` puts into a buffer: the
/// low byte into a buffer of one byte, the word into a buffer of two
/// bytes; a buffer of any other length is left as it is.
pub open spec fn register_read(buf: Seq<u8>, value: u16) -> Seq<u8> {
    if buf.len() == 1 {
        buf.update(0, value as u8)
    } else if buf.len() == 2 {
        with_word(buf, value)
    } else {
        buf
    }
}

/// The value that a write of the buffer `buf` to a register carries: the
/// byte of a buffer of one byte, the word of a buffer of two bytes; no
/// value in a buffer of any other length.
pub open spec fn register_value(buf: Seq<u8>) -> Option<u16> {
    if buf.len() == 1 {
        Some(buf[0] as u16)
    } else if buf.len() == 2 {
        Some(word_of(buf[0], buf[1]))
    } else {
        None
    }
}

/// `byteorder::LittleEndian::read_u16`: the word that the first two bytes
/// of `buf` hold, low byte first. The function panics on a shorter
/// buffer.
#[verifier::external_body]
fn le_read_u16(buf: &[u8]) -> (r: u16)
    requires
        buf@.len() >= 2,
    ensures
        r == word_of(buf@[0], buf@[1]),
{
    LittleEndian::read_u16(buf)
}

/// `byteorder::LittleEndian::write_u16`: the word `n` is written over the
/// first two bytes of `buf`, low byte first, and the bytes behind them
/// stay as they are. The function panics on a shorter buffer.
#[verifier::external_body]
fn le_write_u16(buf: &mut [u8], n: u16)
    requires
        old(buf)@.len() >= 2,
    ensures
        final(buf)@ == with_word(old(buf)@, n),
{
    LittleEndian::write_u16(buf, n)
}

/// Puts the register value `value` into `data`, and tells whether the
/// length of `data` allows it.
fn read_register(data: &mut [u8], value: u16) -> (r: bool)
    ensures
        r == (old(data)@.len() == 1 || old(data)@.len() == 2),
        final(data)@ == register_read(old(data)@, value),
{
    if data.len() == 1 {
        data[0] = #[verifier::truncate] (value as u8);
        true
    } else if data.len() == 2 {
        le_write_u16(data, value);
        true
    } else {
        false
    }
}

/// The value that a write of `data` to a register carries.
fn written_value(data: &[u8]) -> (r: Option<u16>)
    ensures
        r == register_value(data@),
{
    if data.len() == 1 {
        Some(data[0] as u16)
    } else if data.len() == 2 {
        Some(le_read_u16(data))
    } else {
        None
    }
}

/// What the timer shows when `elapsed_nanos` nanoseconds have passed
/// since it started: the ticks of that time, of which it holds the lowest
/// 32 bits.
pub open spec fn pm_counter(elapsed_nanos: u128) -> u32 {
    ((((elapsed_nanos * PM_TIMER_FREQUENCY) / (NANOSECONDS_PER_SECOND as int)) as u128)
        & 0xFFFF_FFFF) as u32
}

/// The power management timer: a counter of 32 bits that runs at a fixed
/// frequency from the moment the machine starts. The timer holds no
/// state of its own; the time that has passed comes with every read.
#[derive(Clone, Copy, Debug, PartialEq, Eq, Structural)]
pub struct AcpiPMTimer {}

impl Default for AcpiPMTimer {
    fn default() -> (r: AcpiPMTimer) {
        AcpiPMTimer::new()
    }
}

impl AcpiPMTimer {
    /// A timer.
    pub fn new() -> (r: AcpiPMTimer) {
        AcpiPMTimer {  }
    }

    /// A read by the guest, `elapsed_nanos` nanoseconds after the timer
    /// started: the four bytes of `data` get the counter, low byte first.
    pub fn read(
        &mut self,
        data: &mut [u8],
        base: GuestAddress,
        offset: u64,
        elapsed_nanos: u128,
    ) -> (r: bool)
        requires
            old(data)@.len() == 4,
            elapsed_nanos * PM_TIMER_FREQUENCY <= u128::MAX,
        ensures
            r,
            final(data)@ == dword_bytes(pm_counter(elapsed_nanos)),
    {
        let counter: u128 = (elapsed_nanos * PM_TIMER_FREQUENCY) / NANOSECONDS_PER_SECOND;
        let value: u32 = #[verifier::truncate] ((counter & 0xFFFF_FFFF) as u32);
        data[0] = #[verifier::truncate] (value as u8);
        data[1] = #[verifier::truncate] ((value >> 8) as u8);
        data[2] = #[verifier::truncate] ((value >> 16) as u8);
        data[3] = #[verifier::truncate] ((value >> 24) as u8);
        proof {
            assert(data@ =~= dword_bytes(value));
        }
        true
    }
}

/// The event registers of the power management block: the status
/// register at offset 0 and the enable register at offset 2.
#[derive(Clone, Copy, Debug, PartialEq, Eq, Structural)]
pub struct AcpiPmEvent {
    status: u16,
    enable: u16,
}

impl Default for AcpiPmEvent {
    fn default() -> (r: AcpiPmEvent)
        ensures
            r.status() == 0,
            r.enable() == 0,
    {
        AcpiPmEvent::new()
    }
}

impl AcpiPmEvent {
    /// The status register.
    pub closed spec fn status(&self) -> u16 {
        self.status
    }

    /// The enable register.
    pub closed spec fn enable(&self) -> u16 {
        self.enable
    }

    /// The registers after a reset: both hold zero.
    pub fn new() -> (r: AcpiPmEvent)
        ensures
            r.status() == 0,
            r.enable() == 0,
    {
        AcpiPmEvent { status: 0, enable: 0 }
    }

    /// A read by the guest: `data` gets the status register at offset 0
    /// and the enable register at offset 2, in one or two bytes. Any
    /// other offset or length is a fault, and leaves `data` as it is.
    pub fn read(&mut self, data: &mut [u8], base: GuestAddress, offset: u64) -> (r: bool)
        ensures
            *final(self) == *old(self),
            r == ((offset == 0 || offset == 2) && (old(data)@.len() == 1 || old(data)@.len()
                == 2)),
            final(data)@ == if offset == 0 {
                register_read(old(data)@, old(self).status())
            } else if offset == 2 {
                register_read(old(data)@, old(self).enable())
            } else {
                old(data)@
            },
    {
        if offset == 0 {
            read_register(data, self.status)
        } else if offset == 2 {
            read_register(data, self.enable)
        } else {
            false
        }
    }

    /// A write by the guest, of one or two bytes: at offset 0 every bit
    /// that is written as one is cleared in the status register; at
    /// offset 2 the enable register takes the value. Any other offset or
    /// length is a fault, and changes nothing.
    pub fn write(&mut self, data: &[u8], base: GuestAddress, offset: u64) -> (r: bool)
        ensures
            r == ((offset == 0 || offset == 2) && register_value(data@) is Some),
            final(self).status() == if offset == 0 && register_value(data@) is Some {
                old(self).status() & !register_value(data@)->Some_0
            } else {
                old(self).status()
            },
            final(self).enable() == if offset == 2 && register_value(data@) is Some {
                register_value(data@)->Some_0
            } else {
                old(self).enable()
            },
    {
        if offset == 0 {
            match written_value(data) {
                Some(value) => {
                    self.status = self.status & !value;
                    true
                },
                None => false,
            }
        } else if offset == 2 {
            match written_value(data) {
                Some(value) => {
                    self.enable = value;
                    true
                },
                None => false,
            }
        } else {
            false
        }
    }
}

/// The control register of the power management block.
#[derive(Clone, Copy, Debug, PartialEq, Eq, Structural)]
pub struct AcpiPmCtrl {
    control: u16,
}

impl Default for AcpiPmCtrl {
    fn default() -> (r: AcpiPmCtrl)
        ensures
            r.control() == 0,
    {
        AcpiPmCtrl::new()
    }
}

impl AcpiPmCtrl {
    /// The control register.
    pub closed spec fn control(&self) -> u16 {
        self.control
    }

    /// The register after a reset: it holds zero.
    pub fn new() -> (r: AcpiPmCtrl)
        ensures
            r.control() == 0,
    {
        AcpiPmCtrl { control: 0 }
    }

    /// A read by the guest: `data` gets the register, in one or two
    /// bytes. Any other length is a fault, and leaves `data` as it is.
    pub fn read(&mut self, data: &mut [u8], base: GuestAddress, offset: u64) -> (r: bool)
        ensures
            *final(self) == *old(self),
            r == (old(data)@.len() == 1 || old(data)@.len() == 2),
            final(data)@ == register_read(old(data)@, old(self).control()),
    {
        read_register(data, self.control)
    }

    /// A write by the guest, of one or two bytes: the register takes the
    /// value but for the sleep bit, and the result tells whether the
    /// sleep bit was written as one, which asks for power-off. Any other
    /// length changes nothing and tells `false`.
    pub fn write(&mut self, data: &[u8], base: GuestAddress, offset: u64) -> (r: bool)
        ensures
            match register_value(data@) {
                Some(value) => final(self).control() == value & !ACPI_BITMASK_SLEEP_ENABLE && r
                    == (value & ACPI_BITMASK_SLEEP_ENABLE != 0),
                None => final(self).control() == old(self).control() && !r,
            },
    {
        match written_value(data) {
            Some(value) => {
                self.control = value & !ACPI_BITMASK_SLEEP_ENABLE;
                value & ACPI_BITMASK_SLEEP_ENABLE != 0
            },
            None => false,
        }
    }
}

} // verus!
