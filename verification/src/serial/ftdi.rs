//! FTDI USB-to-serial chips: chip identification, baud-rate divisors and the
//! vendor request set, following the Linux `ftdi_sio` driver and FTDI's
//! application note AN232B-05.

use crate::error::{message, outcome, Error, ErrorKind, ErrorView, Result};
use crate::serial::ModemStatus;
use vstd::prelude::*;

pub mod bitmode;
pub mod req;
pub mod reset;

verus! {

/// FTDI's USB vendor ID. Rebranded devices may use another one.
pub const VENDOR_ID: u16 = 0x0403;

/// The FTDI chip family, identified from `bcdDevice`.
#[derive(Debug, Clone, Copy, PartialEq, Eq, Hash, Structural)]
#[non_exhaustive]
pub enum FtdiChip {
    /// FT8U232AM.
    Am,
    /// FT232BM / FT245BM.
    Bm,
    /// FT2232C/D (dual port).
    Ft2232C,
    /// FT232R / FT245R.
    Ft232R,
    /// FT2232H (dual port, high speed).
    Ft2232H,
    /// FT4232H (quad port, high speed).
    Ft4232H,
    /// FT232H (high speed).
    Ft232H,
    /// FT-X series (FT230X, FT231X, FT234XD, ...).
    FtX,
    /// FT2233HP.
    Ft2233HP,
    /// FT4233HP.
    Ft4233HP,
    /// FT2232HP.
    Ft2232HP,
    /// FT4232HP.
    Ft4232HP,
    /// FT233HP.
    Ft233HP,
    /// FT232HP.
    Ft232HP,
    /// FT4232HA.
    Ft4232HA,
    /// An unrecognised `bcdDevice`; treated like a high-speed chip.
    Unknown(u16),
}

/// The chip that a `bcdDevice` stands for.
pub open spec fn chip_of(bcd: u16) -> Option<FtdiChip> {
    if bcd == 0x0200 {
        Some(FtdiChip::Am)
    } else if bcd == 0x0400 {
        Some(FtdiChip::Bm)
    } else if bcd == 0x0500 {
        Some(FtdiChip::Ft2232C)
    } else if bcd == 0x0600 {
        Some(FtdiChip::Ft232R)
    } else if bcd == 0x0700 {
        Some(FtdiChip::Ft2232H)
    } else if bcd == 0x0800 {
        Some(FtdiChip::Ft4232H)
    } else if bcd == 0x0900 {
        Some(FtdiChip::Ft232H)
    } else if bcd == 0x1000 {
        Some(FtdiChip::FtX)
    } else if bcd == 0x2800 {
        Some(FtdiChip::Ft2233HP)
    } else if bcd == 0x2900 {
        Some(FtdiChip::Ft4233HP)
    } else if bcd == 0x3000 {
        Some(FtdiChip::Ft2232HP)
    } else if bcd == 0x3100 {
        Some(FtdiChip::Ft4232HP)
    } else if bcd == 0x3200 {
        Some(FtdiChip::Ft233HP)
    } else if bcd == 0x3300 {
        Some(FtdiChip::Ft232HP)
    } else if bcd == 0x3600 {
        Some(FtdiChip::Ft4232HA)
    } else if bcd < 0x0200 {
        None
    } else {
        Some(FtdiChip::Unknown(bcd))
    }
}

/// Whether a chip is one of the high-speed parts.
pub open spec fn high_speed(chip: FtdiChip) -> bool {
    !(chip is Am || chip is Bm || chip is Ft2232C || chip is Ft232R || chip is FtX)
}

/// The port index used in `wIndex`.
pub open spec fn channel_of(chip: FtdiChip, interface: u8) -> u16 {
    if chip is Am || chip is Bm || chip is Ft232R {
        0
    } else {
        (interface + 1) as u16
    }
}

/// The fastest baud rate of a chip.
pub open spec fn fastest(chip: FtdiChip) -> u32 {
    if high_speed(chip) {
        12_000_000
    } else {
        3_000_000
    }
}

/// What identifying an open device asks for.
#[derive(Debug)]
pub enum Probe {
    /// The chip is known.
    Known(FtdiChip),
    /// Read the latency timer; the outcome goes to [`FtdiChip::probed`].
    AskLatency,
}

impl FtdiChip {
    /// Identifies the chip. `None` for the original SIO (bcdDevice below
    /// 0x200), whose different protocol is not supported. An AM-looking
    /// device without a serial number may be a BM (a known silicon quirk),
    /// which [`probe`](Self::probe) resolves.
    pub fn from_bcd_device(bcd: u16) -> (r: Option<FtdiChip>)
        ensures
            r == chip_of(bcd),
    {
        match bcd {
            0x0200 => Some(FtdiChip::Am),
            0x0400 => Some(FtdiChip::Bm),
            0x0500 => Some(FtdiChip::Ft2232C),
            0x0600 => Some(FtdiChip::Ft232R),
            0x0700 => Some(FtdiChip::Ft2232H),
            0x0800 => Some(FtdiChip::Ft4232H),
            0x0900 => Some(FtdiChip::Ft232H),
            0x1000 => Some(FtdiChip::FtX),
            0x2800 => Some(FtdiChip::Ft2233HP),
            0x2900 => Some(FtdiChip::Ft4233HP),
            0x3000 => Some(FtdiChip::Ft2232HP),
            0x3100 => Some(FtdiChip::Ft4232HP),
            0x3200 => Some(FtdiChip::Ft233HP),
            0x3300 => Some(FtdiChip::Ft232HP),
            0x3600 => Some(FtdiChip::Ft4232HA),
            _ => if bcd < 0x0200 {
                None
            } else {
                Some(FtdiChip::Unknown(bcd))
            },
        }
    }

    /// Identifies the chip of a device from its `bcdDevice` and the index of
    /// its serial number string.
    pub fn probe(bcd: u16, serial_number_string_index: u8) -> (r: Result<Probe>)
        ensures
            outcome(r) == (match chip_of(bcd) {
                None => Err::<Probe, ErrorView>(
                    message(ErrorKind::NotSupported, "original FTDI SIO chips are not supported"@),
                ),
                Some(chip) => if chip is Am && serial_number_string_index == 0 {
                    Ok(Probe::AskLatency)
                } else {
                    Ok(Probe::Known(chip))
                },
            }),
    {
        match FtdiChip::from_bcd_device(bcd) {
            None => Err(Error::with_message(ErrorKind::NotSupported, "original FTDI SIO chips are not supported")),
            Some(chip) => match chip {
                FtdiChip::Am => if serial_number_string_index == 0 {
                    Ok(Probe::AskLatency)
                } else {
                    Ok(Probe::Known(FtdiChip::Am))
                },
                c => Ok(Probe::Known(c)),
            },
        }
    }

    /// Resolves the AM/BM ambiguity the way Linux does: an FT232BM without a
    /// serial number reports 0x200, but unlike an AM it has a readable latency
    /// timer.
    pub fn probed(latency: Result<usize>) -> (r: FtdiChip)
        ensures
            r == (if latency is Ok {
                FtdiChip::Bm
            } else {
                FtdiChip::Am
            }),
    {
        match latency {
            Ok(_) => FtdiChip::Bm,
            Err(_) => FtdiChip::Am,
        }
    }

    /// `true` for the high-speed parts, whose baud generator runs from a
    /// 120 MHz clock.
    pub fn is_high_speed(self) -> (r: bool)
        ensures
            r == high_speed(self),
    {
        !matches!(self, FtdiChip::Am | FtdiChip::Bm | FtdiChip::Ft2232C | FtdiChip::Ft232R | FtdiChip::FtX)
    }

    /// The port index used in `wIndex`: 0 for chips that only ever had one
    /// port (whose firmware predates port selection), otherwise the 1-based
    /// port (interface number + 1).
    pub fn channel(self, interface: u8) -> (r: u16)
        ensures
            r == channel_of(self, interface),
    {
        match self {
            FtdiChip::Am | FtdiChip::Bm | FtdiChip::Ft232R => 0,
            _ => interface as u16 + 1,
        }
    }

    /// Fastest supported baud rate.
    pub fn max_baud_rate(self) -> (r: u32)
        ensures
            r == fastest(self),
    {
        if self.is_high_speed() {
            12_000_000
        } else {
            3_000_000
        }
    }
}

/// The chip's encoding of the three fractional bits of a divisor.
pub open spec fn fraction_code(eighths: int) -> int {
    if eighths == 0 {
        0
    } else if eighths == 1 {
        3
    } else if eighths == 2 {
        2
    } else if eighths == 3 {
        4
    } else if eighths == 4 {
        1
    } else {
        eighths
    }
}

/// The divisor `clock / baud` in eighths, rounded, from the 48 MHz clock.
pub open spec fn divisor_48(baud: u32) -> int {
    (48_000_000 + baud) / (2 * baud)
}

/// The divisor in eighths, rounded, from the 120 MHz clock with 10x
/// oversampling.
pub open spec fn divisor_120(baud: u32) -> int {
    (960_000_000 + 5 * baud) / (10 * baud)
}

/// The 232AM's encoding of a divisor in eighths, which only has fractions of
/// 1/8, 1/4 and 1/2; 7/8 is rounded up.
pub open spec fn am_encoding(eighths: int) -> Option<int> {
    let e = if eighths % 8 == 7 {
        eighths + 1
    } else {
        eighths
    };
    let whole = e / 8;
    if whole > 0x3fff {
        None
    } else if e % 8 == 0 {
        if whole == 1 {
            Some(0)
        } else {
            Some(whole)
        }
    } else if e % 8 == 1 {
        Some(whole + 0xc000)
    } else if e % 8 >= 4 {
        Some(whole + 0x4000)
    } else {
        Some(whole + 0x8000)
    }
}

/// The 232BM's and later chips' encoding of a divisor in eighths. The two
/// highest rates have encodings of their own, and bit 17 switches the
/// H-series generator from 48 MHz to 120 MHz.
pub open spec fn bm_encoding(eighths: int, fast_clock: bool) -> Option<int> {
    let whole = eighths / 8;
    if whole > 0x3fff {
        None
    } else {
        let d = whole + fraction_code(eighths % 8) * 0x4000;
        let e = if d == 1 {
            0
        } else if d == 0x4001 {
            1
        } else {
            d
        };
        if fast_clock {
            Some(e + 0x2_0000)
        } else {
            Some(e)
        }
    }
}

/// The divisor of a chip for a baud rate, if it has one.
pub open spec fn divisor_for(chip: FtdiChip, baud: u32) -> Option<int> {
    if baud == 0 || baud > fastest(chip) {
        None
    } else if chip is Am {
        am_encoding(divisor_48(baud))
    } else if high_speed(chip) && baud >= 1200 {
        bm_encoding(divisor_120(baud), true)
    } else {
        bm_encoding(divisor_48(baud), false)
    }
}

/// The `wIndex` of SET_BAUD_RATE: on multi-port chips the divisor's top bits
/// move to the high byte and the port goes in the low byte.
pub open spec fn baud_index(high: u16, channel: u16) -> u16 {
    if channel != 0 {
        ((high * 256) as u16) | channel
    } else {
        high
    }
}

fn am_divisor(eighths: u32) -> (r: Option<u32>)
    requires
        eighths <= 24_000_001,
    ensures
        match am_encoding(eighths as int) {
            Some(d) => r is Some && r->0 == d,
            None => r is None,
        },
{
    let e: u32 = if eighths % 8 == 7 {
        eighths + 1
    } else {
        eighths
    };
    let whole: u32 = e / 8;
    if whole > 0x3fff {
        return None;
    }
    match e % 8 {
        0 => if whole == 1 {
            // 3 Mbaud
            Some(0)
        } else {
            Some(whole)
        },
        1 => Some(whole + 0xc000),
        2 | 3 => Some(whole + 0x8000),
        _ => Some(whole + 0x4000),
    }
}

fn bm_divisor(eighths: u32, fast_clock: bool) -> (r: Option<u32>)
    ensures
        match bm_encoding(eighths as int, fast_clock) {
            Some(d) => r is Some && r->0 == d && d < 0x4_0000,
            None => r is None,
        },
{
    let whole: u32 = eighths / 8;
    if whole > 0x3fff {
        return None;
    }
    let part: u32 = eighths % 8;
    let code: u32 = match part {
        0 => 0,
        1 => 3,
        2 => 2,
        3 => 4,
        4 => 1,
        _ => part,
    };
    let d: u32 = whole + code * 0x4000;
    let e: u32 = if d == 1 {
        0
    } else if d == 0x4001 {
        1
    } else {
        d
    };
    Some(
        if fast_clock {
            e + 0x2_0000
        } else {
            e
        },
    )
}

fn eighths_48(baud: u32) -> (r: u32)
    requires
        0 < baud <= 12_000_000,
    ensures
        r == divisor_48(baud),
        r <= 24_000_001,
{
    assert((48_000_000 + baud) / (2 * baud) <= 24_000_001) by (nonlinear_arith)
        requires
            baud > 0,
    ;
    (48_000_000 + baud) / (2 * baud)
}

fn eighths_120(baud: u32) -> (r: u32)
    requires
        1200 <= baud <= 12_000_000,
    ensures
        r == divisor_120(baud),
{
    let n: u64 = (960_000_000 + 5 * baud as u64) / (10 * baud as u64);
    assert((960_000_000 + 5 * baud) / (10 * baud) <= 960_000_000) by (nonlinear_arith)
        requires
            baud >= 1200,
    ;
    n as u32
}

/// The (`wValue`, `wIndex`) pair of SET_BAUD_RATE for a chip, port and rate.
pub fn baud_request(chip: FtdiChip, channel: u16, baud: u32) -> (r: Result<(u16, u16)>)
    ensures
        outcome(r) == (match divisor_for(chip, baud) {
            Some(d) => Ok::<(u16, u16), ErrorView>(
                ((d % 0x1_0000) as u16, baud_index((d / 0x1_0000) as u16, channel)),
            ),
            None => Err(message(ErrorKind::InvalidParam, "baud rate out of range for this FTDI chip"@)),
        }),
{
    let mut divisor: Option<u32> = None;
    if baud != 0 && baud <= chip.max_baud_rate() {
        divisor = match chip {
            FtdiChip::Am => am_divisor(eighths_48(baud)),
            c => if c.is_high_speed() && baud >= 1200 {
                bm_divisor(eighths_120(baud), true)
            } else {
                bm_divisor(eighths_48(baud), false)
            },
        };
    }
    match divisor {
        None => Err(Error::with_message(ErrorKind::InvalidParam, "baud rate out of range for this FTDI chip")),
        Some(d) => {
            let value: u16 = (d % 0x1_0000) as u16;
            let high: u16 = (d / 0x1_0000) as u16;
            let index: u16 = if channel != 0 {
                (high * 256) | channel
            } else {
                high
            };
            Ok((value, index))
        },
    }
}

/// Whether the bit of the given weight is set.
pub open spec fn bit(b: u8, weight: u8) -> bool {
    (b / weight) % 2 == 1
}

/// What the two status bytes say.
pub open spec fn status_of(b0: u8, b1: u8) -> ModemStatus {
    ModemStatus {
        cts: bit(b0, 0x10),
        dsr: bit(b0, 0x20),
        ring: bit(b0, 0x40),
        dcd: bit(b0, 0x80),
        overrun: bit(b1, 0x02),
        parity_error: bit(b1, 0x04),
        framing_error: bit(b1, 0x08),
        break_received: bit(b1, 0x10),
    }
}

/// Decodes the two status bytes FTDI chips prefix to every IN packet (and
/// return from GET_MODEM_STATUS).
pub fn decode_status(b0: u8, b1: u8) -> (r: ModemStatus)
    ensures
        r == status_of(b0, b1),
{
    ModemStatus {
        cts: (b0 / 0x10) % 2 == 1,
        dsr: (b0 / 0x20) % 2 == 1,
        ring: (b0 / 0x40) % 2 == 1,
        dcd: (b0 / 0x80) % 2 == 1,
        overrun: (b1 / 0x02) % 2 == 1,
        parity_error: (b1 / 0x04) % 2 == 1,
        framing_error: (b1 / 0x08) % 2 == 1,
        break_received: (b1 / 0x10) % 2 == 1,
    }
}

/// Every chip has a divisor for every rate from 184 baud up to its fastest.
pub proof fn lemma_rates_have_divisors(chip: FtdiChip, baud: u32)
    requires
        184 <= baud <= fastest(chip),
    ensures
        divisor_for(chip, baud) is Some,
{
    if high_speed(chip) && baud >= 1200 {
        assert((960_000_000 + 5 * baud) / (10 * baud) <= 131_071) by (nonlinear_arith)
            requires
                baud >= 1200,
        ;
    } else {
        assert((48_000_000 + baud) / (2 * baud) <= 131_000) by (nonlinear_arith)
            requires
                baud >= 184,
        ;
    }
}

/// The divisor is the rate of the clock over the baud rate, in eighths and
/// rounded to the nearest: no other one comes closer.
pub proof fn lemma_divisors_are_nearest(baud: u32)
    requires
        baud > 0,
    ensures
        -(baud as int) <= 2 * (divisor_48(baud) * baud - 24_000_000) <= baud,
        -(baud as int) <= 2 * (divisor_120(baud) * baud - 96_000_000) <= baud,
{
    let b = baud as int;
    let d = divisor_48(baud);
    assert(2 * b * d <= 48_000_000 + b < 2 * b * (d + 1)) by (nonlinear_arith)
        requires
            d == (48_000_000 + b) / (2 * b),
            b > 0,
    ;
    assert(2 * b * d == 2 * (d * b) && 2 * b * (d + 1) == 2 * (d * b) + 2 * b) by (nonlinear_arith);
    let e = divisor_120(baud);
    assert(10 * b * e <= 960_000_000 + 5 * b < 10 * b * (e + 1)) by (nonlinear_arith)
        requires
            e == (960_000_000 + 5 * b) / (10 * b),
            b > 0,
    ;
    assert(10 * b * e == 10 * (e * b) && 10 * b * (e + 1) == 10 * (e * b) + 10 * b) by (nonlinear_arith);
}

/// A divisor has its whole part in 14 bits and the code of its fraction in the
/// three above; the two shortest have codes of their own, and bit 17 selects
/// the fast clock.
pub proof fn lemma_divisor_codes(eighths: int, fast_clock: bool)
    requires
        8 <= eighths < 8 * 0x4000,
    ensures
        ({
            let d = bm_encoding(eighths, fast_clock)->0;
            let code = d % 0x2_0000;
            let part = eighths % 8;
            &&& bm_encoding(eighths, fast_clock) is Some
            &&& d / 0x2_0000 == if fast_clock { 1int } else { 0 }
            &&& eighths == 8 ==> code == 0
            &&& eighths == 12 ==> code == 1
            &&& eighths != 8 && eighths != 12 ==> code % 0x4000 == eighths / 8 && code / 0x4000 == (if part == 0 {
                0int
            } else if part == 4 {
                1
            } else if part == 2 {
                2
            } else if part == 1 {
                3
            } else if part == 3 {
                4
            } else {
                part
            })
        }),
        bm_encoding(0x2_0000, fast_clock) is None,
{
}

/// The oldest chips know only the fractions 0, 1/8, 1/4 and 1/2; the rest is
/// rounded to these, and seven eighths up.
pub proof fn lemma_old_divisor_codes(eighths: int)
    requires
        16 <= eighths < 8 * 0x4000 - 1,
    ensures
        ({
            let d = am_encoding(eighths)->0;
            let part = eighths % 8;
            &&& am_encoding(eighths) is Some
            &&& part == 7 ==> d == eighths / 8 + 1
            &&& part < 7 ==> d % 0x4000 == eighths / 8
            &&& part == 0 ==> d / 0x4000 == 0
            &&& part == 1 ==> d / 0x4000 == 3
            &&& part == 2 || part == 3 ==> d / 0x4000 == 2
            &&& 4 <= part <= 6 ==> d / 0x4000 == 1
        }),
        am_encoding(8) == Some(0int),
{
}

/// Which clock and which code a rate is set with; one that is zero or too fast
/// for the chip is refused.
pub proof fn lemma_rate_codes(chip: FtdiChip, baud: u32)
    ensures
        baud == 0 ==> divisor_for(chip, baud) is None,
        high_speed(chip) ==> fastest(chip) == 12_000_000,
        !high_speed(chip) ==> fastest(chip) == 3_000_000,
        baud > fastest(chip) ==> divisor_for(chip, baud) is None,
        0 < baud <= 3_000_000 && chip is Am ==> divisor_for(chip, baud) == am_encoding(divisor_48(baud)),
        1200 <= baud <= 12_000_000 && high_speed(chip) ==> divisor_for(chip, baud) == bm_encoding(divisor_120(baud), true),
        0 < baud < 1200 && high_speed(chip) ==> divisor_for(chip, baud) == bm_encoding(divisor_48(baud), false),
        0 < baud <= 3_000_000 && !(chip is Am) && !high_speed(chip) ==> divisor_for(chip, baud) == bm_encoding(
            divisor_48(baud),
            false,
        ),
        high_speed(chip) <==> !(chip is Am) && !(chip is Bm) && !(chip is Ft2232C) && !(chip is Ft232R) && !(chip is FtX),
{
}

/// Chips are told apart by their version numbers.
pub proof fn lemma_chips(bcd: u16)
    ensures
        bcd < 0x0200 ==> chip_of(bcd) is None,
        chip_of(0x0200) == Some(FtdiChip::Am),
        chip_of(0x0400) == Some(FtdiChip::Bm),
        chip_of(0x0500) == Some(FtdiChip::Ft2232C),
        chip_of(0x0600) == Some(FtdiChip::Ft232R),
        chip_of(0x0700) == Some(FtdiChip::Ft2232H),
        chip_of(0x0800) == Some(FtdiChip::Ft4232H),
        chip_of(0x0900) == Some(FtdiChip::Ft232H),
        chip_of(0x1000) == Some(FtdiChip::FtX),
        bcd >= 0x0200 ==> chip_of(bcd) is Some,
        chip_of(bcd) matches Some(FtdiChip::Unknown(b)) ==> b == bcd,
{
}

/// Chips with one port are addressed as a whole, the others by port, counted
/// from 1.
pub proof fn lemma_channels(chip: FtdiChip, interface: u8)
    requires
        interface < 255,
    ensures
        chip is Am || chip is Bm || chip is Ft232R ==> channel_of(chip, interface) == 0,
        !(chip is Am || chip is Bm || chip is Ft232R) ==> channel_of(chip, interface) == interface + 1,
{
}

/// The high part of a divisor is the index of the request, above the channel
/// where there is one.
pub proof fn lemma_rate_index(high: u16, channel: u16)
    requires
        high < 256,
    ensures
        channel == 0 ==> baud_index(high, channel) == high,
        channel != 0 ==> baud_index(high, channel) == ((high * 256) as u16) | channel,
{
}

/// Which line or event each bit of the two status bytes is.
pub proof fn lemma_status_bits(b0: u8, b1: u8)
    ensures
        ({
            let s = status_of(b0, b1);
            &&& s.cts <==> b0 / 16 % 2 == 1
            &&& s.dsr <==> b0 / 32 % 2 == 1
            &&& s.ring <==> b0 / 64 % 2 == 1
            &&& s.dcd <==> b0 / 128 % 2 == 1
            &&& s.overrun <==> b1 / 2 % 2 == 1
            &&& s.parity_error <==> b1 / 4 % 2 == 1
            &&& s.framing_error <==> b1 / 8 % 2 == 1
            &&& s.break_received <==> b1 / 16 % 2 == 1
        }),
{
}

} // verus!
