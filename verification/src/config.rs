//! Serial transport configuration: the resolved parameters a transport
//! is opened with.  Every field is drawn from the small enumerated set
//! the device supports; unsupported values are rejected here, before
//! any transport is opened.

use vstd::prelude::*;

verus! {

/// The read timeout, in milliseconds, applied to every transport read.
/// A read that times out counts as "no data available", never an error.
pub const READ_TIMEOUT_MS: u64 = 10;

/// Number of stop bits on the serial line.
#[derive(Clone, Copy, Debug, PartialEq, Eq, Structural)]
pub enum StopBits {
    One,
    Two,
}

/// Number of data bits per character; the device supports only seven
/// or eight.
#[derive(Clone, Copy, Debug, PartialEq, Eq, Structural)]
pub enum DataBits {
    Seven,
    Eight,
}

/// Parity protection of the serial line; `Off` means no parity bit.
#[derive(Clone, Copy, Debug, PartialEq, Eq, Structural)]
pub enum Parity {
    Even,
    Odd,
    Off,
}

/// Why a requested configuration was rejected.
#[derive(Clone, Copy, Debug, PartialEq, Eq, Structural)]
pub enum ConfigError {
    /// The data-bits count is not seven or eight.
    UnsupportedDataBits,
    /// The stop-bits count is not one or two.
    UnsupportedStopBits,
}

/// Resolved transport parameters, ready to open a transport with.
#[derive(Clone, Copy, Debug, PartialEq, Eq, Structural)]
pub struct SerialConfig {
    pub baud: u32,
    pub data_bits: DataBits,
    pub stop_bits: StopBits,
    pub parity: Parity,
}

/// What resolving raw counts must produce: seven or eight data bits and
/// one or two stop bits are accepted, anything else is rejected with
/// the error naming the offending field (data bits checked first).
pub open spec fn resolved_config(baud: u32, data_bits: u8, stop_bits: u8, parity: Parity) -> Result<
    SerialConfig,
    ConfigError,
> {
    if data_bits != 7 && data_bits != 8 {
        Err(ConfigError::UnsupportedDataBits)
    } else if stop_bits != 1 && stop_bits != 2 {
        Err(ConfigError::UnsupportedStopBits)
    } else {
        Ok(
            SerialConfig {
                baud,
                data_bits: if data_bits == 7 {
                    DataBits::Seven
                } else {
                    DataBits::Eight
                },
                stop_bits: if stop_bits == 1 {
                    StopBits::One
                } else {
                    StopBits::Two
                },
                parity,
            },
        )
    }
}

/// Resolves raw data-bits and stop-bits counts into a configuration,
/// rejecting every value outside the supported sets.
pub fn serial_config(baud: u32, data_bits: u8, stop_bits: u8, parity: Parity) -> (r: Result<
    SerialConfig,
    ConfigError,
>)
    ensures
        r == resolved_config(baud, data_bits, stop_bits, parity),
{
    if data_bits != 7 && data_bits != 8 {
        return Err(ConfigError::UnsupportedDataBits);
    }
    if stop_bits != 1 && stop_bits != 2 {
        return Err(ConfigError::UnsupportedStopBits);
    }
    Ok(
        SerialConfig {
            baud,
            data_bits: if data_bits == 7 {
                DataBits::Seven
            } else {
                DataBits::Eight
            },
            stop_bits: if stop_bits == 1 {
                StopBits::One
            } else {
                StopBits::Two
            },
            parity,
        },
    )
}

} // verus!
