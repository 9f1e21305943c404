//! Error vocabulary of the driver, one variant per failure kind.  The
//! kinds carry no command or address context: where an operation spans
//! several exchanges, its contract locates the failure through the
//! frames left on the channel instead.

use vstd::prelude::*;

verus! {

/// Wire protocol a caller may ask the probe to use. The ICDI device only
/// speaks JTAG; everything else is refused.
#[derive(Clone, Copy, Debug, PartialEq, Eq, Structural)]
pub enum WireProtocol {
    Jtag,
    Swd,
}

/// Every failure the driver reports.
#[derive(Clone, Copy, Debug, PartialEq, Eq, Structural)]
pub enum IcdiError {
    /// No USB device matched the selector during enumeration.
    NotFound,
    /// The OS USB write failed or sent fewer bytes than asked.
    TransportWrite,
    /// The OS USB read failed.
    TransportRead,
    /// A USB read exceeded its timeout.
    Timeout,
    /// A reply had no `$`/`#` frame, or the buffer filled before the
    /// checksum arrived.
    Framing,
    /// The peer answered `-` three times in a row.
    TooManyRetries,
    /// The reply payload began with `E` and a two-digit code.
    CommandFailed(u8),
    /// The reply payload had zero bytes.
    EmptyResponse,
    /// Non-hex bytes where hex digits were expected.
    HexDecode,
    /// Non-UTF-8 bytes where text was expected.
    Utf8,
    /// A memory read decoded fewer bytes than requested.
    ShortRead,
    /// The caller selected a protocol the probe does not speak.
    UnsupportedProtocol(WireProtocol),
    /// The caller asked for a speed the probe cannot set.
    UnsupportedSpeed(u32),
    /// The caller asked for an operation the probe does not offer.
    UnsupportedOperation,
    /// The device offered a packet size the driver cannot carry:
    /// below the frame overhead, or beyond the 32-bit range.
    UnsupportedPacketSize,
}

/// An error the transport layers report: nothing about it came from
/// judging a reply payload.
pub open spec fn spec_transport_error(e: IcdiError) -> bool {
    ||| e == IcdiError::TransportWrite
    ||| e == IcdiError::TransportRead
    ||| e == IcdiError::Timeout
    ||| e == IcdiError::Framing
    ||| e == IcdiError::TooManyRetries
}

} // verus!
