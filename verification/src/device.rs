//! How a candidate USB device is recognised and selected: the fixed
//! ICDI vendor and product identity, and the selector match rule.

use vstd::prelude::*;

verus! {

/// The USB vendor id of every ICDI probe.
pub const ICDI_VID: u16 = 0x1CBE;

/// The USB product id of every ICDI probe.
pub const ICDI_PID: u16 = 0x00FD;

/// The interface number the driver claims.
pub const ICDI_INTERFACE: u8 = 0x02;

/// The bulk IN endpoint replies arrive on.
pub const ICDI_READ_ENDPOINT: u8 = 0x83;

/// The bulk OUT endpoint commands go out on.
pub const ICDI_WRITE_ENDPOINT: u8 = 0x02;

/// Names one probe to open: the USB identity and, when given, the
/// exact serial number.
pub struct DebugProbeSelector {
    /// The USB vendor id asked for.
    pub vendor_id: u16,
    /// The USB product id asked for.
    pub product_id: u16,
    /// The serial number asked for, if any.
    pub serial_number: Option<String>,
}

/// Whether a device identity is an ICDI probe.
pub fn is_icdi_id(vendor_id: u16, product_id: u16) -> (r: bool)
    ensures
        r <==> (vendor_id == ICDI_VID && product_id == ICDI_PID),
{
    vendor_id == ICDI_VID && product_id == ICDI_PID
}

/// Whether a device matches a selector: vendor and product ids equal,
/// and either no serial is asked for or the device's serial is exactly
/// the one asked for.
pub fn selector_matches(
    selector: &DebugProbeSelector,
    vendor_id: u16,
    product_id: u16,
    serial: &Option<String>,
) -> (r: bool)
    ensures
        r <==> (vendor_id == selector.vendor_id && product_id == selector.product_id && (
        selector.serial_number is None || (selector.serial_number matches Some(want)
            && *serial matches Some(have) && want@ == have@))),
{
    if vendor_id != selector.vendor_id || product_id != selector.product_id {
        return false;
    }
    match (&selector.serial_number, serial) {
        (None, _) => true,
        (Some(want), Some(have)) => *want == *have,
        (Some(_), None) => false,
    }
}

} // verus!
