//! The single CoreSight access port the probe exposes: port 0, a
//! memory access port rooted at the Cortex-M private peripheral base.
//! The deeper access-port register model — IDR probing, ROM-table
//! parsing — belongs to the ARM-debug subsystem that consumes this
//! driver, not to the driver itself, so only the fixed descriptor of
//! the one port lives here and every raw register access is refused.

use crate::channel::BulkChannel;
use crate::probe::IcdiProbe;
use vstd::prelude::*;

verus! {

/// A CoreSight access-port endpoint: something with a port number.
pub trait AccessPort {
    /// The port number, in the ghost.
    spec fn spec_port_number(&self) -> u8;

    /// The port number.
    fn port_number(&self) -> (r: u8)
        ensures
            r == self.spec_port_number(),
    ;
}

/// An access port named only by its number.
#[derive(Clone, Copy, Debug, PartialEq, Eq, Structural)]
pub struct GenericAp {
    port: u8,
}

impl GenericAp {
    /// The access port with the given number.
    pub fn new(port: u8) -> (r: Self)
        ensures
            r.spec_port_number() == port,
    {
        GenericAp { port }
    }
}

impl AccessPort for GenericAp {
    closed spec fn spec_port_number(&self) -> u8 {
        self.port
    }

    fn port_number(&self) -> (r: u8) {
        self.port
    }
}

/// A memory access port named by its number.
#[derive(Clone, Copy, Debug, PartialEq, Eq, Structural)]
pub struct MemoryAp {
    port: u8,
}

impl MemoryAp {
    /// The memory access port with the given number.
    pub fn new(port: u8) -> (r: Self)
        ensures
            r.spec_port_number() == port,
    {
        MemoryAp { port }
    }
}

impl AccessPort for MemoryAp {
    closed spec fn spec_port_number(&self) -> u8 {
        self.port
    }

    fn port_number(&self) -> (r: u8) {
        self.port
    }
}

/// What the one memory access port of the probe looks like.
#[derive(Clone, Copy, Debug, PartialEq, Eq, Structural)]
pub struct MemoryApInformation {
    /// The access port's number.
    pub port_number: u8,
    /// Whether only 32-bit transfers are possible.
    pub only_32bit_data_size: bool,
    /// Where the debug components are rooted.
    pub debug_base_address: u32,
    /// Whether the port supports the HNONSEC bit.
    pub supports_hnonsec: bool,
}

impl<C: BulkChannel> IcdiProbe<C> {
    /// Describes the probe's access ports: port 0 is a memory port
    /// rooted at `0xE00FF000` that moves 8- and 32-bit data and has no
    /// HNONSEC support; there is no other port.
    pub fn ap_information(&self, access_port: GenericAp) -> (r: Option<MemoryApInformation>)
        ensures
            access_port.spec_port_number() == 0 ==> r == Some(
                MemoryApInformation {
                    port_number: 0u8,
                    only_32bit_data_size: false,
                    debug_base_address: 0xE00FF000u32,
                    supports_hnonsec: false,
                },
            ),
            access_port.spec_port_number() != 0 ==> r is None,
    {
        if access_port.port_number() != 0 {
            return None;
        }
        Some(
            MemoryApInformation {
                port_number: 0,
                only_32bit_data_size: false,
                debug_base_address: 0xE00FF000,
                supports_hnonsec: false,
            },
        )
    }
}

} // verus!
