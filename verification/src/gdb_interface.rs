//! The GDB-remote face of the probe: the command set a debugger backend
//! drives over the serial protocol.  The strong contracts live on the
//! probe's own methods; this trait is the capability surface an outside
//! consumer holds, so its methods promise only what every
//! implementation must keep.

use crate::channel::BulkChannel;
use crate::errors::IcdiError;
use crate::probe::{text_hreset, IcdiProbe};
use crate::response::ReceiveBuffer;
use vstd::prelude::*;

verus! {

/// The operations the generic debugger layer drives a GDB-remote probe
/// with.
pub trait GdbRemoteInterface {
    /// The handle is in working order with a debug session attached.
    spec fn gdb_ready(&self) -> bool;

    /// Resets the target with the `hreset` remote command.
    fn reset(&mut self) -> (r: Result<(), IcdiError>)
        requires
            old(self).gdb_ready(),
        ensures
            final(self).gdb_ready(),
    ;

    /// Resumes the target.
    fn run(&mut self) -> (r: Result<(), IcdiError>)
        requires
            old(self).gdb_ready(),
        ensures
            final(self).gdb_ready(),
    ;

    /// Halts the target.
    fn halt(&mut self) -> (r: Result<(), IcdiError>)
        requires
            old(self).gdb_ready(),
        ensures
            final(self).gdb_ready(),
    ;

    /// Single-steps the target.
    fn step(&mut self) -> (r: Result<(), IcdiError>)
        requires
            old(self).gdb_ready(),
        ensures
            final(self).gdb_ready(),
    ;

    /// Reads one core register.
    fn read_reg(&mut self, regsel: u32) -> (r: Result<u32, IcdiError>)
        requires
            old(self).gdb_ready(),
        ensures
            final(self).gdb_ready(),
    ;

    /// Writes one core register.
    fn write_reg(&mut self, regsel: u32, val: u32) -> (r: Result<(), IcdiError>)
        requires
            old(self).gdb_ready(),
        ensures
            final(self).gdb_ready(),
    ;

    /// Reads `len` bytes of target memory.
    fn read_mem(&mut self, addr: u32, len: usize) -> (r: Result<Vec<u8>, IcdiError>)
        requires
            old(self).gdb_ready(),
            addr + len <= 0x1_0000_0000,
        ensures
            final(self).gdb_ready(),
    ;

    /// Writes bytes to target memory.
    fn write_mem(&mut self, addr: u32, data: &Vec<u8>) -> (r: Result<(), IcdiError>)
        requires
            old(self).gdb_ready(),
            addr + data@.len() <= 0x1_0000_0000,
        ensures
            final(self).gdb_ready(),
    ;

    /// Writes one 32-bit debug register.
    fn write_debug_reg(&mut self, addr: u32, val: u32) -> (r: Result<(), IcdiError>)
        requires
            old(self).gdb_ready(),
            addr + 4 <= 0x1_0000_0000,
        ensures
            final(self).gdb_ready(),
    ;

    /// Sends a host-defined remote command.
    fn send_remote_command(&mut self, cmd: &Vec<u8>) -> (r: Result<ReceiveBuffer, IcdiError>)
        requires
            old(self).gdb_ready(),
        ensures
            final(self).gdb_ready(),
    ;

    /// Sends one raw command body.
    fn send_cmd(&mut self, cmd: &Vec<u8>) -> (r: Result<ReceiveBuffer, IcdiError>)
        requires
            old(self).gdb_ready(),
        ensures
            final(self).gdb_ready(),
    ;

    /// Reads one protocol-sized piece of target memory.
    fn read_mem_int(&mut self, addr: u32, len: u32) -> (r: Result<Vec<u8>, IcdiError>)
        requires
            old(self).gdb_ready(),
        ensures
            final(self).gdb_ready(),
    ;

    /// Writes one protocol-sized piece of target memory.
    fn write_mem_int(&mut self, addr: u32, data: &Vec<u8>) -> (r: Result<(), IcdiError>)
        requires
            old(self).gdb_ready(),
            data@.len() <= u32::MAX,
        ensures
            final(self).gdb_ready(),
    ;

    /// Frames one command body and performs the exchange.
    fn send_packet(&mut self, body: &Vec<u8>) -> (r: Result<ReceiveBuffer, IcdiError>)
        requires
            old(self).gdb_ready(),
        ensures
            final(self).gdb_ready(),
    ;
}

impl<C: BulkChannel> GdbRemoteInterface for IcdiProbe<C> {
    open spec fn gdb_ready(&self) -> bool {
        self.wf() && self.spec_phase() == crate::probe::ProbePhase::Attached
    }

    fn reset(&mut self) -> (r: Result<(), IcdiError>) {
        let text = text_hreset();
        let rb = self.send_remote_command(&text)?;
        rb.check_cmd_result()
    }

    fn run(&mut self) -> (r: Result<(), IcdiError>) {
        IcdiProbe::run(self)
    }

    fn halt(&mut self) -> (r: Result<(), IcdiError>) {
        IcdiProbe::halt(self)
    }

    fn step(&mut self) -> (r: Result<(), IcdiError>) {
        IcdiProbe::step(self)
    }

    fn read_reg(&mut self, regsel: u32) -> (r: Result<u32, IcdiError>) {
        IcdiProbe::read_reg(self, regsel)
    }

    fn write_reg(&mut self, regsel: u32, val: u32) -> (r: Result<(), IcdiError>) {
        IcdiProbe::write_reg(self, regsel, val)
    }

    fn read_mem(&mut self, addr: u32, len: usize) -> (r: Result<Vec<u8>, IcdiError>) {
        IcdiProbe::read_mem(self, addr, len)
    }

    fn write_mem(&mut self, addr: u32, data: &Vec<u8>) -> (r: Result<(), IcdiError>) {
        IcdiProbe::write_mem(self, addr, data)
    }

    fn write_debug_reg(&mut self, addr: u32, val: u32) -> (r: Result<(), IcdiError>) {
        IcdiProbe::write_debug_reg(self, addr, val)
    }

    fn send_remote_command(&mut self, cmd: &Vec<u8>) -> (r: Result<ReceiveBuffer, IcdiError>) {
        IcdiProbe::send_remote_command(self, cmd)
    }

    fn send_cmd(&mut self, cmd: &Vec<u8>) -> (r: Result<ReceiveBuffer, IcdiError>) {
        IcdiProbe::send_cmd(self, cmd)
    }

    fn read_mem_int(&mut self, addr: u32, len: u32) -> (r: Result<Vec<u8>, IcdiError>) {
        IcdiProbe::read_mem_int(self, addr, len)
    }

    fn write_mem_int(&mut self, addr: u32, data: &Vec<u8>) -> (r: Result<(), IcdiError>) {
        IcdiProbe::write_mem_int(self, addr, data)
    }

    fn send_packet(&mut self, body: &Vec<u8>) -> (r: Result<ReceiveBuffer, IcdiError>) {
        IcdiProbe::send_cmd(self, body)
    }
}

} // verus!
