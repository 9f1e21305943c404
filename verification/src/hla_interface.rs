//! The high-level-adapter face of the probe: target run state and the
//! operations a debugger front end calls.  The strong contracts live on
//! the probe's own methods; this trait is the capability surface an
//! outside consumer holds, so its methods promise only what every
//! implementation must keep.

use crate::channel::BulkChannel;
use crate::errors::IcdiError;
use crate::probe::{spec_chunk_len, spec_chunked_read, IcdiProbe};
use crate::response::ReceiveBuffer;
use vstd::prelude::*;

verus! {

/// Whether the target core is stopped.
#[derive(Clone, Copy, Debug, PartialEq, Eq, Structural)]
pub enum TargetRunState {
    Halted,
    Running,
}

/// The debug halting control and status register.
pub const DHCSR_ADDRESS: u32 = 0xE000EDF0;

/// What a DHCSR word says about the core: halted exactly when the
/// S_HALT bit (bit 17) is set.
pub open spec fn spec_run_state(word: u32) -> TargetRunState {
    if word & 0x20000 != 0 {
        TargetRunState::Halted
    } else {
        TargetRunState::Running
    }
}

/// Classifies one DHCSR word.
pub fn run_state_of(word: u32) -> (r: TargetRunState)
    ensures
        r == spec_run_state(word),
{
    if word & 0x20000 != 0 {
        TargetRunState::Halted
    } else {
        TargetRunState::Running
    }
}

impl<C: BulkChannel> IcdiProbe<C> {
    /// Reads the DHCSR register and reports the core halted exactly
    /// when its S_HALT bit is set.  Meaningful only while a session is
    /// attached.
    pub fn state(&mut self) -> (r: Result<TargetRunState, IcdiError>)
        requires
            old(self).wf(),
            old(self).spec_phase() == crate::probe::ProbePhase::Attached,
        ensures
            r matches Err(e) ==> crate::probe::spec_reply_error(e)
                || crate::errors::spec_transport_error(e) || e == IcdiError::ShortRead,
            r is Err ==> crate::probe::spec_chunked_read_stopped(
                old(self).writes(),
                old(self).pending(),
                final(self).writes(),
                final(self).pending(),
                DHCSR_ADDRESS as int,
                4,
                spec_chunk_len(old(self).mps()),
            ),
            final(self).wf(),
            final(self).same_config(old(self)),
            old(self).writes().is_prefix_of(final(self).writes()),
            crate::channel::stream_consumed(old(self).pending(), final(self).pending()),
            r matches Ok(st) ==> exists|bytes: Seq<u8>|
                #![trigger crate::codec::spec_le_words(bytes)]
                spec_chunked_read(
                    old(self).writes(),
                    old(self).pending(),
                    final(self).writes(),
                    final(self).pending(),
                    DHCSR_ADDRESS as int,
                    4,
                    spec_chunk_len(old(self).mps()),
                    bytes,
                ) && bytes.len() == 4 && st == spec_run_state(
                    vstd::bytes::spec_u32_from_le_bytes(bytes),
                ),
    {
        let bytes = self.read_mem(DHCSR_ADDRESS, 4)?;
        let word = vstd::bytes::u32_from_le_bytes(bytes.as_slice());
        proof {
            assert(crate::codec::spec_le_words(bytes@).len() == 1);
        }
        Ok(run_state_of(word))
    }
}

/// The operations the generic debugger layer drives a high-level
/// probe adapter with.
pub trait HlaInterface {
    /// The handle is in working order with a debug session attached.
    spec fn hla_ready(&self) -> bool;

    /// Reports whether the target core is halted.
    fn state(&mut self) -> (r: Result<TargetRunState, IcdiError>)
        requires
            old(self).hla_ready(),
        ensures
            final(self).hla_ready(),
    ;

    /// Resets the target.
    fn reset(&mut self) -> (r: Result<(), IcdiError>)
        requires
            old(self).hla_ready(),
        ensures
            final(self).hla_ready(),
    ;

    /// Resumes the target.
    fn run(&mut self) -> (r: Result<(), IcdiError>)
        requires
            old(self).hla_ready(),
        ensures
            final(self).hla_ready(),
    ;

    /// Halts the target.
    fn halt(&mut self) -> (r: Result<(), IcdiError>)
        requires
            old(self).hla_ready(),
        ensures
            final(self).hla_ready(),
    ;

    /// Single-steps the target.
    fn step(&mut self) -> (r: Result<(), IcdiError>)
        requires
            old(self).hla_ready(),
        ensures
            final(self).hla_ready(),
    ;

    /// Reads one core register.
    fn read_reg(&mut self, regsel: u32) -> (r: Result<u32, IcdiError>)
        requires
            old(self).hla_ready(),
        ensures
            final(self).hla_ready(),
    ;

    /// Writes one core register.
    fn write_reg(&mut self, regsel: u32, val: u32) -> (r: Result<(), IcdiError>)
        requires
            old(self).hla_ready(),
        ensures
            final(self).hla_ready(),
    ;

    /// Reads `count` items of `size` bytes from target memory.
    fn read_mem(&mut self, addr: u32, size: u32, count: u32) -> (r: Result<Vec<u8>, IcdiError>)
        requires
            old(self).hla_ready(),
            size * count + addr <= 0x1_0000_0000,
            size * count <= usize::MAX,
        ensures
            final(self).hla_ready(),
    ;

    /// Writes bytes to target memory.
    fn write_mem(&mut self, addr: u32, data: &Vec<u8>) -> (r: Result<(), IcdiError>)
        requires
            old(self).hla_ready(),
            addr + data@.len() <= 0x1_0000_0000,
        ensures
            final(self).hla_ready(),
    ;

    /// Writes one 32-bit debug register.
    fn write_debug_reg(&mut self, addr: u32, val: u32) -> (r: Result<(), IcdiError>)
        requires
            old(self).hla_ready(),
            addr + 4 <= 0x1_0000_0000,
        ensures
            final(self).hla_ready(),
    ;

    /// Sends a host-defined remote command.
    fn custom_command(&mut self, cmd: &Vec<u8>) -> (r: Result<ReceiveBuffer, IcdiError>)
        requires
            old(self).hla_ready(),
        ensures
            final(self).hla_ready(),
    ;

    /// Sends one raw command body.
    fn send_cmd(&mut self, cmd: &Vec<u8>) -> (r: Result<ReceiveBuffer, IcdiError>)
        requires
            old(self).hla_ready(),
        ensures
            final(self).hla_ready(),
    ;
}

impl<C: BulkChannel> HlaInterface for IcdiProbe<C> {
    open spec fn hla_ready(&self) -> bool {
        self.wf() && self.spec_phase() == crate::probe::ProbePhase::Attached
    }

    fn state(&mut self) -> (r: Result<TargetRunState, IcdiError>) {
        IcdiProbe::state(self)
    }

    fn reset(&mut self) -> (r: Result<(), IcdiError>) {
        self.target_reset()
    }

    fn run(&mut self) -> (r: Result<(), IcdiError>) {
        IcdiProbe::run(self)
    }

    fn halt(&mut self) -> (r: Result<(), IcdiError>) {
        IcdiProbe::halt(self)
    }

    fn step(&mut self) -> (r: Result<(), IcdiError>) {
        IcdiProbe::step(self)
    }

    fn read_reg(&mut self, regsel: u32) -> (r: Result<u32, IcdiError>) {
        IcdiProbe::read_reg(self, regsel)
    }

    fn write_reg(&mut self, regsel: u32, val: u32) -> (r: Result<(), IcdiError>) {
        IcdiProbe::write_reg(self, regsel, val)
    }

    fn read_mem(&mut self, addr: u32, size: u32, count: u32) -> (r: Result<Vec<u8>, IcdiError>) {
        let len = (size as usize) * (count as usize);
        IcdiProbe::read_mem(self, addr, len)
    }

    fn write_mem(&mut self, addr: u32, data: &Vec<u8>) -> (r: Result<(), IcdiError>) {
        IcdiProbe::write_mem(self, addr, data)
    }

    fn write_debug_reg(&mut self, addr: u32, val: u32) -> (r: Result<(), IcdiError>) {
        IcdiProbe::write_debug_reg(self, addr, val)
    }

    fn custom_command(&mut self, cmd: &Vec<u8>) -> (r: Result<ReceiveBuffer, IcdiError>) {
        self.send_remote_command(cmd)
    }

    fn send_cmd(&mut self, cmd: &Vec<u8>) -> (r: Result<ReceiveBuffer, IcdiError>) {
        IcdiProbe::send_cmd(self, cmd)
    }
}

} // verus!
