//! The probe handle: one opened ICDI device, its negotiated packet
//! size, wire protocol and lifecycle phase, and every operation the
//! driver offers over it.  Each operation's contract says which frames
//! it puts on the channel and how its outcome relates to the reply
//! consumed from the channel's incoming stream.

use crate::channel::{stream_consumed, BulkChannel};
use crate::codec::{
    spec_frame, spec_hex8, spec_hex_encode, spec_hex_min, hex8, hex_min, hex_encode,
};
use crate::errors::{IcdiError, WireProtocol};
use crate::framer::{
    send_packet, spec_attempted_frames, spec_reply_after_nacks, spec_sent_frames,
};
use crate::response::{spec_check_result, spec_complete, ReceiveBuffer};
use vstd::prelude::*;

verus! {

/// Where in its life a probe handle stands.
#[derive(Clone, Copy, Debug, PartialEq, Eq, Structural)]
pub enum ProbePhase {
    /// Opened, no session yet.
    Created,
    /// A debug session is up; target control is meaningful.
    Attached,
    /// The session was given up; the handle is spent.
    Detached,
}

/// One opened ICDI device.
pub struct IcdiProbe<C> {
    channel: C,
    serial_number: String,
    max_packet_size: u32,
    protocol: WireProtocol,
    phase: ProbePhase,
}

/// One request/reply exchange on the wire, stated over the channel's
/// two streams: the frame of `body` went out once, and once more for
/// each complete `-` reply consumed before `rep`, which is the
/// complete, non-`-` reply the exchange ends on.
pub open spec fn spec_exchange_streams(
    pre_w: Seq<Seq<u8>>,
    pre_in: Seq<u8>,
    post_w: Seq<Seq<u8>>,
    post_in: Seq<u8>,
    body: Seq<u8>,
    rep: Seq<u8>,
) -> bool {
    &&& spec_sent_frames(pre_w, post_w, body)
    &&& spec_reply_after_nacks(pre_in, post_in, rep, post_w.len() - pre_w.len() - 1)
    &&& spec_complete(rep)
    &&& rep[0] != 45
}

/// An error that can only have come from judging a reply payload,
/// never from the transport.
pub open spec fn spec_reply_error(e: IcdiError) -> bool {
    ||| e matches IcdiError::CommandFailed(_)
    ||| e == IcdiError::EmptyResponse
    ||| e == IcdiError::HexDecode
    ||| e == IcdiError::Utf8
}

/// The body of the `c` (continue) command.
pub open spec fn spec_cmd_continue() -> Seq<u8> {
    seq![99u8]
}

/// The body of the `?` (query stop reason) command.
pub open spec fn spec_cmd_halt() -> Seq<u8> {
    seq![63u8]
}

/// The body of the `s` (single step) command.
pub open spec fn spec_cmd_step() -> Seq<u8> {
    seq![115u8]
}

/// The body of the `!` (enter extended mode) command.
pub open spec fn spec_cmd_extended() -> Seq<u8> {
    seq![33u8]
}

/// The body of the `qSupported` feature query.
pub open spec fn spec_cmd_qsupported() -> Seq<u8> {
    seq![113u8, 83u8, 117u8, 112u8, 112u8, 111u8, 114u8, 116u8, 101u8, 100u8]
}

/// The body of a remote command: `qRcmd,` and the hex of the text.
pub open spec fn spec_cmd_remote(text: Seq<u8>) -> Seq<u8> {
    seq![113u8, 82u8, 99u8, 109u8, 100u8, 44u8] + spec_hex_encode(text)
}

/// The text `debug disable`.
pub open spec fn spec_text_debug_disable() -> Seq<u8> {
    seq![100u8, 101u8, 98u8, 117u8, 103u8, 32u8, 100u8, 105u8, 115u8, 97u8, 98u8, 108u8, 101u8]
}

/// The text `debug hreset`.
pub open spec fn spec_text_debug_hreset() -> Seq<u8> {
    seq![100u8, 101u8, 98u8, 117u8, 103u8, 32u8, 104u8, 114u8, 101u8, 115u8, 101u8, 116u8]
}

/// The text `debug sreset`.
pub open spec fn spec_text_debug_sreset() -> Seq<u8> {
    seq![100u8, 101u8, 98u8, 117u8, 103u8, 32u8, 115u8, 114u8, 101u8, 115u8, 101u8, 116u8]
}

/// The text `hreset`.
pub open spec fn spec_text_hreset() -> Seq<u8> {
    seq![104u8, 114u8, 101u8, 115u8, 101u8, 116u8]
}

/// The text `version`.
pub open spec fn spec_text_version() -> Seq<u8> {
    seq![118u8, 101u8, 114u8, 115u8, 105u8, 111u8, 110u8]
}

/// The text `debug speed ` with the raw setting byte behind it.
pub open spec fn spec_text_debug_speed(setting: u8) -> Seq<u8> {
    seq![100u8, 101u8, 98u8, 117u8, 103u8, 32u8, 115u8, 112u8, 101u8, 101u8, 100u8, 32u8]
        + seq![setting]
}

/// The body of the binary memory read `x<addr>,<len>`.
pub open spec fn spec_cmd_read_mem(addr: u32, len: u32) -> Seq<u8> {
    seq![120u8] + spec_hex8(addr) + seq![44u8] + spec_hex8(len)
}

/// The body of the binary memory write `X<addr>,<len>:<escaped>`.
pub open spec fn spec_cmd_write_mem(addr: u32, data: Seq<u8>) -> Seq<u8>
    recommends
        data.len() <= u32::MAX,
{
    seq![88u8] + spec_hex8(addr) + seq![44u8] + spec_hex8(data.len() as u32) + seq![58u8]
        + crate::codec::spec_escape(data)
}

/// The body of the register read `p<regsel>`.
pub open spec fn spec_cmd_read_reg(regsel: u32) -> Seq<u8> {
    seq![112u8] + spec_hex_min(regsel)
}

/// The body of the register write `P<regsel>=<le hex>`.
pub open spec fn spec_cmd_write_reg(regsel: u32, val: u32) -> Seq<u8> {
    seq![80u8] + spec_hex_min(regsel) + seq![61u8] + spec_hex_encode(
        vstd::bytes::spec_u32_to_le_bytes(val),
    )
}

impl<C: BulkChannel> IcdiProbe<C> {
    /// The frames this probe has put on the wire, oldest first.
    pub closed spec fn writes(&self) -> Seq<Seq<u8>> {
        self.channel.written()
    }

    /// The bytes the device has yet to deliver to this probe.
    pub closed spec fn pending(&self) -> Seq<u8> {
        self.channel.incoming()
    }

    /// The negotiated maximum packet size.
    pub closed spec fn mps(&self) -> u32 {
        self.max_packet_size
    }

    /// The selected wire protocol.
    pub closed spec fn spec_protocol(&self) -> WireProtocol {
        self.protocol
    }

    /// Where in its life the handle stands.
    pub closed spec fn spec_phase(&self) -> ProbePhase {
        self.phase
    }

    /// The device serial number the handle was opened with.
    pub closed spec fn spec_serial(&self) -> Seq<char> {
        self.serial_number@
    }

    /// The handle is sound: the negotiated packet size leaves room for
    /// the `X` header and checksum, so a chunk size can be derived.
    pub open spec fn wf(&self) -> bool {
        self.mps() >= 68
    }

    /// Everything but the channel streams is as it was.
    pub open spec fn same_config(&self, pre: &Self) -> bool {
        &&& self.mps() == pre.mps()
        &&& self.spec_protocol() == pre.spec_protocol()
        &&& self.spec_phase() == pre.spec_phase()
        &&& self.spec_serial() == pre.spec_serial()
    }

    /// One exchange this probe made: frames of `body` out, `rep` back.
    pub open spec fn spec_exchange(pre: Self, post: Self, body: Seq<u8>, rep: Seq<u8>) -> bool {
        spec_exchange_streams(
            pre.writes(),
            pre.pending(),
            post.writes(),
            post.pending(),
            body,
            rep,
        )
    }

    /// A fresh handle over an opened channel: packet size starts at
    /// the protocol default of 2048 until `qSupported` says otherwise,
    /// the protocol is JTAG, and no session is up.
    pub fn new(channel: C, serial_number: String) -> (r: Self)
        ensures
            r.writes() == channel.written(),
            r.pending() == channel.incoming(),
            r.mps() == crate::codec::ICDI_MAX_PACKET_SIZE,
            r.spec_protocol() == WireProtocol::Jtag,
            r.spec_phase() == ProbePhase::Created,
            r.spec_serial() == serial_number@,
            r.wf(),
    {
        IcdiProbe {
            channel,
            serial_number,
            max_packet_size: crate::codec::ICDI_MAX_PACKET_SIZE,
            protocol: WireProtocol::Jtag,
            phase: ProbePhase::Created,
        }
    }

    /// Gives the channel back and spends the handle.
    pub fn close(self) -> (r: C)
        ensures
            r.written() == self.writes(),
            r.incoming() == self.pending(),
    {
        self.channel
    }

    /// Where in its life the handle stands.
    pub fn current_phase(&self) -> (r: ProbePhase)
        ensures
            r == self.spec_phase(),
    {
        self.phase
    }

    /// The negotiated maximum packet size.
    pub fn get_max_packet_size(&self) -> (r: u32)
        ensures
            r == self.mps(),
    {
        self.max_packet_size
    }

    /// The serial number of the device this handle speaks to.
    pub fn serial_number(&self) -> (r: &String)
        ensures
            r@ == self.spec_serial(),
    {
        &self.serial_number
    }

    /// One framed exchange on this probe's channel.
    fn transact(&mut self, body: &Vec<u8>) -> (r: Result<ReceiveBuffer, IcdiError>)
        ensures
            final(self).same_config(old(self)),
            spec_attempted_frames(old(self).writes(), final(self).writes(), body@),
            stream_consumed(old(self).pending(), final(self).pending()),
            r matches Ok(rb) ==> Self::spec_exchange(*old(self), *final(self), body@, rb@),
            r matches Err(e) ==> crate::errors::spec_transport_error(e),
    {
        send_packet(&mut self.channel, body)
    }

    /// Sends `body` and judges the reply with the payload rules.
    fn transact_checked(&mut self, body: &Vec<u8>) -> (r: Result<ReceiveBuffer, IcdiError>)
        ensures
            final(self).same_config(old(self)),
            spec_attempted_frames(old(self).writes(), final(self).writes(), body@),
            stream_consumed(old(self).pending(), final(self).pending()),
            r matches Ok(rb) ==> Self::spec_exchange(*old(self), *final(self), body@, rb@)
                && spec_check_result(rb@) is Ok,
            r matches Err(e) ==> spec_reply_error(e) || crate::errors::spec_transport_error(e),
            r matches Err(e) ==> spec_reply_error(e) ==> exists|rep: Seq<u8>|
                #![trigger spec_check_result(rep)]
                Self::spec_exchange(*old(self), *final(self), body@, rep) && spec_check_result(rep)
                    == Err::<(), IcdiError>(e),
    {
        let rb = self.transact(body)?;
        match rb.check_cmd_result() {
            Ok(()) => Ok(rb),
            Err(e) => {
                proof {
                    assert(Self::spec_exchange(*old(self), *self, body@, rb@) && spec_check_result(
                        rb@,
                    ) == Err::<(), IcdiError>(e));
                }
                Err(e)
            },
        }
    }

    /// Resumes the target with `c`.  Meaningful only while a session
    /// is attached.
    pub fn run(&mut self) -> (r: Result<(), IcdiError>)
        requires
            old(self).spec_phase() == ProbePhase::Attached,
        ensures
            r matches Err(e) ==> spec_reply_error(e) || crate::errors::spec_transport_error(e),
            final(self).same_config(old(self)),
            spec_attempted_frames(old(self).writes(), final(self).writes(), spec_cmd_continue()),
            stream_consumed(old(self).pending(), final(self).pending()),
            r is Ok ==> exists|rep: Seq<u8>|
                #![trigger spec_check_result(rep)]
                Self::spec_exchange(*old(self), *final(self), spec_cmd_continue(), rep)
                    && spec_check_result(rep) is Ok,
            r matches Err(e) ==> spec_reply_error(e) ==> exists|rep: Seq<u8>|
                #![trigger spec_check_result(rep)]
                Self::spec_exchange(*old(self), *final(self), spec_cmd_continue(), rep)
                    && spec_check_result(rep) == Err::<(), IcdiError>(e),
    {
        let cmd = cmd_continue();
        self.transact_checked(&cmd)?;
        Ok(())
    }

    /// Queries the stop reason with `?`, which halts the target.
    /// Meaningful only while a session is attached.
    pub fn halt(&mut self) -> (r: Result<(), IcdiError>)
        requires
            old(self).spec_phase() == ProbePhase::Attached,
        ensures
            r matches Err(e) ==> spec_reply_error(e) || crate::errors::spec_transport_error(e),
            final(self).same_config(old(self)),
            spec_attempted_frames(old(self).writes(), final(self).writes(), spec_cmd_halt()),
            stream_consumed(old(self).pending(), final(self).pending()),
            r is Ok ==> exists|rep: Seq<u8>|
                #![trigger spec_check_result(rep)]
                Self::spec_exchange(*old(self), *final(self), spec_cmd_halt(), rep)
                    && spec_check_result(rep) is Ok,
            r matches Err(e) ==> spec_reply_error(e) ==> exists|rep: Seq<u8>|
                #![trigger spec_check_result(rep)]
                Self::spec_exchange(*old(self), *final(self), spec_cmd_halt(), rep)
                    && spec_check_result(rep) == Err::<(), IcdiError>(e),
    {
        let cmd = cmd_halt();
        self.transact_checked(&cmd)?;
        Ok(())
    }

    /// Single-steps the target with `s`.  Meaningful only while a
    /// session is attached.
    pub fn step(&mut self) -> (r: Result<(), IcdiError>)
        requires
            old(self).spec_phase() == ProbePhase::Attached,
        ensures
            r matches Err(e) ==> spec_reply_error(e) || crate::errors::spec_transport_error(e),
            final(self).same_config(old(self)),
            spec_attempted_frames(old(self).writes(), final(self).writes(), spec_cmd_step()),
            stream_consumed(old(self).pending(), final(self).pending()),
            r is Ok ==> exists|rep: Seq<u8>|
                #![trigger spec_check_result(rep)]
                Self::spec_exchange(*old(self), *final(self), spec_cmd_step(), rep)
                    && spec_check_result(rep) is Ok,
            r matches Err(e) ==> spec_reply_error(e) ==> exists|rep: Seq<u8>|
                #![trigger spec_check_result(rep)]
                Self::spec_exchange(*old(self), *final(self), spec_cmd_step(), rep)
                    && spec_check_result(rep) == Err::<(), IcdiError>(e),
    {
        let cmd = cmd_step();
        self.transact_checked(&cmd)?;
        Ok(())
    }

    /// Sends one raw command body framed as `$body#cc`, without
    /// judging the reply beyond the ack handling.
    pub fn send_cmd(&mut self, cmd: &Vec<u8>) -> (r: Result<ReceiveBuffer, IcdiError>)
        ensures
            final(self).same_config(old(self)),
            spec_attempted_frames(old(self).writes(), final(self).writes(), cmd@),
            stream_consumed(old(self).pending(), final(self).pending()),
            r matches Ok(rb) ==> Self::spec_exchange(*old(self), *final(self), cmd@, rb@),
            r matches Err(e) ==> crate::errors::spec_transport_error(e),
    {
        self.transact(cmd)
    }

    /// Sends a host-defined command as `qRcmd,` and hex text, without
    /// judging the reply.
    pub fn send_remote_command(&mut self, text: &Vec<u8>) -> (r: Result<ReceiveBuffer, IcdiError>)
        ensures
            final(self).same_config(old(self)),
            spec_attempted_frames(
                old(self).writes(),
                final(self).writes(),
                spec_cmd_remote(text@),
            ),
            stream_consumed(old(self).pending(), final(self).pending()),
            r matches Ok(rb) ==> Self::spec_exchange(
                *old(self),
                *final(self),
                spec_cmd_remote(text@),
                rb@,
            ),
            r matches Err(e) ==> crate::errors::spec_transport_error(e),
    {
        let cmd = cmd_remote(text);
        self.transact(&cmd)
    }

    /// A remote command whose reply must pass the payload rules.
    fn remote_command_checked(&mut self, text: &Vec<u8>) -> (r: Result<ReceiveBuffer, IcdiError>)
        ensures
            final(self).same_config(old(self)),
            spec_attempted_frames(
                old(self).writes(),
                final(self).writes(),
                spec_cmd_remote(text@),
            ),
            stream_consumed(old(self).pending(), final(self).pending()),
            r matches Ok(rb) ==> Self::spec_exchange(
                *old(self),
                *final(self),
                spec_cmd_remote(text@),
                rb@,
            ) && spec_check_result(rb@) is Ok,
            r matches Err(e) ==> spec_reply_error(e) || crate::errors::spec_transport_error(e),
            r matches Err(e) ==> spec_reply_error(e) ==> exists|rep: Seq<u8>|
                #![trigger spec_check_result(rep)]
                Self::spec_exchange(*old(self), *final(self), spec_cmd_remote(text@), rep)
                    && spec_check_result(rep) == Err::<(), IcdiError>(e),
    {
        let cmd = cmd_remote(text);
        self.transact_checked(&cmd)
    }

    /// Resets the target with the `debug hreset` remote command.
    pub fn target_reset(&mut self) -> (r: Result<(), IcdiError>)
        ensures
            final(self).same_config(old(self)),
            spec_attempted_frames(
                old(self).writes(),
                final(self).writes(),
                spec_cmd_remote(spec_text_debug_hreset()),
            ),
            stream_consumed(old(self).pending(), final(self).pending()),
            r is Ok ==> exists|rep: Seq<u8>|
                #![trigger spec_check_result(rep)]
                Self::spec_exchange(
                    *old(self),
                    *final(self),
                    spec_cmd_remote(spec_text_debug_hreset()),
                    rep,
                ) && spec_check_result(rep) is Ok,
            r matches Err(e) ==> spec_reply_error(e) || crate::errors::spec_transport_error(e),
            r matches Err(e) ==> spec_reply_error(e) ==> exists|rep: Seq<u8>|
                #![trigger spec_check_result(rep)]
                Self::spec_exchange(
                    *old(self),
                    *final(self),
                    spec_cmd_remote(spec_text_debug_hreset()),
                    rep,
                ) && spec_check_result(rep) == Err::<(), IcdiError>(e),
    {
        let text = text_debug_hreset();
        self.remote_command_checked(&text)?;
        Ok(())
    }

    /// Asserts target reset with the `debug sreset` remote command.
    pub fn target_reset_assert(&mut self) -> (r: Result<(), IcdiError>)
        ensures
            final(self).same_config(old(self)),
            spec_attempted_frames(
                old(self).writes(),
                final(self).writes(),
                spec_cmd_remote(spec_text_debug_sreset()),
            ),
            stream_consumed(old(self).pending(), final(self).pending()),
            r is Ok ==> exists|rep: Seq<u8>|
                #![trigger spec_check_result(rep)]
                Self::spec_exchange(
                    *old(self),
                    *final(self),
                    spec_cmd_remote(spec_text_debug_sreset()),
                    rep,
                ) && spec_check_result(rep) is Ok,
            r matches Err(e) ==> spec_reply_error(e) || crate::errors::spec_transport_error(e),
            r matches Err(e) ==> spec_reply_error(e) ==> exists|rep: Seq<u8>|
                #![trigger spec_check_result(rep)]
                Self::spec_exchange(
                    *old(self),
                    *final(self),
                    spec_cmd_remote(spec_text_debug_sreset()),
                    rep,
                ) && spec_check_result(rep) == Err::<(), IcdiError>(e),
    {
        let text = text_debug_sreset();
        self.remote_command_checked(&text)?;
        Ok(())
    }

    /// Deasserts target reset with the `debug hreset` remote command.
    pub fn target_reset_deassert(&mut self) -> (r: Result<(), IcdiError>)
        ensures
            final(self).same_config(old(self)),
            spec_attempted_frames(
                old(self).writes(),
                final(self).writes(),
                spec_cmd_remote(spec_text_debug_hreset()),
            ),
            stream_consumed(old(self).pending(), final(self).pending()),
            r is Ok ==> exists|rep: Seq<u8>|
                #![trigger spec_check_result(rep)]
                Self::spec_exchange(
                    *old(self),
                    *final(self),
                    spec_cmd_remote(spec_text_debug_hreset()),
                    rep,
                ) && spec_check_result(rep) is Ok,
            r matches Err(e) ==> spec_reply_error(e) || crate::errors::spec_transport_error(e),
            r matches Err(e) ==> spec_reply_error(e) ==> exists|rep: Seq<u8>|
                #![trigger spec_check_result(rep)]
                Self::spec_exchange(
                    *old(self),
                    *final(self),
                    spec_cmd_remote(spec_text_debug_hreset()),
                    rep,
                ) && spec_check_result(rep) == Err::<(), IcdiError>(e),
    {
        let text = text_debug_hreset();
        self.remote_command_checked(&text)?;
        Ok(())
    }

    /// Gives up the debug session with `debug disable`; the handle is
    /// detached afterwards and no further session operation is
    /// meaningful on it.
    pub fn detach(&mut self) -> (r: Result<(), IcdiError>)
        requires
            old(self).spec_phase() == ProbePhase::Attached,
        ensures
            r matches Err(e) ==> spec_reply_error(e) || crate::errors::spec_transport_error(e),
            r matches Err(e) ==> spec_reply_error(e) ==> exists|rep: Seq<u8>|
                #![trigger spec_check_result(rep)]
                Self::spec_exchange(
                    *old(self),
                    *final(self),
                    spec_cmd_remote(spec_text_debug_disable()),
                    rep,
                ) && spec_check_result(rep) == Err::<(), IcdiError>(e),
            final(self).mps() == old(self).mps(),
            final(self).spec_protocol() == old(self).spec_protocol(),
            final(self).spec_serial() == old(self).spec_serial(),
            spec_attempted_frames(
                old(self).writes(),
                final(self).writes(),
                spec_cmd_remote(spec_text_debug_disable()),
            ),
            stream_consumed(old(self).pending(), final(self).pending()),
            r is Ok ==> final(self).spec_phase() == ProbePhase::Detached && exists|rep: Seq<u8>|
                #![trigger spec_check_result(rep)]
                Self::spec_exchange(
                    *old(self),
                    *final(self),
                    spec_cmd_remote(spec_text_debug_disable()),
                    rep,
                ) && spec_check_result(rep) is Ok,
            r is Err ==> final(self).spec_phase() == old(self).spec_phase(),
    {
        let text = text_debug_disable();
        self.remote_command_checked(&text)?;
        self.phase = ProbePhase::Detached;
        Ok(())
    }

    /// Accepts JTAG, the one protocol the device speaks; anything else
    /// is refused and nothing is sent.
    pub fn select_protocol(&mut self, protocol: WireProtocol) -> (r: Result<(), IcdiError>)
        ensures
            final(self).writes() == old(self).writes(),
            final(self).pending() == old(self).pending(),
            final(self).mps() == old(self).mps(),
            final(self).spec_phase() == old(self).spec_phase(),
            final(self).spec_serial() == old(self).spec_serial(),
            protocol == WireProtocol::Jtag ==> r is Ok && final(self).spec_protocol()
                == WireProtocol::Jtag,
            protocol != WireProtocol::Jtag ==> r == Err::<(), IcdiError>(
                IcdiError::UnsupportedProtocol(protocol),
            ) && final(self).spec_protocol() == old(self).spec_protocol(),
    {
        match protocol {
            WireProtocol::Jtag => {
                self.protocol = protocol;
                Ok(())
            },
            _ => Err(IcdiError::UnsupportedProtocol(protocol)),
        }
    }

    /// The fixed TCK rate of the probe, in kHz.
    pub fn speed(&self) -> (r: u32)
        ensures
            r == 1120u32,
    {
        1120
    }

    /// The probe cannot change its TCK rate; every request is refused.
    pub fn set_speed(&mut self, speed_khz: u32) -> (r: Result<u32, IcdiError>)
        ensures
            *final(self) == *old(self),
            r == Err::<u32, IcdiError>(IcdiError::UnsupportedSpeed(speed_khz)),
    {
        Err(IcdiError::UnsupportedSpeed(speed_khz))
    }

    /// The probe exposes an ARM interface.
    pub fn has_arm_interface(&self) -> (r: bool)
        ensures
            r,
    {
        true
    }

    /// The probe exposes a single access port.
    pub fn num_access_ports(&self) -> (r: usize)
        ensures
            r == 1usize,
    {
        1
    }

    /// Raw debug-port register reads are not an ICDI operation.
    pub fn read_raw_dp_register(&mut self, addr: u8) -> (r: Result<u32, IcdiError>)
        ensures
            *final(self) == *old(self),
            r == Err::<u32, IcdiError>(IcdiError::UnsupportedOperation),
    {
        let _ = addr;
        Err(IcdiError::UnsupportedOperation)
    }

    /// Raw debug-port register writes are not an ICDI operation.
    pub fn write_raw_dp_register(&mut self, addr: u8, value: u32) -> (r: Result<(), IcdiError>)
        ensures
            *final(self) == *old(self),
            r == Err::<(), IcdiError>(IcdiError::UnsupportedOperation),
    {
        let _ = addr;
        let _ = value;
        Err(IcdiError::UnsupportedOperation)
    }

    /// Raw access-port register reads are not an ICDI operation.
    pub fn read_raw_ap_register(&mut self, port: u8, addr: u8) -> (r: Result<u32, IcdiError>)
        ensures
            *final(self) == *old(self),
            r == Err::<u32, IcdiError>(IcdiError::UnsupportedOperation),
    {
        let _ = port;
        let _ = addr;
        Err(IcdiError::UnsupportedOperation)
    }

    /// Raw access-port register writes are not an ICDI operation.
    pub fn write_raw_ap_register(&mut self, port: u8, addr: u8, value: u32) -> (r: Result<
        (),
        IcdiError,
    >)
        ensures
            *final(self) == *old(self),
            r == Err::<(), IcdiError>(IcdiError::UnsupportedOperation),
    {
        let _ = port;
        let _ = addr;
        let _ = value;
        Err(IcdiError::UnsupportedOperation)
    }

    /// Nothing is batched, so there is nothing to flush.
    pub fn flush(&mut self) -> (r: Result<(), IcdiError>)
        ensures
            *final(self) == *old(self),
            r is Ok,
    {
        Ok(())
    }

    /// Queries the device's features with `qSupported` and takes the
    /// packet size it offers, the last offer winning.  A malformed
    /// offer is `HexDecode`; an offer the driver cannot carry — below
    /// the 68 bytes of request overhead, or beyond the 32-bit range —
    /// is refused aloud with `UnsupportedPacketSize`, and the size in
    /// force stays what it was.
    pub fn q_supported(&mut self) -> (r: Result<(), IcdiError>)
        requires
            old(self).wf(),
        ensures
            final(self).wf(),
            final(self).spec_protocol() == old(self).spec_protocol(),
            final(self).spec_phase() == old(self).spec_phase(),
            final(self).spec_serial() == old(self).spec_serial(),
            spec_attempted_frames(old(self).writes(), final(self).writes(), spec_cmd_qsupported()),
            stream_consumed(old(self).pending(), final(self).pending()),
            r is Ok ==> final(self).mps() >= 68 && exists|rep: Seq<u8>|
                #![trigger spec_check_result(rep)]
                Self::spec_exchange(*old(self), *final(self), spec_cmd_qsupported(), rep)
                    && spec_check_result(rep) is Ok && (crate::response::spec_payload(rep) matches
                Some(p) && crate::codec::spec_scan_features(p, old(self).mps() as int) == Ok::<
                    int,
                    IcdiError,
                >(final(self).mps() as int)),
            r is Err ==> final(self).mps() == old(self).mps(),
            r matches Err(e) ==> spec_reply_error(e) || crate::errors::spec_transport_error(e) || e
                == IcdiError::UnsupportedPacketSize,
            r matches Err(e) ==> spec_reply_error(e) ==> exists|rep: Seq<u8>|
                #![trigger spec_check_result(rep)]
                Self::spec_exchange(*old(self), *final(self), spec_cmd_qsupported(), rep) && (
                spec_check_result(rep) == Err::<(), IcdiError>(e) || (spec_check_result(rep) is Ok
                    && (crate::response::spec_payload(rep) matches Some(p)
                    && crate::codec::spec_scan_features(p, old(self).mps() as int) == Err::<
                    int,
                    IcdiError,
                >(e)))),
            r == Err::<(), IcdiError>(IcdiError::UnsupportedPacketSize) ==> exists|rep: Seq<u8>|
                #![trigger spec_check_result(rep)]
                Self::spec_exchange(*old(self), *final(self), spec_cmd_qsupported(), rep)
                    && spec_check_result(rep) is Ok && (crate::response::spec_payload(rep) matches
                Some(p) && (crate::codec::spec_scan_features(p, old(self).mps() as int) matches Ok(
                    n,
                ) && (n < 68 || n > u32::MAX))),
    {
        let cmd = cmd_qsupported();
        let rb = self.transact_checked(&cmd)?;
        let p = match rb.get_payload() {
            Ok(p) => p,
            Err(e) => {
                return Err(e);
            },
        };
        let scanned = match crate::codec::scan_features(&p, self.max_packet_size) {
            Ok(o) => o,
            Err(e) => {
                proof {
                    assert(Self::spec_exchange(*old(self), *self, spec_cmd_qsupported(), rb@)
                        && spec_check_result(rb@) is Ok && crate::response::spec_payload(rb@)
                        == Some(p@) && crate::codec::spec_scan_features(p@, old(self).mps() as int)
                        == Err::<int, IcdiError>(e));
                }
                return Err(e);
            },
        };
        match scanned {
            Some(v) => {
                if v >= 68 {
                    self.max_packet_size = v;
                    Ok(())
                } else {
                    proof {
                        assert(Self::spec_exchange(*old(self), *self, spec_cmd_qsupported(), rb@)
                            && spec_check_result(rb@) is Ok && crate::response::spec_payload(rb@)
                            == Some(p@));
                    }
                    Err(IcdiError::UnsupportedPacketSize)
                }
            },
            None => {
                proof {
                    assert(Self::spec_exchange(*old(self), *self, spec_cmd_qsupported(), rb@)
                        && spec_check_result(rb@) is Ok && crate::response::spec_payload(rb@)
                        == Some(p@));
                }
                Err(IcdiError::UnsupportedPacketSize)
            },
        }
    }

    /// Brings a debug session up: `qSupported` first, taking the
    /// offered packet size, then `!` to enter extended mode; both
    /// replies must pass.  Everything sent is a frame of one of those
    /// two commands, and the session is attached on success.  A
    /// detached handle is spent and cannot attach again.
    pub fn attach(&mut self) -> (r: Result<(), IcdiError>)
        requires
            old(self).wf(),
            old(self).spec_phase() != ProbePhase::Detached,
        ensures
            final(self).wf(),
            final(self).spec_protocol() == old(self).spec_protocol(),
            final(self).spec_serial() == old(self).spec_serial(),
            old(self).writes().is_prefix_of(final(self).writes()),
            forall|i: int|
                old(self).writes().len() <= i < final(self).writes().len() ==> ((
                #[trigger] final(self).writes()[i]).is_prefix_of(spec_frame(spec_cmd_qsupported()))
                    || final(self).writes()[i].is_prefix_of(spec_frame(spec_cmd_extended()))),
            stream_consumed(old(self).pending(), final(self).pending()),
            r is Ok ==> final(self).spec_phase() == ProbePhase::Attached,
            r is Err ==> final(self).spec_phase() == old(self).spec_phase(),
            r matches Err(e) ==> spec_reply_error(e) || crate::errors::spec_transport_error(e) || e
                == IcdiError::UnsupportedPacketSize,
            r is Ok ==> final(self).mps() >= 68 && exists|
                mid_w: Seq<Seq<u8>>,
                mid_in: Seq<u8>,
                rep1: Seq<u8>,
                rep2: Seq<u8>,
            |
                #![trigger spec_exchange_streams(old(self).writes(), old(self).pending(), mid_w, mid_in, spec_cmd_qsupported(), rep1), spec_exchange_streams(mid_w, mid_in, final(self).writes(), final(self).pending(), spec_cmd_extended(), rep2)]
                spec_exchange_streams(
                    old(self).writes(),
                    old(self).pending(),
                    mid_w,
                    mid_in,
                    spec_cmd_qsupported(),
                    rep1,
                ) && spec_check_result(rep1) is Ok && (crate::response::spec_payload(rep1) matches
                Some(p) && crate::codec::spec_scan_features(p, old(self).mps() as int) == Ok::<
                    int,
                    IcdiError,
                >(final(self).mps() as int)) && spec_exchange_streams(
                    mid_w,
                    mid_in,
                    final(self).writes(),
                    final(self).pending(),
                    spec_cmd_extended(),
                    rep2,
                ) && spec_check_result(rep2) is Ok,
    {
        let ghost pre = *self;
        match self.q_supported() {
            Ok(()) => {},
            Err(e) => {
                proof {
                    assert forall|i: int|
                        pre.writes().len() <= i < self.writes().len() implies ((
                    #[trigger] self.writes()[i]).is_prefix_of(spec_frame(spec_cmd_qsupported()))
                        || self.writes()[i].is_prefix_of(spec_frame(spec_cmd_extended()))) by {
                        assert(self.writes()[i].is_prefix_of(spec_frame(spec_cmd_qsupported())));
                    }
                }
                return Err(e);
            },
        }
        let ghost mid = *self;
        let cmd = cmd_extended();
        let rb = match self.transact_checked(&cmd) {
            Ok(rb) => rb,
            Err(e) => {
                proof {
                    crate::channel::lemma_stream_consumed_trans(
                        pre.pending(),
                        mid.pending(),
                        self.pending(),
                    );
                    lemma_two_command_writes(
                        pre.writes(),
                        mid.writes(),
                        self.writes(),
                        spec_cmd_qsupported(),
                        spec_cmd_extended(),
                    );
                }
                return Err(e);
            },
        };
        proof {
            crate::channel::lemma_stream_consumed_trans(
                pre.pending(),
                mid.pending(),
                self.pending(),
            );
            lemma_two_command_writes(
                pre.writes(),
                mid.writes(),
                self.writes(),
                spec_cmd_qsupported(),
                spec_cmd_extended(),
            );
            let rep1 = choose|rep: Seq<u8>|
                #![trigger spec_check_result(rep)]
                Self::spec_exchange(pre, mid, spec_cmd_qsupported(), rep) && spec_check_result(
                    rep,
                ) is Ok && (crate::response::spec_payload(rep) matches Some(p)
                    && crate::codec::spec_scan_features(p, pre.mps() as int) == Ok::<
                    int,
                    IcdiError,
                >(mid.mps() as int));
            assert(spec_exchange_streams(
                pre.writes(),
                pre.pending(),
                mid.writes(),
                mid.pending(),
                spec_cmd_qsupported(),
                rep1,
            ));
            assert(spec_exchange_streams(
                mid.writes(),
                mid.pending(),
                self.writes(),
                self.pending(),
                spec_cmd_extended(),
                rb@,
            ));
        }
        self.phase = ProbePhase::Attached;
        Ok(())
    }

    /// Reads one core register with `p`: the reply payload is eight
    /// hex digits, four bytes little-endian.
    pub fn read_reg(&mut self, regsel: u32) -> (r: Result<u32, IcdiError>)
        ensures
            final(self).same_config(old(self)),
            spec_attempted_frames(
                old(self).writes(),
                final(self).writes(),
                spec_cmd_read_reg(regsel),
            ),
            stream_consumed(old(self).pending(), final(self).pending()),
            r matches Ok(v) ==> exists|rep: Seq<u8>|
                #![trigger spec_check_result(rep)]
                Self::spec_exchange(*old(self), *final(self), spec_cmd_read_reg(regsel), rep)
                    && spec_check_result(rep) is Ok && (crate::response::spec_payload(rep) matches
                Some(p) && crate::codec::spec_parse_register(p) == Ok::<u32, IcdiError>(v)),
            r matches Err(e) ==> spec_reply_error(e) || crate::errors::spec_transport_error(e),
            r matches Err(e) ==> spec_reply_error(e) ==> exists|rep: Seq<u8>|
                #![trigger spec_check_result(rep)]
                Self::spec_exchange(*old(self), *final(self), spec_cmd_read_reg(regsel), rep) && (
                spec_check_result(rep) == Err::<(), IcdiError>(e) || (spec_check_result(rep) is Ok
                    && (crate::response::spec_payload(rep) matches Some(p)
                    && crate::codec::spec_parse_register(p) == Err::<u32, IcdiError>(e)))),
    {
        let cmd = cmd_read_reg(regsel);
        let rb = self.transact_checked(&cmd)?;
        let p = match rb.get_payload() {
            Ok(p) => p,
            Err(e) => {
                return Err(e);
            },
        };
        match crate::codec::parse_register(&p) {
            Ok(v) => Ok(v),
            Err(e) => {
                proof {
                    assert(Self::spec_exchange(*old(self), *self, spec_cmd_read_reg(regsel), rb@)
                        && spec_check_result(rb@) is Ok && crate::response::spec_payload(rb@)
                        == Some(p@) && crate::codec::spec_parse_register(p@) == Err::<
                        u32,
                        IcdiError,
                    >(e));
                }
                Err(e)
            },
        }
    }

    /// Writes one core register with `P`, little-endian hex, and
    /// expects the reply to pass.
    pub fn write_reg(&mut self, regsel: u32, val: u32) -> (r: Result<(), IcdiError>)
        ensures
            final(self).same_config(old(self)),
            spec_attempted_frames(
                old(self).writes(),
                final(self).writes(),
                spec_cmd_write_reg(regsel, val),
            ),
            stream_consumed(old(self).pending(), final(self).pending()),
            r is Ok ==> exists|rep: Seq<u8>|
                #![trigger spec_check_result(rep)]
                Self::spec_exchange(*old(self), *final(self), spec_cmd_write_reg(regsel, val), rep)
                    && spec_check_result(rep) is Ok,
            r matches Err(e) ==> spec_reply_error(e) ==> exists|rep: Seq<u8>|
                #![trigger spec_check_result(rep)]
                Self::spec_exchange(*old(self), *final(self), spec_cmd_write_reg(regsel, val), rep)
                    && spec_check_result(rep) == Err::<(), IcdiError>(e),
            r matches Err(e) ==> spec_reply_error(e) || crate::errors::spec_transport_error(e),
    {
        let cmd = cmd_write_reg(regsel, val);
        self.transact_checked(&cmd)?;
        Ok(())
    }

    /// Asks the firmware for its version: `qRcmd,version`, whose reply
    /// payload is hex-encoded text; trailing newlines are trimmed and
    /// the rest must be UTF-8.
    pub fn query_icdi_version(&mut self) -> (r: Result<String, IcdiError>)
        ensures
            final(self).same_config(old(self)),
            spec_attempted_frames(
                old(self).writes(),
                final(self).writes(),
                spec_cmd_remote(spec_text_version()),
            ),
            stream_consumed(old(self).pending(), final(self).pending()),
            r matches Ok(s) ==> exists|rep: Seq<u8>|
                #![trigger spec_check_result(rep)]
                Self::spec_exchange(
                    *old(self),
                    *final(self),
                    spec_cmd_remote(spec_text_version()),
                    rep,
                ) && spec_check_result(rep) is Ok && (crate::response::spec_payload(rep) matches
                Some(p) && crate::codec::valid_hex(p) && s@ == crate::codec::utf8_of(
                    crate::codec::spec_trim_newlines(crate::codec::spec_hex_decode(p)),
                )),
            r matches Err(e) ==> spec_reply_error(e) || crate::errors::spec_transport_error(e),
            r matches Err(e) ==> spec_reply_error(e) ==> exists|rep: Seq<u8>|
                #![trigger spec_check_result(rep)]
                Self::spec_exchange(
                    *old(self),
                    *final(self),
                    spec_cmd_remote(spec_text_version()),
                    rep,
                ) && (spec_check_result(rep) == Err::<(), IcdiError>(e) || (spec_check_result(
                    rep,
                ) is Ok && (crate::response::spec_payload(rep) matches Some(p) && ((e
                    == IcdiError::HexDecode && !crate::codec::valid_hex(p)) || (e
                    == IcdiError::Utf8 && crate::codec::valid_hex(p) && exists|i: int|
                    0 <= i < crate::codec::spec_trim_newlines(crate::codec::spec_hex_decode(p)).len()
                        && crate::codec::spec_trim_newlines(crate::codec::spec_hex_decode(p))[i]
                        >= 128))))),
    {
        let text = text_version();
        let rb = self.remote_command_checked(&text)?;
        let p = match rb.get_payload() {
            Ok(p) => p,
            Err(e) => {
                return Err(e);
            },
        };
        let mut bytes = match crate::codec::hex_decode(&p) {
            Ok(b) => b,
            Err(e) => {
                proof {
                    assert(Self::spec_exchange(
                        *old(self),
                        *self,
                        spec_cmd_remote(spec_text_version()),
                        rb@,
                    ) && spec_check_result(rb@) is Ok && crate::response::spec_payload(rb@) == Some(
                        p@,
                    ) && !crate::codec::valid_hex(p@));
                }
                return Err(e);
            },
        };
        while bytes.len() > 0 && bytes[bytes.len() - 1] == 10
            invariant
                crate::codec::spec_trim_newlines(crate::codec::spec_hex_decode(p@))
                    == crate::codec::spec_trim_newlines(bytes@),
            decreases bytes@.len(),
        {
            bytes.pop();
        }
        let ghost trimmed = bytes@;
        match crate::codec::utf8_string(bytes) {
            Some(s) => Ok(s),
            None => {
                proof {
                    assert(crate::codec::spec_trim_newlines(trimmed) == trimmed);
                    assert(crate::codec::spec_trim_newlines(crate::codec::spec_hex_decode(p@))
                        == trimmed);
                    assert(!(forall|i: int| 0 <= i < trimmed.len() ==> trimmed[i] < 128));
                    assert(exists|i: int| 0 <= i < trimmed.len() && trimmed[i] >= 128);
                    assert(Self::spec_exchange(
                        *old(self),
                        *self,
                        spec_cmd_remote(spec_text_version()),
                        rb@,
                    ) && spec_check_result(rb@) is Ok && crate::response::spec_payload(rb@) == Some(
                        p@,
                    ) && crate::codec::valid_hex(p@));
                }
                Err(IcdiError::Utf8)
            },
        }
    }

    /// Asks the firmware to change its debug clock with the
    /// `debug speed` remote command, the raw setting byte appended.
    pub fn set_debug_speed(&mut self, setting: u8) -> (r: Result<(), IcdiError>)
        ensures
            final(self).same_config(old(self)),
            spec_attempted_frames(
                old(self).writes(),
                final(self).writes(),
                spec_cmd_remote(spec_text_debug_speed(setting)),
            ),
            stream_consumed(old(self).pending(), final(self).pending()),
            r is Ok ==> exists|rep: Seq<u8>|
                #![trigger spec_check_result(rep)]
                Self::spec_exchange(
                    *old(self),
                    *final(self),
                    spec_cmd_remote(spec_text_debug_speed(setting)),
                    rep,
                ) && spec_check_result(rep) is Ok,
            r matches Err(e) ==> spec_reply_error(e) || crate::errors::spec_transport_error(e),
            r matches Err(e) ==> spec_reply_error(e) ==> exists|rep: Seq<u8>|
                #![trigger spec_check_result(rep)]
                Self::spec_exchange(
                    *old(self),
                    *final(self),
                    spec_cmd_remote(spec_text_debug_speed(setting)),
                    rep,
                ) && spec_check_result(rep) == Err::<(), IcdiError>(e),
    {
        let text = text_debug_speed(setting);
        self.remote_command_checked(&text)?;
        Ok(())
    }

    /// One `x` request: reads `len` bytes in a single exchange.  The
    /// reply payload may or may not carry an `OK:` prefix; both forms
    /// are taken.  Fewer decoded bytes than asked is a short read;
    /// extra decoded bytes are dropped.  Meaningful only while a
    /// session is attached.
    pub fn read_mem_int(&mut self, addr: u32, len: u32) -> (r: Result<Vec<u8>, IcdiError>)
        requires
            old(self).spec_phase() == ProbePhase::Attached,
        ensures
            r matches Err(e) ==> spec_reply_error(e) || crate::errors::spec_transport_error(e) || e
                == IcdiError::ShortRead,
            r matches Err(e) ==> spec_reply_error(e) ==> exists|rep: Seq<u8>|
                #![trigger spec_check_result(rep)]
                Self::spec_exchange(*old(self), *final(self), spec_cmd_read_mem(addr, len), rep)
                    && spec_check_result(rep) == Err::<(), IcdiError>(e),
            final(self).same_config(old(self)),
            spec_attempted_frames(
                old(self).writes(),
                final(self).writes(),
                spec_cmd_read_mem(addr, len),
            ),
            stream_consumed(old(self).pending(), final(self).pending()),
            r matches Ok(data) ==> data@.len() == len && exists|rep: Seq<u8>|
                #![trigger spec_check_result(rep)]
                Self::spec_exchange(*old(self), *final(self), spec_cmd_read_mem(addr, len), rep)
                    && spec_check_result(rep) is Ok && (crate::response::spec_payload(rep) matches
                Some(p) && spec_mem_decoded(p).len() >= len && data@ == spec_mem_decoded(p).take(
                    len as int,
                )),
            r matches Err(e) ==> e == IcdiError::ShortRead ==> exists|rep: Seq<u8>|
                #![trigger spec_check_result(rep)]
                Self::spec_exchange(*old(self), *final(self), spec_cmd_read_mem(addr, len), rep)
                    && spec_check_result(rep) is Ok && (crate::response::spec_payload(rep) matches
                Some(p) && spec_mem_decoded(p).len() < len),
    {
        let cmd = cmd_read_mem(addr, len);
        let rb = self.transact_checked(&cmd)?;
        let p = match rb.get_payload() {
            Ok(p) => p,
            Err(e) => {
                return Err(e);
            },
        };
        let stripped: Vec<u8>;
        if p.len() >= 3 && p[0] == 79 && p[1] == 75 && p[2] == 58 {
            stripped = crate::codec::copy_range(&p, 3, p.len());
            proof {
                assert(stripped@ =~= spec_strip_ok(p@));
            }
        } else {
            stripped = p;
        }
        let mut dec = crate::codec::unescape(&stripped);
        if dec.len() < len as usize {
            proof {
                assert(Self::spec_exchange(
                    *old(self),
                    *self,
                    spec_cmd_read_mem(addr, len),
                    rb@,
                ) && spec_check_result(rb@) is Ok && crate::response::spec_payload(rb@) == Some(p@)
                    && spec_mem_decoded(p@).len() < len);
            }
            return Err(IcdiError::ShortRead);
        }
        dec.truncate(len as usize);
        Ok(dec)
    }

    /// One `X` request: writes one escaped piece in a single exchange
    /// and expects the reply to pass.  Meaningful only while a session
    /// is attached.
    pub fn write_mem_int(&mut self, addr: u32, data: &Vec<u8>) -> (r: Result<(), IcdiError>)
        requires
            old(self).spec_phase() == ProbePhase::Attached,
            data@.len() <= u32::MAX,
        ensures
            r matches Err(e) ==> spec_reply_error(e) || crate::errors::spec_transport_error(e),
            r matches Err(e) ==> spec_reply_error(e) ==> exists|rep: Seq<u8>|
                #![trigger spec_check_result(rep)]
                Self::spec_exchange(*old(self), *final(self), spec_cmd_write_mem(addr, data@), rep)
                    && spec_check_result(rep) == Err::<(), IcdiError>(e),
            final(self).same_config(old(self)),
            spec_attempted_frames(
                old(self).writes(),
                final(self).writes(),
                spec_cmd_write_mem(addr, data@),
            ),
            stream_consumed(old(self).pending(), final(self).pending()),
            r is Ok ==> exists|rep: Seq<u8>|
                #![trigger spec_check_result(rep)]
                Self::spec_exchange(*old(self), *final(self), spec_cmd_write_mem(addr, data@), rep)
                    && spec_check_result(rep) is Ok,
    {
        let cmd = cmd_write_mem(addr, data);
        self.transact_checked(&cmd)?;
        Ok(())
    }

    /// Reads `len` bytes starting at `addr`, one protocol-sized chunk
    /// at a time, the address advancing by each chunk's length, and
    /// hands back the reassembled bytes.  On an error the transfer
    /// stopped at the first failing chunk.  Meaningful only while a
    /// session is attached.
    pub fn read_mem(&mut self, addr: u32, len: usize) -> (r: Result<Vec<u8>, IcdiError>)
        requires
            old(self).wf(),
            old(self).spec_phase() == ProbePhase::Attached,
            addr + len <= 0x1_0000_0000,
        ensures
            final(self).wf(),
            final(self).same_config(old(self)),
            old(self).writes().is_prefix_of(final(self).writes()),
            stream_consumed(old(self).pending(), final(self).pending()),
            r matches Ok(data) ==> data@.len() == len && spec_chunked_read(
                old(self).writes(),
                old(self).pending(),
                final(self).writes(),
                final(self).pending(),
                addr as int,
                len as int,
                spec_chunk_len(old(self).mps()),
                data@,
            ),
            r matches Err(e) ==> spec_reply_error(e) || crate::errors::spec_transport_error(e) || e
                == IcdiError::ShortRead,
            r is Err ==> spec_chunked_read_stopped(
                old(self).writes(),
                old(self).pending(),
                final(self).writes(),
                final(self).pending(),
                addr as int,
                len as int,
                spec_chunk_len(old(self).mps()),
            ),
        decreases len,
    {
        if len == 0 {
            proof {
                assert(old(self).pending().skip(0) =~= old(self).pending());
                assert(old(self).writes().is_prefix_of(old(self).writes()));
            }
            return Ok(Vec::new());
        }
        let c = crate::codec::chunk_size(self.max_packet_size);
        let ghost pre = *self;
        let ghost cl = spec_chunk_len(pre.mps());
        if len <= c as usize {
            let out = match self.read_mem_int(addr, len as u32) {
                Ok(chunk) => chunk,
                Err(e) => {
                    proof {
                        assert(spec_chunked_read_stopped(
                            pre.writes(),
                            pre.pending(),
                            self.writes(),
                            self.pending(),
                            addr as int,
                            len as int,
                            cl,
                        ));
                    }
                    return Err(e);
                },
            };
            proof {
                let ki = len as int;
                let rep0 = choose|rep: Seq<u8>|
                    #![trigger spec_check_result(rep)]
                    Self::spec_exchange(pre, *self, spec_cmd_read_mem(addr, len as u32), rep)
                        && spec_check_result(rep) is Ok && (crate::response::spec_payload(
                        rep,
                    ) matches Some(p) && spec_mem_decoded(p).len() >= len && out@
                        == spec_mem_decoded(p).take(ki));
                let p0 = crate::response::spec_payload(rep0)->Some_0;
                assert(out@.take(ki) =~= out@);
                assert(out@.skip(ki) =~= Seq::<u8>::empty());
                lemma_chunked_read_step(
                    pre.writes(),
                    pre.pending(),
                    self.writes(),
                    self.pending(),
                    self.writes(),
                    self.pending(),
                    addr as int,
                    len as int,
                    cl,
                    out@,
                    rep0,
                    p0,
                );
            }
            return Ok(out);
        }
        let mut out = match self.read_mem_int(addr, c) {
            Ok(chunk) => chunk,
            Err(e) => {
                proof {
                    assert(spec_chunked_read_stopped(
                        pre.writes(),
                        pre.pending(),
                        self.writes(),
                        self.pending(),
                        addr as int,
                        len as int,
                        cl,
                    ));
                }
                return Err(e);
            },
        };
        let ghost mid = *self;
        let ghost rep0 = choose|rep: Seq<u8>|
            #![trigger spec_check_result(rep)]
            Self::spec_exchange(pre, mid, spec_cmd_read_mem(addr, c), rep) && spec_check_result(
                rep,
            ) is Ok && (crate::response::spec_payload(rep) matches Some(p) && spec_mem_decoded(
                p,
            ).len() >= c && out@ == spec_mem_decoded(p).take(c as int));
        let mut rest = match self.read_mem(addr + c, len - c as usize) {
            Ok(rest) => rest,
            Err(e) => {
                proof {
                    crate::framer::lemma_prefix_trans(pre.writes(), mid.writes(), self.writes());
                    crate::channel::lemma_stream_consumed_trans(
                        pre.pending(),
                        mid.pending(),
                        self.pending(),
                    );
                    lemma_chunked_read_stopped_step(
                        pre.writes(),
                        pre.pending(),
                        mid.writes(),
                        mid.pending(),
                        self.writes(),
                        self.pending(),
                        addr as int,
                        len as int,
                        cl,
                        rep0,
                    );
                }
                return Err(e);
            },
        };
        let ghost chunk_view = out@;
        let ghost rest_view = rest@;
        out.append(&mut rest);
        proof {
            crate::framer::lemma_prefix_trans(pre.writes(), mid.writes(), self.writes());
            crate::channel::lemma_stream_consumed_trans(
                pre.pending(),
                mid.pending(),
                self.pending(),
            );
            let ki = c as int;
            assert(out@.take(ki) =~= chunk_view);
            assert(out@.skip(ki) =~= rest_view);
            let p0 = crate::response::spec_payload(rep0)->Some_0;
            lemma_chunked_read_step(
                pre.writes(),
                pre.pending(),
                mid.writes(),
                mid.pending(),
                self.writes(),
                self.pending(),
                addr as int,
                len as int,
                cl,
                out@,
                rep0,
                p0,
            );
        }
        Ok(out)
    }

    /// Writes `data` starting at `addr`, one protocol-sized chunk at a
    /// time, the address advancing by each chunk's length.  On an
    /// error the transfer stopped at the first failing chunk.
    /// Meaningful only while a session is attached.
    pub fn write_mem(&mut self, addr: u32, data: &Vec<u8>) -> (r: Result<(), IcdiError>)
        requires
            old(self).wf(),
            old(self).spec_phase() == ProbePhase::Attached,
            addr + data@.len() <= 0x1_0000_0000,
        ensures
            final(self).wf(),
            final(self).same_config(old(self)),
            old(self).writes().is_prefix_of(final(self).writes()),
            stream_consumed(old(self).pending(), final(self).pending()),
            r is Ok ==> spec_chunked_write(
                old(self).writes(),
                old(self).pending(),
                final(self).writes(),
                final(self).pending(),
                addr as int,
                data@,
                spec_chunk_len(old(self).mps()),
            ),
            r matches Err(e) ==> spec_reply_error(e) || crate::errors::spec_transport_error(e),
            r is Err ==> spec_chunked_write_stopped(
                old(self).writes(),
                old(self).pending(),
                final(self).writes(),
                final(self).pending(),
                addr as int,
                data@,
                spec_chunk_len(old(self).mps()),
            ),
    {
        proof {
            assert(data@.skip(0) =~= data@);
        }
        self.write_mem_from(addr, data, 0)
    }

    /// Writes the tail of `data` from `off` on, chunk by chunk.
    fn write_mem_from(&mut self, addr: u32, data: &Vec<u8>, off: usize) -> (r: Result<
        (),
        IcdiError,
    >)
        requires
            old(self).wf(),
            old(self).spec_phase() == ProbePhase::Attached,
            off <= data@.len(),
            addr + (data@.len() - off) <= 0x1_0000_0000,
        ensures
            final(self).wf(),
            final(self).same_config(old(self)),
            old(self).writes().is_prefix_of(final(self).writes()),
            stream_consumed(old(self).pending(), final(self).pending()),
            r is Ok ==> spec_chunked_write(
                old(self).writes(),
                old(self).pending(),
                final(self).writes(),
                final(self).pending(),
                addr as int,
                data@.skip(off as int),
                spec_chunk_len(old(self).mps()),
            ),
            r matches Err(e) ==> spec_reply_error(e) || crate::errors::spec_transport_error(e),
            r is Err ==> spec_chunked_write_stopped(
                old(self).writes(),
                old(self).pending(),
                final(self).writes(),
                final(self).pending(),
                addr as int,
                data@.skip(off as int),
                spec_chunk_len(old(self).mps()),
            ),
        decreases data@.len() - off,
    {
        if off == data.len() {
            proof {
                assert(old(self).pending().skip(0) =~= old(self).pending());
                assert(old(self).writes().is_prefix_of(old(self).writes()));
            }
            return Ok(());
        }
        let c = crate::codec::chunk_size(self.max_packet_size);
        let remaining = data.len() - off;
        let ghost pre = *self;
        let ghost cl = spec_chunk_len(pre.mps());
        let ghost tail = data@.skip(off as int);
        if remaining <= c as usize {
            let piece = crate::codec::copy_range(data, off, data.len());
            match self.write_mem_int(addr, &piece) {
                Ok(()) => {},
                Err(e) => {
                    proof {
                        assert(piece@ =~= tail.take(remaining as int));
                        assert(spec_chunked_write_stopped(
                            pre.writes(),
                            pre.pending(),
                            self.writes(),
                            self.pending(),
                            addr as int,
                            tail,
                            cl,
                        ));
                    }
                    return Err(e);
                },
            }
            proof {
                let ki = remaining as int;
                assert(piece@ =~= tail.take(ki));
                assert(tail.skip(ki) =~= Seq::<u8>::empty());
                let rep0 = choose|rep: Seq<u8>|
                    #![trigger spec_check_result(rep)]
                    Self::spec_exchange(pre, *self, spec_cmd_write_mem(addr, piece@), rep)
                        && spec_check_result(rep) is Ok;
                lemma_chunked_write_step(
                    pre.writes(),
                    pre.pending(),
                    self.writes(),
                    self.pending(),
                    self.writes(),
                    self.pending(),
                    addr as int,
                    tail,
                    cl,
                    rep0,
                );
            }
            return Ok(());
        }
        let k = c as usize;
        let piece = crate::codec::copy_range(data, off, off + k);
        match self.write_mem_int(addr, &piece) {
            Ok(()) => {},
            Err(e) => {
                proof {
                    assert(piece@ =~= tail.take(k as int));
                    assert(spec_chunked_write_stopped(
                        pre.writes(),
                        pre.pending(),
                        self.writes(),
                        self.pending(),
                        addr as int,
                        tail,
                        cl,
                    ));
                }
                return Err(e);
            },
        }
        let ghost mid = *self;
        let ghost rep0 = choose|rep: Seq<u8>|
            #![trigger spec_check_result(rep)]
            Self::spec_exchange(pre, mid, spec_cmd_write_mem(addr, piece@), rep)
                && spec_check_result(rep) is Ok;
        match self.write_mem_from(addr + c, data, off + k) {
            Ok(()) => {},
            Err(e) => {
                proof {
                    crate::framer::lemma_prefix_trans(pre.writes(), mid.writes(), self.writes());
                    crate::channel::lemma_stream_consumed_trans(
                        pre.pending(),
                        mid.pending(),
                        self.pending(),
                    );
                    assert(piece@ =~= tail.take(k as int));
                    assert(tail.skip(k as int) =~= data@.skip(off + k));
                    lemma_chunked_write_stopped_step(
                        pre.writes(),
                        pre.pending(),
                        mid.writes(),
                        mid.pending(),
                        self.writes(),
                        self.pending(),
                        addr as int,
                        tail,
                        cl,
                        rep0,
                    );
                }
                return Err(e);
            },
        }
        proof {
            crate::framer::lemma_prefix_trans(pre.writes(), mid.writes(), self.writes());
            crate::channel::lemma_stream_consumed_trans(
                pre.pending(),
                mid.pending(),
                self.pending(),
            );
            let ki = k as int;
            assert(piece@ =~= tail.take(ki));
            assert(tail.skip(ki) =~= data@.skip(off + k));
            lemma_chunked_write_step(
                pre.writes(),
                pre.pending(),
                mid.writes(),
                mid.pending(),
                self.writes(),
                self.pending(),
                addr as int,
                tail,
                cl,
                rep0,
            );
        }
        Ok(())
    }

    /// Reads `count` 32-bit words starting at `addr` over the byte
    /// reader and decodes them little-endian.  Meaningful only while a
    /// session is attached.
    pub fn read_32(&mut self, addr: u32, count: usize) -> (r: Result<Vec<u32>, IcdiError>)
        requires
            old(self).wf(),
            old(self).spec_phase() == ProbePhase::Attached,
            addr + 4 * count <= 0x1_0000_0000,
            4 * count <= usize::MAX,
        ensures
            r matches Err(e) ==> spec_reply_error(e) || crate::errors::spec_transport_error(e) || e
                == IcdiError::ShortRead,
            r is Err ==> spec_chunked_read_stopped(
                old(self).writes(),
                old(self).pending(),
                final(self).writes(),
                final(self).pending(),
                addr as int,
                4 * count,
                spec_chunk_len(old(self).mps()),
            ),
            final(self).wf(),
            final(self).same_config(old(self)),
            old(self).writes().is_prefix_of(final(self).writes()),
            stream_consumed(old(self).pending(), final(self).pending()),
            r matches Ok(words) ==> words@.len() == count && exists|bytes: Seq<u8>|
                #![trigger crate::codec::spec_le_words(bytes)]
                spec_chunked_read(
                    old(self).writes(),
                    old(self).pending(),
                    final(self).writes(),
                    final(self).pending(),
                    addr as int,
                    4 * count,
                    spec_chunk_len(old(self).mps()),
                    bytes,
                ) && bytes.len() == 4 * count && words@ == crate::codec::spec_le_words(bytes),
    {
        let bytes = self.read_mem(addr, 4 * count)?;
        let mut words: Vec<u32> = Vec::new();
        let mut i: usize = 0;
        while i < count
            invariant
                0 <= i <= count,
                4 * count <= usize::MAX,
                bytes@.len() == 4 * count,
                words@ =~= Seq::new(
                    i as nat,
                    |j: int| vstd::bytes::spec_u32_from_le_bytes(bytes@.subrange(4 * j, 4 * j + 4)),
                ),
            decreases count - i,
        {
            let w = vstd::bytes::u32_from_le_bytes(&bytes.as_slice()[4 * i..4 * i + 4]);
            words.push(w);
            proof {
                assert(words@ =~= Seq::new(
                    (i + 1) as nat,
                    |j: int| vstd::bytes::spec_u32_from_le_bytes(bytes@.subrange(4 * j, 4 * j + 4)),
                ));
            }
            i = i + 1;
        }
        proof {
            assert(words@ =~= crate::codec::spec_le_words(bytes@));
        }
        Ok(words)
    }

    /// Writes `words` little-endian starting at `addr`.  Meaningful
    /// only while a session is attached.
    pub fn write_32(&mut self, addr: u32, words: &Vec<u32>) -> (r: Result<(), IcdiError>)
        requires
            old(self).wf(),
            old(self).spec_phase() == ProbePhase::Attached,
            addr + 4 * words@.len() <= 0x1_0000_0000,
            4 * words@.len() <= usize::MAX,
        ensures
            r matches Err(e) ==> spec_reply_error(e) || crate::errors::spec_transport_error(e),
            r is Err ==> spec_chunked_write_stopped(
                old(self).writes(),
                old(self).pending(),
                final(self).writes(),
                final(self).pending(),
                addr as int,
                crate::codec::spec_words_bytes(words@),
                spec_chunk_len(old(self).mps()),
            ),
            final(self).wf(),
            final(self).same_config(old(self)),
            old(self).writes().is_prefix_of(final(self).writes()),
            stream_consumed(old(self).pending(), final(self).pending()),
            r is Ok ==> spec_chunked_write(
                old(self).writes(),
                old(self).pending(),
                final(self).writes(),
                final(self).pending(),
                addr as int,
                crate::codec::spec_words_bytes(words@),
                spec_chunk_len(old(self).mps()),
            ),
    {
        let mut bytes: Vec<u8> = Vec::new();
        let mut i: usize = 0;
        proof {
            assert(words@.take(0) =~= Seq::<u32>::empty());
        }
        while i < words.len()
            invariant
                0 <= i <= words@.len(),
                bytes@.len() == 4 * i,
                bytes@ == crate::codec::spec_words_bytes(words@.take(i as int)),
            decreases words@.len() - i,
        {
            let mut b4 = vstd::bytes::u32_to_le_bytes(words[i]);
            bytes.append(&mut b4);
            proof {
                assert(words@.take(i + 1).drop_last() =~= words@.take(i as int));
                assert(words@.take(i + 1).last() == words@[i as int]);
            }
            i = i + 1;
        }
        proof {
            assert(words@.take(words@.len() as int) =~= words@);
        }
        self.write_mem(addr, &bytes)
    }

    /// Writes one 32-bit debug register at `addr`, little-endian.
    /// Meaningful only while a session is attached.
    pub fn write_debug_reg(&mut self, addr: u32, val: u32) -> (r: Result<(), IcdiError>)
        requires
            old(self).wf(),
            old(self).spec_phase() == ProbePhase::Attached,
            addr + 4 <= 0x1_0000_0000,
        ensures
            r matches Err(e) ==> spec_reply_error(e) || crate::errors::spec_transport_error(e),
            r is Err ==> spec_chunked_write_stopped(
                old(self).writes(),
                old(self).pending(),
                final(self).writes(),
                final(self).pending(),
                addr as int,
                vstd::bytes::spec_u32_to_le_bytes(val),
                spec_chunk_len(old(self).mps()),
            ),
            final(self).wf(),
            final(self).same_config(old(self)),
            old(self).writes().is_prefix_of(final(self).writes()),
            stream_consumed(old(self).pending(), final(self).pending()),
            r is Ok ==> spec_chunked_write(
                old(self).writes(),
                old(self).pending(),
                final(self).writes(),
                final(self).pending(),
                addr as int,
                vstd::bytes::spec_u32_to_le_bytes(val),
                spec_chunk_len(old(self).mps()),
            ),
    {
        let bytes = vstd::bytes::u32_to_le_bytes(val);
        self.write_mem(addr, &bytes)
    }
}

/// A memory-read reply payload with its optional `OK:` prefix gone.
pub open spec fn spec_strip_ok(p: Seq<u8>) -> Seq<u8> {
    if p.len() >= 3 && p[0] == 79 && p[1] == 75 && p[2] == 58 {
        p.skip(3)
    } else {
        p
    }
}

/// The bytes a memory-read reply payload carries: the optional `OK:`
/// prefix dropped, then the binary escape undone.
pub open spec fn spec_mem_decoded(p: Seq<u8>) -> Seq<u8> {
    crate::codec::spec_unescape(spec_strip_ok(p))
}

/// The memory-transfer chunk limit a negotiated packet size gives.
pub open spec fn spec_chunk_len(mps: u32) -> int
    recommends
        mps >= 68,
{
    ((mps - 64) / 4) * 4 / 2
}

/// A whole chunked memory read, from first frame to last reply: for
/// each piece of at most `c` bytes, the matching `x` command was
/// framed, its reply passed and decoded to at least the piece, and
/// `data` is the pieces in order.
pub open spec fn spec_chunked_read(
    pre_w: Seq<Seq<u8>>,
    pre_in: Seq<u8>,
    post_w: Seq<Seq<u8>>,
    post_in: Seq<u8>,
    addr: int,
    len: int,
    c: int,
    data: Seq<u8>,
) -> bool
    recommends
        c >= 1,
    decreases len,
    when c >= 1
{
    if len <= 0 {
        post_w == pre_w && post_in == pre_in && data == Seq::<u8>::empty()
    } else {
        data.len() == len && exists|k: int, mid_w: Seq<Seq<u8>>, mid_in: Seq<u8>, rep: Seq<u8>|
            #![trigger spec_exchange_streams(pre_w, pre_in, mid_w, mid_in, spec_cmd_read_mem(addr as u32, k as u32), rep)]
            k == (if len <= c {
                len
            } else {
                c
            }) && spec_exchange_streams(
                pre_w,
                pre_in,
                mid_w,
                mid_in,
                spec_cmd_read_mem(addr as u32, k as u32),
                rep,
            ) && spec_check_result(rep) is Ok && (crate::response::spec_payload(rep) matches Some(p)
            && spec_mem_decoded(p).len() >= k && data.take(k) == spec_mem_decoded(p).take(k))
            && spec_chunked_read(mid_w, mid_in, post_w, post_in, addr + k, len - k, c, data.skip(k))
    }
}

/// A whole chunked memory write: for each piece of at most `c` bytes,
/// the matching `X` command with the escaped piece was framed and its
/// reply passed.
pub open spec fn spec_chunked_write(
    pre_w: Seq<Seq<u8>>,
    pre_in: Seq<u8>,
    post_w: Seq<Seq<u8>>,
    post_in: Seq<u8>,
    addr: int,
    data: Seq<u8>,
    c: int,
) -> bool
    recommends
        c >= 1,
    decreases data.len(),
    when c >= 1
{
    if data.len() == 0 {
        post_w == pre_w && post_in == pre_in
    } else {
        exists|k: int, mid_w: Seq<Seq<u8>>, mid_in: Seq<u8>, rep: Seq<u8>|
            #![trigger spec_exchange_streams(pre_w, pre_in, mid_w, mid_in, spec_cmd_write_mem(addr as u32, data.take(k)), rep)]
            k == (if data.len() <= c {
                data.len() as int
            } else {
                c
            }) && spec_exchange_streams(
                pre_w,
                pre_in,
                mid_w,
                mid_in,
                spec_cmd_write_mem(addr as u32, data.take(k)),
                rep,
            ) && spec_check_result(rep) is Ok && spec_chunked_write(
                mid_w,
                mid_in,
                post_w,
                post_in,
                addr + k,
                data.skip(k),
                c,
            )
    }
}

/// Where a chunked memory read stopped on an error: each leading piece
/// before the failure was exchanged and its reply passed, in address
/// order, and what went out after the last passing piece is at most
/// the attempted frames of the very next piece's command — the
/// transfer stops on the first failing chunk, whose address the
/// leading exchanges fix.
pub open spec fn spec_chunked_read_stopped(
    pre_w: Seq<Seq<u8>>,
    pre_in: Seq<u8>,
    post_w: Seq<Seq<u8>>,
    post_in: Seq<u8>,
    addr: int,
    len: int,
    c: int,
) -> bool
    recommends
        c >= 1,
    decreases len,
    when c >= 1
{
    ||| (spec_attempted_frames(
        pre_w,
        post_w,
        spec_cmd_read_mem(addr as u32, (if len <= c {
            len
        } else {
            c
        }) as u32),
    ) && stream_consumed(pre_in, post_in))
    ||| (len > 0 && exists|k: int, mid_w: Seq<Seq<u8>>, mid_in: Seq<u8>, rep: Seq<u8>|
        #![trigger spec_exchange_streams(pre_w, pre_in, mid_w, mid_in, spec_cmd_read_mem(addr as u32, k as u32), rep)]
        k == (if len <= c {
            len
        } else {
            c
        }) && spec_exchange_streams(
            pre_w,
            pre_in,
            mid_w,
            mid_in,
            spec_cmd_read_mem(addr as u32, k as u32),
            rep,
        ) && spec_check_result(rep) is Ok && spec_chunked_read_stopped(
            mid_w,
            mid_in,
            post_w,
            post_in,
            addr + k,
            len - k,
            c,
        ))
}

/// Where a chunked memory write stopped on an error, stated as for the
/// read side: passing leading pieces, then at most the attempted
/// frames of the first failing piece's command.
pub open spec fn spec_chunked_write_stopped(
    pre_w: Seq<Seq<u8>>,
    pre_in: Seq<u8>,
    post_w: Seq<Seq<u8>>,
    post_in: Seq<u8>,
    addr: int,
    data: Seq<u8>,
    c: int,
) -> bool
    recommends
        c >= 1,
    decreases data.len(),
    when c >= 1
{
    ||| (spec_attempted_frames(
        pre_w,
        post_w,
        spec_cmd_write_mem(addr as u32, data.take(if data.len() <= c {
            data.len() as int
        } else {
            c
        })),
    ) && stream_consumed(pre_in, post_in))
    ||| (data.len() > 0 && exists|k: int, mid_w: Seq<Seq<u8>>, mid_in: Seq<u8>, rep: Seq<u8>|
        #![trigger spec_exchange_streams(pre_w, pre_in, mid_w, mid_in, spec_cmd_write_mem(addr as u32, data.take(k)), rep)]
        k == (if data.len() <= c {
            data.len() as int
        } else {
            c
        }) && spec_exchange_streams(
            pre_w,
            pre_in,
            mid_w,
            mid_in,
            spec_cmd_write_mem(addr as u32, data.take(k)),
            rep,
        ) && spec_check_result(rep) is Ok && spec_chunked_write_stopped(
            mid_w,
            mid_in,
            post_w,
            post_in,
            addr + k,
            data.skip(k),
            c,
        ))
}

/// One passing chunk in front of a stopped read is a stopped read of
/// the whole.
pub proof fn lemma_chunked_read_stopped_step(
    pre_w: Seq<Seq<u8>>,
    pre_in: Seq<u8>,
    mid_w: Seq<Seq<u8>>,
    mid_in: Seq<u8>,
    post_w: Seq<Seq<u8>>,
    post_in: Seq<u8>,
    addr: int,
    len: int,
    c: int,
    rep: Seq<u8>,
)
    requires
        c >= 1,
        0 < len,
        spec_exchange_streams(
            pre_w,
            pre_in,
            mid_w,
            mid_in,
            spec_cmd_read_mem(addr as u32, (if len <= c { len } else { c }) as u32),
            rep,
        ),
        spec_check_result(rep) is Ok,
        spec_chunked_read_stopped(
            mid_w,
            mid_in,
            post_w,
            post_in,
            addr + (if len <= c { len } else { c }),
            len - (if len <= c { len } else { c }),
            c,
        ),
    ensures
        spec_chunked_read_stopped(pre_w, pre_in, post_w, post_in, addr, len, c),
{
    let k = if len <= c {
        len
    } else {
        c
    };
    assert(k == (if len <= c {
        len
    } else {
        c
    }) && spec_exchange_streams(
        pre_w,
        pre_in,
        mid_w,
        mid_in,
        spec_cmd_read_mem(addr as u32, k as u32),
        rep,
    ) && spec_check_result(rep) is Ok && spec_chunked_read_stopped(
        mid_w,
        mid_in,
        post_w,
        post_in,
        addr + k,
        len - k,
        c,
    ));
}

/// One passing chunk in front of a stopped write is a stopped write of
/// the whole.
pub proof fn lemma_chunked_write_stopped_step(
    pre_w: Seq<Seq<u8>>,
    pre_in: Seq<u8>,
    mid_w: Seq<Seq<u8>>,
    mid_in: Seq<u8>,
    post_w: Seq<Seq<u8>>,
    post_in: Seq<u8>,
    addr: int,
    data: Seq<u8>,
    c: int,
    rep: Seq<u8>,
)
    requires
        c >= 1,
        data.len() > 0,
        spec_exchange_streams(
            pre_w,
            pre_in,
            mid_w,
            mid_in,
            spec_cmd_write_mem(
                addr as u32,
                data.take(if data.len() <= c { data.len() as int } else { c }),
            ),
            rep,
        ),
        spec_check_result(rep) is Ok,
        spec_chunked_write_stopped(
            mid_w,
            mid_in,
            post_w,
            post_in,
            addr + (if data.len() <= c { data.len() as int } else { c }),
            data.skip(if data.len() <= c { data.len() as int } else { c }),
            c,
        ),
    ensures
        spec_chunked_write_stopped(pre_w, pre_in, post_w, post_in, addr, data, c),
{
    let k = if data.len() <= c {
        data.len() as int
    } else {
        c
    };
    assert(k == (if data.len() <= c {
        data.len() as int
    } else {
        c
    }) && spec_exchange_streams(
        pre_w,
        pre_in,
        mid_w,
        mid_in,
        spec_cmd_write_mem(addr as u32, data.take(k)),
        rep,
    ) && spec_check_result(rep) is Ok && spec_chunked_write_stopped(
        mid_w,
        mid_in,
        post_w,
        post_in,
        addr + k,
        data.skip(k),
        c,
    ));
}

/// One chunk's exchange followed by a chunked read of the rest makes
/// a chunked read of the whole.
pub proof fn lemma_chunked_read_step(
    pre_w: Seq<Seq<u8>>,
    pre_in: Seq<u8>,
    mid_w: Seq<Seq<u8>>,
    mid_in: Seq<u8>,
    post_w: Seq<Seq<u8>>,
    post_in: Seq<u8>,
    addr: int,
    len: int,
    c: int,
    data: Seq<u8>,
    rep: Seq<u8>,
    p: Seq<u8>,
)
    requires
        c >= 1,
        0 < len,
        data.len() == len,
        spec_exchange_streams(
            pre_w,
            pre_in,
            mid_w,
            mid_in,
            spec_cmd_read_mem(addr as u32, (if len <= c { len } else { c }) as u32),
            rep,
        ),
        spec_check_result(rep) is Ok,
        crate::response::spec_payload(rep) == Some(p),
        spec_mem_decoded(p).len() >= (if len <= c { len } else { c }),
        data.take(if len <= c { len } else { c }) == spec_mem_decoded(p).take(
            if len <= c { len } else { c },
        ),
        spec_chunked_read(
            mid_w,
            mid_in,
            post_w,
            post_in,
            addr + (if len <= c { len } else { c }),
            len - (if len <= c { len } else { c }),
            c,
            data.skip(if len <= c { len } else { c }),
        ),
    ensures
        spec_chunked_read(pre_w, pre_in, post_w, post_in, addr, len, c, data),
{
    let k = if len <= c {
        len
    } else {
        c
    };
    assert(k == (if len <= c {
        len
    } else {
        c
    }) && spec_exchange_streams(
        pre_w,
        pre_in,
        mid_w,
        mid_in,
        spec_cmd_read_mem(addr as u32, k as u32),
        rep,
    ) && spec_check_result(rep) is Ok && (crate::response::spec_payload(rep) matches Some(q)
        && spec_mem_decoded(q).len() >= k && data.take(k) == spec_mem_decoded(q).take(k))
        && spec_chunked_read(mid_w, mid_in, post_w, post_in, addr + k, len - k, c, data.skip(k)));
}

/// One chunk's exchange followed by a chunked write of the rest makes
/// a chunked write of the whole.
pub proof fn lemma_chunked_write_step(
    pre_w: Seq<Seq<u8>>,
    pre_in: Seq<u8>,
    mid_w: Seq<Seq<u8>>,
    mid_in: Seq<u8>,
    post_w: Seq<Seq<u8>>,
    post_in: Seq<u8>,
    addr: int,
    data: Seq<u8>,
    c: int,
    rep: Seq<u8>,
)
    requires
        c >= 1,
        data.len() > 0,
        spec_exchange_streams(
            pre_w,
            pre_in,
            mid_w,
            mid_in,
            spec_cmd_write_mem(
                addr as u32,
                data.take(if data.len() <= c { data.len() as int } else { c }),
            ),
            rep,
        ),
        spec_check_result(rep) is Ok,
        spec_chunked_write(
            mid_w,
            mid_in,
            post_w,
            post_in,
            addr + (if data.len() <= c { data.len() as int } else { c }),
            data.skip(if data.len() <= c { data.len() as int } else { c }),
            c,
        ),
    ensures
        spec_chunked_write(pre_w, pre_in, post_w, post_in, addr, data, c),
{
    let k = if data.len() <= c {
        data.len() as int
    } else {
        c
    };
    assert(spec_exchange_streams(
        pre_w,
        pre_in,
        mid_w,
        mid_in,
        spec_cmd_write_mem(addr as u32, data.take(k)),
        rep,
    ) && spec_check_result(rep) is Ok && spec_chunked_write(
        mid_w,
        mid_in,
        post_w,
        post_in,
        addr + k,
        data.skip(k),
        c,
    ));
}

/// Two attempted commands in a row leave only frames of one or the
/// other on the wire, and everything older stays.
pub proof fn lemma_two_command_writes(
    a: Seq<Seq<u8>>,
    b: Seq<Seq<u8>>,
    c: Seq<Seq<u8>>,
    body1: Seq<u8>,
    body2: Seq<u8>,
)
    requires
        spec_attempted_frames(a, b, body1),
        spec_attempted_frames(b, c, body2),
    ensures
        a.is_prefix_of(c),
        forall|i: int|
            a.len() <= i < c.len() ==> ((#[trigger] c[i]).is_prefix_of(spec_frame(body1))
                || c[i].is_prefix_of(spec_frame(body2))),
{
    assert(a =~= c.subrange(0, a.len() as int));
    assert forall|i: int|
        a.len() <= i < c.len() implies ((#[trigger] c[i]).is_prefix_of(spec_frame(body1))
            || c[i].is_prefix_of(spec_frame(body2))) by {
        if i < b.len() {
            assert(c[i] == b[i]);
        }
    }
}

/// Builds the `c` command body.
pub fn cmd_continue() -> (r: Vec<u8>)
    ensures
        r@ == spec_cmd_continue(),
{
    let mut v: Vec<u8> = Vec::new();
    v.push(99);
    proof {
        assert(v@ =~= spec_cmd_continue());
    }
    v
}

/// Builds the `?` command body.
pub fn cmd_halt() -> (r: Vec<u8>)
    ensures
        r@ == spec_cmd_halt(),
{
    let mut v: Vec<u8> = Vec::new();
    v.push(63);
    proof {
        assert(v@ =~= spec_cmd_halt());
    }
    v
}

/// Builds the `s` command body.
pub fn cmd_step() -> (r: Vec<u8>)
    ensures
        r@ == spec_cmd_step(),
{
    let mut v: Vec<u8> = Vec::new();
    v.push(115);
    proof {
        assert(v@ =~= spec_cmd_step());
    }
    v
}

/// Builds the `!` command body.
pub fn cmd_extended() -> (r: Vec<u8>)
    ensures
        r@ == spec_cmd_extended(),
{
    let mut v: Vec<u8> = Vec::new();
    v.push(33);
    proof {
        assert(v@ =~= spec_cmd_extended());
    }
    v
}

/// Builds the `qSupported` command body.
pub fn cmd_qsupported() -> (r: Vec<u8>)
    ensures
        r@ == spec_cmd_qsupported(),
{
    let mut v: Vec<u8> = Vec::new();
    v.push(113);
    v.push(83);
    v.push(117);
    v.push(112);
    v.push(112);
    v.push(111);
    v.push(114);
    v.push(116);
    v.push(101);
    v.push(100);
    proof {
        assert(v@ =~= spec_cmd_qsupported());
    }
    v
}

/// Builds a `qRcmd,` body around the hex of `text`.
pub fn cmd_remote(text: &Vec<u8>) -> (r: Vec<u8>)
    ensures
        r@ == spec_cmd_remote(text@),
{
    let mut v: Vec<u8> = Vec::new();
    v.push(113);
    v.push(82);
    v.push(99);
    v.push(109);
    v.push(100);
    v.push(44);
    let mut hexed = hex_encode(text);
    v.append(&mut hexed);
    proof {
        assert(v@ =~= spec_cmd_remote(text@));
    }
    v
}

/// Builds the text `debug disable`.
pub fn text_debug_disable() -> (r: Vec<u8>)
    ensures
        r@ == spec_text_debug_disable(),
{
    let mut v: Vec<u8> = Vec::new();
    v.push(100);
    v.push(101);
    v.push(98);
    v.push(117);
    v.push(103);
    v.push(32);
    v.push(100);
    v.push(105);
    v.push(115);
    v.push(97);
    v.push(98);
    v.push(108);
    v.push(101);
    proof {
        assert(v@ =~= spec_text_debug_disable());
    }
    v
}

/// Builds the text `debug hreset`.
pub fn text_debug_hreset() -> (r: Vec<u8>)
    ensures
        r@ == spec_text_debug_hreset(),
{
    let mut v: Vec<u8> = Vec::new();
    v.push(100);
    v.push(101);
    v.push(98);
    v.push(117);
    v.push(103);
    v.push(32);
    v.push(104);
    v.push(114);
    v.push(101);
    v.push(115);
    v.push(101);
    v.push(116);
    proof {
        assert(v@ =~= spec_text_debug_hreset());
    }
    v
}

/// Builds the text `debug sreset`.
pub fn text_debug_sreset() -> (r: Vec<u8>)
    ensures
        r@ == spec_text_debug_sreset(),
{
    let mut v: Vec<u8> = Vec::new();
    v.push(100);
    v.push(101);
    v.push(98);
    v.push(117);
    v.push(103);
    v.push(32);
    v.push(115);
    v.push(114);
    v.push(101);
    v.push(115);
    v.push(101);
    v.push(116);
    proof {
        assert(v@ =~= spec_text_debug_sreset());
    }
    v
}

/// Builds the text `hreset`.
pub fn text_hreset() -> (r: Vec<u8>)
    ensures
        r@ == spec_text_hreset(),
{
    let mut v: Vec<u8> = Vec::new();
    v.push(104);
    v.push(114);
    v.push(101);
    v.push(115);
    v.push(101);
    v.push(116);
    proof {
        assert(v@ =~= spec_text_hreset());
    }
    v
}

/// Builds the text `version`.
pub fn text_version() -> (r: Vec<u8>)
    ensures
        r@ == spec_text_version(),
{
    let mut v: Vec<u8> = Vec::new();
    v.push(118);
    v.push(101);
    v.push(114);
    v.push(115);
    v.push(105);
    v.push(111);
    v.push(110);
    proof {
        assert(v@ =~= spec_text_version());
    }
    v
}

/// Builds the text `debug speed ` with the raw setting byte.
pub fn text_debug_speed(setting: u8) -> (r: Vec<u8>)
    ensures
        r@ == spec_text_debug_speed(setting),
{
    let mut v: Vec<u8> = Vec::new();
    v.push(100);
    v.push(101);
    v.push(98);
    v.push(117);
    v.push(103);
    v.push(32);
    v.push(115);
    v.push(112);
    v.push(101);
    v.push(101);
    v.push(100);
    v.push(32);
    v.push(setting);
    proof {
        assert(v@ =~= spec_text_debug_speed(setting));
    }
    v
}

/// Builds the `x<addr>,<len>` memory read body.
pub fn cmd_read_mem(addr: u32, len: u32) -> (r: Vec<u8>)
    ensures
        r@ == spec_cmd_read_mem(addr, len),
{
    let mut v: Vec<u8> = Vec::new();
    v.push(120);
    let mut a = hex8(addr);
    v.append(&mut a);
    v.push(44);
    let mut l = hex8(len);
    v.append(&mut l);
    proof {
        assert(v@ =~= spec_cmd_read_mem(addr, len));
    }
    v
}

/// Builds the `X<addr>,<len>:<escaped>` memory write body.
pub fn cmd_write_mem(addr: u32, data: &Vec<u8>) -> (r: Vec<u8>)
    requires
        data@.len() <= u32::MAX,
    ensures
        r@ == spec_cmd_write_mem(addr, data@),
{
    let mut v: Vec<u8> = Vec::new();
    v.push(88);
    let mut a = hex8(addr);
    v.append(&mut a);
    v.push(44);
    let mut l = hex8(data.len() as u32);
    v.append(&mut l);
    v.push(58);
    let mut e = crate::codec::escape(data);
    v.append(&mut e);
    proof {
        assert(v@ =~= spec_cmd_write_mem(addr, data@));
    }
    v
}

/// Builds the `p<regsel>` register read body.
pub fn cmd_read_reg(regsel: u32) -> (r: Vec<u8>)
    ensures
        r@ == spec_cmd_read_reg(regsel),
{
    let mut v: Vec<u8> = Vec::new();
    v.push(112);
    let mut n = hex_min(regsel);
    v.append(&mut n);
    proof {
        assert(v@ =~= spec_cmd_read_reg(regsel));
    }
    v
}

/// Builds the `P<regsel>=<le hex>` register write body.
pub fn cmd_write_reg(regsel: u32, val: u32) -> (r: Vec<u8>)
    ensures
        r@ == spec_cmd_write_reg(regsel, val),
{
    let mut v: Vec<u8> = Vec::new();
    v.push(80);
    let mut n = hex_min(regsel);
    v.append(&mut n);
    v.push(61);
    let bytes = vstd::bytes::u32_to_le_bytes(val);
    let mut h = hex_encode(&bytes);
    v.append(&mut h);
    proof {
        assert(v@ =~= spec_cmd_write_reg(regsel, val));
    }
    v
}

} // verus!
