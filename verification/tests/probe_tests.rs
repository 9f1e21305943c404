use ti_icdi::access_port::GenericAp;
use ti_icdi::codec::{escape, frame_packet, hex_encode};
use ti_icdi::errors::{IcdiError, WireProtocol};
use ti_icdi::hla_interface::TargetRunState;
use ti_icdi::probe::{IcdiProbe, ProbePhase};
use ti_icdi::script::ScriptChannel;

fn probe_over(script: Vec<Vec<u8>>) -> IcdiProbe<ScriptChannel> {
    IcdiProbe::new(ScriptChannel::new(script), String::from("0E23"))
}

fn reply(payload: &[u8]) -> Vec<u8> {
    let mut r = b"+$".to_vec();
    r.extend_from_slice(payload);
    r.extend_from_slice(b"#00");
    r
}

/// A probe with a session brought up first: the two attach replies are
/// prepended, so the attach frames sit at positions 0 and 1 of the
/// write log and the given replies answer what the test drives.
fn attached_over(replies: Vec<Vec<u8>>) -> IcdiProbe<ScriptChannel> {
    let mut script = vec![reply(b"hwbreak+"), b"+$OK#9a".to_vec()];
    script.extend(replies);
    let mut probe = probe_over(script);
    assert_eq!(probe.attach(), Ok(()));
    probe
}

fn remote_cmd_body(text: &[u8]) -> Vec<u8> {
    let mut body = b"qRcmd,".to_vec();
    body.append(&mut hex_encode(&text.to_vec()));
    body
}

#[test]
fn attach_negotiates_packet_size() {
    let mut probe = probe_over(vec![
        reply(b"PacketSize=400;hwbreak+"),
        b"+$OK#9a".to_vec(),
    ]);
    assert_eq!(probe.attach(), Ok(()));
    assert_eq!(probe.get_max_packet_size(), 0x400);
    assert_eq!(probe.current_phase(), ProbePhase::Attached);
    let ch = probe.close();
    assert_eq!(ch.sent_count(), 2);
    assert_eq!(*ch.sent_frame(0), b"$qSupported#37".to_vec());
    assert_eq!(*ch.sent_frame(1), b"$!#21".to_vec());
}

#[test]
fn attach_fails_on_error_reply() {
    let mut probe = probe_over(vec![reply(b"E01")]);
    assert_eq!(probe.attach(), Err(IcdiError::CommandFailed(1)));
    assert_eq!(probe.current_phase(), ProbePhase::Created);
    assert_eq!(probe.get_max_packet_size(), 2048);
}

#[test]
fn attach_refuses_an_uncarriable_packet_offer() {
    let mut probe = probe_over(vec![reply(b"PacketSize=10")]);
    assert_eq!(probe.attach(), Err(IcdiError::UnsupportedPacketSize));
    assert_eq!(probe.current_phase(), ProbePhase::Created);
    assert_eq!(probe.get_max_packet_size(), 2048);
}

#[test]
fn q_supported_refuses_small_packet_offer() {
    let mut probe = probe_over(vec![reply(b"PacketSize=10")]);
    assert_eq!(probe.q_supported(), Err(IcdiError::UnsupportedPacketSize));
    assert_eq!(probe.get_max_packet_size(), 2048);
}

#[test]
fn q_supported_refuses_oversized_packet_offer() {
    let mut probe = probe_over(vec![reply(b"PacketSize=100000000")]);
    assert_eq!(probe.q_supported(), Err(IcdiError::UnsupportedPacketSize));
    assert_eq!(probe.get_max_packet_size(), 2048);
}

#[test]
fn q_supported_takes_the_last_offer() {
    let mut probe = probe_over(vec![reply(b"PacketSize=800;PacketSize=400")]);
    assert_eq!(probe.q_supported(), Ok(()));
    assert_eq!(probe.get_max_packet_size(), 0x400);
}

#[test]
fn q_supported_lets_a_small_last_offer_win_and_refuses_it() {
    let mut probe = probe_over(vec![reply(b"PacketSize=800;PacketSize=10")]);
    assert_eq!(probe.q_supported(), Err(IcdiError::UnsupportedPacketSize));
    assert_eq!(probe.get_max_packet_size(), 2048);
}

#[test]
fn q_supported_rejects_malformed_offer() {
    let mut probe = probe_over(vec![reply(b"PacketSize=zz")]);
    assert_eq!(probe.q_supported(), Err(IcdiError::HexDecode));
    assert_eq!(probe.get_max_packet_size(), 2048);
}

#[test]
fn read_32_decodes_words_little_endian() {
    let bytes: Vec<u8> = (0u8..32).collect();
    let mut probe = attached_over(vec![reply(&bytes)]);
    let words = probe.read_32(0x2000_0000, 8).unwrap();
    assert_eq!(words.len(), 8);
    for i in 0..8 {
        let expect = u32::from_le_bytes([
            bytes[4 * i],
            bytes[4 * i + 1],
            bytes[4 * i + 2],
            bytes[4 * i + 3],
        ]);
        assert_eq!(words[i], expect);
    }
    let ch = probe.close();
    assert_eq!(ch.sent_count(), 3);
    assert_eq!(
        *ch.sent_frame(2),
        frame_packet(&b"x20000000,00000020".to_vec())
    );
}

#[test]
fn read_mem_advances_address_per_chunk() {
    let chunk1: Vec<u8> = std::iter::repeat(0x11u8).take(992).collect();
    let chunk2: Vec<u8> = vec![0x22u8; 8];
    let mut ok1 = b"OK:".to_vec();
    ok1.append(&mut escape(&chunk1));
    let mut probe = attached_over(vec![reply(&ok1), reply(&escape(&chunk2))]);
    let data = probe.read_mem(0x2000_0000, 1000).unwrap();
    assert_eq!(data.len(), 1000);
    assert_eq!(&data[..992], chunk1.as_slice());
    assert_eq!(&data[992..], chunk2.as_slice());
    let ch = probe.close();
    assert_eq!(ch.sent_count(), 4);
    assert_eq!(
        *ch.sent_frame(2),
        frame_packet(&b"x20000000,000003e0".to_vec())
    );
    assert_eq!(
        *ch.sent_frame(3),
        frame_packet(&b"x200003e0,00000008".to_vec())
    );
}

#[test]
fn write_mem_escapes_specials_exactly() {
    let mut probe = attached_over(vec![b"+$OK#9a".to_vec()]);
    assert_eq!(probe.write_mem(0x1000, &vec![0x23, 0x24, 0x7d, 0x2a]), Ok(()));
    let mut body = b"X00001000,00000004:".to_vec();
    body.extend_from_slice(&[0x7d, 0x03, 0x7d, 0x04, 0x7d, 0x5d, 0x7d, 0x0a]);
    let ch = probe.close();
    assert_eq!(ch.sent_count(), 3);
    assert_eq!(*ch.sent_frame(2), frame_packet(&body));
}

#[test]
fn write_then_read_roundtrips_over_the_mock() {
    let bs: Vec<u8> = (0..1000u32).map(|i| (i % 256) as u8).collect();
    let mut probe = attached_over(vec![b"+$OK#9a".to_vec(), b"+$OK#9a".to_vec()]);
    assert_eq!(probe.write_mem(0x4000, &bs), Ok(()));
    let ch = probe.close();
    assert_eq!(ch.sent_count(), 4);
    let mut body1 = b"X00004000,000003e0:".to_vec();
    body1.append(&mut escape(&bs[..992].to_vec()));
    let mut body2 = b"X000043e0,00000008:".to_vec();
    body2.append(&mut escape(&bs[992..].to_vec()));
    assert_eq!(*ch.sent_frame(2), frame_packet(&body1));
    assert_eq!(*ch.sent_frame(3), frame_packet(&body2));

    let mut ok1 = b"OK:".to_vec();
    ok1.append(&mut escape(&bs[..992].to_vec()));
    let mut probe = attached_over(vec![reply(&ok1), reply(&escape(&bs[992..].to_vec()))]);
    let back = probe.read_mem(0x4000, 1000).unwrap();
    assert_eq!(back, bs);
    let ch = probe.close();
    assert_eq!(
        *ch.sent_frame(2),
        frame_packet(&b"x00004000,000003e0".to_vec())
    );
    assert_eq!(
        *ch.sent_frame(3),
        frame_packet(&b"x000043e0,00000008".to_vec())
    );
}

#[test]
fn state_reports_halted_when_s_halt_set() {
    let mut probe = attached_over(vec![reply(&[0x00, 0x00, 0x02, 0x00])]);
    assert_eq!(probe.state(), Ok(TargetRunState::Halted));
    let ch = probe.close();
    assert_eq!(
        *ch.sent_frame(2),
        frame_packet(&b"xe000edf0,00000004".to_vec())
    );
}

#[test]
fn state_reports_running_when_s_halt_clear() {
    let mut probe = attached_over(vec![reply(&[0x03, 0x00, 0x00, 0x01])]);
    assert_eq!(probe.state(), Ok(TargetRunState::Running));
}

#[test]
fn nak_makes_the_framer_resend_the_same_frame() {
    let mut probe = attached_over(vec![b"-$#00".to_vec(), b"+$OK#9a".to_vec()]);
    assert_eq!(probe.run(), Ok(()));
    let ch = probe.close();
    assert_eq!(ch.sent_count(), 4);
    assert_eq!(*ch.sent_frame(2), frame_packet(&b"c".to_vec()));
    assert_eq!(*ch.sent_frame(3), frame_packet(&b"c".to_vec()));
}

#[test]
fn three_naks_exhaust_the_retries() {
    let mut probe = attached_over(vec![
        b"-$#00".to_vec(),
        b"-$#00".to_vec(),
        b"-$#00".to_vec(),
    ]);
    assert_eq!(probe.run(), Err(IcdiError::TooManyRetries));
    let ch = probe.close();
    assert_eq!(ch.sent_count(), 5);
}

#[test]
fn run_surfaces_the_error_code() {
    let mut probe = attached_over(vec![reply(b"E05")]);
    assert_eq!(probe.run(), Err(IcdiError::CommandFailed(5)));
}

#[test]
fn run_reports_empty_replies() {
    let mut probe = attached_over(vec![reply(b"")]);
    assert_eq!(probe.run(), Err(IcdiError::EmptyResponse));
}

#[test]
fn e_payload_without_a_code_is_treated_as_success() {
    let mut probe = attached_over(vec![reply(b"Ezz")]);
    assert_eq!(probe.run(), Ok(()));
}

#[test]
fn halt_and_step_use_their_commands() {
    let mut probe = attached_over(vec![b"+$OK#9a".to_vec(), b"+$OK#9a".to_vec()]);
    assert_eq!(probe.halt(), Ok(()));
    assert_eq!(probe.step(), Ok(()));
    let ch = probe.close();
    assert_eq!(*ch.sent_frame(2), frame_packet(&b"?".to_vec()));
    assert_eq!(*ch.sent_frame(3), frame_packet(&b"s".to_vec()));
}

#[test]
fn detach_sends_debug_disable_and_is_terminal() {
    let mut probe = attached_over(vec![b"+$OK#9a".to_vec()]);
    assert_eq!(probe.detach(), Ok(()));
    assert_eq!(probe.current_phase(), ProbePhase::Detached);
    let ch = probe.close();
    assert_eq!(*ch.sent_frame(2), frame_packet(&remote_cmd_body(b"debug disable")));
}

#[test]
fn resets_send_their_remote_commands() {
    let mut probe = probe_over(vec![
        b"+$OK#9a".to_vec(),
        b"+$OK#9a".to_vec(),
        b"+$OK#9a".to_vec(),
    ]);
    assert_eq!(probe.target_reset(), Ok(()));
    assert_eq!(probe.target_reset_assert(), Ok(()));
    assert_eq!(probe.target_reset_deassert(), Ok(()));
    let ch = probe.close();
    assert_eq!(*ch.sent_frame(0), frame_packet(&remote_cmd_body(b"debug hreset")));
    assert_eq!(*ch.sent_frame(1), frame_packet(&remote_cmd_body(b"debug sreset")));
    assert_eq!(*ch.sent_frame(2), frame_packet(&remote_cmd_body(b"debug hreset")));
}

#[test]
fn version_query_decodes_and_trims() {
    let mut probe = probe_over(vec![reply(b"312e300a")]);
    let version = probe.query_icdi_version().unwrap();
    assert_eq!(version, "1.0");
    let ch = probe.close();
    assert_eq!(*ch.sent_frame(0), frame_packet(&remote_cmd_body(b"version")));
}

#[test]
fn version_query_requires_utf8() {
    let mut probe = probe_over(vec![reply(b"ff")]);
    assert_eq!(probe.query_icdi_version(), Err(IcdiError::Utf8));
}

#[test]
fn version_query_requires_hex() {
    let mut probe = probe_over(vec![reply(b"3g")]);
    assert_eq!(probe.query_icdi_version(), Err(IcdiError::HexDecode));
}

#[test]
fn debug_speed_carries_the_raw_setting_byte() {
    let mut probe = probe_over(vec![b"+$OK#9a".to_vec()]);
    assert_eq!(probe.set_debug_speed(5), Ok(()));
    let mut text = b"debug speed ".to_vec();
    text.push(5);
    let ch = probe.close();
    assert_eq!(*ch.sent_frame(0), frame_packet(&remote_cmd_body(&text)));
}

#[test]
fn read_reg_parses_little_endian_reply() {
    let mut probe = probe_over(vec![reply(b"78563412")]);
    assert_eq!(probe.read_reg(11), Ok(0x12345678));
    let ch = probe.close();
    assert_eq!(*ch.sent_frame(0), frame_packet(&b"pb".to_vec()));
}

#[test]
fn read_reg_rejects_short_hex_reply() {
    let mut probe = probe_over(vec![reply(b"7856")]);
    assert_eq!(probe.read_reg(11), Err(IcdiError::HexDecode));
}

#[test]
fn write_reg_sends_little_endian_hex_and_checks() {
    let mut probe = probe_over(vec![b"+$OK#9a".to_vec()]);
    assert_eq!(probe.write_reg(11, 0x12345678), Ok(()));
    let ch = probe.close();
    assert_eq!(*ch.sent_frame(0), frame_packet(&b"Pb=78563412".to_vec()));
}

#[test]
fn write_reg_surfaces_error_replies() {
    let mut probe = probe_over(vec![reply(b"E22")]);
    assert_eq!(probe.write_reg(0, 0), Err(IcdiError::CommandFailed(0x22)));
}

#[test]
fn short_memory_reply_is_a_short_read() {
    let mut probe = attached_over(vec![reply(&[0xaa, 0xbb])]);
    assert_eq!(probe.read_mem_int(0, 4), Err(IcdiError::ShortRead));
}

#[test]
fn long_memory_reply_is_truncated() {
    let mut probe = attached_over(vec![reply(&[1, 2, 3, 4, 5, 6])]);
    assert_eq!(probe.read_mem_int(0, 4), Ok(vec![1, 2, 3, 4]));
}

#[test]
fn memory_reply_with_ok_prefix_is_taken() {
    let mut probe = attached_over(vec![reply(b"OK:\x01\x02")]);
    assert_eq!(probe.read_mem_int(0, 2), Ok(vec![1, 2]));
}

#[test]
fn refused_write_is_a_transport_error() {
    let mut probe = IcdiProbe::new(ScriptChannel::new_write_failing(), String::new());
    assert_eq!(
        probe.send_cmd(&b"c".to_vec()).err(),
        Some(IcdiError::TransportWrite)
    );
}

#[test]
fn silence_is_a_timeout() {
    let mut probe = probe_over(Vec::new());
    assert_eq!(
        probe.send_cmd(&b"c".to_vec()).err(),
        Some(IcdiError::Timeout)
    );
}

#[test]
fn only_jtag_is_accepted() {
    let mut probe = probe_over(Vec::new());
    assert_eq!(probe.select_protocol(WireProtocol::Jtag), Ok(()));
    assert_eq!(
        probe.select_protocol(WireProtocol::Swd),
        Err(IcdiError::UnsupportedProtocol(WireProtocol::Swd))
    );
}

#[test]
fn speed_is_fixed() {
    let mut probe = probe_over(Vec::new());
    assert_eq!(probe.speed(), 1120);
    assert_eq!(probe.set_speed(100), Err(IcdiError::UnsupportedSpeed(100)));
}

#[test]
fn one_memory_access_port_is_exposed() {
    let probe = probe_over(Vec::new());
    assert!(probe.has_arm_interface());
    assert_eq!(probe.num_access_ports(), 1);
    let info = probe.ap_information(GenericAp::new(0)).unwrap();
    assert_eq!(info.port_number, 0);
    assert_eq!(info.debug_base_address, 0xE00F_F000);
    assert!(!info.only_32bit_data_size);
    assert!(!info.supports_hnonsec);
    assert!(probe.ap_information(GenericAp::new(1)).is_none());
}

#[test]
fn flush_is_a_no_op() {
    let mut probe = probe_over(Vec::new());
    assert_eq!(probe.flush(), Ok(()));
}

#[test]
fn serial_number_is_kept() {
    let probe = probe_over(Vec::new());
    assert_eq!(probe.serial_number(), "0E23");
}

#[test]
fn write_32_serialises_words_little_endian() {
    let mut probe = attached_over(vec![b"+$OK#9a".to_vec()]);
    assert_eq!(probe.write_32(0x100, &vec![0x12345678, 0x9abcdef0]), Ok(()));
    let mut body = b"X00000100,00000008:".to_vec();
    body.append(&mut escape(&vec![0x78, 0x56, 0x34, 0x12, 0xf0, 0xde, 0xbc, 0x9a]));
    let ch = probe.close();
    assert_eq!(*ch.sent_frame(2), frame_packet(&body));
}

#[test]
fn write_debug_reg_writes_four_bytes() {
    let mut probe = attached_over(vec![b"+$OK#9a".to_vec()]);
    assert_eq!(probe.write_debug_reg(0xE000EDF0, 0xA05F0003), Ok(()));
    let mut body = b"Xe000edf0,00000004:".to_vec();
    body.append(&mut escape(&vec![0x03, 0x00, 0x5f, 0xa0]));
    let ch = probe.close();
    assert_eq!(*ch.sent_frame(2), frame_packet(&body));
}

#[test]
fn unexpected_first_byte_is_tolerated_as_the_reply() {
    let mut probe = attached_over(vec![b"~$OK#9a".to_vec()]);
    assert_eq!(probe.run(), Ok(()));
    let ch = probe.close();
    assert_eq!(ch.sent_count(), 3);
}

#[test]
fn failing_chunk_stops_a_long_read() {
    let chunk1: Vec<u8> = vec![0x11u8; 992];
    let mut probe = attached_over(vec![reply(&escape(&chunk1)), reply(b"E09")]);
    assert_eq!(
        probe.read_mem(0x2000_0000, 1000),
        Err(IcdiError::CommandFailed(9))
    );
    let ch = probe.close();
    assert_eq!(ch.sent_count(), 4);
    assert_eq!(
        *ch.sent_frame(3),
        frame_packet(&b"x200003e0,00000008".to_vec())
    );
}
