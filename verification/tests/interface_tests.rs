use ti_icdi::access_port::{AccessPort, GenericAp, MemoryAp};
use ti_icdi::device::{is_icdi_id, selector_matches, DebugProbeSelector};
use ti_icdi::errors::IcdiError;
use ti_icdi::gdb_interface::GdbRemoteInterface;
use ti_icdi::hla_interface::{HlaInterface, TargetRunState};
use ti_icdi::probe::IcdiProbe;
use ti_icdi::script::ScriptChannel;

fn make_probe(script: Vec<Vec<u8>>) -> IcdiProbe<ScriptChannel> {
    IcdiProbe::new(ScriptChannel::new(script), String::from("0E23"))
}

fn framed_reply(payload: &[u8]) -> Vec<u8> {
    let mut r = b"+$".to_vec();
    r.extend_from_slice(payload);
    r.extend_from_slice(b"#00");
    r
}

/// A probe with a session brought up first; the attach frames sit at
/// positions 0 and 1 of the write log.
fn attached_probe(replies: Vec<Vec<u8>>) -> IcdiProbe<ScriptChannel> {
    let mut script = vec![framed_reply(b"hwbreak+"), b"+$OK#9a".to_vec()];
    script.extend(replies);
    let mut probe = make_probe(script);
    assert_eq!(probe.attach(), Ok(()));
    probe
}

fn drive_gdb<T: GdbRemoteInterface>(probe: &mut T) -> Result<u32, IcdiError> {
    probe.run()?;
    probe.read_reg(15)
}

fn drive_hla<T: HlaInterface>(probe: &mut T) -> Result<TargetRunState, IcdiError> {
    probe.halt()?;
    probe.state()
}

#[test]
fn gdb_interface_drives_the_probe() {
    let mut probe = attached_probe(vec![b"+$OK#9a".to_vec(), framed_reply(b"78563412")]);
    assert_eq!(drive_gdb(&mut probe), Ok(0x12345678));
}

#[test]
fn gdb_reset_uses_the_hreset_remote_command() {
    let mut probe = attached_probe(vec![b"+$OK#9a".to_vec()]);
    assert_eq!(GdbRemoteInterface::reset(&mut probe), Ok(()));
    let ch = probe.close();
    let mut body = b"qRcmd,".to_vec();
    body.extend_from_slice(b"687265736574");
    assert_eq!(
        *ch.sent_frame(2),
        ti_icdi::codec::frame_packet(&body)
    );
}

#[test]
fn hla_interface_drives_the_probe() {
    let mut probe = attached_probe(vec![
        b"+$OK#9a".to_vec(),
        framed_reply(&[0x00, 0x00, 0x02, 0x00]),
    ]);
    assert_eq!(drive_hla(&mut probe), Ok(TargetRunState::Halted));
}

#[test]
fn hla_read_mem_multiplies_size_and_count() {
    let bytes: Vec<u8> = (0u8..8).collect();
    let mut probe = attached_probe(vec![framed_reply(&bytes)]);
    let data = HlaInterface::read_mem(&mut probe, 0x100, 4, 2).unwrap();
    assert_eq!(data, bytes);
    let ch = probe.close();
    assert_eq!(
        *ch.sent_frame(2),
        ti_icdi::codec::frame_packet(&b"x00000100,00000008".to_vec())
    );
}

#[test]
fn access_ports_carry_their_numbers() {
    assert_eq!(GenericAp::new(3).port_number(), 3);
    assert_eq!(MemoryAp::new(0).port_number(), 0);
}

#[test]
fn raw_register_operations_are_refused() {
    let mut probe = make_probe(Vec::new());
    assert_eq!(
        probe.read_raw_dp_register(0),
        Err(IcdiError::UnsupportedOperation)
    );
    assert_eq!(
        probe.write_raw_dp_register(0, 1),
        Err(IcdiError::UnsupportedOperation)
    );
    assert_eq!(
        probe.read_raw_ap_register(0, 0),
        Err(IcdiError::UnsupportedOperation)
    );
    assert_eq!(
        probe.write_raw_ap_register(0, 0, 1),
        Err(IcdiError::UnsupportedOperation)
    );
}

#[test]
fn selector_matching_follows_the_rule() {
    assert!(is_icdi_id(0x1CBE, 0x00FD));
    assert!(!is_icdi_id(0x1CBE, 0x00FE));
    let any = DebugProbeSelector {
        vendor_id: 0x1CBE,
        product_id: 0x00FD,
        serial_number: None,
    };
    assert!(selector_matches(&any, 0x1CBE, 0x00FD, &None));
    assert!(selector_matches(
        &any,
        0x1CBE,
        0x00FD,
        &Some(String::from("X"))
    ));
    assert!(!selector_matches(&any, 0x1CBE, 0x00FE, &None));
    let exact = DebugProbeSelector {
        vendor_id: 0x1CBE,
        product_id: 0x00FD,
        serial_number: Some(String::from("AB12")),
    };
    assert!(selector_matches(
        &exact,
        0x1CBE,
        0x00FD,
        &Some(String::from("AB12"))
    ));
    assert!(!selector_matches(
        &exact,
        0x1CBE,
        0x00FD,
        &Some(String::from("CD34"))
    ));
    assert!(!selector_matches(&exact, 0x1CBE, 0x00FD, &None));
}
