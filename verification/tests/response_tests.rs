use ti_icdi::errors::IcdiError;
use ti_icdi::response::ReceiveBuffer;
use ti_icdi::script::ScriptChannel;

#[test]
fn payload_lies_between_dollar_and_hash() {
    let buf = ReceiveBuffer::from_bytes(b"+$OK#9a".to_vec());
    assert_eq!(buf.get_payload(), Ok(b"OK".to_vec()));
}

#[test]
fn payload_uses_last_hash() {
    let buf = ReceiveBuffer::from_bytes(b"+$a#b#9a".to_vec());
    assert_eq!(buf.get_payload(), Ok(b"a#b".to_vec()));
}

#[test]
fn payload_missing_dollar_is_framing_error() {
    let buf = ReceiveBuffer::from_bytes(b"+OK#9a".to_vec());
    assert_eq!(buf.get_payload(), Err(IcdiError::Framing));
}

#[test]
fn payload_missing_hash_is_framing_error() {
    let buf = ReceiveBuffer::from_bytes(b"+$OK9a".to_vec());
    assert_eq!(buf.get_payload(), Err(IcdiError::Framing));
}

#[test]
fn payload_with_markers_out_of_order_is_framing_error() {
    let buf = ReceiveBuffer::from_bytes(b"#$".to_vec());
    assert_eq!(buf.get_payload(), Err(IcdiError::Framing));
}

#[test]
fn check_accepts_ok() {
    let buf = ReceiveBuffer::from_bytes(b"+$OK#9a".to_vec());
    assert_eq!(buf.check_cmd_result(), Ok(()));
}

#[test]
fn check_carries_error_code() {
    let buf = ReceiveBuffer::from_bytes(b"+$E05#aa".to_vec());
    assert_eq!(buf.check_cmd_result(), Err(IcdiError::CommandFailed(5)));
}

#[test]
fn check_reads_error_code_in_either_case() {
    let buf = ReceiveBuffer::from_bytes(b"+$Eab#00".to_vec());
    assert_eq!(buf.check_cmd_result(), Err(IcdiError::CommandFailed(0xab)));
    let buf = ReceiveBuffer::from_bytes(b"+$EAB#00".to_vec());
    assert_eq!(buf.check_cmd_result(), Err(IcdiError::CommandFailed(0xab)));
}

#[test]
fn check_rejects_empty_payload() {
    let buf = ReceiveBuffer::from_bytes(b"+$#00".to_vec());
    assert_eq!(buf.check_cmd_result(), Err(IcdiError::EmptyResponse));
}

#[test]
fn check_passes_e_with_non_hex_bytes() {
    let buf = ReceiveBuffer::from_bytes(b"+$Ezz#00".to_vec());
    assert_eq!(buf.check_cmd_result(), Ok(()));
}

#[test]
fn check_passes_e_with_non_ascii_bytes() {
    let buf = ReceiveBuffer::from_bytes(b"+$E\xc3\xa9#00".to_vec());
    assert_eq!(buf.check_cmd_result(), Ok(()));
}

#[test]
fn check_passes_data_payloads() {
    let buf = ReceiveBuffer::from_bytes(b"+$PacketSize=400#00".to_vec());
    assert_eq!(buf.check_cmd_result(), Ok(()));
    let buf = ReceiveBuffer::from_bytes(b"+$E5#00".to_vec());
    assert_eq!(buf.check_cmd_result(), Ok(()));
}

#[test]
fn receive_assembles_split_reply() {
    let mut ch = ScriptChannel::new(vec![b"+$O".to_vec(), b"K#9a".to_vec()]);
    let buf = ReceiveBuffer::from_bulk_receive(&mut ch).unwrap();
    assert_eq!(buf.get_payload(), Ok(b"OK".to_vec()));
    assert_eq!(buf.len(), 7);
}

#[test]
fn receive_stops_at_checksum_byte() {
    let mut ch = ScriptChannel::new(vec![b"+$OK#9a".to_vec(), b"leftover".to_vec()]);
    let buf = ReceiveBuffer::from_bulk_receive(&mut ch).unwrap();
    assert_eq!(buf.len(), 7);
    assert_eq!(ch.replies_read(), 1);
}

#[test]
fn receive_times_out_on_silence() {
    let mut ch = ScriptChannel::new(Vec::new());
    assert_eq!(
        ReceiveBuffer::from_bulk_receive(&mut ch).err(),
        Some(IcdiError::Timeout)
    );
}

#[test]
fn receive_fails_framing_when_buffer_fills() {
    let mut ch = ScriptChannel::new(vec![vec![b'x'; 2048]]);
    assert_eq!(
        ReceiveBuffer::from_bulk_receive(&mut ch).err(),
        Some(IcdiError::Framing)
    );
}

#[test]
fn receive_fails_framing_when_reply_overflows() {
    let mut ch = ScriptChannel::new(vec![vec![b'x'; 2000], vec![b'x'; 100]]);
    assert_eq!(
        ReceiveBuffer::from_bulk_receive(&mut ch).err(),
        Some(IcdiError::Framing)
    );
}
