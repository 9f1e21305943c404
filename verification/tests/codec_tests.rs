use ti_icdi::codec::{
    chunk_size, escape, frame_packet, hex8, hex_decode, hex_encode, hex_min, parse_hex_u32,
    parse_register, scan_features, unescape,
};
use ti_icdi::errors::IcdiError;

#[test]
fn frame_qsupported_matches_wire() {
    let frame = frame_packet(&b"qSupported".to_vec());
    assert_eq!(frame, b"$qSupported#37".to_vec());
}

#[test]
fn frame_extended_mode() {
    let frame = frame_packet(&b"!".to_vec());
    assert_eq!(frame, b"$!#21".to_vec());
}

#[test]
fn frame_empty_body() {
    let frame = frame_packet(&Vec::new());
    assert_eq!(frame, b"$#00".to_vec());
}

#[test]
fn frame_checksum_wraps_modulo_256() {
    let body = vec![0xffu8, 0xff, 0x03];
    let frame = frame_packet(&body);
    assert_eq!(&frame[frame.len() - 3..], b"#01");
}

#[test]
fn escape_rewrites_each_special_byte() {
    let escaped = escape(&vec![0x23, 0x24, 0x7d, 0x2a]);
    assert_eq!(escaped, vec![0x7d, 0x03, 0x7d, 0x04, 0x7d, 0x5d, 0x7d, 0x0a]);
}

#[test]
fn escape_passes_ordinary_bytes_through() {
    let data = vec![0u8, 1, 65, 200, 255];
    assert_eq!(escape(&data), data);
}

#[test]
fn unescape_undoes_escape() {
    let data: Vec<u8> = (0u8..=255).collect();
    assert_eq!(unescape(&escape(&data)), data);
}

#[test]
fn unescape_drops_dangling_escape() {
    assert_eq!(unescape(&vec![0x7d]), Vec::<u8>::new());
}

#[test]
fn escaped_output_has_no_raw_specials() {
    let data: Vec<u8> = (0u8..=255).collect();
    let escaped = escape(&data);
    let mut i = 0;
    while i < escaped.len() {
        assert_ne!(escaped[i], b'$');
        assert_ne!(escaped[i], b'#');
        assert_ne!(escaped[i], b'*');
        if escaped[i] == b'}' {
            i += 2;
        } else {
            i += 1;
        }
    }
}

#[test]
fn hex_encode_is_lower_case_pairs() {
    assert_eq!(hex_encode(&vec![0xde, 0xad, 0x01]), b"dead01".to_vec());
}

#[test]
fn hex_decode_accepts_both_cases() {
    assert_eq!(hex_decode(&b"DEad01".to_vec()), Ok(vec![0xde, 0xad, 0x01]));
}

#[test]
fn hex_decode_rejects_odd_length() {
    assert_eq!(hex_decode(&b"abc".to_vec()), Err(IcdiError::HexDecode));
}

#[test]
fn hex_decode_rejects_non_digits() {
    assert_eq!(hex_decode(&b"zz".to_vec()), Err(IcdiError::HexDecode));
}

#[test]
fn register_parses_little_endian() {
    assert_eq!(parse_register(&b"78563412".to_vec()), Ok(0x12345678));
}

#[test]
fn register_roundtrips_every_byte_order_case() {
    for v in [0u32, 1, 0x80, 0xdead_beef, u32::MAX] {
        let hexed = hex_encode(&v.to_le_bytes().to_vec());
        assert_eq!(parse_register(&hexed), Ok(v));
    }
}

#[test]
fn register_rejects_wrong_length() {
    assert_eq!(parse_register(&b"1234".to_vec()), Err(IcdiError::HexDecode));
    assert_eq!(
        parse_register(&b"123456789a".to_vec()),
        Err(IcdiError::HexDecode)
    );
}

#[test]
fn register_rejects_bad_digit() {
    assert_eq!(parse_register(&b"7856341g".to_vec()), Err(IcdiError::HexDecode));
}

#[test]
fn hex8_is_fixed_width_lower_case() {
    assert_eq!(hex8(0x20000000), b"20000000".to_vec());
    assert_eq!(hex8(0x20), b"00000020".to_vec());
    assert_eq!(hex8(0xE000EDF0), b"e000edf0".to_vec());
}

#[test]
fn hex_min_is_minimal_width() {
    assert_eq!(hex_min(0), b"0".to_vec());
    assert_eq!(hex_min(0x1a2b), b"1a2b".to_vec());
    assert_eq!(hex_min(11), b"b".to_vec());
}

#[test]
fn parse_hex_u32_reads_packet_sizes() {
    assert_eq!(parse_hex_u32(&b"400".to_vec()), Some(0x400));
    assert_eq!(parse_hex_u32(&b"000400".to_vec()), Some(0x400));
    assert_eq!(parse_hex_u32(&b"ffffffff".to_vec()), Some(u32::MAX));
    assert_eq!(parse_hex_u32(&b"100000000".to_vec()), None);
    assert_eq!(parse_hex_u32(&Vec::new()), None);
    assert_eq!(parse_hex_u32(&b"4g0".to_vec()), None);
}

#[test]
fn chunk_size_of_default_packet() {
    let c = chunk_size(2048);
    assert_eq!(c, 992);
    assert_eq!(c % 4, 0);
    assert!(c <= (2048 - 64) / 2);
}

#[test]
fn chunk_size_of_smallest_packet() {
    assert_eq!(chunk_size(68), 2);
}

#[test]
fn chunk_size_stays_under_half_span() {
    for max in [68u32, 76, 100, 1024, 2048, 6184] {
        let c = chunk_size(max);
        assert!(c <= (max - 64) / 2);
    }
}

#[test]
fn scan_features_takes_offered_packet_size() {
    assert_eq!(
        scan_features(&b"PacketSize=400;qXfer=no".to_vec(), 2048),
        Ok(Some(0x400))
    );
}

#[test]
fn scan_features_last_offer_wins() {
    assert_eq!(
        scan_features(&b"PacketSize=400;PacketSize=800".to_vec(), 2048),
        Ok(Some(0x800))
    );
}

#[test]
fn scan_features_last_offer_wins_even_when_small() {
    assert_eq!(
        scan_features(&b"PacketSize=800;PacketSize=10".to_vec(), 2048),
        Ok(Some(0x10))
    );
}

#[test]
fn scan_features_without_offer_keeps_current() {
    assert_eq!(
        scan_features(&b"hwbreak+;qXfer=no".to_vec(), 2048),
        Ok(Some(2048))
    );
}

#[test]
fn scan_features_rejects_malformed_offer() {
    assert_eq!(
        scan_features(&b"PacketSize=zz".to_vec(), 2048),
        Err(IcdiError::HexDecode)
    );
    assert_eq!(
        scan_features(&b"PacketSize=".to_vec(), 2048),
        Err(IcdiError::HexDecode)
    );
}

#[test]
fn scan_features_reports_an_offer_beyond_u32() {
    assert_eq!(
        scan_features(&b"PacketSize=100000000".to_vec(), 2048),
        Ok(None)
    );
}
