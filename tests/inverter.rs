use sma_proto::inverter::{
    SmaCmdWord, SmaInvCounter, SmaInvGetDayData, SmaInvHeader, SmaInvIdentify, SmaInvLogin,
    SmaInvLogout, SmaInvMeterValue,
};
use sma_proto::{Cursor, SmaEndpoint};

#[test]
fn test_sma_inv_header_serialization() {
    let header = SmaInvHeader {
        wordcount: 16,
        class: 0xE0,
        dst: SmaEndpoint {
            susy_id: 0x5678,
            serial: 0xABCDABCE,
        },
        dst_ctrl: 0x33CC,
        src: SmaEndpoint {
            susy_id: 0x1234,
            serial: 0xDEADBEEF,
        },
        src_ctrl: 0x55AA,
        error_code: 0x1122,
        counters: SmaInvCounter {
            fragment_id: 10,
            packet_id: 5,
            first_fragment: false,
        },
        cmd: SmaCmdWord {
            channel: 0x10,
            opcode: 0x203040,
        },
    };
    let mut cursor = Cursor::new(vec![0u8; SmaInvHeader::LENGTH]);

    if let Err(e) = header.serialize(&mut cursor) {
        panic!("SmaInvHeader serialization failed: {e:?}");
    }

    let expected = [
        0x10, 0xE0,
        0x56, 0x78, 0xAB, 0xCD, 0xAB, 0xCE, 0x33, 0xCC,
        0x12, 0x34, 0xDE, 0xAD, 0xBE, 0xEF, 0x55, 0xAA,
        0x11, 0x22, 0x0A, 0x00, 0x05, 0x00,
        0x10, 0x20, 0x30, 0x40,
    ];
    assert_eq!(SmaInvHeader::LENGTH, cursor.position());
    assert_eq!(expected.to_vec(), cursor.into_inner());
}

#[test]
fn test_sma_inv_header_deserialization() {
    let serialized = [
        0x10, 0xE0,
        0x56, 0x78, 0xAB, 0xCD, 0xAB, 0xCE, 0x33, 0xCC,
        0x12, 0x34, 0xDE, 0xAD, 0xBE, 0xEF, 0x55, 0xAA,
        0x11, 0x22, 0x0A, 0x00, 0x05, 0x00,
        0x10, 0x20, 0x30, 0x40,
    ];

    let expected = SmaInvHeader {
        wordcount: 16,
        class: 0xE0,
        dst: SmaEndpoint {
            susy_id: 0x5678,
            serial: 0xABCDABCE,
        },
        dst_ctrl: 0x33CC,
        src: SmaEndpoint {
            susy_id: 0x1234,
            serial: 0xDEADBEEF,
        },
        src_ctrl: 0x55AA,
        error_code: 0x1122,
        counters: SmaInvCounter {
            fragment_id: 10,
            packet_id: 5,
            first_fragment: false,
        },
        cmd: SmaCmdWord {
            channel: 0x10,
            opcode: 0x203040,
        },
    };

    let mut cursor = Cursor::new(serialized.to_vec());
    match SmaInvHeader::deserialize(&mut cursor) {
        Err(e) => panic!("SmaInvHeader deserialization failed: {e:?}"),
        Ok(header) => {
            assert_eq!(expected, header);
            assert_eq!(SmaInvHeader::LENGTH, cursor.position());
        }
    }
}

#[test]
fn test_sma_inv_identify_serialization() {
    let cmd = SmaInvIdentify {
        dst: SmaEndpoint::broadcast(),
        src: SmaEndpoint {
            susy_id: 0xDEAD,
            serial: 0xDEADBEEF,
        },
        error_code: 0,
        counters: SmaInvCounter {
            packet_id: 0,
            ..Default::default()
        },
        identity: None,
    };

    let mut cursor = Cursor::new(vec![0u8; SmaInvIdentify::LENGTH_MIN]);

    if let Err(e) = cmd.serialize(&mut cursor) {
        panic!("SmaInvIdentify serialization failed: {e:?}");
    }

    let expected = [
        0x53, 0x4D, 0x41, 0x00, 0x00, 0x04, 0x02, 0xA0,
        0x00, 0x00, 0x00, 0x01, 0x00, 0x26, 0x00, 0x10,
        0x60, 0x65,
        0x09, 0xA0,
        0xFF, 0xFF, 0xFF, 0xFF, 0xFF, 0xFF, 0x00, 0x00,
        0xDE, 0xAD, 0xDE, 0xAD, 0xBE, 0xEF, 0x00, 0x00,
        0x00, 0x00, 0x00, 0x00, 0x00, 0x80,
        0x00, 0x02, 0x00, 0x00,
        0x00, 0x00, 0x00, 0x00, 0x00, 0x00, 0x00, 0x00,
        0x00, 0x00, 0x00, 0x00,
    ];
    assert_eq!(SmaInvIdentify::LENGTH_MIN, cursor.position());
    assert_eq!(expected.to_vec(), cursor.into_inner());
}

#[test]
fn test_sma_inv_identify_deserialization() {
    let serialized = [
        0x53, 0x4D, 0x41, 0x00, 0x00, 0x04, 0x02, 0xA0,
        0x00, 0x00, 0x00, 0x01, 0x00, 0x26, 0x00, 0x10,
        0x60, 0x65,
        0x09, 0xA0,
        0xFF, 0xFF, 0xFF, 0xFF, 0xFF, 0xFF, 0x00, 0x00,
        0xDE, 0xAD, 0xDE, 0xAD, 0xBE, 0xEF, 0x00, 0x00,
        0x00, 0x00, 0x00, 0x00, 0x00, 0x80,
        0x00, 0x02, 0x00, 0x00,
        0x00, 0x00, 0x00, 0x00, 0x00, 0x00, 0x00, 0x00,
        0x00, 0x00, 0x00, 0x00,
    ];

    let expected = SmaInvIdentify {
        dst: SmaEndpoint::broadcast(),
        src: SmaEndpoint {
            susy_id: 0xDEAD,
            serial: 0xDEADBEEF,
        },
        error_code: 0,
        counters: SmaInvCounter {
            packet_id: 0,
            ..Default::default()
        },
        identity: None,
    };

    let mut cursor = Cursor::new(serialized.to_vec());
    match SmaInvIdentify::deserialize(&mut cursor) {
        Err(e) => panic!("SmaInvIdentify deserialization failed: {e:?}"),
        Ok(cmd) => {
            assert_eq!(expected, cmd);
            assert_eq!(SmaInvIdentify::LENGTH_MIN, cursor.position());
        }
    }
}

#[test]
fn test_sma_inv_identify_response_deserialization() {
    let serialized = [
        0x53, 0x4D, 0x41, 0x00, 0x00, 0x04, 0x02, 0xA0,
        0x00, 0x00, 0x00, 0x01, 0x00, 0x4E, 0x00, 0x10,
        0x60, 0x65,
        0x13, 0xA0,
        0xDE, 0xAD, 0xDE, 0xAD, 0xBE, 0xEF, 0x00, 0xC0,
        0x56, 0x78, 0xAB, 0xCD, 0xAB, 0xCE, 0x00, 0x00,
        0x00, 0x00, 0x00, 0x00, 0x01, 0x80,
        0x01, 0x02, 0x00, 0x00,
        0x00, 0x00, 0x00, 0x00, 0x00, 0x00, 0x00, 0x00,
        0x00, 0x03, 0x00, 0x00, 0x00, 0xFF, 0x00, 0x00,
        0x00, 0x00, 0x00, 0x00, 0x01, 0x00, 0x56, 0x78,
        0xAB, 0xCD, 0xAB, 0xDE, 0x00, 0x00, 0x0A, 0x00,
        0x0C, 0x00, 0x00, 0x00, 0x00, 0x00, 0x00, 0x00,
        0x00, 0x00, 0x00, 0x00, 0x01, 0x01, 0x00, 0x00,
        0x00, 0x00, 0x00, 0x00,
    ];

    let expected = SmaInvIdentify {
        dst: SmaEndpoint::dummy(),
        src: SmaEndpoint {
            susy_id: 0x5678,
            serial: 0xABCDABCE,
        },
        error_code: 0,
        counters: SmaInvCounter {
            packet_id: 1,
            ..Default::default()
        },
        identity: Some([
            0x00, 0x00, 0x00, 0x00, 0x00, 0x00, 0x00, 0x00, 0x00, 0x03,
            0x00, 0x00, 0x00, 0xFF, 0x00, 0x00, 0x00, 0x00, 0x00, 0x00,
            0x01, 0x00, 0x56, 0x78, 0xAB, 0xCD, 0xAB, 0xDE, 0x00, 0x00,
            0x0A, 0x00, 0x0C, 0x00, 0x00, 0x00, 0x00, 0x00, 0x00, 0x00,
            0x00, 0x00, 0x00, 0x00, 0x01, 0x01, 0x00, 0x00,
        ]),
    };

    let mut cursor = Cursor::new(serialized.to_vec());
    match SmaInvIdentify::deserialize(&mut cursor) {
        Err(e) => panic!("SmaInvIdentify deserialization failed: {e:?}"),
        Ok(cmd) => {
            assert_eq!(expected, cmd);
            assert_eq!(SmaInvIdentify::LENGTH_MAX, cursor.position());
        }
    }
}

#[test]
fn test_sma_inv_login_serialization() {
    let message = SmaInvLogin {
        src: SmaEndpoint::dummy(),
        dst: SmaEndpoint {
            susy_id: 0x5678,
            serial: 0xABCDABCE,
        },
        counters: SmaInvCounter {
            packet_id: 2,
            ..Default::default()
        },
        timestamp: 1700000000,
        password: Some(SmaInvLogin::pw_from_str("12345").unwrap()),
        ..Default::default()
    };

    let mut cursor = Cursor::new(vec![0u8; SmaInvLogin::LENGTH_MAX]);

    if let Err(e) = message.serialize(&mut cursor) {
        panic!("SmaInvLogin serialization failed: {e:?}");
    }

    let expected = [
        0x53, 0x4D, 0x41, 0x00, 0x00, 0x04, 0x02, 0xA0,
        0x00, 0x00, 0x00, 0x01, 0x00, 0x3A, 0x00, 0x10,
        0x60, 0x65,
        0x0E, 0xA0,
        0x56, 0x78, 0xAB, 0xCD, 0xAB, 0xCE, 0x00, 0x01,
        0xDE, 0xAD, 0xDE, 0xAD, 0xBE, 0xEF, 0x00, 0x01,
        0x00, 0x00, 0x00, 0x00, 0x02, 0x80,
        0x0C, 0x04, 0xFD, 0xFF,
        0x07, 0x00, 0x00, 0x00, 0x84, 0x03, 0x00, 0x00,
        0x00, 0xF1, 0x53, 0x65, 0x00, 0x00, 0x00, 0x00,
        0xB9, 0xBA, 0xBB, 0xBC, 0xBD, 0x88, 0x88, 0x88,
        0x88, 0x88, 0x88, 0x88,
        0x00, 0x00, 0x00, 0x00,
    ];
    assert_eq!(SmaInvLogin::LENGTH_MAX, cursor.position());
    assert_eq!(expected.to_vec(), cursor.into_inner());
}

#[test]
fn test_sma_inv_login_deserialization() {
    let serialized = [
        0x53, 0x4D, 0x41, 0x00, 0x00, 0x04, 0x02, 0xA0,
        0x00, 0x00, 0x00, 0x01, 0x00, 0x3A, 0x00, 0x10,
        0x60, 0x65,
        0x0E, 0xA0,
        0x56, 0x78, 0xAB, 0xCD, 0xAB, 0xCE, 0x00, 0x01,
        0xDE, 0xAD, 0xDE, 0xAD, 0xBE, 0xEF, 0x00, 0x01,
        0x00, 0x00, 0x00, 0x00, 0x02, 0x80,
        0x0C, 0x04, 0xFD, 0xFF,
        0x07, 0x00, 0x00, 0x00, 0x84, 0x03, 0x00, 0x00,
        0x00, 0xF1, 0x53, 0x65, 0x00, 0x00, 0x00, 0x00,
        0xB9, 0xBA, 0xBB, 0xBC, 0xBD, 0x88, 0x88, 0x88,
        0x88, 0x88, 0x88, 0x88,
        0x00, 0x00, 0x00, 0x00,
    ];

    let expected = SmaInvLogin {
        src: SmaEndpoint::dummy(),
        dst: SmaEndpoint {
            susy_id: 0x5678,
            serial: 0xABCDABCE,
        },
        counters: SmaInvCounter {
            packet_id: 2,
            ..Default::default()
        },
        timestamp: 1700000000,
        password: Some(SmaInvLogin::pw_from_str("12345").unwrap()),
        ..Default::default()
    };

    let mut cursor = Cursor::new(serialized.to_vec());
    match SmaInvLogin::deserialize(&mut cursor) {
        Err(e) => panic!("SmaInvLogin deserialization failed: {e:?}"),
        Ok(message) => {
            assert_eq!(expected, message);
            assert_eq!(SmaInvLogin::LENGTH_MAX, cursor.position());
        }
    }
}

#[test]
fn test_sma_inv_login_response_deserialization() {
    let serialized = [
        0x53, 0x4D, 0x41, 0x00, 0x00, 0x04, 0x02, 0xA0,
        0x00, 0x00, 0x00, 0x01, 0x00, 0x2E, 0x00, 0x10,
        0x60, 0x65,
        0x0B, 0xE0,
        0xDE, 0xAD, 0xDE, 0xAD, 0xBE, 0xEF, 0x00, 0x01,
        0x56, 0x78, 0xAB, 0xCD, 0xAB, 0xCE, 0x00, 0x01,
        0x00, 0x00, 0x00, 0x00, 0x02, 0x80,
        0x0D, 0x04, 0xFD, 0xFF,
        0x07, 0x00, 0x00, 0x00, 0x84, 0x03, 0x00, 0x00,
        0x00, 0xF1, 0x53, 0x65, 0x00, 0x00, 0x00, 0x00,
        0x00, 0x00, 0x00, 0x00,
    ];

    let expected = SmaInvLogin {
        dst: SmaEndpoint::dummy(),
        src: SmaEndpoint {
            susy_id: 0x5678,
            serial: 0xABCDABCE,
        },
        counters: SmaInvCounter {
            packet_id: 2,
            ..Default::default()
        },
        timestamp: 1700000000,
        password: None,
        ..Default::default()
    };

    let mut cursor = Cursor::new(serialized.to_vec());
    match SmaInvLogin::deserialize(&mut cursor) {
        Err(e) => panic!("SmaInvLogin deserialization failed: {e:?}"),
        Ok(message) => {
            assert_eq!(expected, message);
            assert_eq!(SmaInvLogin::LENGTH_MIN, cursor.position());
        }
    }
}

#[test]
fn test_sma_inv_login_failed_response_deserialization() {
    let serialized = [
        0x53, 0x4D, 0x41, 0x00, 0x00, 0x04, 0x02, 0xA0,
        0x00, 0x00, 0x00, 0x01, 0x00, 0x3A, 0x00, 0x10,
        0x60, 0x65,
        0x0E, 0xD0,
        0xDE, 0xAD, 0xDE, 0xAD, 0xBE, 0xEF, 0x00, 0x01,
        0x56, 0x78, 0xAB, 0xCD, 0xAB, 0xCE, 0x00, 0x01,
        0x00, 0x01, 0x00, 0x00, 0x02, 0x80,
        0x0D, 0x04, 0xFD, 0xFF,
        0x07, 0x00, 0x00, 0x00, 0x84, 0x03, 0x00, 0x00,
        0x00, 0xF1, 0x53, 0x65, 0x00, 0x00, 0x00, 0x00,
        0xB9, 0xBA, 0xBB, 0xBC, 0xBD, 0x88, 0x88, 0x88,
        0x88, 0x88, 0x88, 0x88,
        0x00, 0x00, 0x00, 0x00,
    ];

    let expected = SmaInvLogin {
        src: SmaEndpoint {
            susy_id: 0x5678,
            serial: 0xABCDABCE,
        },
        dst: SmaEndpoint::dummy(),
        counters: SmaInvCounter {
            packet_id: 2,
            ..Default::default()
        },
        timestamp: 1700000000,
        error_code: 1,
        password: Some(SmaInvLogin::pw_from_str("12345").unwrap()),
        ..Default::default()
    };

    let mut cursor = Cursor::new(serialized.to_vec());
    match SmaInvLogin::deserialize(&mut cursor) {
        Err(e) => panic!("SmaInvLogin deserialization failed: {e:?}"),
        Ok(message) => {
            assert_eq!(expected, message);
            assert_eq!(SmaInvLogin::LENGTH_MAX, cursor.position());
        }
    }
}

#[test]
fn test_sma_inv_logout_serialization() {
    let cmd = SmaInvLogout {
        src: SmaEndpoint::dummy(),
        dst: SmaEndpoint {
            susy_id: 0x5678,
            serial: 0xABCDABCE,
        },
        counters: SmaInvCounter {
            packet_id: 1,
            ..Default::default()
        },
        ..Default::default()
    };

    let mut cursor = Cursor::new(vec![0u8; SmaInvLogout::LENGTH]);

    if let Err(e) = cmd.serialize(&mut cursor) {
        panic!("SmaInvLogout serialization failed: {e:?}");
    }

    let expected = [
        0x53, 0x4D, 0x41, 0x00, 0x00, 0x04, 0x02, 0xA0,
        0x00, 0x00, 0x00, 0x01, 0x00, 0x22, 0x00, 0x10,
        0x60, 0x65,
        0x08, 0xA0,
        0x56, 0x78, 0xAB, 0xCD, 0xAB, 0xCE, 0x00, 0x03,
        0xDE, 0xAD, 0xDE, 0xAD, 0xBE, 0xEF, 0x00, 0x03,
        0x00, 0x00, 0x00, 0x00, 0x01, 0x80,
        0x0E, 0x01, 0xFD, 0xFF,
        0xFF, 0xFF, 0xFF, 0xFF,
        0x00, 0x00, 0x00, 0x00,
    ];
    assert_eq!(SmaInvLogout::LENGTH, cursor.position());
    assert_eq!(expected.to_vec(), cursor.into_inner());
}

#[test]
fn test_sma_inv_logout_deserialization() {
    let serialized = [
        0x53, 0x4D, 0x41, 0x00, 0x00, 0x04, 0x02, 0xA0,
        0x00, 0x00, 0x00, 0x01, 0x00, 0x22, 0x00, 0x10,
        0x60, 0x65,
        0x08, 0xA0,
        0x56, 0x78, 0xAB, 0xCD, 0xAB, 0xCE, 0x00, 0x03,
        0xDE, 0xAD, 0xDE, 0xAD, 0xBE, 0xEF, 0x00, 0x03,
        0x00, 0x00, 0x00, 0x00, 0x01, 0x80,
        0x0E, 0x01, 0xFD, 0xFF,
        0xFF, 0xFF, 0xFF, 0xFF,
        0x00, 0x00, 0x00, 0x00,
    ];

    let expected = SmaInvLogout {
        src: SmaEndpoint::dummy(),
        dst: SmaEndpoint {
            susy_id: 0x5678,
            serial: 0xABCDABCE,
        },
        counters: SmaInvCounter {
            packet_id: 1,
            ..Default::default()
        },
        ..Default::default()
    };

    let mut cursor = Cursor::new(serialized.to_vec());
    match SmaInvLogout::deserialize(&mut cursor) {
        Err(e) => panic!("SmaInvLogout deserialization failed: {e:?}"),
        Ok(cmd) => {
            assert_eq!(expected, cmd);
            assert_eq!(SmaInvLogout::LENGTH, cursor.position());
        }
    }
}

#[test]
fn test_sma_inv_get_day_data_serialization() {
    let message = SmaInvGetDayData {
        src: SmaEndpoint::dummy(),
        dst: SmaEndpoint {
            susy_id: 0x5678,
            serial: 0xABCDABCE,
        },
        error_code: 0,
        counters: SmaInvCounter {
            packet_id: 3,
            ..Default::default()
        },
        start_time_idx: 1700000000,
        end_time_idx: 1750000000,
        records: Vec::new(),
    };

    let mut cursor = Cursor::new(vec![0u8; SmaInvGetDayData::LENGTH_MIN]);

    if let Err(e) = message.serialize(&mut cursor) {
        panic!("SmaInvGetDayData serialization failed: {e:?}");
    }

    let expected = [
        0x53, 0x4D, 0x41, 0x00, 0x00, 0x04, 0x02, 0xA0,
        0x00, 0x00, 0x00, 0x01, 0x00, 0x26, 0x00, 0x10,
        0x60, 0x65,
        0x09, 0xE0,
        0x56, 0x78, 0xAB, 0xCD, 0xAB, 0xCE, 0x00, 0x00,
        0xDE, 0xAD, 0xDE, 0xAD, 0xBE, 0xEF, 0x00, 0x00,
        0x00, 0x00, 0x00, 0x00, 0x03, 0x80,
        0x00, 0x02, 0x00, 0x70,
        0x00, 0xF1, 0x53, 0x65, 0x80, 0xE1, 0x4E, 0x68,
        0x00, 0x00, 0x00, 0x00,
    ];
    assert_eq!(SmaInvGetDayData::LENGTH_MIN, cursor.position());
    assert_eq!(expected.to_vec(), cursor.into_inner());
}

#[test]
fn test_sma_inv_get_day_data_deserialization() {
    let serialized = [
        0x53, 0x4D, 0x41, 0x00, 0x00, 0x04, 0x02, 0xA0,
        0x00, 0x00, 0x00, 0x01, 0x00, 0x26, 0x00, 0x10,
        0x60, 0x65,
        0x09, 0xE0,
        0x56, 0x78, 0xAB, 0xCD, 0xAB, 0xCE, 0x00, 0x00,
        0xDE, 0xAD, 0xDE, 0xAD, 0xBE, 0xEF, 0x00, 0x00,
        0x00, 0x00, 0x00, 0x00, 0x03, 0x80,
        0x00, 0x02, 0x00, 0x70,
        0x00, 0xF1, 0x53, 0x65, 0x80, 0xE1, 0x4E, 0x68,
        0x00, 0x00, 0x00, 0x00,
    ];

    let expected = SmaInvGetDayData {
        src: SmaEndpoint::dummy(),
        dst: SmaEndpoint {
            susy_id: 0x5678,
            serial: 0xABCDABCE,
        },
        error_code: 0,
        counters: SmaInvCounter {
            packet_id: 3,
            ..Default::default()
        },
        start_time_idx: 1700000000,
        end_time_idx: 1750000000,
        records: Vec::new(),
    };

    let mut cursor = Cursor::new(serialized.to_vec());
    match SmaInvGetDayData::deserialize(&mut cursor) {
        Err(e) => panic!("SmaGetDayData deserialization failed: {e:?}"),
        Ok(message) => {
            assert_eq!(expected, message);
            assert_eq!(SmaInvGetDayData::LENGTH_MIN, cursor.position());
        }
    }
}

#[test]
fn test_sma_inv_get_day_data_response_deserialization() {
    let serialized = [
        0x53, 0x4D, 0x41, 0x00, 0x00, 0x04, 0x02, 0xA0,
        0x00, 0x00, 0x00, 0x01, 0x00, 0x56, 0x00, 0x10,
        0x60, 0x65,
        0x15, 0xE0,
        0xDE, 0xAD, 0xDE, 0xAD, 0xBE, 0xEF, 0x00, 0xA0,
        0x56, 0x78, 0xAB, 0xCD, 0xAB, 0xCE, 0x00, 0x00,
        0x00, 0x00, 0x03, 0x00, 0x08, 0x80,
        0x01, 0x02, 0x00, 0x70,
        0x04, 0x00, 0x00, 0x00, 0x08, 0x00, 0x00, 0x00,
        0x00, 0xF1, 0x53, 0x65, 0xF6, 0x97, 0xC2, 0x00,
        0x00, 0x00, 0x00, 0x00,
        0x2C, 0xF2, 0x53, 0x65, 0xFF, 0x97, 0xC2, 0x00,
        0x00, 0x00, 0x00, 0x00,
        0x58, 0xF3, 0x53, 0x65, 0x08, 0x98, 0xC2, 0x00,
        0x00, 0x00, 0x00, 0x00,
        0x84, 0xF4, 0x53, 0x65, 0x10, 0x98, 0xC2, 0x00,
        0x00, 0x00, 0x00, 0x00,
        0x00, 0x00, 0x00, 0x00,
    ];

    let expected = SmaInvGetDayData {
        dst: SmaEndpoint::dummy(),
        src: SmaEndpoint {
            susy_id: 0x5678,
            serial: 0xABCDABCE,
        },
        error_code: 0,
        counters: SmaInvCounter {
            packet_id: 8,
            fragment_id: 3,
            first_fragment: true,
        },
        start_time_idx: 4,
        end_time_idx: 8,
        records: {
            let mut records = Vec::default();
            let _ = records.push(SmaInvMeterValue {
                timestamp: 1700000000,
                energy_wh: 12752886,
            });
            let _ = records.push(SmaInvMeterValue {
                timestamp: 1700000300,
                energy_wh: 12752895,
            });
            let _ = records.push(SmaInvMeterValue {
                timestamp: 1700000600,
                energy_wh: 12752904,
            });
            let _ = records.push(SmaInvMeterValue {
                timestamp: 1700000900,
                energy_wh: 12752912,
            });
            records
        },
    };

    let mut cursor = Cursor::new(serialized.to_vec());
    match SmaInvGetDayData::deserialize(&mut cursor) {
        Err(e) => panic!("SmaCmdGetDayData deserialization failed: {e:?}"),
        Ok(message) => {
            assert_eq!(expected, message);
            assert_eq!(
                SmaInvGetDayData::LENGTH_MIN + 48,
                cursor.position()
            );
        }
    }
}
