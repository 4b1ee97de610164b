use sma_proto::{Cursor, SmaEndpoint, SmaPacketFooter, SmaPacketHeader};

#[test]
fn test_sma_packet_header_serialization() {
    let header = SmaPacketHeader {
        data_len: 8,
        protocol: SmaPacketHeader::SMA_PROTOCOL_EM,
    };
    let mut cursor = Cursor::new(vec![0u8; SmaPacketHeader::LENGTH]);

    if let Err(e) = header.serialize(&mut cursor) {
        panic!("SmaPacketHeader serialization failed: {e:?}");
    }

    let expected = [
        0x53, 0x4D, 0x41, 0x00,
        0x00, 0x04,
        0x02, 0xA0,
        0x00, 0x00, 0x00, 0x01,
        0x00, 0x0A,
        0x00, 0x10,
        0x60, 0x69,
    ];
    assert_eq!(SmaPacketHeader::LENGTH, cursor.position());
    assert_eq!(expected.to_vec(), cursor.into_inner());
}

#[test]
fn test_sma_packet_header_deserialization() {
    let serialized = [
        0x53, 0x4D, 0x41, 0x00,
        0x00, 0x04,
        0x02, 0xA0,
        0x00, 0x00, 0x00, 0x01,
        0x00, 0x0A,
        0x00, 0x10,
        0x60, 0x69,
    ];

    let expected = SmaPacketHeader {
        data_len: 8,
        protocol: SmaPacketHeader::SMA_PROTOCOL_EM,
    };

    let mut cursor = Cursor::new(serialized.to_vec());
    match SmaPacketHeader::deserialize(&mut cursor) {
        Err(e) => panic!("SmaPacketHeader deserialization failed: {e:?}"),
        Ok(header) => {
            assert_eq!(expected, header);
            assert_eq!(SmaPacketHeader::LENGTH, cursor.position());
        }
    }
}

#[test]
fn test_sma_packet_footer_serialization() {
    let token = SmaPacketFooter::default();
    let mut cursor = Cursor::new(vec![1u8; 4]);

    if let Err(e) = token.serialize(&mut cursor) {
        panic!("SmaPacketFooter serialization failed: {e:?}");
    }

    assert_eq!(4, cursor.position());
    assert_eq!(vec![0u8; 4], cursor.into_inner());
}

#[test]
fn test_sma_packet_footer_deserialization() {
    let mut cursor = Cursor::new(vec![0u8; 4]);
    if let Err(e) = SmaPacketFooter::deserialize(&mut cursor) {
        panic!("SmaPacketFooter deserialization failed: {e:?}");
    }
    assert_eq!(4, cursor.position());

    let mut cursor = Cursor::new(vec![0u8; 2]);
    if let Err(e) = SmaPacketFooter::deserialize(&mut cursor) {
        panic!("SmaPacketFooter deserialization failed: {e:?}");
    }
    assert_eq!(2, cursor.position());

    let mut cursor = Cursor::new(vec![0u8; 12]);
    if let Err(e) = SmaPacketFooter::deserialize(&mut cursor) {
        panic!("SmaPacketFooter deserialization failed: {e:?}");
    }
    assert_eq!(12, cursor.position());
}

#[test]
fn test_sma_endpoint_serialization() {
    let endpoint = SmaEndpoint {
        susy_id: 0x1234,
        serial: 0xDEADBEEF,
    };
    let mut cursor = Cursor::new(vec![0u8; SmaEndpoint::LENGTH]);

    if let Err(e) = endpoint.serialize(&mut cursor) {
        panic!("SmaEndpoint serialization failed: {e:?}");
    }

    let expected = [
        0x12, 0x34,
        0xDE, 0xAD, 0xBE, 0xEF,
    ];
    assert_eq!(SmaEndpoint::LENGTH, cursor.position());
    assert_eq!(expected.to_vec(), cursor.into_inner());
}

#[test]
fn test_sma_endpoint_deserialization() {
    let serialized = [
        0x12, 0x34,
        0xDE, 0xAD, 0xBE, 0xEF,
    ];

    let expected = SmaEndpoint {
        susy_id: 0x1234,
        serial: 0xDEADBEEF,
    };

    let mut cursor = Cursor::new(serialized.to_vec());
    match SmaEndpoint::deserialize(&mut cursor) {
        Err(e) => panic!("SmaEndpoint deserialization failed: {e:?}"),
        Ok(endpoint) => {
            assert_eq!(expected, endpoint);
            assert_eq!(SmaEndpoint::LENGTH, cursor.position());
        }
    };
}
