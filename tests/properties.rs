use sma_proto::energymeter::{ObisValue, SmaEmMessage};
use sma_proto::inverter::{
    SmaInvCounter, SmaInvGetDayData, SmaInvHeader, SmaInvIdentify, SmaInvLogin, SmaInvLogout,
    SmaInvMeterValue,
};
use sma_proto::{AnySmaMessage, Cursor, Error, SmaEndpoint, SmaPacketFooter, SmaPacketHeader};

fn logout() -> SmaInvLogout {
    SmaInvLogout {
        src: SmaEndpoint::dummy(),
        dst: SmaEndpoint {
            susy_id: 0x5678,
            serial: 0xABCDABCE,
        },
        counters: SmaInvCounter {
            packet_id: 1,
            ..Default::default()
        },
        ..Default::default()
    }
}

fn encode(msg: &AnySmaMessage, size: usize) -> Result<Vec<u8>, Error> {
    let mut cursor = Cursor::new(vec![0u8; size]);
    msg.serialize(&mut cursor)?;
    let len = cursor.position();
    let mut bytes = cursor.into_inner();
    bytes.truncate(len);
    Ok(bytes)
}

fn decode(bytes: &[u8]) -> Result<AnySmaMessage, Error> {
    AnySmaMessage::deserialize(&mut Cursor::new(bytes.to_vec()))
}

fn sample_messages() -> Vec<AnySmaMessage> {
    let dst = SmaEndpoint {
        susy_id: 0x5678,
        serial: 0xABCDABCE,
    };
    vec![
        AnySmaMessage::EmMessage(SmaEmMessage {
            src: SmaEndpoint::dummy(),
            timestamp_ms: 0xAABBCCDD,
            payload: (0..80)
                .map(|i| ObisValue {
                    id: if i % 2 == 0 { 0x010400 } else { 0x010800 },
                    value: i * 1000,
                })
                .collect(),
        }),
        AnySmaMessage::InvGetDayData(SmaInvGetDayData {
            dst,
            src: SmaEndpoint::dummy(),
            error_code: 0,
            counters: SmaInvCounter {
                fragment_id: 3,
                packet_id: 0x7FFF,
                first_fragment: false,
            },
            start_time_idx: 4,
            end_time_idx: 84,
            records: (0..81)
                .map(|i| SmaInvMeterValue {
                    timestamp: 1700000000 + i * 300,
                    energy_wh: 12752886 + i as u64,
                })
                .collect(),
        }),
        AnySmaMessage::InvIdentify(SmaInvIdentify {
            dst: SmaEndpoint::dummy(),
            src: dst,
            error_code: 0,
            counters: SmaInvCounter::default(),
            identity: Some([0x5A; 48]),
        }),
        AnySmaMessage::InvLogin(SmaInvLogin {
            dst,
            src: SmaEndpoint::dummy(),
            error_code: 1,
            timestamp: 1700000000,
            password: Some(SmaInvLogin::pw_from_str("secret").unwrap()),
            ..Default::default()
        }),
        AnySmaMessage::InvLogout(logout()),
    ]
}

#[test]
fn every_message_survives_a_round_trip() {
    for msg in sample_messages() {
        let bytes = encode(&msg, 1030).unwrap();
        assert_eq!(msg, decode(&bytes).unwrap());
    }
}

#[test]
fn trailing_zero_padding_is_tolerated() {
    for msg in sample_messages() {
        let bytes = encode(&msg, 1030).unwrap();
        for extra in [2usize, 4, 6, 8] {
            let mut padded = bytes.clone();
            padded.extend(std::iter::repeat(0u8).take(extra));
            assert_eq!(msg, decode(&padded).unwrap());
        }
    }
}

#[test]
fn trailing_garbage_is_rejected() {
    let bytes = encode(&AnySmaMessage::InvLogout(logout()), 1030).unwrap();
    let mut odd = bytes.clone();
    odd.push(0);
    assert!(matches!(decode(&odd), Err(Error::BufferNotConsumed { trailing: 1 })));
    let mut nonzero = bytes.clone();
    nonzero.extend([0, 0, 0, 1]);
    assert!(matches!(decode(&nonzero), Err(Error::InvalidPadding { padding: 1 })));
    let mut short_nonzero = bytes.clone();
    short_nonzero.extend([0, 7]);
    assert!(matches!(decode(&short_nonzero), Err(Error::InvalidPadding { padding: 7 })));
    let mut footer = bytes;
    let n = footer.len();
    footer[n - 1] = 0xFF;
    assert!(matches!(decode(&footer), Err(Error::InvalidPadding { padding: 0xFF })));
}

#[test]
fn one_byte_short_buffer_is_too_small() {
    for msg in sample_messages() {
        let len = encode(&msg, 1030).unwrap().len();
        match encode(&msg, len - 1) {
            Err(Error::BufferTooSmall { size, expected }) => {
                assert_eq!(len - 1, size);
                assert_eq!(len, expected);
            }
            other => panic!("expected BufferTooSmall, got {other:?}"),
        }
    }
}

#[test]
fn counter_bit_discipline() {
    for id in [0u16, 1, 0x1234, 0x7FFF] {
        for first in [false, true] {
            let c = SmaInvCounter {
                fragment_id: 0xABCD,
                packet_id: id,
                first_fragment: first,
            };
            let mut cursor = Cursor::new(vec![0u8; 4]);
            c.serialize(&mut cursor).unwrap();
            let bytes = cursor.into_inner();
            assert_eq!(first, bytes[3] & 0x80 != 0);
            let back = SmaInvCounter::deserialize(&mut Cursor::new(bytes)).unwrap();
            assert_eq!(c, back);
        }
    }
    let raw = SmaInvCounter::deserialize(&mut Cursor::new(vec![0, 0, 0xFF, 0xFF])).unwrap();
    assert!(raw.first_fragment);
    assert_eq!(0x7FFF, raw.packet_id);
}

#[test]
fn obis_ids_outside_the_families_are_rejected() {
    for id in [0x90000000u32, 0x010400, 0x01FF0400, 0x010800, 0xFFFF0800] {
        let o = ObisValue { id, value: 7 };
        assert!(o.validate().is_ok());
        let mut cursor = Cursor::new(vec![0u8; 12]);
        o.serialize(&mut cursor).unwrap();
        let len = cursor.position();
        assert_eq!(o.serialized_len(), len);
        let mut bytes = cursor.into_inner();
        bytes.truncate(len);
        assert_eq!(o, ObisValue::deserialize(&mut Cursor::new(bytes)).unwrap());
    }
    for id in [0u32, 0x90000001, 0x010500, 0x010C00, 0x0100] {
        let o = ObisValue { id, value: 7 };
        assert!(matches!(o.validate(), Err(Error::UnsupportedObisId { id: x }) if x == id));
        assert_eq!(0, o.serialized_len());
        let mut cursor = Cursor::new(vec![0u8; 12]);
        assert!(matches!(o.serialize(&mut cursor), Err(Error::UnsupportedObisId { .. })));
        let mut bytes = id.to_be_bytes().to_vec();
        bytes.extend([0u8; 8]);
        assert!(matches!(
            ObisValue::deserialize(&mut Cursor::new(bytes)),
            Err(Error::UnsupportedObisId { id: x }) if x == id
        ));
    }
}

#[test]
fn em_message_with_unsupported_obis_fails_to_encode() {
    let msg = SmaEmMessage {
        src: SmaEndpoint::dummy(),
        timestamp_ms: 1,
        payload: vec![
            ObisValue { id: 0x010400, value: 1 },
            ObisValue { id: 0x010500, value: 2 },
        ],
    };
    assert!(matches!(
        encode(&AnySmaMessage::EmMessage(msg), 1030),
        Err(Error::UnsupportedObisId { id: 0x010500 })
    ));
}

#[test]
fn oversized_payloads_are_rejected() {
    let em = SmaEmMessage {
        src: SmaEndpoint::dummy(),
        timestamp_ms: 1,
        payload: vec![ObisValue { id: 0x010400, value: 1 }; 81],
    };
    assert!(matches!(
        encode(&AnySmaMessage::EmMessage(em), 1030),
        Err(Error::PayloadTooLarge { len: 81 })
    ));
    let gdd = SmaInvGetDayData {
        records: vec![SmaInvMeterValue::default(); 82],
        ..Default::default()
    };
    assert!(matches!(
        encode(&AnySmaMessage::InvGetDayData(gdd), 2000),
        Err(Error::PayloadTooLarge { len: 82 })
    ));
}

#[test]
fn decoding_81_obis_values_is_too_large() {
    let mut bytes = vec![
        0x53, 0x4D, 0x41, 0x00, 0x00, 0x04, 0x02, 0xA0, 0x00, 0x00, 0x00, 0x01,
    ];
    let data_len: u16 = 10 + 81 * 8;
    bytes.extend((data_len + 2).to_be_bytes());
    bytes.extend([0x00, 0x10, 0x60, 0x69]);
    bytes.extend([0xDE, 0xAD, 0xDE, 0xAD, 0xBE, 0xEF, 0, 0, 0, 1]);
    for _ in 0..81 {
        bytes.extend([0x00, 0x01, 0x04, 0x00, 0, 0, 0, 1]);
    }
    bytes.extend([0, 0, 0, 0]);
    assert!(matches!(decode(&bytes), Err(Error::PayloadTooLarge { len: 81 })));
}

#[test]
fn header_errors_are_reported() {
    let good = encode(&AnySmaMessage::InvLogout(logout()), 1030).unwrap();
    let cases: Vec<(usize, u8, Error)> = vec![
        (0, 0x54, Error::InvalidFourCC { fourcc: 0x544D4100 }),
        (5, 0x05, Error::InvalidStartTagLen { len: 5 }),
        (7, 0xA1, Error::InvalidStartTag { tag: 0x02A1 }),
        (11, 0x02, Error::InvalidGroup { group: 2 }),
        (15, 0x11, Error::UnsupportedVersion { version: 0x11 }),
        (17, 0x66, Error::UnsupportedProtocol { protocol: 0x6066 }),
        (18, 0x09, Error::InvalidWordcount { wordcount: 9 }),
        (19, 0xB0, Error::UnsupportedCommandClass { class: 0xB0 }),
        (43, 0x05, Error::UnsupportedOpcode { opcode: 0x05FDFF }),
        (46, 0xFE, Error::InvalidPadding { padding: 0xFFFFFFFE }),
    ];
    for (index, value, expected) in cases {
        let mut bytes = good.clone();
        bytes[index] = value;
        let got = decode(&bytes);
        assert!(
            matches!(&got, Err(e) if *e == expected),
            "byte {index}: expected {expected:?}, got {got:?}"
        );
    }
    assert!(matches!(
        decode(&good[..10]),
        Err(Error::BufferTooSmall { size: 10, expected: 18 })
    ));
}

#[test]
fn header_data_length_counts_protocol_field() {
    let header = SmaPacketHeader {
        data_len: 36,
        protocol: SmaPacketHeader::SMA_PROTOCOL_INV,
    };
    let mut cursor = Cursor::new(vec![0u8; 18]);
    header.serialize(&mut cursor).unwrap();
    let bytes = cursor.into_inner();
    assert_eq!(&[0x00, 0x26], &bytes[12..14]);
    assert_eq!(header, SmaPacketHeader::deserialize(&mut Cursor::new(bytes)).unwrap());
    assert!(header.check_protocol(SmaPacketHeader::SMA_PROTOCOL_INV).is_ok());
    assert!(matches!(
        header.check_protocol(SmaPacketHeader::SMA_PROTOCOL_EM),
        Err(Error::UnsupportedProtocol { protocol: 0x6065 })
    ));
}

#[test]
fn footer_of_one_byte_is_too_small() {
    assert!(matches!(
        SmaPacketFooter::deserialize(&mut Cursor::new(vec![0u8; 1])),
        Err(Error::BufferTooSmall { size: 1, expected: 2 })
    ));
    assert!(matches!(
        SmaPacketFooter::deserialize(&mut Cursor::new(vec![0u8; 7])),
        Err(Error::BufferNotConsumed { trailing: 3 })
    ));
}

#[test]
fn inverter_header_checks() {
    let header = SmaInvHeader {
        wordcount: 9,
        class: 0xA0,
        ..Default::default()
    };
    assert!(header.check_wordcount(36).is_ok());
    assert!(matches!(header.check_wordcount(40), Err(Error::InvalidWordcount { wordcount: 9 })));
    assert!(header.check_class(0xA0).is_ok());
    assert!(matches!(header.check_class(0xE0), Err(Error::UnsupportedCommandClass { class: 0xA0 })));
    assert!(header.check_opcode(0).is_ok());
    assert!(matches!(header.check_opcode(1), Err(Error::UnsupportedOpcode { opcode: 0 })));
}

#[test]
fn password_conversion() {
    assert_eq!(
        [b'1', b'2', b'3', b'4', b'5', 0, 0, 0, 0, 0, 0, 0],
        SmaInvLogin::pw_from_str("12345").unwrap()
    );
    assert_eq!(*b"abcdefghijkl", SmaInvLogin::pw_from_str("abcdefghijklmnop").unwrap());
    assert!(SmaInvLogin::pw_from_str("k\u{00e9}y").is_err());
    assert_eq!([0u8; 12], SmaInvLogin::pw_from_str("").unwrap());
}

#[test]
fn endpoint_constants() {
    assert_eq!(
        SmaEndpoint {
            susy_id: 0xDEAD,
            serial: 0xDEADBEEF
        },
        SmaEndpoint::dummy()
    );
    assert_eq!(
        SmaEndpoint {
            susy_id: 0xFFFF,
            serial: 0xFFFFFFFF
        },
        SmaEndpoint::broadcast()
    );
}

#[test]
fn cursor_primitives() {
    let mut cursor = Cursor::new(vec![0u8; 16]);
    cursor.write_u16(sma_proto::Endian::Big, 0x1234);
    cursor.write_u16(sma_proto::Endian::Little, 0x1234);
    cursor.write_u24(sma_proto::Endian::Big, 0x0A0B0C);
    cursor.write_u8(0x7F);
    cursor.write_u64(sma_proto::Endian::Little, 0x0102030405060708);
    assert_eq!(16, cursor.position());
    assert_eq!(0, cursor.remaining());
    assert!(cursor.check_remaining(1).is_err());
    cursor.set_position(0);
    assert_eq!(0x1234, cursor.read_u16(sma_proto::Endian::Big));
    assert_eq!(0x3412, cursor.peek_u16(sma_proto::Endian::Big, 0));
    cursor.skip(2);
    assert_eq!(0x0C0B0A, cursor.peek_u24(sma_proto::Endian::Little, 0));
    assert_eq!(0x0A0B0C, cursor.read_u24(sma_proto::Endian::Big));
    assert_eq!(0x7F, cursor.read_u8());
    assert_eq!(0x0102030405060708, cursor.read_u64(sma_proto::Endian::Little));
    assert_eq!(16, cursor.len());
    cursor.set_position(4);
    assert_eq!(vec![0x0A, 0x0B, 0x0C], cursor.read_bytes(3));
}
