use sma_proto::client::{decode_datagram, encode_message, ClientError, DayDataAssembly, SmaClient};
use sma_proto::energymeter::{ObisValue, SmaEmMessage};
use sma_proto::inverter::{SmaInvCounter, SmaInvGetDayData, SmaInvIdentify, SmaInvMeterValue};
use sma_proto::{AnySmaMessage, BoundedVec, Error, SmaContainer, SmaEndpoint};

fn fragment(fragment_id: u16, first_fragment: bool, timestamps: &[u32]) -> SmaInvGetDayData {
    SmaInvGetDayData {
        dst: SmaEndpoint::dummy(),
        src: SmaEndpoint {
            susy_id: 0x5678,
            serial: 0xABCDABCE,
        },
        error_code: 0,
        counters: SmaInvCounter {
            fragment_id,
            packet_id: 8,
            first_fragment,
        },
        start_time_idx: 0,
        end_time_idx: 0,
        records: timestamps
            .iter()
            .map(|t| SmaInvMeterValue {
                timestamp: *t,
                energy_wh: *t as u64 * 2,
            })
            .collect(),
    }
}

#[test]
fn reassembles_fragments_in_arrival_order() {
    let mut assembly = DayDataAssembly::new();
    assert!(!assembly.is_complete());
    assembly.push_fragment(fragment(2, true, &[1, 2])).unwrap();
    assert!(!assembly.is_complete());
    assembly.push_fragment(fragment(1, false, &[3])).unwrap();
    assert!(!assembly.is_complete());
    assembly.push_fragment(fragment(0, false, &[4, 5])).unwrap();
    assert!(assembly.is_complete());
    let timestamps: Vec<u32> = assembly.into_records().iter().map(|r| r.timestamp).collect();
    assert_eq!(vec![1, 2, 3, 4, 5], timestamps);
}

#[test]
fn reassembly_waits_for_first_fragment() {
    let mut assembly = DayDataAssembly::new();
    assembly.push_fragment(fragment(1, false, &[10])).unwrap();
    assembly.push_fragment(fragment(0, false, &[20])).unwrap();
    assert!(!assembly.is_complete());
    assembly.push_fragment(fragment(2, true, &[30])).unwrap();
    assert!(assembly.is_complete());
    let timestamps: Vec<u32> = assembly.into_records().iter().map(|r| r.timestamp).collect();
    assert_eq!(vec![10, 20, 30], timestamps);
}

#[test]
fn duplicate_first_fragment_is_rejected() {
    let mut assembly = DayDataAssembly::new();
    assembly.push_fragment(fragment(2, true, &[1])).unwrap();
    match assembly.push_fragment(fragment(2, true, &[2])) {
        Err(ClientError::ExtraSofPacket(c)) => {
            assert_eq!(2, c.fragment_id);
            assert!(c.first_fragment);
        }
        other => panic!("expected ExtraSofPacket, got {other:?}"),
    }
}

#[test]
fn fragment_with_error_code_fails() {
    let mut assembly = DayDataAssembly::new();
    let mut frag = fragment(0, true, &[1]);
    frag.error_code = 0x15;
    match assembly.push_fragment(frag) {
        Err(ClientError::DeviceError(code)) => assert_eq!(0x15, code),
        other => panic!("expected DeviceError, got {other:?}"),
    }
}

#[test]
fn packet_ids_count_up_and_wrap() {
    let mut client = SmaClient::new(SmaEndpoint::dummy());
    assert_eq!(0, client.packet_id());
    let c = client.next_packet();
    assert_eq!(1, c.packet_id);
    assert_eq!(0, c.fragment_id);
    assert!(c.first_fragment);
    for _ in 1..0x7FFF {
        client.next_packet();
    }
    assert_eq!(0x7FFF, client.packet_id());
    assert_eq!(0, client.next_packet().packet_id);
    assert_eq!(1, client.next_packet().packet_id);
}

#[test]
fn identify_request_encodes_broadcast() {
    let mut client = SmaClient::new(SmaEndpoint::dummy());
    let req = client.identify_request();
    assert_eq!(SmaEndpoint::broadcast(), req.dst);
    assert_eq!(1, req.counters.packet_id);
    let bytes = encode_message(&AnySmaMessage::InvIdentify(req)).unwrap();
    assert_eq!(SmaInvIdentify::LENGTH_MIN, bytes.len());
    assert_eq!(&[0xFF, 0xFF, 0xFF, 0xFF, 0xFF, 0xFF], &bytes[20..26]);
    assert_eq!(&[0x00, 0x00, 0x01, 0x80], &bytes[38..42]);
}

#[test]
fn identify_response_is_matched_by_packet_id() {
    let mut client = SmaClient::new(SmaEndpoint::dummy());
    let mut resp = client.identify_request();
    resp.src = SmaEndpoint {
        susy_id: 0x5678,
        serial: 0xABCDABCE,
    };
    let matched = client.identify_response(AnySmaMessage::InvIdentify(resp.clone()));
    let matched = matched.expect("response with the request's packet id");
    assert_eq!(resp.src, SmaClient::identify_result(&matched).unwrap());

    resp.counters.packet_id = 7;
    assert!(client.identify_response(AnySmaMessage::InvIdentify(resp.clone())).is_none());

    resp.counters.packet_id = 1;
    resp.error_code = 3;
    match SmaClient::identify_result(&resp) {
        Err(ClientError::DeviceError(3)) => {}
        other => panic!("expected DeviceError, got {other:?}"),
    }
}

#[test]
fn login_request_obfuscates_password() {
    let mut client = SmaClient::new(SmaEndpoint::dummy());
    let dst = SmaEndpoint {
        susy_id: 0x5678,
        serial: 0xABCDABCE,
    };
    let req = client.login_request(&dst, "0000", 1700000000).unwrap();
    assert_eq!(7, req.user_group);
    assert_eq!(900, req.timeout);
    assert_eq!(1700000000, req.timestamp);
    let bytes = encode_message(&AnySmaMessage::InvLogin(req)).unwrap();
    assert_eq!(78, bytes.len());
    assert_eq!(&[0xB8, 0xB8, 0xB8, 0xB8, 0x88, 0x88], &bytes[62..68]);
}

#[test]
fn login_request_rejects_non_ascii_password() {
    let mut client = SmaClient::new(SmaEndpoint::dummy());
    match client.login_request(&SmaEndpoint::dummy(), "pässword", 0) {
        Err(ClientError::InvalidPasswordError(_)) => {}
        other => panic!("expected InvalidPasswordError, got {other:?}"),
    }
    assert_eq!(1, client.packet_id());
}

#[test]
fn em_message_filter_checks_source() {
    let client = SmaClient::new(SmaEndpoint::dummy());
    let payload = vec![ObisValue {
        id: 0x010400,
        value: 42,
    }];
    let msg = client.em_message(0x1234, payload.clone());
    assert_eq!(SmaEndpoint::dummy(), msg.src);
    let got = SmaClient::em_message_from(AnySmaMessage::EmMessage(msg.clone()), &SmaEndpoint::dummy());
    assert_eq!(Some((0x1234, payload)), got);
    let other = SmaEndpoint::broadcast();
    assert_eq!(None, SmaClient::em_message_from(AnySmaMessage::EmMessage(msg), &other));
}

#[test]
fn datagram_filter_follows_mode() {
    let msg = SmaEmMessage {
        src: SmaEndpoint::dummy(),
        timestamp_ms: 5,
        payload: Vec::new(),
    };
    let bytes = encode_message(&AnySmaMessage::EmMessage(msg.clone())).unwrap();
    assert!(matches!(decode_datagram(false, false, bytes.clone()), Ok(None)));
    match decode_datagram(false, true, bytes.clone()) {
        Ok(Some(AnySmaMessage::EmMessage(m))) => assert_eq!(msg, m),
        other => panic!("expected the message, got {other:?}"),
    }
    let mut foreign = bytes.clone();
    foreign[17] = 0x68;
    assert!(matches!(decode_datagram(true, false, foreign.clone()), Ok(None)));
    match decode_datagram(false, true, foreign) {
        Err(ClientError::ProtocolError(Error::UnsupportedProtocol { protocol })) => {
            assert_eq!(0x6068, protocol)
        }
        other => panic!("expected UnsupportedProtocol, got {other:?}"),
    }
}

#[test]
fn bounded_container_refuses_when_full() {
    let mut v: BoundedVec<u32> = BoundedVec::new(2);
    assert!(v.is_empty());
    assert_eq!(Ok(()), v.push(1));
    assert_eq!(Ok(()), v.push(2));
    assert_eq!(Err(3), v.push(3));
    assert_eq!(2, v.len());
    assert_eq!(vec![1, 2], v.into_vec());
}

#[test]
fn decoding_82_records_is_too_large() {
    let mut msg = fragment(0, true, &[]);
    msg.records = vec![SmaInvMeterValue::default(); 81];
    let mut bytes = encode_message(&AnySmaMessage::InvGetDayData(msg)).unwrap();
    let n = bytes.len();
    bytes.truncate(n - 4);
    bytes.extend([0u8; 12]);
    bytes.extend([0u8; 4]);
    let data_len = u16::from_be_bytes([bytes[12], bytes[13]]) + 12;
    bytes[12..14].copy_from_slice(&data_len.to_be_bytes());
    bytes[18] += 3;
    match decode_datagram(false, true, bytes) {
        Err(ClientError::ProtocolError(Error::PayloadTooLarge { len: 82 })) => {}
        other => panic!("expected PayloadTooLarge, got {other:?}"),
    }
}
