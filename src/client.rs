//! Decisions of the SMA speedwire client: request construction, response
//! matching, fragment reassembly and datagram filtering. The host program
//! owns the socket and the clock, and hands their results to these functions.

use vstd::prelude::*;

use crate::any::{parse_any, AnySmaMessage};
use crate::cursor::{zeros, Cursor};
use crate::energymeter::{ObisValue, SmaEmMessage};
use crate::error::Error;
use crate::inverter::{
    password_bytes, GetDayDataView, IdentifyView, InvalidPasswordError, SmaInvCounter,
    SmaInvGetDayData, SmaInvIdentify, SmaInvLogin, SmaInvLogout, SmaInvMeterValue,
};
use crate::packet::SmaEndpoint;

verus! {

/// Declares std::io::ErrorKind, which `ClientError::IoError` carries as an
/// opaque value; nothing is assumed of it.
#[verifier::external_type_specification]
#[verifier::external_body]
pub struct ExIoErrorKind(std::io::ErrorKind);

/// Declares std::time::SystemTimeError, which `ClientError::TimeError`
/// carries as an opaque value; nothing is assumed of it.
#[verifier::external_type_specification]
#[verifier::external_body]
pub struct ExSystemTimeError(std::time::SystemTimeError);

/// Errors returned from SMA speedwire client.
#[derive(Debug)]
pub enum ClientError {
    /// A SMA speedwire protocol error.
    ProtocolError(Error),
    /// An operating system IO error.
    IoError(std::io::ErrorKind),
    /// An operating system clock error.
    TimeError(std::time::SystemTimeError),
    /// The SMA device returned an error.
    DeviceError(u16),
    /// An additional start of fragment packet was received.
    ExtraSofPacket(SmaInvCounter),
    /// Login was rejected by the device.
    LoginFailed,
    /// Invalid input password error.
    InvalidPasswordError(InvalidPasswordError),
}

impl From<Error> for ClientError {
    fn from(e: Error) -> (r: ClientError)
        ensures
            r == ClientError::ProtocolError(e),
    {
        ClientError::ProtocolError(e)
    }
}

impl vstd::std_specs::convert::FromSpecImpl<Error> for ClientError {
    open spec fn obeys_from_spec() -> bool {
        true
    }

    open spec fn from_spec(e: Error) -> ClientError {
        ClientError::ProtocolError(e)
    }
}

impl From<InvalidPasswordError> for ClientError {
    fn from(e: InvalidPasswordError) -> (r: ClientError)
        ensures
            r == ClientError::InvalidPasswordError(e),
    {
        ClientError::InvalidPasswordError(e)
    }
}

impl vstd::std_specs::convert::FromSpecImpl<InvalidPasswordError> for ClientError {
    open spec fn obeys_from_spec() -> bool {
        true
    }

    open spec fn from_spec(e: InvalidPasswordError) -> ClientError {
        ClientError::InvalidPasswordError(e)
    }
}

/// The packet id that follows `id`: one more, and 0 where that would set
/// the first fragment bit.
pub open spec fn next_packet_id(id: u16) -> u16 {
    if (id as int + 1) % 0x10000 >= 0x8000 {
        0
    } else {
        ((id as int + 1) % 0x10000) as u16
    }
}

/// The counters of a new request with packet id `id`.
pub open spec fn request_counters(id: u16) -> SmaInvCounter {
    SmaInvCounter { fragment_id: 0, packet_id: id, first_fragment: true }
}

/// Size of the buffer a message is encoded into: the largest observed
/// packet before fragmentation.
pub const BUFFER_SIZE: usize = 1030;

/// Encodes a message into the bytes of one datagram.
#[verifier::rlimit(60)]
pub fn encode_message(msg: &AnySmaMessage) -> (r: Result<Vec<u8>, Error>)
    ensures
        match msg@.serialize_error(zeros(BUFFER_SIZE as nat), 0) {
            Some(e) => r == Err::<Vec<u8>, Error>(e),
            None => r is Ok && r->Ok_0@ == msg@.spec_bytes(),
        },
{
    let buffer: Vec<u8> = vec![0u8; BUFFER_SIZE];
    assert(buffer@ =~= zeros(BUFFER_SIZE as nat));
    let mut cursor = Cursor::new(buffer);
    msg.serialize(&mut cursor)?;
    let len = cursor.position();
    let mut out = cursor.into_inner();
    out.truncate(len);
    proof {
        assert(msg@.wf());
        crate::any::lemma_spec_bytes_len(msg@);
    }
    assert(out@ =~= msg@.spec_bytes());
    Ok(out)
}

/// Decides what to do with a received datagram: `Ok(None)` to skip it,
/// `Ok(Some(m))` to hand the message on, `Err` to surface a decode error.
/// In unicast mode only datagrams from the remote device count; in
/// multicast mode messages of other SMA protocols are skipped.
#[verifier::rlimit(60)]
pub fn decode_datagram(multicast: bool, from_remote: bool, datagram: Vec<u8>) -> (r: Result<
    Option<AnySmaMessage>,
    ClientError,
>)
    ensures
        !multicast && !from_remote ==> r matches Ok(None),
        multicast || from_remote ==> match parse_any(datagram@, 0) {
            Ok(v) => r matches Ok(Some(m)) && m@ == v,
            Err(Error::UnsupportedProtocol { protocol }) => if multicast {
                r matches Ok(None)
            } else {
                r matches Err(ClientError::ProtocolError(e)) && e == (Error::UnsupportedProtocol {
                    protocol,
                })
            },
            Err(e) => r matches Err(ClientError::ProtocolError(x)) && x == e,
        },
{
    if !multicast && !from_remote {
        return Ok(None);
    }
    let mut cursor = Cursor::new(datagram);
    match AnySmaMessage::deserialize(&mut cursor) {
        Ok(m) => Ok(Some(m)),
        Err(Error::UnsupportedProtocol { protocol }) => {
            if multicast {
                Ok(None)
            } else {
                Err(ClientError::ProtocolError(Error::UnsupportedProtocol { protocol }))
            }
        },
        Err(e) => Err(ClientError::ProtocolError(e)),
    }
}

/// SMA client instance for communication with devices.
/// This object holds the network independent communication state.
#[derive(Clone, Debug, PartialEq, Eq, Structural)]
pub struct SmaClient {
    /// Client SMA endpoint ID.
    endpoint: SmaEndpoint,
    /// Current packet number.
    packet_id: u16,
}

impl SmaClient {
    /// The client's own endpoint.
    pub closed spec fn spec_endpoint(&self) -> SmaEndpoint {
        self.endpoint
    }

    /// The packet id of the last request.
    pub closed spec fn spec_packet_id(&self) -> u16 {
        self.packet_id
    }

    /// Creates a new SmaClient with the given SmaEndpoint as source ID.
    pub fn new(endpoint: SmaEndpoint) -> (r: SmaClient)
        ensures
            r.spec_endpoint() == endpoint,
            r.spec_packet_id() == 0,
    {
        SmaClient { endpoint, packet_id: 0 }
    }

    /// Returns the client's own endpoint.
    pub fn endpoint(&self) -> (r: SmaEndpoint)
        ensures
            r == self.spec_endpoint(),
    {
        self.endpoint
    }

    /// Returns the packet id of the last request.
    pub fn packet_id(&self) -> (r: u16)
        ensures
            r == self.spec_packet_id(),
    {
        self.packet_id
    }

    /// Advances the packet id and returns the counters for a new request.
    pub fn next_packet(&mut self) -> (r: SmaInvCounter)
        ensures
            final(self).spec_endpoint() == old(self).spec_endpoint(),
            final(self).spec_packet_id() == next_packet_id(old(self).spec_packet_id()),
            r == request_counters(final(self).spec_packet_id()),
    {
        let next = self.packet_id.wrapping_add(1);
        assert((next & 0x8000u16 != 0) == (next >= 0x8000u16)) by (bit_vector);
        self.packet_id = if (next & SmaInvCounter::FIRST_FRAGMENT_BIT) != 0 {
            0
        } else {
            next
        };
        SmaInvCounter { packet_id: self.packet_id, fragment_id: 0, first_fragment: true }
    }

    /// Builds an identify request to the broadcast endpoint.
    pub fn identify_request(&mut self) -> (r: SmaInvIdentify)
        ensures
            final(self).spec_endpoint() == old(self).spec_endpoint(),
            final(self).spec_packet_id() == next_packet_id(old(self).spec_packet_id()),
            r@ == (IdentifyView {
                dst: SmaEndpoint { susy_id: 0xFFFF, serial: 0xFFFFFFFF },
                src: old(self).spec_endpoint(),
                error_code: 0,
                counters: request_counters(final(self).spec_packet_id()),
                identity: None,
            }),
    {
        let counters = self.next_packet();
        SmaInvIdentify {
            dst: SmaEndpoint::broadcast(),
            src: self.endpoint,
            error_code: 0,
            counters,
            identity: None,
        }
    }

    /// Picks the identify response to the last request out of a message.
    pub fn identify_response(&self, msg: AnySmaMessage) -> (r: Option<SmaInvIdentify>)
        ensures
            match msg {
                AnySmaMessage::InvIdentify(resp) => if resp.counters.packet_id
                    == self.spec_packet_id() {
                    r == Some(resp)
                } else {
                    r is None
                },
                _ => r is None,
            },
    {
        match msg {
            AnySmaMessage::InvIdentify(resp) => {
                if resp.counters.packet_id == self.packet_id {
                    Some(resp)
                } else {
                    None
                }
            },
            _ => None,
        }
    }

    /// The endpoint that an identify response names, or the device's error.
    pub fn identify_result(resp: &SmaInvIdentify) -> (r: Result<SmaEndpoint, ClientError>)
        ensures
            resp.error_code != 0 ==> r == Err::<SmaEndpoint, ClientError>(
                ClientError::DeviceError(resp.error_code),
            ),
            resp.error_code == 0 ==> r == Ok::<SmaEndpoint, ClientError>(resp.src),
    {
        if resp.error_code != 0 {
            return Err(ClientError::DeviceError(resp.error_code));
        }
        Ok(resp.src)
    }

    /// Builds a login request to `endpoint`, stamped with `now` in Unix
    /// seconds. The packet id advances even where the password is refused.
    pub fn login_request(&mut self, endpoint: &SmaEndpoint, passwd: &str, now: u64) -> (r: Result<
        SmaInvLogin,
        ClientError,
    >)
        ensures
            final(self).spec_endpoint() == old(self).spec_endpoint(),
            final(self).spec_packet_id() == next_packet_id(old(self).spec_packet_id()),
            r is Ok <==> vstd::string::is_ascii(passwd),
            r is Err ==> r matches Err(ClientError::InvalidPasswordError(_)),
            r is Ok ==> r->Ok_0.dst == *endpoint && r->Ok_0.src == old(self).spec_endpoint()
                && r->Ok_0.error_code == 0 && r->Ok_0.counters == request_counters(
                final(self).spec_packet_id(),
            ) && r->Ok_0.user_group == 7 && r->Ok_0.timeout == 900 && r->Ok_0.timestamp == (now
                % 0x1_0000_0000) as u32 && r->Ok_0@.password == Some(password_bytes(passwd@)),
    {
        let counters = self.next_packet();
        let password = match SmaInvLogin::pw_from_str(passwd) {
            Ok(p) => p,
            Err(e) => return Err(ClientError::InvalidPasswordError(e)),
        };
        Ok(
            SmaInvLogin {
                dst: *endpoint,
                src: self.endpoint,
                error_code: 0,
                counters,
                user_group: 7,
                timeout: 900,
                timestamp: (now % 0x1_0000_0000) as u32,
                password: Some(password),
            },
        )
    }

    /// Picks the login response to the last request out of a message.
    pub fn login_response(&self, msg: AnySmaMessage) -> (r: Option<SmaInvLogin>)
        ensures
            match msg {
                AnySmaMessage::InvLogin(resp) => if resp.counters.packet_id
                    == self.spec_packet_id() {
                    r == Some(resp)
                } else {
                    r is None
                },
                _ => r is None,
            },
    {
        match msg {
            AnySmaMessage::InvLogin(resp) => {
                if resp.counters.packet_id == self.packet_id {
                    Some(resp)
                } else {
                    None
                }
            },
            _ => None,
        }
    }

    /// Success, or `LoginFailed` where the device reports an error.
    pub fn login_result(resp: &SmaInvLogin) -> (r: Result<(), ClientError>)
        ensures
            resp.error_code != 0 ==> r matches Err(ClientError::LoginFailed),
            resp.error_code == 0 ==> r is Ok,
    {
        if resp.error_code != 0 {
            Err(ClientError::LoginFailed)
        } else {
            Ok(())
        }
    }

    /// Builds a logout request to `endpoint`.
    pub fn logout_request(&mut self, endpoint: &SmaEndpoint) -> (r: SmaInvLogout)
        ensures
            final(self).spec_endpoint() == old(self).spec_endpoint(),
            final(self).spec_packet_id() == next_packet_id(old(self).spec_packet_id()),
            r == (SmaInvLogout {
                dst: *endpoint,
                src: old(self).spec_endpoint(),
                error_code: 0,
                counters: request_counters(final(self).spec_packet_id()),
            }),
    {
        let counters = self.next_packet();
        SmaInvLogout { dst: *endpoint, src: self.endpoint, error_code: 0, counters }
    }

    /// Builds a request for the stored meter records of `endpoint` between
    /// two Unix timestamps.
    pub fn get_day_data_request(
        &mut self,
        endpoint: &SmaEndpoint,
        start_time: u32,
        end_time: u32,
    ) -> (r: SmaInvGetDayData)
        ensures
            final(self).spec_endpoint() == old(self).spec_endpoint(),
            final(self).spec_packet_id() == next_packet_id(old(self).spec_packet_id()),
            r@ == (GetDayDataView {
                dst: *endpoint,
                src: old(self).spec_endpoint(),
                error_code: 0,
                counters: request_counters(final(self).spec_packet_id()),
                start_time_idx: start_time,
                end_time_idx: end_time,
                records: Seq::empty(),
            }),
    {
        let counters = self.next_packet();
        SmaInvGetDayData {
            dst: *endpoint,
            src: self.endpoint,
            error_code: 0,
            counters,
            start_time_idx: start_time,
            end_time_idx: end_time,
            records: Vec::new(),
        }
    }

    /// Picks a GetDayData response fragment to the last request out of a message.
    pub fn get_day_data_response(&self, msg: AnySmaMessage) -> (r: Option<SmaInvGetDayData>)
        ensures
            match msg {
                AnySmaMessage::InvGetDayData(resp) => if resp.counters.packet_id
                    == self.spec_packet_id() {
                    r == Some(resp)
                } else {
                    r is None
                },
                _ => r is None,
            },
    {
        match msg {
            AnySmaMessage::InvGetDayData(resp) => {
                if resp.counters.packet_id == self.packet_id {
                    Some(resp)
                } else {
                    None
                }
            },
            _ => None,
        }
    }

    /// Builds an energymeter message from this client's endpoint.
    pub fn em_message(&self, timestamp_ms: u32, payload: Vec<ObisValue>) -> (r: SmaEmMessage)
        ensures
            r.src == self.spec_endpoint(),
            r.timestamp_ms == timestamp_ms,
            r.payload@ == payload@,
    {
        SmaEmMessage { src: self.endpoint, timestamp_ms, payload }
    }

    /// Picks the timestamp and payload of an energymeter message from `src`.
    pub fn em_message_from(msg: AnySmaMessage, src: &SmaEndpoint) -> (r: Option<(u32, Vec<ObisValue>)>)
        ensures
            match msg {
                AnySmaMessage::EmMessage(m) => if m.src == *src {
                    r matches Some((t, p)) && t == m.timestamp_ms && p@ == m.payload@
                } else {
                    r is None
                },
                _ => r is None,
            },
    {
        match msg {
            AnySmaMessage::EmMessage(m) => {
                if m.src == *src {
                    Some((m.timestamp_ms, m.payload))
                } else {
                    None
                }
            },
            _ => None,
        }
    }
}

/// Reassembly of the fragments of a GetDayData response. The fragment that
/// carries the first fragment flag tells the fragment count by its fragment
/// id; records are kept in arrival order.
pub struct DayDataAssembly {
    records: Vec<SmaInvMeterValue>,
    total_fragments: u32,
    rx_fragments: u64,
    rx_first: bool,
}

impl DayDataAssembly {
    /// The records received so far, in arrival order.
    pub closed spec fn spec_records(&self) -> Seq<SmaInvMeterValue> {
        self.records@
    }

    /// The number of fragments, known once the first fragment arrived.
    pub closed spec fn spec_total(&self) -> u32 {
        self.total_fragments
    }

    /// The number of fragments received so far.
    pub closed spec fn spec_received(&self) -> u64 {
        self.rx_fragments
    }

    /// Whether the fragment with the first fragment flag arrived.
    pub closed spec fn spec_first_seen(&self) -> bool {
        self.rx_first
    }

    /// An assembly that has received nothing.
    pub fn new() -> (r: DayDataAssembly)
        ensures
            r.spec_records() == Seq::<SmaInvMeterValue>::empty(),
            r.spec_total() == 0,
            r.spec_received() == 0,
            !r.spec_first_seen(),
    {
        DayDataAssembly { records: Vec::new(), total_fragments: 0, rx_fragments: 0, rx_first: false }
    }

    /// All fragments arrived: the first fragment was seen and as many
    /// fragments came as it announced.
    pub fn is_complete(&self) -> (r: bool)
        ensures
            r == (self.spec_first_seen() && self.spec_received() == self.spec_total() as u64),
    {
        self.rx_first && self.rx_fragments == self.total_fragments as u64
    }

    /// Returns the number of fragments received so far.
    pub fn received(&self) -> (r: u64)
        ensures
            r == self.spec_received(),
    {
        self.rx_fragments
    }

    /// Takes in one response fragment. A second fragment that claims to be
    /// the first one fails with `ExtraSofPacket`, a fragment with an error
    /// code with `DeviceError`.
    pub fn push_fragment(&mut self, resp: SmaInvGetDayData) -> (r: Result<(), ClientError>)
        requires
            old(self).spec_received() < u64::MAX,
        ensures
            resp.counters.first_fragment && old(self).spec_first_seen() ==> r == Err::<
                (),
                ClientError,
            >(ClientError::ExtraSofPacket(resp.counters)),
            !(resp.counters.first_fragment && old(self).spec_first_seen()) && resp.error_code != 0
                ==> r == Err::<(), ClientError>(ClientError::DeviceError(resp.error_code)),
            !(resp.counters.first_fragment && old(self).spec_first_seen()) && resp.error_code == 0
                ==> r is Ok,
            r is Ok ==> final(self).spec_records() == old(self).spec_records() + resp.records@
                && final(self).spec_received() == old(self).spec_received() + 1
                && final(self).spec_first_seen() == (old(self).spec_first_seen()
                || resp.counters.first_fragment) && final(self).spec_total() == if resp.counters.first_fragment {
                (resp.counters.fragment_id + 1) as u32
            } else {
                old(self).spec_total()
            },
    {
        self.rx_fragments = self.rx_fragments + 1;
        if resp.counters.first_fragment {
            if !self.rx_first {
                self.total_fragments = resp.counters.fragment_id as u32 + 1;
                self.rx_first = true;
            } else {
                return Err(ClientError::ExtraSofPacket(resp.counters));
            }
        }
        if resp.error_code != 0 {
            return Err(ClientError::DeviceError(resp.error_code));
        }
        let mut records = resp.records;
        self.records.append(&mut records);
        Ok(())
    }

    /// The records received, in arrival order.
    pub fn into_records(self) -> (r: Vec<SmaInvMeterValue>)
        ensures
            r@ == self.spec_records(),
    {
        self.records
    }
}

} // verus!
