use vstd::prelude::*;

use crate::cursor::{splice, too_small, u16_at, u24_at, u32_at, zeros, Cursor, Endian};
use crate::energymeter::{
    first_unsupported, lemma_em_round_trip, parse_em_message, EmMessageView, SmaEmMessageBase,
};
use crate::error::{Error, Result};
use crate::inverter::{
    lemma_frame_facts, lemma_get_day_data_round_trip, lemma_identify_round_trip,
    lemma_login_round_trip, lemma_logout_round_trip, parse_get_day_data, parse_identify, parse_login, parse_logout, GetDayDataView, IdentifyView,
    LoginView, SmaInvGetDayData, SmaInvHeader, SmaInvIdentify, SmaInvLogin, SmaInvLogout,
};
use crate::packet::{
    after_footer, lemma_footer_tail, parse_footer, SmaPacketFooter, SmaPacketHeader,
};

verus! {

/// The contents of any supported message.
pub enum AnyMessageView {
    EmMessage(EmMessageView),
    InvGetDayData(GetDayDataView),
    InvIdentify(IdentifyView),
    InvLogin(LoginView),
    InvLogout(SmaInvLogout),
}

impl AnyMessageView {
    /// The identity and password blobs have their fixed lengths, as those
    /// of every message value have.
    pub open spec fn wf(&self) -> bool {
        match self {
            AnyMessageView::InvIdentify(m) => m.wf(),
            AnyMessageView::InvLogin(m) => m.wf(),
            _ => true,
        }
    }

    /// A message that decodes back to itself: payloads within their
    /// bounds, valid OBIS values, and a packet id below 0x8000.
    pub open spec fn valid(&self) -> bool {
        match self {
            AnyMessageView::EmMessage(m) => m.valid(),
            AnyMessageView::InvGetDayData(m) => m.records.len()
                <= SmaInvGetDayData::MAX_RECORD_COUNT && m.counters.packet_id < 0x8000,
            AnyMessageView::InvIdentify(m) => m.wf() && m.counters.packet_id < 0x8000,
            AnyMessageView::InvLogin(m) => m.wf() && m.counters.packet_id < 0x8000,
            AnyMessageView::InvLogout(m) => m.counters.packet_id < 0x8000,
        }
    }

    /// Total serialized length.
    pub open spec fn spec_len(&self) -> nat {
        match self {
            AnyMessageView::EmMessage(m) => m.spec_len(),
            AnyMessageView::InvGetDayData(m) => m.spec_len(),
            AnyMessageView::InvIdentify(m) => m.spec_len(),
            AnyMessageView::InvLogin(m) => m.spec_len(),
            AnyMessageView::InvLogout(_) => SmaInvLogout::LENGTH as nat,
        }
    }

    /// The serialized bytes.
    pub open spec fn spec_bytes(&self) -> Seq<u8> {
        match self {
            AnyMessageView::EmMessage(m) => m.spec_bytes(),
            AnyMessageView::InvGetDayData(m) => m.spec_bytes(),
            AnyMessageView::InvIdentify(m) => m.spec_bytes(),
            AnyMessageView::InvLogin(m) => m.spec_bytes(),
            AnyMessageView::InvLogout(m) => m.spec_bytes(),
        }
    }

    /// The error that serializing the message at index `p` of `d` gives,
    /// if any: an oversized payload, then too little room, then an
    /// unsupported OBIS id.
    pub open spec fn serialize_error(&self, d: Seq<u8>, p: int) -> Option<Error> {
        match self {
            AnyMessageView::EmMessage(m) => if m.payload.len()
                > SmaEmMessageBase::MAX_RECORD_COUNT {
                Some(Error::PayloadTooLarge { len: m.payload.len() as usize })
            } else if p + m.spec_len() > d.len() {
                Some(too_small(d, p, m.spec_len() as int))
            } else {
                match first_unsupported(m.payload, m.payload.len() as int) {
                    Some(id) => Some(Error::UnsupportedObisId { id }),
                    None => None,
                }
            },
            AnyMessageView::InvGetDayData(m) => if m.records.len()
                > SmaInvGetDayData::MAX_RECORD_COUNT {
                Some(Error::PayloadTooLarge { len: m.records.len() as usize })
            } else if p + m.spec_len() > d.len() {
                Some(too_small(d, p, m.spec_len() as int))
            } else {
                None
            },
            _ => if p + self.spec_len() > d.len() {
                Some(too_small(d, p, self.spec_len() as int))
            } else {
                None
            },
        }
    }
}

/// The serialized bytes of a message are as many as its serialized length says.
pub proof fn lemma_spec_bytes_len(m: AnyMessageView)
    requires
        m.wf(),
    ensures
        m.spec_bytes().len() == m.spec_len(),
{
    match m {
        AnyMessageView::EmMessage(v) => crate::energymeter::lemma_obis_list_bytes_len(v.payload),
        AnyMessageView::InvGetDayData(v) => crate::inverter::lemma_records_bytes_len(v.records),
        _ => {},
    }
}

/// What `AnySmaMessageBase::deserialize` yields on the bytes of `d` from
/// index `p`: the FOURCC, the protocol and, for the inverter protocol, the
/// opcode pick the message type.
pub open spec fn parse_any(d: Seq<u8>, p: int) -> Result<AnyMessageView> {
    if p + SmaPacketHeader::LENGTH > d.len() {
        Err(too_small(d, p, SmaPacketHeader::LENGTH as int))
    } else if u32_at(Endian::Big, d, p) != SmaPacketHeader::SMA_FOURCC {
        Err(Error::InvalidFourCC { fourcc: u32_at(Endian::Big, d, p) })
    } else {
        let protocol = u16_at(Endian::Big, d, p + 16);
        if protocol == SmaPacketHeader::SMA_PROTOCOL_EM {
            match parse_em_message(d, p) {
                Ok(m) => Ok(AnyMessageView::EmMessage(m)),
                Err(e) => Err(e),
            }
        } else if protocol == SmaPacketHeader::SMA_PROTOCOL_INV {
            if p + SmaPacketHeader::LENGTH + SmaInvHeader::LENGTH > d.len() {
                Err(too_small(d, p, (SmaPacketHeader::LENGTH + SmaInvHeader::LENGTH) as int))
            } else {
                let opcode = u24_at(Endian::Big, d, p + 43);
                if opcode == SmaInvGetDayData::OPCODE {
                    match parse_get_day_data(d, p) {
                        Ok(m) => Ok(AnyMessageView::InvGetDayData(m)),
                        Err(e) => Err(e),
                    }
                } else if opcode == SmaInvIdentify::OPCODE {
                    match parse_identify(d, p) {
                        Ok(m) => Ok(AnyMessageView::InvIdentify(m)),
                        Err(e) => Err(e),
                    }
                } else if opcode == SmaInvLogin::OPCODE {
                    match parse_login(d, p) {
                        Ok(m) => Ok(AnyMessageView::InvLogin(m)),
                        Err(e) => Err(e),
                    }
                } else if opcode == SmaInvLogout::OPCODE {
                    match parse_logout(d, p) {
                        Ok(m) => Ok(AnyMessageView::InvLogout(m)),
                        Err(e) => Err(e),
                    }
                } else {
                    Err(Error::UnsupportedOpcode { opcode })
                }
            }
        } else {
            Err(Error::UnsupportedProtocol { protocol })
        }
    }
}

/// Container that can hold any supported SMA speedwire message.
#[allow(clippy::large_enum_variant)]
#[derive(Clone, Debug, PartialEq, Eq)]
pub enum AnySmaMessageBase {
    EmMessage(SmaEmMessageBase),
    InvGetDayData(SmaInvGetDayData),
    InvIdentify(SmaInvIdentify),
    InvLogin(SmaInvLogin),
    InvLogout(SmaInvLogout),
}

/// Any supported message, with heap storage for payloads.
pub type AnySmaMessage = AnySmaMessageBase;

impl View for AnySmaMessageBase {
    type V = AnyMessageView;

    open spec fn view(&self) -> AnyMessageView {
        match self {
            AnySmaMessageBase::EmMessage(m) => AnyMessageView::EmMessage(m@),
            AnySmaMessageBase::InvGetDayData(m) => AnyMessageView::InvGetDayData(m@),
            AnySmaMessageBase::InvIdentify(m) => AnyMessageView::InvIdentify(m@),
            AnySmaMessageBase::InvLogin(m) => AnyMessageView::InvLogin(m@),
            AnySmaMessageBase::InvLogout(m) => AnyMessageView::InvLogout(*m),
        }
    }
}

impl AnySmaMessageBase {
    /// Writes the message at the cursor position.
    #[verifier::rlimit(60)]
    pub fn serialize(&self, buffer: &mut Cursor) -> (r: Result<()>)
        requires
            old(buffer).wf(),
        ensures
            match self@.serialize_error(old(buffer).data(), old(buffer).pos()) {
                Some(e) => r == Err::<(), Error>(e) && *final(buffer) == *old(buffer),
                None => r is Ok && final(buffer).data() == splice(
                    old(buffer).data(),
                    old(buffer).pos(),
                    self@.spec_bytes(),
                ) && final(buffer).pos() == old(buffer).pos() + self@.spec_len(),
            },
    {
        match self {
            AnySmaMessageBase::EmMessage(x) => x.serialize(buffer),
            AnySmaMessageBase::InvGetDayData(x) => x.serialize(buffer),
            AnySmaMessageBase::InvIdentify(x) => x.serialize(buffer),
            AnySmaMessageBase::InvLogin(x) => x.serialize(buffer),
            AnySmaMessageBase::InvLogout(x) => x.serialize(buffer),
        }
    }

    /// Reads any supported message that spans all remaining bytes of the cursor.
    #[verifier::rlimit(60)]
    pub fn deserialize(buffer: &mut Cursor) -> (r: Result<AnySmaMessageBase>)
        requires
            old(buffer).wf(),
        ensures
            match r {
                Ok(m) => parse_any(old(buffer).data(), old(buffer).pos()) == Ok::<
                    AnyMessageView,
                    Error,
                >(m@),
                Err(e) => parse_any(old(buffer).data(), old(buffer).pos()) == Err::<
                    AnyMessageView,
                    Error,
                >(e),
            },
            final(buffer).data() == old(buffer).data(),
            final(buffer).wf(),
            r is Ok ==> final(buffer).pos() == final(buffer).data().len(),
    {
        buffer.check_remaining(SmaPacketHeader::LENGTH)?;

        let fourcc = buffer.peek_u32(Endian::Big, 0);
        if fourcc != SmaPacketHeader::SMA_FOURCC {
            return Err(Error::InvalidFourCC { fourcc });
        }

        let protocol = buffer.peek_u16(Endian::Big, 16);
        if protocol == SmaPacketHeader::SMA_PROTOCOL_EM {
            Ok(AnySmaMessageBase::EmMessage(SmaEmMessageBase::deserialize(buffer)?))
        } else if protocol == SmaPacketHeader::SMA_PROTOCOL_INV {
            buffer.check_remaining(SmaPacketHeader::LENGTH + SmaInvHeader::LENGTH)?;
            let opcode = buffer.peek_u24(Endian::Big, 43);
            if opcode == SmaInvGetDayData::OPCODE {
                Ok(AnySmaMessageBase::InvGetDayData(SmaInvGetDayData::deserialize(buffer)?))
            } else if opcode == SmaInvIdentify::OPCODE {
                Ok(AnySmaMessageBase::InvIdentify(SmaInvIdentify::deserialize(buffer)?))
            } else if opcode == SmaInvLogin::OPCODE {
                Ok(AnySmaMessageBase::InvLogin(SmaInvLogin::deserialize(buffer)?))
            } else if opcode == SmaInvLogout::OPCODE {
                Ok(AnySmaMessageBase::InvLogout(SmaInvLogout::deserialize(buffer)?))
            } else {
                Err(Error::UnsupportedOpcode { opcode })
            }
        } else {
            Err(Error::UnsupportedProtocol { protocol })
        }
    }
}

/// A valid em message decodes through the message type dispatch.
proof fn lemma_any_decode_em(v: EmMessageView, tail: Seq<u8>)
    requires
        AnyMessageView::EmMessage(v).valid(),
    ensures
        ({
            let m = AnyMessageView::EmMessage(v);
            &&& parse_any(m.spec_bytes() + tail, 0) == after_footer(
                parse_footer(m.spec_bytes() + tail, m.spec_len() - 4),
                m,
            )
            &&& m.spec_len() >= 4
            &&& (m.spec_bytes() + tail).subrange(
                m.spec_len() - 4,
                (m.spec_bytes() + tail).len() as int,
            ) == SmaPacketFooter::spec_bytes() + tail
        }),
{
    lemma_em_round_trip(v, tail);
}

/// A valid get day data message decodes through the message type dispatch.
proof fn lemma_any_decode_get_day_data(v: GetDayDataView, tail: Seq<u8>)
    requires
        AnyMessageView::InvGetDayData(v).valid(),
    ensures
        ({
            let m = AnyMessageView::InvGetDayData(v);
            &&& parse_any(m.spec_bytes() + tail, 0) == after_footer(
                parse_footer(m.spec_bytes() + tail, m.spec_len() - 4),
                m,
            )
            &&& m.spec_len() >= 4
            &&& (m.spec_bytes() + tail).subrange(
                m.spec_len() - 4,
                (m.spec_bytes() + tail).len() as int,
            ) == SmaPacketFooter::spec_bytes() + tail
        }),
{
    lemma_get_day_data_round_trip(v, tail);
    lemma_frame_facts(v.spec_bytes() + tail, 0, SmaInvGetDayData::LENGTH_MIN as int);
}

/// A valid identify message decodes through the message type dispatch.
proof fn lemma_any_decode_identify(v: IdentifyView, tail: Seq<u8>)
    requires
        AnyMessageView::InvIdentify(v).valid(),
    ensures
        ({
            let m = AnyMessageView::InvIdentify(v);
            &&& parse_any(m.spec_bytes() + tail, 0) == after_footer(
                parse_footer(m.spec_bytes() + tail, m.spec_len() - 4),
                m,
            )
            &&& m.spec_len() >= 4
            &&& (m.spec_bytes() + tail).subrange(
                m.spec_len() - 4,
                (m.spec_bytes() + tail).len() as int,
            ) == SmaPacketFooter::spec_bytes() + tail
        }),
{
    lemma_identify_round_trip(v, tail);
    lemma_frame_facts(v.spec_bytes() + tail, 0, SmaInvIdentify::LENGTH_MIN as int);
}

/// A valid login message decodes through the message type dispatch.
proof fn lemma_any_decode_login(v: LoginView, tail: Seq<u8>)
    requires
        AnyMessageView::InvLogin(v).valid(),
    ensures
        ({
            let m = AnyMessageView::InvLogin(v);
            &&& parse_any(m.spec_bytes() + tail, 0) == after_footer(
                parse_footer(m.spec_bytes() + tail, m.spec_len() - 4),
                m,
            )
            &&& m.spec_len() >= 4
            &&& (m.spec_bytes() + tail).subrange(
                m.spec_len() - 4,
                (m.spec_bytes() + tail).len() as int,
            ) == SmaPacketFooter::spec_bytes() + tail
        }),
{
    lemma_login_round_trip(v, tail);
    lemma_frame_facts(v.spec_bytes() + tail, 0, SmaInvLogin::LENGTH_MIN as int);
}

/// A valid logout message decodes through the message type dispatch.
proof fn lemma_any_decode_logout(v: SmaInvLogout, tail: Seq<u8>)
    requires
        AnyMessageView::InvLogout(v).valid(),
    ensures
        ({
            let m = AnyMessageView::InvLogout(v);
            &&& parse_any(m.spec_bytes() + tail, 0) == after_footer(
                parse_footer(m.spec_bytes() + tail, m.spec_len() - 4),
                m,
            )
            &&& m.spec_len() >= 4
            &&& (m.spec_bytes() + tail).subrange(
                m.spec_len() - 4,
                (m.spec_bytes() + tail).len() as int,
            ) == SmaPacketFooter::spec_bytes() + tail
        }),
{
    lemma_logout_round_trip(v, tail);
    lemma_frame_facts(v.spec_bytes() + tail, 0, SmaInvLogout::LENGTH as int);
}

/// Decoding the bytes of a valid message followed by any `tail` gives the
/// message back, or the error of reading its footer together with `tail`.
pub proof fn lemma_any_decode(m: AnyMessageView, tail: Seq<u8>)
    requires
        m.valid(),
    ensures
        parse_any(m.spec_bytes() + tail, 0) == after_footer(
            parse_footer(m.spec_bytes() + tail, m.spec_len() - 4),
            m,
        ),
        m.spec_len() >= 4,
        (m.spec_bytes() + tail).subrange(m.spec_len() - 4, (m.spec_bytes() + tail).len() as int)
            == SmaPacketFooter::spec_bytes() + tail,
{
    match m {
        AnyMessageView::EmMessage(v) => lemma_any_decode_em(v, tail),
        AnyMessageView::InvGetDayData(v) => lemma_any_decode_get_day_data(v, tail),
        AnyMessageView::InvIdentify(v) => lemma_any_decode_identify(v, tail),
        AnyMessageView::InvLogin(v) => lemma_any_decode_login(v, tail),
        AnyMessageView::InvLogout(v) => lemma_any_decode_logout(v, tail),
    }
}

/// Round trip: every valid message decodes from its own bytes to itself.
/// Footer tolerance: the same holds with any even number of zero bytes
/// after them.
pub proof fn lemma_any_round_trip(m: AnyMessageView, pad: nat)
    requires
        m.valid(),
        pad % 2 == 0,
    ensures
        parse_any(m.spec_bytes() + zeros(pad), 0) == Ok::<AnyMessageView, Error>(m),
{
    lemma_any_decode(m, zeros(pad));
    lemma_spec_bytes_len(m);
    assert(zeros(pad) =~= zeros(zeros(pad).len()));
    lemma_footer_tail(m.spec_bytes() + zeros(pad), m.spec_len() - 4, zeros(pad));
}

/// Footer tolerance: bytes after a valid message that are of odd number
/// or not all zero make decoding fail with `InvalidPadding` or
/// `BufferNotConsumed`.
pub proof fn lemma_any_trailing_bytes(m: AnyMessageView, tail: Seq<u8>)
    requires
        m.valid(),
        tail.len() % 2 == 1 || exists|k: int| 0 <= k < tail.len() && tail[k] != 0,
    ensures
        parse_any(m.spec_bytes() + tail, 0) is Err,
        parse_any(m.spec_bytes() + tail, 0)->Err_0 is InvalidPadding || parse_any(
            m.spec_bytes() + tail,
            0,
        )->Err_0 is BufferNotConsumed,
{
    lemma_any_decode(m, tail);
    lemma_spec_bytes_len(m);
    lemma_footer_tail(m.spec_bytes() + tail, m.spec_len() - 4, tail);
}

/// Buffer bounds: serializing a valid message into a buffer one byte
/// shorter than the message fails with `BufferTooSmall`.
pub proof fn lemma_buffer_bounds(m: AnyMessageView, d: Seq<u8>, p: int)
    requires
        m.valid(),
        0 <= p,
        d.len() + 1 == p + m.spec_len(),
    ensures
        m.serialize_error(d, p) == Some(too_small(d, p, m.spec_len() as int)),
        too_small(d, p, m.spec_len() as int) is BufferTooSmall,
{
}

} // verus!
