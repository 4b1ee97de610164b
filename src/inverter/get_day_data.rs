use vstd::prelude::*;

use crate::container::{BoundedVec, SmaContainer};
use crate::cursor::{
    lemma_splice_concat, lemma_split, lemma_u32_round_trip, splice, u32_at, u32_bytes, zeros, Cursor,
    Endian,
};
use crate::error::{Error, Result};
use crate::inverter::cmd::SmaCmdWord;
use crate::inverter::counter::SmaInvCounter;
use crate::inverter::header::{
    deserialize_frame, frame_bytes, lemma_frame_round_trip, parse_inv_frame, serialize_frame,
    SmaInvHeader,
};
use crate::inverter::meter::{lemma_meter_at, SmaInvMeterValue};
use crate::packet::{
    after_footer, lemma_body_footer, parse_footer, SmaEndpoint, SmaPacketFooter, SmaPacketHeader,
};

verus! {

/// The bytes of a list of meter records, one after the other.
pub open spec fn records_bytes(s: Seq<SmaInvMeterValue>) -> Seq<u8>
    decreases s.len(),
{
    if s.len() == 0 {
        Seq::empty()
    } else {
        records_bytes(s.drop_last()) + s.last().spec_bytes()
    }
}

/// What reading meter records from index `p` of `d` yields, appended to
/// `acc`, together with the index after the last one: records are read while
/// at least 12 bytes are left before `end`, and at most 81 are accepted.
pub open spec fn parse_records(d: Seq<u8>, p: int, end: int, acc: Seq<SmaInvMeterValue>) -> Result<
    (Seq<SmaInvMeterValue>, int),
>
    decreases end - p,
{
    if p + SmaInvMeterValue::LENGTH > end {
        Ok((acc, p))
    } else if acc.len() >= SmaInvGetDayData::MAX_RECORD_COUNT {
        Err(Error::PayloadTooLarge { len: (acc.len() + 1) as usize })
    } else {
        parse_records(d, p + 12, end, acc.push(SmaInvMeterValue::spec_at(d, p)))
    }
}

/// The contents of a GetDayData message.
pub struct GetDayDataView {
    pub dst: SmaEndpoint,
    pub src: SmaEndpoint,
    pub error_code: u16,
    pub counters: SmaInvCounter,
    pub start_time_idx: u32,
    pub end_time_idx: u32,
    pub records: Seq<SmaInvMeterValue>,
}

impl GetDayDataView {
    /// Length of the data between packet header and footer.
    pub open spec fn data_len(&self) -> nat {
        (SmaInvHeader::LENGTH + 8 + 12 * self.records.len()) as nat
    }

    /// Total serialized length.
    pub open spec fn spec_len(&self) -> nat {
        (SmaInvGetDayData::LENGTH_MIN + 12 * self.records.len()) as nat
    }

    /// The inverter header that the message is sent with: a request has no
    /// records and goes out on channel 0, a response on channel 1.
    pub open spec fn spec_inv_header(&self) -> SmaInvHeader {
        SmaInvHeader {
            wordcount: (self.data_len() / 4) as u8,
            class: SmaInvGetDayData::CLASS,
            dst: self.dst,
            dst_ctrl: if self.records.len() == 0 {
                0
            } else {
                0xA0
            },
            src: self.src,
            src_ctrl: 0,
            error_code: self.error_code,
            counters: self.counters,
            cmd: SmaCmdWord {
                channel: if self.records.len() == 0 {
                    0
                } else {
                    1
                },
                opcode: SmaInvGetDayData::OPCODE,
            },
        }
    }

    /// Headers, the time range and records, and the footer.
    pub open spec fn spec_bytes(&self) -> Seq<u8> {
        frame_bytes(self.data_len() as usize, self.spec_inv_header()) + u32_bytes(
            Endian::Little,
            self.start_time_idx,
        ) + u32_bytes(Endian::Little, self.end_time_idx) + records_bytes(self.records)
            + SmaPacketFooter::spec_bytes()
    }
}

/// What `SmaInvGetDayData::deserialize` yields on the bytes of `d` from index `p`.
pub open spec fn parse_get_day_data(d: Seq<u8>, p: int) -> Result<GetDayDataView> {
    match parse_inv_frame(d, p, SmaInvGetDayData::LENGTH_MIN as int) {
        Err(e) => Err(e),
        Ok((h, ih)) => if ih.class != SmaInvGetDayData::CLASS {
            Err(Error::UnsupportedCommandClass { class: ih.class })
        } else if ih.cmd.opcode != SmaInvGetDayData::OPCODE {
            Err(Error::UnsupportedOpcode { opcode: ih.cmd.opcode })
        } else {
            match parse_records(d, p + 54, p + 18 + h.data_len, Seq::empty()) {
                Err(e) => Err(e),
                Ok((records, q)) => match parse_footer(d, q) {
                    Err(e) => Err(e),
                    Ok(_) => Ok(
                        GetDayDataView {
                            dst: ih.dst,
                            src: ih.src,
                            error_code: ih.error_code,
                            counters: ih.counters,
                            start_time_idx: u32_at(Endian::Little, d, p + 46),
                            end_time_idx: u32_at(Endian::Little, d, p + 50),
                            records,
                        },
                    ),
                },
            }
        },
    }
}

/// A logical GetDayData message request/response.
#[derive(Clone, Debug, Default, PartialEq, Eq)]
pub struct SmaInvGetDayData {
    /// Destination application/device address.
    pub dst: SmaEndpoint,
    /// Source application/device address.
    pub src: SmaEndpoint,
    /// Non-zero in case of errors.
    pub error_code: u16,
    /// Packet counters.
    pub counters: SmaInvCounter,
    /// Start timestamp (request) or start record number (response).
    pub start_time_idx: u32,
    /// End timestamp (request) or end record number (response).
    pub end_time_idx: u32,
    /// Timestamped total energy production values.
    pub records: Vec<SmaInvMeterValue>,
}

impl View for SmaInvGetDayData {
    type V = GetDayDataView;

    open spec fn view(&self) -> GetDayDataView {
        GetDayDataView {
            dst: self.dst,
            src: self.src,
            error_code: self.error_code,
            counters: self.counters,
            start_time_idx: self.start_time_idx,
            end_time_idx: self.end_time_idx,
            records: self.records@,
        }
    }
}

/// The bytes of a list of records take 12 bytes per record.
pub proof fn lemma_records_bytes_len(s: Seq<SmaInvMeterValue>)
    ensures
        records_bytes(s).len() == 12 * s.len(),
    decreases s.len(),
{
    if s.len() > 0 {
        lemma_records_bytes_len(s.drop_last());
    }
}

impl SmaInvGetDayData {
    pub const OPCODE: u32 = 0x020070;
    pub const CLASS: u8 = 0xE0;
    /// Serialized length without records.
    pub const LENGTH_MIN: usize = 58;
    /// Serialized length with the largest number of records.
    pub const LENGTH_MAX: usize = 1030;
    /// Maximum number of records in one fragment.
    pub const MAX_RECORD_COUNT: usize = 81;

    /// Returns total serialized message length.
    pub fn serialized_len(&self) -> (r: usize)
        requires
            self@.spec_len() <= usize::MAX,
        ensures
            r == self@.spec_len(),
    {
        Self::LENGTH_MIN + self.records.len() * SmaInvMeterValue::LENGTH
    }

    /// Writes the message at the cursor position.
    #[verifier::rlimit(60)]
    pub fn serialize(&self, buffer: &mut Cursor) -> (r: Result<()>)
        requires
            old(buffer).wf(),
        ensures
            self.records@.len() > Self::MAX_RECORD_COUNT ==> r == Err::<(), Error>(
                Error::PayloadTooLarge { len: self.records@.len() as usize },
            ),
            self.records@.len() <= Self::MAX_RECORD_COUNT ==> (r is Ok <==> old(buffer).pos()
                + self@.spec_len() <= old(buffer).data().len()),
            self.records@.len() <= Self::MAX_RECORD_COUNT && r is Err ==> r == Err::<(), Error>(
                old(buffer).too_small(self@.spec_len() as int),
            ),
            r is Err ==> *final(buffer) == *old(buffer),
            r is Ok ==> final(buffer).data() == splice(
                old(buffer).data(),
                old(buffer).pos(),
                self@.spec_bytes(),
            ) && final(buffer).pos() == old(buffer).pos() + self@.spec_len(),
    {
        if self.records.len() > Self::MAX_RECORD_COUNT {
            return Err(Error::PayloadTooLarge { len: self.records.len() });
        }
        let len = self.serialized_len();
        buffer.check_remaining(len)?;
        let ghost d0 = buffer.data();
        let ghost pos0 = buffer.pos();

        let data_len = len - SmaPacketHeader::LENGTH - SmaPacketFooter::LENGTH;
        let (channel, dst_ctrl) = if self.records.len() == 0 {
            (0u8, 0x00u16)
        } else {
            (1u8, 0xA0u16)
        };
        let inv_header = SmaInvHeader {
            wordcount: (data_len / 4) as u8,
            class: Self::CLASS,
            dst: self.dst,
            dst_ctrl,
            src: self.src,
            src_ctrl: 0,
            error_code: self.error_code,
            counters: self.counters,
            cmd: SmaCmdWord { channel, opcode: Self::OPCODE },
        };
        serialize_frame(buffer, data_len, &inv_header);
        assert(inv_header == self@.spec_inv_header());
        let ghost a0 = frame_bytes(data_len, inv_header);

        buffer.write_u32(Endian::Little, self.start_time_idx);
        proof {
            lemma_splice_concat(d0, pos0, a0, u32_bytes(Endian::Little, self.start_time_idx));
        }
        let ghost a1 = a0 + u32_bytes(Endian::Little, self.start_time_idx);
        buffer.write_u32(Endian::Little, self.end_time_idx);
        proof {
            lemma_splice_concat(d0, pos0, a1, u32_bytes(Endian::Little, self.end_time_idx));
        }
        let ghost a2 = a1 + u32_bytes(Endian::Little, self.end_time_idx);

        let mut i: usize = 0;
        while i < self.records.len()
            invariant
                i <= self.records@.len() <= Self::MAX_RECORD_COUNT,
                0 <= pos0,
                pos0 + self@.spec_len() <= d0.len() <= usize::MAX,
                a2.len() == 54,
                buffer.wf(),
                buffer.data() == splice(d0, pos0, a2 + records_bytes(self.records@.take(i as int))),
                buffer.pos() == pos0 + 54 + 12 * i,
            decreases self.records@.len() - i,
        {
            proof {
                assert(self.records@.take(i + 1).drop_last() =~= self.records@.take(i as int));
                lemma_records_bytes_len(self.records@.take(i as int));
                lemma_splice_concat(
                    d0,
                    pos0,
                    a2 + records_bytes(self.records@.take(i as int)),
                    self.records@[i as int].spec_bytes(),
                );
                assert(a2 + records_bytes(self.records@.take(i + 1)) =~= a2 + records_bytes(
                    self.records@.take(i as int),
                ) + self.records@[i as int].spec_bytes());
            }
            self.records[i].serialize(buffer)?;
            i = i + 1;
        }
        assert(self.records@.take(i as int) =~= self.records@);
        proof {
            lemma_records_bytes_len(self.records@);
            lemma_splice_concat(
                d0,
                pos0,
                a2 + records_bytes(self.records@),
                SmaPacketFooter::spec_bytes(),
            );
        }
        SmaPacketFooter {  }.serialize(buffer)?;
        Ok(())
    }

    /// Reads a GetDayData message that spans all remaining bytes of the cursor.
    #[verifier::rlimit(80)]
    pub fn deserialize(buffer: &mut Cursor) -> (r: Result<SmaInvGetDayData>)
        requires
            old(buffer).wf(),
        ensures
            match r {
                Ok(m) => parse_get_day_data(old(buffer).data(), old(buffer).pos()) == Ok::<
                    GetDayDataView,
                    Error,
                >(m@),
                Err(e) => parse_get_day_data(old(buffer).data(), old(buffer).pos()) == Err::<
                    GetDayDataView,
                    Error,
                >(e),
            },
            final(buffer).data() == old(buffer).data(),
            final(buffer).wf(),
            r is Ok ==> final(buffer).pos() == final(buffer).data().len(),
    {
        let ghost d = buffer.data();
        let ghost p = buffer.pos();
        let (header, inv_header) = deserialize_frame(buffer, Self::LENGTH_MIN)?;
        let padding_len = buffer.remaining() + SmaInvHeader::LENGTH - header.data_len;
        inv_header.check_class(Self::CLASS)?;
        inv_header.check_opcode(Self::OPCODE)?;

        let start_time_idx = buffer.read_u32(Endian::Little);
        let end_time_idx = buffer.read_u32(Endian::Little);

        let mut records: BoundedVec<SmaInvMeterValue> = BoundedVec::new(Self::MAX_RECORD_COUNT);
        while buffer.remaining() >= padding_len && buffer.remaining() - padding_len
            >= SmaInvMeterValue::LENGTH
            invariant
                buffer.wf(),
                buffer.data() == d,
                d == old(buffer).data(),
                p == old(buffer).pos(),
                parse_inv_frame(d, p, Self::LENGTH_MIN as int) == Ok::<
                    (SmaPacketHeader, SmaInvHeader),
                    Error,
                >((header, inv_header)),
                inv_header.class == Self::CLASS,
                inv_header.cmd.opcode == Self::OPCODE,
                records.items().len() <= records.capacity(),
                records.capacity() == Self::MAX_RECORD_COUNT,
                start_time_idx == u32_at(Endian::Little, d, p + 46),
                end_time_idx == u32_at(Endian::Little, d, p + 50),
                d.len() - padding_len == p + 18 + header.data_len,
                parse_records(d, p + 54, p + 18 + header.data_len, Seq::empty()) == parse_records(
                    d,
                    buffer.pos(),
                    p + 18 + header.data_len,
                    records.items(),
                ),
            decreases d.len() - buffer.pos(),
        {
            let record = SmaInvMeterValue::deserialize(buffer)?;
            if records.push(record).is_err() {
                return Err(Error::PayloadTooLarge { len: records.len() + 1 });
            }
        }

        SmaPacketFooter::deserialize(buffer)?;

        Ok(
            SmaInvGetDayData {
                dst: inv_header.dst,
                src: inv_header.src,
                error_code: inv_header.error_code,
                counters: inv_header.counters,
                start_time_idx,
                end_time_idx,
                records: records.into_vec(),
            },
        )
    }
}

/// The bytes of a non-empty list of records start with those of its first.
pub proof fn lemma_records_bytes_front(s: Seq<SmaInvMeterValue>)
    requires
        s.len() > 0,
    ensures
        records_bytes(s) == s[0].spec_bytes() + records_bytes(s.skip(1)),
    decreases s.len(),
{
    if s.len() == 1 {
        assert(s.drop_last() =~= Seq::<SmaInvMeterValue>::empty());
        assert(s.skip(1) =~= Seq::<SmaInvMeterValue>::empty());
        assert(records_bytes(s) =~= s[0].spec_bytes() + records_bytes(s.skip(1)));
    } else {
        lemma_records_bytes_front(s.drop_last());
        assert(s.drop_last().skip(1) =~= s.skip(1).drop_last());
        assert(records_bytes(s) =~= s[0].spec_bytes() + records_bytes(s.skip(1)));
    }
}

/// Records decode from their bytes, appended to what was read before.
#[verifier::rlimit(60)]
pub proof fn lemma_records_parse(
    d: Seq<u8>,
    p: int,
    end: int,
    acc: Seq<SmaInvMeterValue>,
    s: Seq<SmaInvMeterValue>,
)
    requires
        0 <= p,
        end == p + 12 * s.len(),
        end <= d.len(),
        d.subrange(p, end) == records_bytes(s),
        acc.len() + s.len() <= SmaInvGetDayData::MAX_RECORD_COUNT,
    ensures
        parse_records(d, p, end, acc) == Ok::<(Seq<SmaInvMeterValue>, int), Error>((acc + s, end)),
    decreases s.len(),
{
    if s.len() == 0 {
        assert(acc + s =~= acc);
    } else {
        lemma_records_bytes_front(s);
        lemma_records_bytes_len(s.skip(1));
        lemma_split(d, p, s[0].spec_bytes(), records_bytes(s.skip(1)));
        lemma_meter_at(s[0], d, p);
        lemma_records_parse(d, p + 12, end, acc.push(s[0]), s.skip(1));
        assert(acc.push(s[0]) + s.skip(1) =~= acc + s);
    }
}

/// Where the parts of a GetDayData message lie in its bytes.
#[verifier::rlimit(60)]
proof fn lemma_get_day_data_layout(m: GetDayDataView, tail: Seq<u8>, d: Seq<u8>)
    requires
        d == m.spec_bytes() + tail,
    ensures
        d.len() == m.spec_len() + tail.len(),
        d.subrange(m.spec_len() - 4, d.len() as int) == SmaPacketFooter::spec_bytes() + tail,
        d.subrange(0, 46) == frame_bytes(m.data_len() as usize, m.spec_inv_header()),
        d.subrange(46, 50) == u32_bytes(Endian::Little, m.start_time_idx),
        d.subrange(50, 54) == u32_bytes(Endian::Little, m.end_time_idx),
        d.subrange(54, (54 + 12 * m.records.len()) as int) == records_bytes(m.records),
{
    let f = frame_bytes(m.data_len() as usize, m.spec_inv_header());
    let a = u32_bytes(Endian::Little, m.start_time_idx);
    let b = u32_bytes(Endian::Little, m.end_time_idx);
    let r = records_bytes(m.records);
    lemma_records_bytes_len(m.records);
    assert(f.len() == 46);
    lemma_body_footer(d, f + a + b + r, tail);
    lemma_split(d, 0, f + a + b, r);
    lemma_split(d, 0, f + a, b);
    lemma_split(d, 0, f, a);
}

/// A GetDayData message with at most 81 records and a packet id below
/// 0x8000 decodes from its bytes, also with an even number of zero padding
/// bytes after them.
#[verifier::rlimit(60)]
pub proof fn lemma_get_day_data_round_trip(m: GetDayDataView, tail: Seq<u8>)
    requires
        m.records.len() <= SmaInvGetDayData::MAX_RECORD_COUNT,
        m.counters.packet_id < 0x8000,
    ensures
        parse_get_day_data(m.spec_bytes() + tail, 0) == after_footer(
            parse_footer(m.spec_bytes() + tail, (m.spec_len() - 4) as int),
            m,
        ),
        (m.spec_bytes() + tail).subrange((m.spec_len() - 4) as int, (m.spec_bytes() + tail).len() as int)
            == SmaPacketFooter::spec_bytes() + tail,
        parse_inv_frame(m.spec_bytes() + tail, 0, SmaInvGetDayData::LENGTH_MIN as int) == Ok::<
            (SmaPacketHeader, SmaInvHeader),
            Error,
        >(
            (
                SmaPacketHeader { data_len: m.data_len() as usize, protocol: SmaPacketHeader::SMA_PROTOCOL_INV },
                m.spec_inv_header(),
            ),
        ),
{
    let d = m.spec_bytes() + tail;
    lemma_get_day_data_layout(m, tail, d);
    lemma_frame_round_trip(
        m.data_len() as usize,
        m.spec_inv_header(),
        d,
        0,
        SmaInvGetDayData::LENGTH_MIN as int,
    );
    lemma_u32_round_trip(Endian::Little, m.start_time_idx, d, 46);
    lemma_u32_round_trip(Endian::Little, m.end_time_idx, d, 50);
    lemma_records_parse(d, 54, (54 + 12 * m.records.len()) as int, Seq::empty(), m.records);
    assert(Seq::<SmaInvMeterValue>::empty() + m.records =~= m.records);
}

} // verus!
