use vstd::prelude::*;

use crate::cursor::{
    lemma_splice_concat, lemma_split, lemma_u16_at, splice, too_small, u16_at, u16_bytes, u24_at,
    u32_at, Cursor, Endian,
};
use crate::error::{Error, Result};
use crate::inverter::cmd::{lemma_cmd_at, SmaCmdWord};
use crate::inverter::counter::{lemma_counter_at, SmaInvCounter};
use crate::packet::{
    lemma_endpoint_round_trip, lemma_header_round_trip, parse_header, SmaEndpoint, SmaPacketHeader,
};

verus! {

/// SMA inverter sub-protocol header.
#[derive(Clone, Copy, Debug, Default, PartialEq, Eq, Structural)]
pub struct SmaInvHeader {
    /// Length of the sub-protocol section in 32bit words.
    pub wordcount: u8,
    /// Command class.
    pub class: u8,
    /// Destination application/device address.
    pub dst: SmaEndpoint,
    /// Command specific destination control word.
    pub dst_ctrl: u16,
    /// Source application/device address.
    pub src: SmaEndpoint,
    /// Command specific source control word.
    pub src_ctrl: u16,
    /// Non-zero in case of errors.
    pub error_code: u16,
    /// Packet and fragment counters.
    pub counters: SmaInvCounter,
    /// Command opcode and channel.
    pub cmd: SmaCmdWord,
}

/// What reading the packet header and inverter header of an inverter
/// message from index `p` of `d` yields, where the whole message takes at
/// least `min_len` bytes.
#[verifier::opaque]
pub open spec fn parse_inv_frame(d: Seq<u8>, p: int, min_len: int) -> Result<
    (SmaPacketHeader, SmaInvHeader),
> {
    if p + min_len > d.len() {
        Err(too_small(d, p, min_len))
    } else {
        match parse_header(d, p) {
            Err(e) => Err(e),
            Ok(h) => if h.protocol != SmaPacketHeader::SMA_PROTOCOL_INV {
                Err(Error::UnsupportedProtocol { protocol: h.protocol })
            } else if p + 18 + h.data_len > d.len() {
                Err(too_small(d, p + 18, h.data_len as int))
            } else {
                let ih = SmaInvHeader::spec_at(d, p + 18);
                if ih.wordcount as int * 4 != h.data_len {
                    Err(Error::InvalidWordcount { wordcount: ih.wordcount })
                } else {
                    Ok((h, ih))
                }
            },
        }
    }
}

impl SmaInvHeader {
    /// Serialized length of the inverter sub-protocol header.
    pub const LENGTH: usize = 28;

    /// The 28 header bytes.
    pub open spec fn spec_bytes(&self) -> Seq<u8> {
        seq![self.wordcount, self.class] + self.dst.spec_bytes() + u16_bytes(
            Endian::Big,
            self.dst_ctrl,
        ) + self.src.spec_bytes() + u16_bytes(Endian::Big, self.src_ctrl) + u16_bytes(
            Endian::Big,
            self.error_code,
        ) + self.counters.spec_bytes() + self.cmd.spec_bytes()
    }

    /// The header stored at index `p` of `d`.
    pub open spec fn spec_at(d: Seq<u8>, p: int) -> SmaInvHeader {
        SmaInvHeader {
            wordcount: d[p],
            class: d[p + 1],
            dst: SmaEndpoint::spec_at(d, p + 2),
            dst_ctrl: u16_at(Endian::Big, d, p + 8),
            src: SmaEndpoint::spec_at(d, p + 10),
            src_ctrl: u16_at(Endian::Big, d, p + 16),
            error_code: u16_at(Endian::Big, d, p + 18),
            counters: SmaInvCounter::spec_at(d, p + 20),
            cmd: SmaCmdWord::spec_at(d, p + 24),
        }
    }

    /// Writes the header at the cursor position.
    #[verifier::rlimit(60)]
    pub fn serialize(&self, buffer: &mut Cursor) -> (r: Result<()>)
        requires
            old(buffer).wf(),
            self.cmd.opcode < 0x100_0000,
        ensures
            r is Ok <==> old(buffer).pos() + Self::LENGTH <= old(buffer).data().len(),
            r is Err ==> r == Err::<(), Error>(old(buffer).too_small(Self::LENGTH as int))
                && *final(buffer) == *old(buffer),
            r is Ok ==> final(buffer).data() == splice(
                old(buffer).data(),
                old(buffer).pos(),
                self.spec_bytes(),
            ) && final(buffer).pos() == old(buffer).pos() + Self::LENGTH,
    {
        buffer.check_remaining(Self::LENGTH)?;
        let ghost d0 = buffer.data();
        let ghost pos0 = buffer.pos();
        buffer.write_u8(self.wordcount);
        let ghost a1 = seq![self.wordcount];
        buffer.write_u8(self.class);
        proof { lemma_splice_concat(d0, pos0, a1, seq![self.class]); }
        let ghost a2 = a1 + seq![self.class];
        self.dst.serialize(buffer)?;
        proof { lemma_splice_concat(d0, pos0, a2, self.dst.spec_bytes()); }
        let ghost a3 = a2 + self.dst.spec_bytes();
        buffer.write_u16(Endian::Big, self.dst_ctrl);
        proof { lemma_splice_concat(d0, pos0, a3, u16_bytes(Endian::Big, self.dst_ctrl)); }
        let ghost a4 = a3 + u16_bytes(Endian::Big, self.dst_ctrl);
        self.src.serialize(buffer)?;
        proof { lemma_splice_concat(d0, pos0, a4, self.src.spec_bytes()); }
        let ghost a5 = a4 + self.src.spec_bytes();
        buffer.write_u16(Endian::Big, self.src_ctrl);
        proof { lemma_splice_concat(d0, pos0, a5, u16_bytes(Endian::Big, self.src_ctrl)); }
        let ghost a6 = a5 + u16_bytes(Endian::Big, self.src_ctrl);
        buffer.write_u16(Endian::Big, self.error_code);
        proof { lemma_splice_concat(d0, pos0, a6, u16_bytes(Endian::Big, self.error_code)); }
        let ghost a7 = a6 + u16_bytes(Endian::Big, self.error_code);
        self.counters.serialize(buffer)?;
        proof { lemma_splice_concat(d0, pos0, a7, self.counters.spec_bytes()); }
        let ghost a8 = a7 + self.counters.spec_bytes();
        self.cmd.serialize(buffer)?;
        proof { lemma_splice_concat(d0, pos0, a8, self.cmd.spec_bytes()); }
        let ghost a9 = a8 + self.cmd.spec_bytes();
        assert(a9 =~= self.spec_bytes());
        Ok(())
    }

    /// Reads a header at the cursor position.
    #[verifier::rlimit(60)]
    pub fn deserialize(buffer: &mut Cursor) -> (r: Result<SmaInvHeader>)
        requires
            old(buffer).wf(),
        ensures
            r is Ok <==> old(buffer).pos() + Self::LENGTH <= old(buffer).data().len(),
            r is Err ==> r == Err::<SmaInvHeader, Error>(old(buffer).too_small(Self::LENGTH as int))
                && *final(buffer) == *old(buffer),
            r is Ok ==> r == Ok::<SmaInvHeader, Error>(
                Self::spec_at(old(buffer).data(), old(buffer).pos()),
            ) && final(buffer).data() == old(buffer).data() && final(buffer).pos() == old(
                buffer,
            ).pos() + Self::LENGTH,
    {
        buffer.check_remaining(Self::LENGTH)?;
        let wordcount = buffer.read_u8();
        let class = buffer.read_u8();
        let dst = SmaEndpoint::deserialize(buffer)?;
        let dst_ctrl = buffer.read_u16(Endian::Big);
        let src = SmaEndpoint::deserialize(buffer)?;
        let src_ctrl = buffer.read_u16(Endian::Big);
        let error_code = buffer.read_u16(Endian::Big);
        let counters = SmaInvCounter::deserialize(buffer)?;
        let cmd = SmaCmdWord::deserialize(buffer)?;
        Ok(
            SmaInvHeader {
                wordcount,
                class,
                dst,
                dst_ctrl,
                src,
                src_ctrl,
                error_code,
                counters,
                cmd,
            },
        )
    }

    /// Fails with `InvalidWordcount` unless the word count covers `data_len`.
    pub fn check_wordcount(&self, data_len: usize) -> (r: Result<()>)
        ensures
            r is Ok <==> self.wordcount as int * 4 == data_len,
            r is Err ==> r == Err::<(), Error>(Error::InvalidWordcount { wordcount: self.wordcount }),
    {
        if self.wordcount as usize * 4 != data_len {
            return Err(Error::InvalidWordcount { wordcount: self.wordcount });
        }
        Ok(())
    }

    /// Fails with `UnsupportedCommandClass` unless the header has `class`.
    pub fn check_class(&self, class: u8) -> (r: Result<()>)
        ensures
            r is Ok <==> self.class == class,
            r is Err ==> r == Err::<(), Error>(Error::UnsupportedCommandClass { class: self.class }),
    {
        if self.class != class {
            return Err(Error::UnsupportedCommandClass { class: self.class });
        }
        Ok(())
    }

    /// Fails with `UnsupportedOpcode` unless the header has `opcode`.
    pub fn check_opcode(&self, opcode: u32) -> (r: Result<()>)
        ensures
            r is Ok <==> self.cmd.opcode == opcode,
            r is Err ==> r == Err::<(), Error>(Error::UnsupportedOpcode { opcode: self.cmd.opcode }),
    {
        if self.cmd.opcode != opcode {
            return Err(Error::UnsupportedOpcode { opcode: self.cmd.opcode });
        }
        Ok(())
    }
}

/// The packet header and inverter header that start an inverter message.
pub open spec fn frame_bytes(data_len: usize, ih: SmaInvHeader) -> Seq<u8> {
    SmaPacketHeader { data_len, protocol: SmaPacketHeader::SMA_PROTOCOL_INV }.spec_bytes()
        + ih.spec_bytes()
}

/// Writes the packet header and inverter header of an inverter message
/// whose whole length is already known to fit.
pub fn serialize_frame(buffer: &mut Cursor, data_len: usize, ih: &SmaInvHeader)
    requires
        old(buffer).wf(),
        old(buffer).pos() + SmaPacketHeader::LENGTH + SmaInvHeader::LENGTH <= old(
            buffer,
        ).data().len(),
        ih.cmd.opcode < 0x100_0000,
    ensures
        final(buffer).data() == splice(
            old(buffer).data(),
            old(buffer).pos(),
            frame_bytes(data_len, *ih),
        ),
        final(buffer).pos() == old(buffer).pos() + 46,
{
    let ghost d0 = buffer.data();
    let ghost pos0 = buffer.pos();
    let header = SmaPacketHeader { data_len, protocol: SmaPacketHeader::SMA_PROTOCOL_INV };
    // Neither write fails: the caller checked that the message fits.
    let _ = header.serialize(buffer);
    let _ = ih.serialize(buffer);
    proof {
        lemma_splice_concat(d0, pos0, header.spec_bytes(), ih.spec_bytes());
    }
}

/// Reads the packet header and inverter header of an inverter message that
/// takes at least `min_len` bytes, and checks protocol and word count.
pub fn deserialize_frame(buffer: &mut Cursor, min_len: usize) -> (r: Result<
    (SmaPacketHeader, SmaInvHeader),
>)
    requires
        old(buffer).wf(),
        min_len >= SmaPacketHeader::LENGTH + SmaInvHeader::LENGTH,
    ensures
        r == parse_inv_frame(old(buffer).data(), old(buffer).pos(), min_len as int),
        final(buffer).data() == old(buffer).data(),
        final(buffer).wf(),
        r is Ok ==> final(buffer).pos() == old(buffer).pos() + 46,
        r matches Ok((h, ih)) ==> old(buffer).pos() + min_len <= old(buffer).data().len()
            && old(buffer).pos() + 18 + h.data_len <= old(buffer).data().len() && ih
            == SmaInvHeader::spec_at(old(buffer).data(), old(buffer).pos() + 18),
{
    proof {
        reveal(parse_inv_frame);
    }
    buffer.check_remaining(min_len)?;
    let header = SmaPacketHeader::deserialize(buffer)?;
    header.check_protocol(SmaPacketHeader::SMA_PROTOCOL_INV)?;
    buffer.check_remaining(header.data_len)?;
    let inv_header = SmaInvHeader::deserialize(buffer)?;
    inv_header.check_wordcount(header.data_len)?;
    Ok((header, inv_header))
}

/// An inverter header decodes from its bytes, where its packet id and
/// opcode fit their wire fields.
#[verifier::rlimit(60)]
pub proof fn lemma_inv_header_at(ih: SmaInvHeader, d: Seq<u8>, p: int)
    requires
        ih.counters.packet_id < 0x8000,
        ih.cmd.opcode < 0x100_0000,
        0 <= p,
        p + 28 <= d.len(),
        d.subrange(p, p + 28) == ih.spec_bytes(),
    ensures
        SmaInvHeader::spec_at(d, p) == ih,
{
    let a = seq![ih.wordcount, ih.class];
    let b = ih.dst.spec_bytes();
    let c = u16_bytes(Endian::Big, ih.dst_ctrl);
    let e = ih.src.spec_bytes();
    let f = u16_bytes(Endian::Big, ih.src_ctrl);
    let g = u16_bytes(Endian::Big, ih.error_code);
    let h = ih.counters.spec_bytes();
    let k = ih.cmd.spec_bytes();
    lemma_split(d, p, a + b + c + e + f + g + h, k);
    lemma_split(d, p, a + b + c + e + f + g, h);
    lemma_split(d, p, a + b + c + e + f, g);
    lemma_split(d, p, a + b + c + e, f);
    lemma_split(d, p, a + b + c, e);
    lemma_split(d, p, a + b, c);
    lemma_split(d, p, a, b);
    assert(d.subrange(p, p + 2)[0] == d[p]);
    assert(d.subrange(p, p + 2)[1] == d[p + 1]);
    lemma_endpoint_round_trip(ih.dst, d, p + 2);
    lemma_u16_at(Endian::Big, ih.dst_ctrl, d, p + 8);
    lemma_endpoint_round_trip(ih.src, d, p + 10);
    lemma_u16_at(Endian::Big, ih.src_ctrl, d, p + 16);
    lemma_u16_at(Endian::Big, ih.error_code, d, p + 18);
    lemma_counter_at(ih.counters, d, p + 20);
    lemma_cmd_at(ih.cmd, d, p + 24);
}

/// The headers of an inverter message decode from their bytes, where the
/// word count matches the data length and the whole message is present.
#[verifier::rlimit(60)]
pub proof fn lemma_frame_round_trip(
    data_len: usize,
    ih: SmaInvHeader,
    d: Seq<u8>,
    p: int,
    min_len: int,
)
    requires
        ih.counters.packet_id < 0x8000,
        ih.cmd.opcode < 0x100_0000,
        ih.wordcount as int * 4 == data_len,
        data_len + 2 <= 0xFFFF,
        0 <= p,
        min_len >= 46,
        p + min_len <= d.len(),
        p + 18 + data_len <= d.len(),
        d.subrange(p, p + 46) == frame_bytes(data_len, ih),
    ensures
        parse_inv_frame(d, p, min_len) == Ok::<(SmaPacketHeader, SmaInvHeader), Error>(
            (SmaPacketHeader { data_len, protocol: SmaPacketHeader::SMA_PROTOCOL_INV }, ih),
        ),
{
    reveal(parse_inv_frame);
    let h = SmaPacketHeader { data_len, protocol: SmaPacketHeader::SMA_PROTOCOL_INV };
    assert(h.spec_bytes().len() == 18);
    assert(ih.spec_bytes().len() == 28);
    lemma_split(d, p, h.spec_bytes(), ih.spec_bytes());
    lemma_header_round_trip(h, d, p);
    lemma_inv_header_at(ih, d, p + 18);
}

/// What decoding the headers of an inverter message tells of its bytes:
/// the FOURCC, the protocol, and where the opcode stands.
pub proof fn lemma_frame_facts(d: Seq<u8>, p: int, min_len: int)
    requires
        min_len >= 46,
    ensures
        parse_inv_frame(d, p, min_len) matches Ok((h, ih)) ==> u32_at(Endian::Big, d, p)
            == SmaPacketHeader::SMA_FOURCC && u16_at(Endian::Big, d, p + 16)
            == SmaPacketHeader::SMA_PROTOCOL_INV && p + 46 <= d.len() && u24_at(
            Endian::Big,
            d,
            p + 43,
        ) == ih.cmd.opcode,
{
    reveal(parse_inv_frame);
}

} // verus!
