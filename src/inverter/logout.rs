use vstd::prelude::*;

use crate::cursor::{
    lemma_splice_concat, lemma_split, lemma_u32_round_trip, splice, u32_at, u32_bytes, zeros, Cursor,
    Endian,
};
use crate::error::{Error, Result};
use crate::inverter::cmd::SmaCmdWord;
use crate::inverter::counter::SmaInvCounter;
use crate::inverter::header::{
    deserialize_frame, frame_bytes, lemma_frame_round_trip, parse_inv_frame, serialize_frame,
    SmaInvHeader,
};
use crate::packet::{
    after_footer, lemma_body_footer, parse_footer, SmaEndpoint, SmaPacketFooter, SmaPacketHeader,
};

verus! {

/// What `SmaInvLogout::deserialize` yields on the bytes of `d` from index `p`.
pub open spec fn parse_logout(d: Seq<u8>, p: int) -> Result<SmaInvLogout> {
    match parse_inv_frame(d, p, SmaInvLogout::LENGTH as int) {
        Err(e) => Err(e),
        Ok((_h, ih)) => if ih.class != SmaInvLogout::CLASS {
            Err(Error::UnsupportedCommandClass { class: ih.class })
        } else if ih.cmd.opcode != SmaInvLogout::OPCODE {
            Err(Error::UnsupportedOpcode { opcode: ih.cmd.opcode })
        } else if u32_at(Endian::Little, d, p + 46) != SmaInvLogout::SENTINEL {
            Err(Error::InvalidPadding { padding: u32_at(Endian::Little, d, p + 46) })
        } else {
            match parse_footer(d, p + 50) {
                Err(e) => Err(e),
                Ok(_) => Ok(
                    SmaInvLogout {
                        dst: ih.dst,
                        src: ih.src,
                        error_code: ih.error_code,
                        counters: ih.counters,
                    },
                ),
            }
        },
    }
}

/// A logical SMA inverter logout message.
/// This message has no response.
#[derive(Clone, Copy, Debug, Default, PartialEq, Eq, Structural)]
pub struct SmaInvLogout {
    /// Destination application/device address.
    pub dst: SmaEndpoint,
    /// Source application/device address.
    pub src: SmaEndpoint,
    /// Non-zero in case of errors.
    pub error_code: u16,
    /// Packet counters.
    pub counters: SmaInvCounter,
}

impl SmaInvLogout {
    pub const OPCODE: u32 = 0x01FDFF;
    pub const CLASS: u8 = 0xA0;
    pub const CHANNEL: u8 = 0x0E;
    /// The single payload word of a logout.
    pub const SENTINEL: u32 = 0xFFFFFFFF;
    /// Serialized length of the logout message.
    pub const LENGTH: usize = 54;

    /// The inverter header that a logout is sent with.
    pub open spec fn spec_inv_header(&self) -> SmaInvHeader {
        SmaInvHeader {
            wordcount: 8,
            class: Self::CLASS,
            dst: self.dst,
            dst_ctrl: 3,
            src: self.src,
            src_ctrl: 3,
            error_code: self.error_code,
            counters: self.counters,
            cmd: SmaCmdWord { channel: Self::CHANNEL, opcode: Self::OPCODE },
        }
    }

    /// Packet and inverter headers, the sentinel word and the footer.
    pub open spec fn spec_bytes(&self) -> Seq<u8> {
        frame_bytes(32, self.spec_inv_header()) + u32_bytes(Endian::Little, Self::SENTINEL)
            + SmaPacketFooter::spec_bytes()
    }

    /// Writes the message at the cursor position.
    #[verifier::rlimit(60)]
    pub fn serialize(&self, buffer: &mut Cursor) -> (r: Result<()>)
        requires
            old(buffer).wf(),
        ensures
            r is Ok <==> old(buffer).pos() + Self::LENGTH <= old(buffer).data().len(),
            r is Err ==> r == Err::<(), Error>(old(buffer).too_small(Self::LENGTH as int))
                && *final(buffer) == *old(buffer),
            r is Ok ==> final(buffer).data() == splice(
                old(buffer).data(),
                old(buffer).pos(),
                self.spec_bytes(),
            ) && final(buffer).pos() == old(buffer).pos() + Self::LENGTH,
    {
        buffer.check_remaining(Self::LENGTH)?;
        let ghost d0 = buffer.data();
        let ghost pos0 = buffer.pos();

        let data_len = Self::LENGTH - SmaPacketHeader::LENGTH - SmaPacketFooter::LENGTH;
        let inv_header = SmaInvHeader {
            wordcount: (data_len / 4) as u8,
            class: Self::CLASS,
            dst: self.dst,
            dst_ctrl: 3,
            src: self.src,
            src_ctrl: 3,
            error_code: self.error_code,
            counters: self.counters,
            cmd: SmaCmdWord { channel: Self::CHANNEL, opcode: Self::OPCODE },
        };
        serialize_frame(buffer, data_len, &inv_header);
        let ghost a = frame_bytes(32, self.spec_inv_header());
        buffer.write_u32(Endian::Little, Self::SENTINEL);
        proof {
            lemma_splice_concat(d0, pos0, a, u32_bytes(Endian::Little, Self::SENTINEL));
        }
        let ghost b = a + u32_bytes(Endian::Little, Self::SENTINEL);
        SmaPacketFooter {  }.serialize(buffer)?;
        proof {
            lemma_splice_concat(d0, pos0, b, SmaPacketFooter::spec_bytes());
        }
        Ok(())
    }

    /// Reads a logout message that spans all remaining bytes of the cursor.
    #[verifier::rlimit(60)]
    pub fn deserialize(buffer: &mut Cursor) -> (r: Result<SmaInvLogout>)
        requires
            old(buffer).wf(),
        ensures
            r == parse_logout(old(buffer).data(), old(buffer).pos()),
            final(buffer).data() == old(buffer).data(),
            final(buffer).wf(),
            r is Ok ==> final(buffer).pos() == final(buffer).data().len(),
    {
        let (_header, inv_header) = deserialize_frame(buffer, Self::LENGTH)?;
        inv_header.check_class(Self::CLASS)?;
        inv_header.check_opcode(Self::OPCODE)?;

        let padding = buffer.read_u32(Endian::Little);
        if padding != Self::SENTINEL {
            return Err(Error::InvalidPadding { padding });
        }

        SmaPacketFooter::deserialize(buffer)?;

        Ok(
            SmaInvLogout {
                dst: inv_header.dst,
                src: inv_header.src,
                error_code: inv_header.error_code,
                counters: inv_header.counters,
            },
        )
    }
}

/// A logout with a packet id below 0x8000 decodes from its bytes, also
/// with an even number of zero padding bytes after them.
#[verifier::rlimit(60)]
pub proof fn lemma_logout_round_trip(m: SmaInvLogout, tail: Seq<u8>)
    requires
        m.counters.packet_id < 0x8000,
    ensures
        parse_logout(m.spec_bytes() + tail, 0) == after_footer(
            parse_footer(m.spec_bytes() + tail, 50),
            m,
        ),
        (m.spec_bytes() + tail).subrange(50, (m.spec_bytes() + tail).len() as int)
            == SmaPacketFooter::spec_bytes() + tail,
        parse_inv_frame(m.spec_bytes() + tail, 0, SmaInvLogout::LENGTH as int) == Ok::<
            (SmaPacketHeader, SmaInvHeader),
            Error,
        >(
            (
                SmaPacketHeader { data_len: 32 as usize, protocol: SmaPacketHeader::SMA_PROTOCOL_INV },
                m.spec_inv_header(),
            ),
        ),
{
    let ih = m.spec_inv_header();
    let f = frame_bytes(32, ih);
    let s = u32_bytes(Endian::Little, SmaInvLogout::SENTINEL);
    let d = m.spec_bytes() + tail;
    assert(f.len() == 46);
    lemma_body_footer(d, f + s, tail);
    lemma_split(d, 0, f, s);
    lemma_frame_round_trip(32, ih, d, 0, SmaInvLogout::LENGTH as int);
    lemma_u32_round_trip(Endian::Little, SmaInvLogout::SENTINEL, d, 46);
}

} // verus!
