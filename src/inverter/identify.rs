use vstd::prelude::*;

use crate::cursor::{lemma_splice_concat, lemma_split, splice, u64_bytes, zeros, Cursor, Endian};
use crate::error::{Error, Result};
use crate::inverter::cmd::SmaCmdWord;
use crate::inverter::counter::SmaInvCounter;
use crate::inverter::header::{
    deserialize_frame, frame_bytes, lemma_frame_round_trip, parse_inv_frame, serialize_frame,
    SmaInvHeader,
};
use crate::packet::{
    after_footer, lemma_body_footer, parse_footer, SmaEndpoint, SmaPacketFooter, SmaPacketHeader,
};

verus! {

/// The contents of an identify message.
pub struct IdentifyView {
    pub dst: SmaEndpoint,
    pub src: SmaEndpoint,
    pub error_code: u16,
    pub counters: SmaInvCounter,
    pub identity: Option<Seq<u8>>,
}

impl IdentifyView {
    /// An identity, where there is one, has its 48 bytes.
    pub open spec fn wf(&self) -> bool {
        self.identity matches Some(id) ==> id.len() == SmaInvIdentify::PAYLOAD_MAX
    }

    /// Length of the payload between the inverter header and the footer.
    pub open spec fn payload_len(&self) -> nat {
        if self.identity is Some {
            SmaInvIdentify::PAYLOAD_MAX as nat
        } else {
            SmaInvIdentify::PAYLOAD_MIN as nat
        }
    }

    /// Length of the data between packet header and footer.
    pub open spec fn data_len(&self) -> nat {
        (SmaInvHeader::LENGTH + self.payload_len()) as nat
    }

    /// Total serialized length.
    pub open spec fn spec_len(&self) -> nat {
        (SmaPacketHeader::LENGTH + self.data_len() + SmaPacketFooter::LENGTH) as nat
    }

    /// The inverter header that the message is sent with: a response,
    /// which carries the identity, goes out on channel 1.
    pub open spec fn spec_inv_header(&self) -> SmaInvHeader {
        SmaInvHeader {
            wordcount: (self.data_len() / 4) as u8,
            class: SmaInvIdentify::CLASS,
            dst: self.dst,
            dst_ctrl: if self.identity is Some {
                0xC0
            } else {
                0
            },
            src: self.src,
            src_ctrl: 0,
            error_code: self.error_code,
            counters: self.counters,
            cmd: SmaCmdWord {
                channel: if self.identity is Some {
                    1
                } else {
                    0
                },
                opcode: SmaInvIdentify::OPCODE,
            },
        }
    }

    /// Headers, the identity or eight zero bytes, and the footer.
    pub open spec fn spec_bytes(&self) -> Seq<u8> {
        frame_bytes(self.data_len() as usize, self.spec_inv_header()) + match self.identity {
            Some(id) => id,
            None => zeros(8),
        } + SmaPacketFooter::spec_bytes()
    }
}

/// What `SmaInvIdentify::deserialize` yields on the bytes of `d` from index `p`.
pub open spec fn parse_identify(d: Seq<u8>, p: int) -> Result<IdentifyView> {
    match parse_inv_frame(d, p, SmaInvIdentify::LENGTH_MIN as int) {
        Err(e) => Err(e),
        Ok((h, ih)) => if ih.class != SmaInvIdentify::CLASS {
            Err(Error::UnsupportedCommandClass { class: ih.class })
        } else if ih.cmd.opcode != SmaInvIdentify::OPCODE {
            Err(Error::UnsupportedOpcode { opcode: ih.cmd.opcode })
        } else {
            let long = h.data_len >= SmaInvHeader::LENGTH + SmaInvIdentify::PAYLOAD_MAX;
            let q = if long {
                p + 94
            } else {
                p + 54
            };
            match parse_footer(d, q) {
                Err(e) => Err(e),
                Ok(_) => Ok(
                    IdentifyView {
                        dst: ih.dst,
                        src: ih.src,
                        error_code: ih.error_code,
                        counters: ih.counters,
                        identity: if long {
                            Some(d.subrange(p + 46, p + 94))
                        } else {
                            None
                        },
                    },
                ),
            }
        },
    }
}

/// A logical SMA inverter identify message.
/// This message is sent to the broadcast serial/SUSy ID and gets a response
/// with the corresponding source SMA endpoint.
#[derive(Clone, Debug, Default, PartialEq, Eq)]
pub struct SmaInvIdentify {
    /// Destination application/device address.
    pub dst: SmaEndpoint,
    /// Source application/device address.
    pub src: SmaEndpoint,
    /// Non-zero in case of errors.
    pub error_code: u16,
    /// Packet counters.
    pub counters: SmaInvCounter,
    /// Unknown identity binary data in response packet.
    pub identity: Option<[u8; 48]>,
}

impl View for SmaInvIdentify {
    type V = IdentifyView;

    open spec fn view(&self) -> IdentifyView {
        IdentifyView {
            dst: self.dst,
            src: self.src,
            error_code: self.error_code,
            counters: self.counters,
            identity: match self.identity {
                Some(a) => Some(a@),
                None => None,
            },
        }
    }
}

impl SmaInvIdentify {
    pub const OPCODE: u32 = 0x020000;
    pub const CLASS: u8 = 0xA0;
    /// Serialized length of a request.
    pub const LENGTH_MIN: usize = 58;
    /// Serialized length of a response.
    pub const LENGTH_MAX: usize = 98;
    pub const PAYLOAD_MIN: usize = 8;
    pub const PAYLOAD_MAX: usize = 48;

    /// Writes the message at the cursor position.
    #[verifier::rlimit(60)]
    pub fn serialize(&self, buffer: &mut Cursor) -> (r: Result<()>)
        requires
            old(buffer).wf(),
        ensures
            r is Ok <==> old(buffer).pos() + self@.spec_len() <= old(buffer).data().len(),
            r is Err ==> r == Err::<(), Error>(old(buffer).too_small(self@.spec_len() as int))
                && *final(buffer) == *old(buffer),
            r is Ok ==> final(buffer).data() == splice(
                old(buffer).data(),
                old(buffer).pos(),
                self@.spec_bytes(),
            ) && final(buffer).pos() == old(buffer).pos() + self@.spec_len(),
    {
        let (len, dst_ctrl, channel) = if self.identity.is_some() {
            (Self::LENGTH_MAX, 0xC0u16, 1u8)
        } else {
            (Self::LENGTH_MIN, 0u16, 0u8)
        };
        buffer.check_remaining(len)?;
        let ghost d0 = buffer.data();
        let ghost pos0 = buffer.pos();

        let data_len = len - SmaPacketHeader::LENGTH - SmaPacketFooter::LENGTH;
        let inv_header = SmaInvHeader {
            wordcount: (data_len / 4) as u8,
            class: Self::CLASS,
            dst: self.dst,
            dst_ctrl,
            src: self.src,
            src_ctrl: 0,
            error_code: self.error_code,
            counters: self.counters,
            cmd: SmaCmdWord { channel, opcode: Self::OPCODE },
        };
        serialize_frame(buffer, data_len, &inv_header);
        let ghost a = frame_bytes(data_len, inv_header);
        assert(inv_header == self@.spec_inv_header());

        let ghost payload;
        match &self.identity {
            Some(identity) => {
                buffer.write_bytes(identity.as_slice());
                proof {
                    payload = identity@;
                }
            },
            None => {
                buffer.write_u64(Endian::Big, 0);
                proof {
                    payload = u64_bytes(Endian::Big, 0);
                    assert(payload =~= zeros(8));
                }
            },
        }
        proof {
            lemma_splice_concat(d0, pos0, a, payload);
        }
        SmaPacketFooter {  }.serialize(buffer)?;
        proof {
            lemma_splice_concat(d0, pos0, a + payload, SmaPacketFooter::spec_bytes());
        }
        Ok(())
    }

    /// Reads an identify message that spans all remaining bytes of the cursor.
    #[verifier::rlimit(60)]
    pub fn deserialize(buffer: &mut Cursor) -> (r: Result<SmaInvIdentify>)
        requires
            old(buffer).wf(),
        ensures
            match r {
                Ok(m) => parse_identify(old(buffer).data(), old(buffer).pos()) == Ok::<
                    IdentifyView,
                    Error,
                >(m@),
                Err(e) => parse_identify(old(buffer).data(), old(buffer).pos()) == Err::<
                    IdentifyView,
                    Error,
                >(e),
            },
            final(buffer).data() == old(buffer).data(),
            final(buffer).wf(),
            r is Ok ==> final(buffer).pos() == final(buffer).data().len(),
    {
        let (header, inv_header) = deserialize_frame(buffer, Self::LENGTH_MIN)?;
        inv_header.check_class(Self::CLASS)?;
        inv_header.check_opcode(Self::OPCODE)?;

        let identity = if header.data_len >= SmaInvHeader::LENGTH + Self::PAYLOAD_MAX {
            Some(buffer.read_array::<48>())
        } else {
            buffer.skip(Self::PAYLOAD_MIN);
            None
        };

        SmaPacketFooter::deserialize(buffer)?;

        Ok(
            SmaInvIdentify {
                dst: inv_header.dst,
                src: inv_header.src,
                error_code: inv_header.error_code,
                counters: inv_header.counters,
                identity,
            },
        )
    }
}

/// A well-formed identify message with a packet id below 0x8000 decodes
/// from its bytes, also with an even number of zero padding bytes after them.
#[verifier::rlimit(80)]
pub proof fn lemma_identify_round_trip(m: IdentifyView, tail: Seq<u8>)
    requires
        m.wf(),
        m.counters.packet_id < 0x8000,
    ensures
        parse_identify(m.spec_bytes() + tail, 0) == after_footer(
            parse_footer(m.spec_bytes() + tail, (m.spec_len() - 4) as int),
            m,
        ),
        (m.spec_bytes() + tail).subrange((m.spec_len() - 4) as int, (m.spec_bytes() + tail).len() as int)
            == SmaPacketFooter::spec_bytes() + tail,
        parse_inv_frame(m.spec_bytes() + tail, 0, SmaInvIdentify::LENGTH_MIN as int) == Ok::<
            (SmaPacketHeader, SmaInvHeader),
            Error,
        >(
            (
                SmaPacketHeader { data_len: m.data_len() as usize, protocol: SmaPacketHeader::SMA_PROTOCOL_INV },
                m.spec_inv_header(),
            ),
        ),
{
    let ih = m.spec_inv_header();
    let f = frame_bytes(m.data_len() as usize, ih);
    let pl = match m.identity {
        Some(id) => id,
        None => zeros(8),
    };
    let d = m.spec_bytes() + tail;
    assert(f.len() == 46);
    lemma_body_footer(d, f + pl, tail);
    lemma_split(d, 0, f, pl);
    lemma_frame_round_trip(m.data_len() as usize, ih, d, 0, SmaInvIdentify::LENGTH_MIN as int);
}

} // verus!
