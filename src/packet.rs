//! Common SMA packet framing: packet header, footer and endpoint addresses.

use vstd::prelude::*;

use crate::cursor::{
    lemma_split, lemma_splice_concat, lemma_u16_at, lemma_u32_round_trip, splice, too_small, u16_at,
    u16_bytes, u32_at, u32_bytes, zeros, Cursor, Endian,
};
use crate::error::{Error, Result};

verus! {

broadcast use lemma_splice_concat;

/// Common SMA speedwire packet header.
#[derive(Clone, Copy, Debug, Default, PartialEq, Eq, Structural)]
pub struct SmaPacketHeader {
    /// Length of the following data payload.
    pub data_len: usize,
    /// Sub-protocol type ID.
    pub protocol: u16,
}

/// The payload length that a raw data length field stands for: the field
/// counts the two bytes of the protocol ID, which are taken off modulo 2^16.
pub open spec fn wire_data_len(raw: u16) -> usize {
    if raw >= 2 {
        (raw - 2) as usize
    } else {
        (raw + 0xFFFE) as usize
    }
}

/// The data length field as sent: the payload length plus the two bytes of
/// the protocol ID, modulo 2^16.
pub open spec fn wire_len_field(data_len: usize) -> u16 {
    ((data_len as int % 0x10000 + 2) % 0x10000) as u16
}

/// What `SmaPacketHeader::deserialize` yields on the bytes of `d` from index `p`.
pub open spec fn parse_header(d: Seq<u8>, p: int) -> Result<SmaPacketHeader> {
    if p + SmaPacketHeader::LENGTH > d.len() {
        Err(too_small(d, p, SmaPacketHeader::LENGTH as int))
    } else if u32_at(Endian::Big, d, p) != SmaPacketHeader::SMA_FOURCC {
        Err(Error::InvalidFourCC { fourcc: u32_at(Endian::Big, d, p) })
    } else if u16_at(Endian::Big, d, p + 4) != SmaPacketHeader::START_TAG_LEN {
        Err(Error::InvalidStartTagLen { len: u16_at(Endian::Big, d, p + 4) })
    } else if u16_at(Endian::Big, d, p + 6) != SmaPacketHeader::START_TAG {
        Err(Error::InvalidStartTag { tag: u16_at(Endian::Big, d, p + 6) })
    } else if u32_at(Endian::Big, d, p + 8) != SmaPacketHeader::DEFAULT_GROUP {
        Err(Error::InvalidGroup { group: u32_at(Endian::Big, d, p + 8) })
    } else if u16_at(Endian::Big, d, p + 14) != SmaPacketHeader::SMA_VERSION {
        Err(Error::UnsupportedVersion { version: u16_at(Endian::Big, d, p + 14) })
    } else {
        Ok(
            SmaPacketHeader {
                data_len: wire_data_len(u16_at(Endian::Big, d, p + 12)),
                protocol: u16_at(Endian::Big, d, p + 16),
            },
        )
    }
}

impl SmaPacketHeader {
    /// Serialized length of the common packet header.
    pub const LENGTH: usize = 18;
    /// The FOURCC "SMA\0" that starts every packet.
    pub const SMA_FOURCC: u32 = 0x534D4100;
    /// Length of the header in 32 bit words without the protocol field.
    pub const START_TAG_LEN: u16 = 4;
    pub const START_TAG: u16 = 0x02A0;
    pub const DEFAULT_GROUP: u32 = 1;
    /// SMA inverter sub-protocol ID.
    pub const SMA_PROTOCOL_INV: u16 = 0x6065;
    /// SMA energymeter sub-protocol ID.
    pub const SMA_PROTOCOL_EM: u16 = 0x6069;
    /// SMA speedwire protocol version.
    pub const SMA_VERSION: u16 = 0x10;

    /// The 18 header bytes.
    pub open spec fn spec_bytes(&self) -> Seq<u8> {
        u32_bytes(Endian::Big, Self::SMA_FOURCC) + u16_bytes(Endian::Big, Self::START_TAG_LEN)
            + u16_bytes(Endian::Big, Self::START_TAG) + u32_bytes(
            Endian::Big,
            Self::DEFAULT_GROUP,
        ) + u16_bytes(Endian::Big, wire_len_field(self.data_len)) + u16_bytes(
            Endian::Big,
            Self::SMA_VERSION,
        ) + u16_bytes(Endian::Big, self.protocol)
    }

    /// Fails with `UnsupportedProtocol` unless the header carries `protocol`.
    pub fn check_protocol(&self, protocol: u16) -> (r: Result<()>)
        ensures
            r is Ok <==> self.protocol == protocol,
            r is Err ==> r == Err::<(), Error>(Error::UnsupportedProtocol { protocol: self.protocol }),
    {
        if self.protocol != protocol {
            return Err(Error::UnsupportedProtocol { protocol: self.protocol });
        }
        Ok(())
    }

    /// Writes the header at the cursor position.
    #[verifier::rlimit(60)]
    pub fn serialize(&self, buffer: &mut Cursor) -> (r: Result<()>)
        requires
            old(buffer).wf(),
        ensures
            r is Ok <==> old(buffer).pos() + Self::LENGTH <= old(buffer).data().len(),
            r is Err ==> r == Err::<(), Error>(old(buffer).too_small(Self::LENGTH as int))
                && *final(buffer) == *old(buffer),
            r is Ok ==> final(buffer).data() == splice(
                old(buffer).data(),
                old(buffer).pos(),
                self.spec_bytes(),
            ) && final(buffer).pos() == old(buffer).pos() + Self::LENGTH,
    {
        buffer.check_remaining(Self::LENGTH)?;
        buffer.write_u32(Endian::Big, Self::SMA_FOURCC);
        buffer.write_u16(Endian::Big, Self::START_TAG_LEN);
        buffer.write_u16(Endian::Big, Self::START_TAG);
        buffer.write_u32(Endian::Big, Self::DEFAULT_GROUP);
        buffer.write_u16(Endian::Big, ((self.data_len % 0x10000 + 2) % 0x10000) as u16);
        buffer.write_u16(Endian::Big, Self::SMA_VERSION);
        buffer.write_u16(Endian::Big, self.protocol);
        Ok(())
    }

    /// Reads a header at the cursor position.
    #[verifier::rlimit(60)]
    pub fn deserialize(buffer: &mut Cursor) -> (r: Result<SmaPacketHeader>)
        requires
            old(buffer).wf(),
        ensures
            r == parse_header(old(buffer).data(), old(buffer).pos()),
            final(buffer).data() == old(buffer).data(),
            final(buffer).wf(),
            r is Ok ==> final(buffer).pos() == old(buffer).pos() + Self::LENGTH,
    {
        buffer.check_remaining(Self::LENGTH)?;

        let fourcc = buffer.read_u32(Endian::Big);
        if fourcc != Self::SMA_FOURCC {
            return Err(Error::InvalidFourCC { fourcc });
        }
        let len = buffer.read_u16(Endian::Big);
        if len != Self::START_TAG_LEN {
            return Err(Error::InvalidStartTagLen { len });
        }
        let tag = buffer.read_u16(Endian::Big);
        if tag != Self::START_TAG {
            return Err(Error::InvalidStartTag { tag });
        }
        let group = buffer.read_u32(Endian::Big);
        if group != Self::DEFAULT_GROUP {
            return Err(Error::InvalidGroup { group });
        }
        let raw_len = buffer.read_u16(Endian::Big);
        let data_len = if raw_len >= 2 {
            (raw_len - 2) as usize
        } else {
            (raw_len + 0xFFFE) as usize
        };
        let version = buffer.read_u16(Endian::Big);
        if version != Self::SMA_VERSION {
            return Err(Error::UnsupportedVersion { version });
        }
        let protocol = buffer.read_u16(Endian::Big);

        Ok(SmaPacketHeader { data_len, protocol })
    }
}

/// Footer with optional variable length zero padding at the end of an
/// SMA packet.
#[derive(Clone, Copy, Debug, Default, PartialEq, Eq, Structural)]
pub struct SmaPacketFooter {}

/// What reading the padding from index `p` to the end of `d` yields: any
/// number of zero 32 bit words, then at most one zero 16 bit word.
pub open spec fn parse_padding(d: Seq<u8>, p: int) -> Result<SmaPacketFooter>
    decreases d.len() - p,
{
    if d.len() - p >= 4 {
        if u32_at(Endian::Big, d, p) != 0 {
            Err(Error::InvalidPadding { padding: u32_at(Endian::Big, d, p) })
        } else {
            parse_padding(d, p + 4)
        }
    } else if d.len() - p == 2 {
        if u16_at(Endian::Big, d, p) != 0 {
            Err(Error::InvalidPadding { padding: u16_at(Endian::Big, d, p) as u32 })
        } else {
            Ok(SmaPacketFooter {  })
        }
    } else if d.len() - p != 0 {
        Err(Error::BufferNotConsumed { trailing: (d.len() - p) as usize })
    } else {
        Ok(SmaPacketFooter {  })
    }
}

/// What `SmaPacketFooter::deserialize` yields on the bytes of `d` from index `p`.
#[verifier::opaque]
pub open spec fn parse_footer(d: Seq<u8>, p: int) -> Result<SmaPacketFooter> {
    if p + SmaPacketFooter::LENGTH_SHORT > d.len() {
        Err(too_small(d, p, SmaPacketFooter::LENGTH_SHORT as int))
    } else {
        parse_padding(d, p)
    }
}

impl SmaPacketFooter {
    /// Serialized length of a short SMA speedwire packet footer.
    pub const LENGTH_SHORT: usize = 2;
    /// Serialized length of a normal SMA speedwire packet footer.
    pub const LENGTH: usize = 4;

    /// The four footer bytes.
    pub open spec fn spec_bytes() -> Seq<u8> {
        u32_bytes(Endian::Big, 0)
    }

    /// Writes one zero 32 bit word.
    #[verifier::rlimit(60)]
    pub fn serialize(&self, buffer: &mut Cursor) -> (r: Result<()>)
        requires
            old(buffer).wf(),
        ensures
            r is Ok <==> old(buffer).pos() + Self::LENGTH <= old(buffer).data().len(),
            r is Err ==> r == Err::<(), Error>(old(buffer).too_small(Self::LENGTH as int))
                && *final(buffer) == *old(buffer),
            r is Ok ==> final(buffer).data() == splice(
                old(buffer).data(),
                old(buffer).pos(),
                Self::spec_bytes(),
            ) && final(buffer).pos() == old(buffer).pos() + Self::LENGTH,
    {
        buffer.check_remaining(Self::LENGTH)?;
        buffer.write_u32(Endian::Big, 0);
        Ok(())
    }

    /// Consumes all remaining bytes, which must be zero padding.
    #[verifier::rlimit(60)]
    pub fn deserialize(buffer: &mut Cursor) -> (r: Result<SmaPacketFooter>)
        requires
            old(buffer).wf(),
        ensures
            r == parse_footer(old(buffer).data(), old(buffer).pos()),
            final(buffer).data() == old(buffer).data(),
            final(buffer).wf(),
            r is Ok ==> final(buffer).pos() == final(buffer).data().len(),
    {
        proof {
            reveal(parse_footer);
        }
        buffer.check_remaining(Self::LENGTH_SHORT)?;
        let ghost d = buffer.data();
        let ghost pos0 = buffer.pos();

        while buffer.remaining() >= Self::LENGTH
            invariant
                buffer.wf(),
                buffer.data() == d,
                d == old(buffer).data(),
                pos0 == old(buffer).pos(),
                pos0 + Self::LENGTH_SHORT <= d.len(),
                parse_footer(d, pos0) == parse_padding(d, pos0),
                pos0 <= buffer.pos(),
                parse_padding(d, pos0) == parse_padding(d, buffer.pos()),
            decreases d.len() - buffer.pos(),
        {
            let padding = buffer.read_u32(Endian::Big);
            if padding != 0 {
                return Err(Error::InvalidPadding { padding });
            }
        }

        if buffer.remaining() == Self::LENGTH_SHORT {
            let padding = buffer.read_u16(Endian::Big) as u32;
            if padding != 0 {
                return Err(Error::InvalidPadding { padding });
            }
        }

        let trailing = buffer.remaining();
        if trailing != 0 {
            return Err(Error::BufferNotConsumed { trailing });
        }

        Ok(SmaPacketFooter {  })
    }
}

/// Identifies a SMA speedwire communication endpoint.
#[derive(Clone, Copy, Debug, Default, PartialEq, Eq, Structural)]
pub struct SmaEndpoint {
    /// SMA Update System-ID.
    pub susy_id: u16,
    /// Device serial number.
    pub serial: u32,
}

impl SmaEndpoint {
    /// Serialized length of an endpoint.
    pub const LENGTH: usize = 6;

    /// The six endpoint bytes.
    pub open spec fn spec_bytes(&self) -> Seq<u8> {
        u16_bytes(Endian::Big, self.susy_id) + u32_bytes(Endian::Big, self.serial)
    }

    /// The endpoint stored at index `p` of `d`.
    pub open spec fn spec_at(d: Seq<u8>, p: int) -> SmaEndpoint {
        SmaEndpoint { susy_id: u16_at(Endian::Big, d, p), serial: u32_at(Endian::Big, d, p + 2) }
    }

    /// The library's dummy SUSy ID and serial SMA endpoint.
    pub fn dummy() -> (r: SmaEndpoint)
        ensures
            r == (SmaEndpoint { susy_id: 0xDEAD, serial: 0xDEADBEEF }),
    {
        SmaEndpoint { susy_id: 0xDEAD, serial: 0xDEADBEEF }
    }

    /// Broadcast SUSy ID and serial SMA endpoint.
    pub fn broadcast() -> (r: SmaEndpoint)
        ensures
            r == (SmaEndpoint { susy_id: 0xFFFF, serial: 0xFFFFFFFF }),
    {
        SmaEndpoint { susy_id: 0xFFFF, serial: 0xFFFFFFFF }
    }

    /// Writes the endpoint at the cursor position.
    #[verifier::rlimit(60)]
    pub fn serialize(&self, buffer: &mut Cursor) -> (r: Result<()>)
        requires
            old(buffer).wf(),
        ensures
            r is Ok <==> old(buffer).pos() + Self::LENGTH <= old(buffer).data().len(),
            r is Err ==> r == Err::<(), Error>(old(buffer).too_small(Self::LENGTH as int))
                && *final(buffer) == *old(buffer),
            r is Ok ==> final(buffer).data() == splice(
                old(buffer).data(),
                old(buffer).pos(),
                self.spec_bytes(),
            ) && final(buffer).pos() == old(buffer).pos() + Self::LENGTH,
    {
        buffer.check_remaining(Self::LENGTH)?;
        buffer.write_u16(Endian::Big, self.susy_id);
        buffer.write_u32(Endian::Big, self.serial);
        Ok(())
    }

    /// Reads an endpoint at the cursor position.
    #[verifier::rlimit(60)]
    pub fn deserialize(buffer: &mut Cursor) -> (r: Result<SmaEndpoint>)
        requires
            old(buffer).wf(),
        ensures
            r is Ok <==> old(buffer).pos() + Self::LENGTH <= old(buffer).data().len(),
            r is Err ==> r == Err::<SmaEndpoint, Error>(old(buffer).too_small(Self::LENGTH as int))
                && *final(buffer) == *old(buffer),
            r is Ok ==> r == Ok::<SmaEndpoint, Error>(
                Self::spec_at(old(buffer).data(), old(buffer).pos()),
            ) && final(buffer).data() == old(buffer).data() && final(buffer).pos() == old(
                buffer,
            ).pos() + Self::LENGTH,
    {
        buffer.check_remaining(Self::LENGTH)?;
        let susy_id = buffer.read_u16(Endian::Big);
        let serial = buffer.read_u32(Endian::Big);
        Ok(SmaEndpoint { susy_id, serial })
    }
}

} // verus!

verus! {

/// A packet header decodes from its own bytes.
#[verifier::rlimit(60)]
pub proof fn lemma_header_round_trip(h: SmaPacketHeader, d: Seq<u8>, p: int)
    requires
        0 <= p,
        p + SmaPacketHeader::LENGTH <= d.len(),
        d.subrange(p, p + 18) == h.spec_bytes(),
        h.data_len + 2 <= 0xFFFF,
    ensures
        parse_header(d, p) == Ok::<SmaPacketHeader, Error>(h),
{
    let a1 = u32_bytes(Endian::Big, SmaPacketHeader::SMA_FOURCC);
    let a2 = u16_bytes(Endian::Big, SmaPacketHeader::START_TAG_LEN);
    let a3 = u16_bytes(Endian::Big, SmaPacketHeader::START_TAG);
    let a4 = u32_bytes(Endian::Big, SmaPacketHeader::DEFAULT_GROUP);
    let a5 = u16_bytes(Endian::Big, wire_len_field(h.data_len));
    let a6 = u16_bytes(Endian::Big, SmaPacketHeader::SMA_VERSION);
    let a7 = u16_bytes(Endian::Big, h.protocol);
    lemma_split(d, p, a1 + a2 + a3 + a4 + a5 + a6, a7);
    lemma_split(d, p, a1 + a2 + a3 + a4 + a5, a6);
    lemma_split(d, p, a1 + a2 + a3 + a4, a5);
    lemma_split(d, p, a1 + a2 + a3, a4);
    lemma_split(d, p, a1 + a2, a3);
    lemma_split(d, p, a1, a2);
    lemma_u32_round_trip(Endian::Big, SmaPacketHeader::SMA_FOURCC, d, p);
    lemma_u16_at(Endian::Big, SmaPacketHeader::START_TAG_LEN, d, p + 4);
    lemma_u16_at(Endian::Big, SmaPacketHeader::START_TAG, d, p + 6);
    lemma_u32_round_trip(Endian::Big, SmaPacketHeader::DEFAULT_GROUP, d, p + 8);
    lemma_u16_at(Endian::Big, wire_len_field(h.data_len), d, p + 12);
    lemma_u16_at(Endian::Big, SmaPacketHeader::SMA_VERSION, d, p + 14);
    lemma_u16_at(Endian::Big, h.protocol, d, p + 16);
}

/// An endpoint decodes from its own bytes.
#[verifier::rlimit(60)]
pub proof fn lemma_endpoint_round_trip(e: SmaEndpoint, d: Seq<u8>, p: int)
    requires
        0 <= p,
        p + SmaEndpoint::LENGTH <= d.len(),
        d.subrange(p, p + 6) == e.spec_bytes(),
    ensures
        SmaEndpoint::spec_at(d, p) == e,
{
    lemma_split(d, p, u16_bytes(Endian::Big, e.susy_id), u32_bytes(Endian::Big, e.serial));
    lemma_u16_at(Endian::Big, e.susy_id, d, p);
    lemma_u32_round_trip(Endian::Big, e.serial, d, p + 2);
}

/// Zero padding of even length reads as a valid footer.
pub proof fn lemma_padding_zeros(d: Seq<u8>, p: int)
    requires
        0 <= p <= d.len(),
        (d.len() - p) % 2 == 0,
        forall|k: int| p <= k < d.len() ==> d[k] == 0,
    ensures
        parse_padding(d, p) is Ok,
    decreases d.len() - p,
{
    if d.len() - p >= 4 {
        lemma_padding_zeros(d, p + 4);
    }
}

/// Padding with a non-zero byte fails.
pub proof fn lemma_padding_nonzero(d: Seq<u8>, p: int, k: int)
    requires
        0 <= p <= k < d.len(),
        d[k] != 0,
    ensures
        parse_padding(d, p) is Err,
    decreases d.len() - p,
{
    if d.len() - p >= 4 {
        if k >= p + 4 {
            lemma_padding_nonzero(d, p + 4, k);
        }
    }
}

/// An odd number of padding bytes fails; where they are all zero, with
/// `BufferNotConsumed` for the bytes after the last whole 32 bit word.
pub proof fn lemma_padding_odd(d: Seq<u8>, p: int)
    requires
        0 <= p <= d.len(),
        (d.len() - p) % 2 == 1,
    ensures
        parse_padding(d, p) is Err,
        (forall|k: int| p <= k < d.len() ==> d[k] == 0) ==> parse_padding(d, p) == Err::<
            SmaPacketFooter,
            Error,
        >(Error::BufferNotConsumed { trailing: ((d.len() - p) % 4) as usize }),
    decreases d.len() - p,
{
    if d.len() - p >= 4 {
        lemma_padding_odd(d, p + 4);
    }
}

/// Footer tolerance: what follows a message body is accepted as footer
/// exactly when it is zeros of even length, at least two bytes long. Fewer
/// than two bytes fail with `BufferTooSmall`; otherwise an odd length or a
/// non-zero byte fails with `InvalidPadding` or `BufferNotConsumed`.
pub proof fn lemma_footer_tolerance(d: Seq<u8>, p: int)
    requires
        0 <= p <= d.len(),
    ensures
        (d.len() - p >= 2 && (d.len() - p) % 2 == 0 && forall|k: int|
            p <= k < d.len() ==> d[k] == 0) ==> parse_footer(d, p) is Ok,
        d.len() - p < 2 ==> parse_footer(d, p) == Err::<SmaPacketFooter, Error>(
            too_small(d, p, 2),
        ),
        d.len() - p >= 2 && ((d.len() - p) % 2 == 1 || exists|k: int|
            p <= k < d.len() && d[k] != 0) ==> (parse_footer(d, p) is Err && (parse_footer(
            d,
            p,
        )->Err_0 is InvalidPadding || parse_footer(d, p)->Err_0 is BufferNotConsumed)),
        d.len() - p >= 2 && (d.len() - p) % 2 == 1 && (forall|k: int|
            p <= k < d.len() ==> d[k] == 0) ==> parse_footer(d, p) == Err::<SmaPacketFooter, Error>(
            Error::BufferNotConsumed { trailing: ((d.len() - p) % 4) as usize },
        ),
{
    reveal(parse_footer);
    lemma_padding_errors(d, p);
    if d.len() - p >= 2 && (d.len() - p) % 2 == 0 && forall|k: int|
        p <= k < d.len() ==> d[k] == 0 {
        lemma_padding_zeros(d, p);
    }
    if (d.len() - p) % 2 == 1 {
        lemma_padding_odd(d, p);
    }
    if exists|k: int| p <= k < d.len() && d[k] != 0 {
        let k = choose|k: int| p <= k < d.len() && d[k] != 0;
        lemma_padding_nonzero(d, p, k);
    }
}

/// Reading padding fails only with `InvalidPadding` or `BufferNotConsumed`.
proof fn lemma_padding_errors(d: Seq<u8>, p: int)
    requires
        0 <= p <= d.len(),
    ensures
        parse_padding(d, p) is Err ==> (parse_padding(d, p)->Err_0 is InvalidPadding || parse_padding(
            d,
            p,
        )->Err_0 is BufferNotConsumed),
    decreases d.len() - p,
{
    if d.len() - p >= 4 {
        lemma_padding_errors(d, p + 4);
    }
}

/// A decoded message once its footer was read: the message where the
/// footer is valid, the footer's error otherwise.
pub open spec fn after_footer<V>(footer: Result<SmaPacketFooter>, v: V) -> Result<V> {
    match footer {
        Ok(_) => Ok(v),
        Err(e) => Err(e),
    }
}

/// A message body followed by a footer and any further bytes: the body is
/// in front.
pub proof fn lemma_body_footer(d: Seq<u8>, body: Seq<u8>, tail: Seq<u8>)
    requires
        d == body + SmaPacketFooter::spec_bytes() + tail,
    ensures
        d.len() == body.len() + 4 + tail.len(),
        d.subrange(0, body.len() as int) == body,
        d.subrange(body.len() as int, d.len() as int) == SmaPacketFooter::spec_bytes() + tail,
{
    assert(d.subrange(0, body.len() as int) =~= body);
    assert(d.subrange(body.len() as int, d.len() as int) =~= SmaPacketFooter::spec_bytes() + tail);
}

/// The footer of a message followed by `tail` reads as valid exactly
/// when `tail` is zeros of even length; otherwise it fails with
/// `InvalidPadding` or `BufferNotConsumed`.
pub proof fn lemma_footer_tail(d: Seq<u8>, q: int, tail: Seq<u8>)
    requires
        0 <= q <= d.len(),
        d.subrange(q, d.len() as int) == SmaPacketFooter::spec_bytes() + tail,
    ensures
        tail == zeros(tail.len()) && tail.len() % 2 == 0 ==> parse_footer(d, q) is Ok,
        tail.len() % 2 == 1 || (exists|k: int| 0 <= k < tail.len() && tail[k] != 0) ==> (parse_footer(
            d,
            q,
        ) is Err && (parse_footer(d, q)->Err_0 is InvalidPadding || parse_footer(d, q)->Err_0 is BufferNotConsumed)),
{
    let f = SmaPacketFooter::spec_bytes();
    assert(f =~= zeros(4));
    assert(d.len() == q + 4 + tail.len()) by {
        assert(d.subrange(q, d.len() as int).len() == 4 + tail.len());
    }
    assert forall|k: int| q <= k < d.len() implies d[k] == (f + tail)[k - q] by {
        assert(d.subrange(q, d.len() as int)[k - q] == d[k]);
    }
    if tail == zeros(tail.len()) {
        assert forall|k: int| q <= k < d.len() implies d[k] == 0 by {
            if k >= q + 4 {
                assert(tail[k - q - 4] == zeros(tail.len())[k - q - 4]);
            }
        }
    }
    if exists|k: int| 0 <= k < tail.len() && tail[k] != 0 {
        let k = choose|k: int| 0 <= k < tail.len() && tail[k] != 0;
        assert(d[q + 4 + k] != 0);
    }
    lemma_footer_tolerance(d, q);
}

} // verus!
