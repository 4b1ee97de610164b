use vstd::prelude::*;

use crate::cursor::{
    lemma_splice_concat, lemma_split, lemma_u16_at, splice, u16_at, u16_bytes, Cursor, Endian,
};
use crate::error::{Error, Result};

verus! {

broadcast use lemma_splice_concat;

/// SMA inverter sub-protocol packet and fragment counter.
#[derive(Clone, Copy, Debug, PartialEq, Eq, Structural)]
pub struct SmaInvCounter {
    /// Decrementing packet fragment counter.
    pub fragment_id: u16,
    /// Incrementing packet counter.
    pub packet_id: u16,
    /// Indicates the first fragment in a sequence.
    pub first_fragment: bool,
}

impl Default for SmaInvCounter {
    fn default() -> (r: Self)
        ensures
            r == (SmaInvCounter { fragment_id: 0, packet_id: 0, first_fragment: true }),
    {
        SmaInvCounter { fragment_id: 0, packet_id: 0, first_fragment: true }
    }
}

impl SmaInvCounter {
    /// Serialized length of the counters.
    pub const LENGTH: usize = 4;
    /// The bit of the wire packet id that carries `first_fragment`.
    pub const FIRST_FRAGMENT_BIT: u16 = 0x8000;

    /// The packet id as sent: the first fragment flag sets its top bit.
    pub open spec fn raw_packet_id(&self) -> u16 {
        if self.first_fragment {
            self.packet_id | 0x8000
        } else {
            self.packet_id
        }
    }

    /// The counters that a fragment id and a wire packet id stand for.
    pub open spec fn from_raw(fragment_id: u16, raw: u16) -> SmaInvCounter {
        SmaInvCounter {
            fragment_id,
            packet_id: raw & 0x7FFF,
            first_fragment: raw & 0x8000 != 0,
        }
    }

    /// The fragment id, then the wire packet id, both little endian.
    pub open spec fn spec_bytes(&self) -> Seq<u8> {
        u16_bytes(Endian::Little, self.fragment_id) + u16_bytes(
            Endian::Little,
            self.raw_packet_id(),
        )
    }

    /// The counters stored at index `p` of `d`.
    pub open spec fn spec_at(d: Seq<u8>, p: int) -> SmaInvCounter {
        Self::from_raw(u16_at(Endian::Little, d, p), u16_at(Endian::Little, d, p + 2))
    }

    /// Writes the counters at the cursor position.
    pub fn serialize(&self, buffer: &mut Cursor) -> (r: Result<()>)
        requires
            old(buffer).wf(),
        ensures
            r is Ok <==> old(buffer).pos() + Self::LENGTH <= old(buffer).data().len(),
            r is Err ==> r == Err::<(), Error>(old(buffer).too_small(Self::LENGTH as int))
                && *final(buffer) == *old(buffer),
            r is Ok ==> final(buffer).data() == splice(
                old(buffer).data(),
                old(buffer).pos(),
                self.spec_bytes(),
            ) && final(buffer).pos() == old(buffer).pos() + Self::LENGTH,
    {
        buffer.check_remaining(Self::LENGTH)?;
        let packet_id = if self.first_fragment {
            self.packet_id | Self::FIRST_FRAGMENT_BIT
        } else {
            self.packet_id
        };
        buffer.write_u16(Endian::Little, self.fragment_id);
        buffer.write_u16(Endian::Little, packet_id);
        Ok(())
    }

    /// Reads counters at the cursor position.
    pub fn deserialize(buffer: &mut Cursor) -> (r: Result<SmaInvCounter>)
        requires
            old(buffer).wf(),
        ensures
            r is Ok <==> old(buffer).pos() + Self::LENGTH <= old(buffer).data().len(),
            r is Err ==> r == Err::<SmaInvCounter, Error>(
                old(buffer).too_small(Self::LENGTH as int),
            ) && *final(buffer) == *old(buffer),
            r is Ok ==> r == Ok::<SmaInvCounter, Error>(
                Self::spec_at(old(buffer).data(), old(buffer).pos()),
            ) && final(buffer).data() == old(buffer).data() && final(buffer).pos() == old(
                buffer,
            ).pos() + Self::LENGTH,
    {
        buffer.check_remaining(Self::LENGTH)?;
        let fragment_id = buffer.read_u16(Endian::Little);
        let raw_packet_id = buffer.read_u16(Endian::Little);
        let first_fragment = (raw_packet_id & Self::FIRST_FRAGMENT_BIT) != 0;
        let packet_id = raw_packet_id & 0x7FFF;
        Ok(SmaInvCounter { fragment_id, packet_id, first_fragment })
    }
}

/// Counters with a packet id below 0x8000 decode from their bytes.
pub proof fn lemma_counter_at(c: SmaInvCounter, d: Seq<u8>, i: int)
    requires
        c.packet_id < 0x8000,
        0 <= i,
        i + 4 <= d.len(),
        d.subrange(i, i + 4) == c.spec_bytes(),
    ensures
        SmaInvCounter::spec_at(d, i) == c,
{
    lemma_split(
        d,
        i,
        u16_bytes(Endian::Little, c.fragment_id),
        u16_bytes(Endian::Little, c.raw_packet_id()),
    );
    lemma_u16_at(Endian::Little, c.fragment_id, d, i);
    lemma_u16_at(Endian::Little, c.raw_packet_id(), d, i + 2);
    let id = c.packet_id;
    assert((id | 0x8000) & 0x7FFF == id && (id | 0x8000) & 0x8000 != 0) by (bit_vector)
        requires
            id < 0x8000u16,
    ;
    assert(id & 0x7FFF == id && id & 0x8000 == 0) by (bit_vector)
        requires
            id < 0x8000u16,
    ;
}

/// Counter bit discipline: counters with a packet id below 0x8000 survive
/// the trip through their wire bytes, and a wire packet id with its top bit
/// set always decodes as a first fragment.
pub proof fn lemma_counter_round_trip(c: SmaInvCounter, raw: u16)
    requires
        c.packet_id < 0x8000,
    ensures
        SmaInvCounter::spec_at(c.spec_bytes(), 0) == c,
        raw & 0x8000 != 0 ==> SmaInvCounter::from_raw(c.fragment_id, raw).first_fragment,
{
    assert(c.spec_bytes().subrange(0, 4) =~= c.spec_bytes());
    lemma_counter_at(c, c.spec_bytes(), 0);
}

} // verus!
