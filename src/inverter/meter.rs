use vstd::prelude::*;

use crate::cursor::{
    lemma_splice_concat, lemma_split, lemma_u32_round_trip, lemma_u64_round_trip, splice, u32_at,
    u32_bytes, u64_at, u64_bytes, Cursor, Endian,
};
use crate::error::{Error, Result};

verus! {

broadcast use lemma_splice_concat;

/// Total inverter energy production at a given timestamp.
#[derive(Clone, Copy, Debug, Default, PartialEq, Eq, Structural)]
pub struct SmaInvMeterValue {
    /// Unix timestamp of the meter value.
    pub timestamp: u32,
    /// Total energy production in Wh.
    pub energy_wh: u64,
}

impl SmaInvMeterValue {
    /// Serialized length of one record.
    pub const LENGTH: usize = 12;

    /// The timestamp, then the energy, both little endian.
    pub open spec fn spec_bytes(&self) -> Seq<u8> {
        u32_bytes(Endian::Little, self.timestamp) + u64_bytes(Endian::Little, self.energy_wh)
    }

    /// The record stored at index `p` of `d`.
    pub open spec fn spec_at(d: Seq<u8>, p: int) -> SmaInvMeterValue {
        SmaInvMeterValue {
            timestamp: u32_at(Endian::Little, d, p),
            energy_wh: u64_at(Endian::Little, d, p + 4),
        }
    }

    /// Writes the record at the cursor position.
    pub fn serialize(&self, buffer: &mut Cursor) -> (r: Result<()>)
        requires
            old(buffer).wf(),
        ensures
            r is Ok <==> old(buffer).pos() + Self::LENGTH <= old(buffer).data().len(),
            r is Err ==> r == Err::<(), Error>(old(buffer).too_small(Self::LENGTH as int))
                && *final(buffer) == *old(buffer),
            r is Ok ==> final(buffer).data() == splice(
                old(buffer).data(),
                old(buffer).pos(),
                self.spec_bytes(),
            ) && final(buffer).pos() == old(buffer).pos() + Self::LENGTH,
    {
        buffer.check_remaining(Self::LENGTH)?;
        buffer.write_u32(Endian::Little, self.timestamp);
        buffer.write_u64(Endian::Little, self.energy_wh);
        Ok(())
    }

    /// Reads a record at the cursor position.
    pub fn deserialize(buffer: &mut Cursor) -> (r: Result<SmaInvMeterValue>)
        requires
            old(buffer).wf(),
        ensures
            r is Ok <==> old(buffer).pos() + Self::LENGTH <= old(buffer).data().len(),
            r is Err ==> r == Err::<SmaInvMeterValue, Error>(
                old(buffer).too_small(Self::LENGTH as int),
            ) && *final(buffer) == *old(buffer),
            r is Ok ==> r == Ok::<SmaInvMeterValue, Error>(
                Self::spec_at(old(buffer).data(), old(buffer).pos()),
            ) && final(buffer).data() == old(buffer).data() && final(buffer).pos() == old(
                buffer,
            ).pos() + Self::LENGTH,
    {
        buffer.check_remaining(Self::LENGTH)?;
        let timestamp = buffer.read_u32(Endian::Little);
        let energy_wh = buffer.read_u64(Endian::Little);
        Ok(SmaInvMeterValue { timestamp, energy_wh })
    }
}

/// A meter record decodes from its bytes.
pub proof fn lemma_meter_at(v: SmaInvMeterValue, d: Seq<u8>, i: int)
    requires
        0 <= i,
        i + 12 <= d.len(),
        d.subrange(i, i + 12) == v.spec_bytes(),
    ensures
        SmaInvMeterValue::spec_at(d, i) == v,
{
    lemma_split(
        d,
        i,
        u32_bytes(Endian::Little, v.timestamp),
        u64_bytes(Endian::Little, v.energy_wh),
    );
    lemma_u32_round_trip(Endian::Little, v.timestamp, d, i);
    lemma_u64_round_trip(Endian::Little, v.energy_wh, d, i + 4);
}

} // verus!
