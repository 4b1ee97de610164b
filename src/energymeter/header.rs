use vstd::prelude::*;

use crate::cursor::{lemma_splice_concat, splice, u32_at, u32_bytes, Cursor, Endian};
use crate::error::{Error, Result};
use crate::packet::SmaEndpoint;

verus! {

broadcast use lemma_splice_concat;

/// SMA energymeter sub-protocol header.
#[derive(Clone, Copy, Debug, Default, PartialEq, Eq, Structural)]
pub struct SmaEmHeader {
    /// Source endpoint address.
    pub src: SmaEndpoint,
    /// Overflowing timestamp in milliseconds.
    pub timestamp_ms: u32,
}

impl SmaEmHeader {
    /// Serialized length of the energymeter sub-protocol header.
    pub const LENGTH: usize = 10;

    /// The endpoint, then the timestamp as big endian 32 bit word.
    pub open spec fn spec_bytes(&self) -> Seq<u8> {
        self.src.spec_bytes() + u32_bytes(Endian::Big, self.timestamp_ms)
    }

    /// The header stored at index `p` of `d`.
    pub open spec fn spec_at(d: Seq<u8>, p: int) -> SmaEmHeader {
        SmaEmHeader {
            src: SmaEndpoint::spec_at(d, p),
            timestamp_ms: u32_at(Endian::Big, d, p + 6),
        }
    }

    /// Writes the header at the cursor position.
    pub fn serialize(&self, buffer: &mut Cursor) -> (r: Result<()>)
        requires
            old(buffer).wf(),
        ensures
            r is Ok <==> old(buffer).pos() + Self::LENGTH <= old(buffer).data().len(),
            r is Err ==> r == Err::<(), Error>(old(buffer).too_small(Self::LENGTH as int))
                && *final(buffer) == *old(buffer),
            r is Ok ==> final(buffer).data() == splice(
                old(buffer).data(),
                old(buffer).pos(),
                self.spec_bytes(),
            ) && final(buffer).pos() == old(buffer).pos() + Self::LENGTH,
    {
        buffer.check_remaining(Self::LENGTH)?;
        self.src.serialize(buffer)?;
        buffer.write_u32(Endian::Big, self.timestamp_ms);
        Ok(())
    }

    /// Reads a header at the cursor position.
    pub fn deserialize(buffer: &mut Cursor) -> (r: Result<SmaEmHeader>)
        requires
            old(buffer).wf(),
        ensures
            r is Ok <==> old(buffer).pos() + Self::LENGTH <= old(buffer).data().len(),
            r is Err ==> r == Err::<SmaEmHeader, Error>(old(buffer).too_small(Self::LENGTH as int))
                && *final(buffer) == *old(buffer),
            r is Ok ==> r == Ok::<SmaEmHeader, Error>(
                Self::spec_at(old(buffer).data(), old(buffer).pos()),
            ) && final(buffer).data() == old(buffer).data() && final(buffer).pos() == old(
                buffer,
            ).pos() + Self::LENGTH,
    {
        buffer.check_remaining(Self::LENGTH)?;
        let src = SmaEndpoint::deserialize(buffer)?;
        let timestamp_ms = buffer.read_u32(Endian::Big);
        Ok(SmaEmHeader { src, timestamp_ms })
    }
}

} // verus!
