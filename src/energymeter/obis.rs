use vstd::prelude::*;

use crate::cursor::{
    lemma_splice_concat, lemma_split, lemma_u32_round_trip, lemma_u64_round_trip, splice,
    too_small, u32_at, u32_bytes, u64_at, u64_bytes, Cursor, Endian,
};
use crate::error::{Error, Result};

verus! {

broadcast use lemma_splice_concat;

/// OBIS ids whose value travels as 32 bit word: the software version
/// marker and the instantaneous quantities.
pub open spec fn is_short_id(id: u32) -> bool {
    id == 0x90000000 || id & 0xFF00 == 0x0400
}

/// OBIS ids of cumulative quantities, whose value travels as 64 bit word.
pub open spec fn is_long_id(id: u32) -> bool {
    id & 0xFF00 == 0x0800
}

/// The OBIS id families that this library encodes and decodes.
pub open spec fn is_supported_id(id: u32) -> bool {
    is_short_id(id) || is_long_id(id)
}

/// What `ObisValue::deserialize` yields on the bytes of `d` from index `p`.
pub open spec fn parse_obis(d: Seq<u8>, p: int) -> Result<ObisValue> {
    let id = u32_at(Endian::Big, d, p + 0);
    if p + ObisValue::LENGTH_MIN > d.len() {
        Err(too_small(d, p, ObisValue::LENGTH_MIN as int))
    } else if is_short_id(id) {
        Ok(ObisValue { id, value: u32_at(Endian::Big, d, p + 4) as u64 })
    } else if is_long_id(id) {
        if p + 4 + 8 > d.len() {
            Err(too_small(d, p + 4, 8))
        } else {
            Ok(ObisValue { id, value: u64_at(Endian::Big, d, p + 4) })
        }
    } else {
        Err(Error::UnsupportedObisId { id })
    }
}

/// A tuple consisting of an OBIS ID and its value.
#[derive(Clone, Copy, Debug, PartialEq, Eq, Structural)]
pub struct ObisValue {
    /// 32bit encoded OBIS number.
    pub id: u32,
    /// Value of up to 64bit.
    /// The actual size and unit is determined by the OBIS ID.
    pub value: u64,
}

impl ObisValue {
    /// Minimum serialized length of one OBIS value.
    pub const LENGTH_MIN: usize = 8;
    /// Maximum serialized length of one OBIS value.
    pub const LENGTH_MAX: usize = 12;

    /// Serialized length: 8 or 12 bytes by id family, 0 for an unsupported id.
    pub open spec fn spec_len(&self) -> nat {
        if is_short_id(self.id) {
            8
        } else if is_long_id(self.id) {
            12
        } else {
            0
        }
    }

    /// The id, then the value in the width of its family, both big endian.
    pub open spec fn spec_bytes(&self) -> Seq<u8> {
        if is_short_id(self.id) {
            u32_bytes(Endian::Big, self.id) + u32_bytes(Endian::Big, self.value as u32)
        } else if is_long_id(self.id) {
            u32_bytes(Endian::Big, self.id) + u64_bytes(Endian::Big, self.value)
        } else {
            Seq::empty()
        }
    }

    /// A value that decodes back to itself: a supported id, and a value
    /// that fits in 32 bits where the id family sends 32 bits.
    pub open spec fn valid(&self) -> bool {
        is_supported_id(self.id) && (is_short_id(self.id) ==> self.value < 0x1_0000_0000)
    }

    /// Serialized length of this OBIS value.
    pub fn serialized_len(&self) -> (r: usize)
        ensures
            r == self.spec_len(),
    {
        if self.id == 0x90000000 || self.id & 0xFF00 == 0x0400 {
            8
        } else if self.id & 0xFF00 == 0x0800 {
            12
        } else {
            0
        }
    }

    /// Checks if the OBIS ID is valid and supported.
    pub fn validate(&self) -> (r: Result<()>)
        ensures
            r is Ok <==> is_supported_id(self.id),
            r is Err ==> r == Err::<(), Error>(Error::UnsupportedObisId { id: self.id }),
    {
        if self.id == 0x90000000 || self.id & 0xFF00 == 0x0400 || self.id & 0xFF00 == 0x0800 {
            Ok(())
        } else {
            Err(Error::UnsupportedObisId { id: self.id })
        }
    }

    /// Writes the OBIS value at the cursor position.
    pub fn serialize(&self, buffer: &mut Cursor) -> (r: Result<()>)
        requires
            old(buffer).wf(),
        ensures
            r is Ok <==> is_supported_id(self.id) && old(buffer).pos() + self.spec_len() <= old(
                buffer,
            ).data().len(),
            !is_supported_id(self.id) ==> r == Err::<(), Error>(
                Error::UnsupportedObisId { id: self.id },
            ),
            is_supported_id(self.id) && r is Err ==> r == Err::<(), Error>(
                old(buffer).too_small(self.spec_len() as int),
            ),
            r is Err ==> *final(buffer) == *old(buffer),
            r is Ok ==> final(buffer).data() == splice(
                old(buffer).data(),
                old(buffer).pos(),
                self.spec_bytes(),
            ) && final(buffer).pos() == old(buffer).pos() + self.spec_len(),
    {
        self.validate()?;
        buffer.check_remaining(self.serialized_len())?;

        buffer.write_u32(Endian::Big, self.id);
        if self.id == 0x90000000 || self.id & 0xFF00 == 0x0400 {
            buffer.write_u32(Endian::Big, self.value as u32);
        } else {
            buffer.write_u64(Endian::Big, self.value);
        }
        Ok(())
    }

    /// Reads an OBIS value at the cursor position.
    pub fn deserialize(buffer: &mut Cursor) -> (r: Result<ObisValue>)
        requires
            old(buffer).wf(),
        ensures
            r == parse_obis(old(buffer).data(), old(buffer).pos()),
            final(buffer).data() == old(buffer).data(),
            final(buffer).wf(),
            r is Ok ==> final(buffer).pos() == old(buffer).pos() + r->Ok_0.spec_len(),
    {
        buffer.check_remaining(Self::LENGTH_MIN)?;

        let id = buffer.read_u32(Endian::Big);
        let value = if id == 0x90000000 || id & 0xFF00 == 0x0400 {
            buffer.read_u32(Endian::Big) as u64
        } else if id & 0xFF00 == 0x0800 {
            buffer.check_remaining(8)?;
            buffer.read_u64(Endian::Big)
        } else {
            return Err(Error::UnsupportedObisId { id });
        };

        Ok(ObisValue { id, value })
    }
}

/// A valid OBIS value decodes from its bytes.
pub proof fn lemma_obis_at(o: ObisValue, d: Seq<u8>, p: int)
    requires
        o.valid(),
        0 <= p,
        p + o.spec_len() <= d.len(),
        d.subrange(p, p + o.spec_len()) == o.spec_bytes(),
    ensures
        parse_obis(d, p) == Ok::<ObisValue, Error>(o),
{
    if is_short_id(o.id) {
        lemma_split(d, p, u32_bytes(Endian::Big, o.id), u32_bytes(Endian::Big, o.value as u32));
        lemma_u32_round_trip(Endian::Big, o.id, d, p);
        lemma_u32_round_trip(Endian::Big, o.value as u32, d, p + 4);
    } else {
        lemma_split(d, p, u32_bytes(Endian::Big, o.id), u64_bytes(Endian::Big, o.value));
        lemma_u32_round_trip(Endian::Big, o.id, d, p);
        lemma_u64_round_trip(Endian::Big, o.value, d, p + 4);
    }
}

/// OBIS validation: a decoded value always has a supported id, and an id
/// outside the three supported families fails with `UnsupportedObisId`.
pub proof fn lemma_obis_validation(d: Seq<u8>, p: int)
    requires
        0 <= p,
        p + ObisValue::LENGTH_MIN <= d.len(),
    ensures
        parse_obis(d, p) is Ok ==> is_supported_id(parse_obis(d, p)->Ok_0.id),
        !is_supported_id(u32_at(Endian::Big, d, p)) ==> parse_obis(d, p) == Err::<ObisValue, Error>(
            Error::UnsupportedObisId { id: u32_at(Endian::Big, d, p) },
        ),
{
}

} // verus!
