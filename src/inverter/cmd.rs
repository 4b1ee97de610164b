use vstd::prelude::*;

use crate::cursor::{
    lemma_splice_concat, lemma_split, lemma_u24_round_trip, splice, u24_at, u24_bytes, Cursor,
    Endian,
};
use crate::error::{Error, Result};

verus! {

broadcast use lemma_splice_concat;

/// A speedwire command word consisting of an opcode and a channel.
#[derive(Clone, Copy, Debug, Default, PartialEq, Eq, Structural)]
pub struct SmaCmdWord {
    /// Channel number.
    pub channel: u8,
    /// 24bit command ID.
    pub opcode: u32,
}

impl SmaCmdWord {
    /// Serialized length of the command word.
    pub const LENGTH: usize = 4;

    /// The channel byte, then the opcode as big endian 24 bit word.
    pub open spec fn spec_bytes(&self) -> Seq<u8> {
        seq![self.channel] + u24_bytes(Endian::Big, self.opcode)
    }

    /// The command word stored at index `p` of `d`.
    pub open spec fn spec_at(d: Seq<u8>, p: int) -> SmaCmdWord {
        SmaCmdWord { channel: d[p], opcode: u24_at(Endian::Big, d, p + 1) }
    }

    /// Writes the command word at the cursor position.
    pub fn serialize(&self, buffer: &mut Cursor) -> (r: Result<()>)
        requires
            old(buffer).wf(),
            self.opcode < 0x100_0000,
        ensures
            r is Ok <==> old(buffer).pos() + Self::LENGTH <= old(buffer).data().len(),
            r is Err ==> r == Err::<(), Error>(old(buffer).too_small(Self::LENGTH as int))
                && *final(buffer) == *old(buffer),
            r is Ok ==> final(buffer).data() == splice(
                old(buffer).data(),
                old(buffer).pos(),
                self.spec_bytes(),
            ) && final(buffer).pos() == old(buffer).pos() + Self::LENGTH,
    {
        buffer.check_remaining(Self::LENGTH)?;
        buffer.write_u8(self.channel);
        buffer.write_u24(Endian::Big, self.opcode);
        Ok(())
    }

    /// Reads a command word at the cursor position.
    pub fn deserialize(buffer: &mut Cursor) -> (r: Result<SmaCmdWord>)
        requires
            old(buffer).wf(),
        ensures
            r is Ok <==> old(buffer).pos() + Self::LENGTH <= old(buffer).data().len(),
            r is Err ==> r == Err::<SmaCmdWord, Error>(old(buffer).too_small(Self::LENGTH as int))
                && *final(buffer) == *old(buffer),
            r is Ok ==> r == Ok::<SmaCmdWord, Error>(
                Self::spec_at(old(buffer).data(), old(buffer).pos()),
            ) && final(buffer).data() == old(buffer).data() && final(buffer).pos() == old(
                buffer,
            ).pos() + Self::LENGTH,
    {
        buffer.check_remaining(Self::LENGTH)?;
        let channel = buffer.read_u8();
        let opcode = buffer.read_u24(Endian::Big);
        Ok(SmaCmdWord { channel, opcode })
    }
}

/// A command word with a 24 bit opcode decodes from its bytes.
pub proof fn lemma_cmd_at(c: SmaCmdWord, d: Seq<u8>, i: int)
    requires
        c.opcode < 0x100_0000,
        0 <= i,
        i + 4 <= d.len(),
        d.subrange(i, i + 4) == c.spec_bytes(),
    ensures
        SmaCmdWord::spec_at(d, i) == c,
{
    lemma_split(d, i, seq![c.channel], u24_bytes(Endian::Big, c.opcode));
    assert(d.subrange(i, i + 1)[0] == d[i]);
    lemma_u24_round_trip(Endian::Big, c.opcode, d, i + 1);
}

} // verus!
