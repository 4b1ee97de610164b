use vstd::prelude::*;

use crate::container::{BoundedVec, SmaContainer};
use crate::cursor::{
    lemma_splice_concat, lemma_split, lemma_u32_round_trip, splice, too_small, u32_bytes, zeros,
    Cursor, Endian,
};
use crate::energymeter::header::SmaEmHeader;
use crate::energymeter::obis::{
    is_short_id, is_supported_id, lemma_obis_at, parse_obis, ObisValue,
};
use crate::error::{Error, Result};
use crate::packet::{
    after_footer, lemma_body_footer, lemma_endpoint_round_trip, lemma_header_round_trip,
    parse_footer,
    parse_header, SmaEndpoint, SmaPacketFooter, SmaPacketHeader,
};

verus! {

broadcast use lemma_splice_concat;

/// Serialized length of a list of OBIS values.
pub open spec fn obis_list_len(s: Seq<ObisValue>) -> nat
    decreases s.len(),
{
    if s.len() == 0 {
        0
    } else {
        obis_list_len(s.drop_last()) + s.last().spec_len()
    }
}

/// The bytes of a list of OBIS values, one after the other.
pub open spec fn obis_list_bytes(s: Seq<ObisValue>) -> Seq<u8>
    decreases s.len(),
{
    if s.len() == 0 {
        Seq::empty()
    } else {
        obis_list_bytes(s.drop_last()) + s.last().spec_bytes()
    }
}

/// The id of the first of the first `n` values whose id is unsupported.
pub open spec fn first_unsupported(s: Seq<ObisValue>, n: int) -> Option<u32>
    decreases n,
{
    if n <= 0 {
        None
    } else {
        match first_unsupported(s, n - 1) {
            Some(id) => Some(id),
            None => if !is_supported_id(s[n - 1].id) {
                Some(s[n - 1].id)
            } else {
                None
            },
        }
    }
}

/// What reading OBIS values from index `p` of `d` yields, appended to `acc`,
/// together with the index after the last one: values are read while at
/// least 8 bytes are left before `end`, and at most 80 are accepted.
pub open spec fn parse_obis_list(d: Seq<u8>, p: int, end: int, acc: Seq<ObisValue>) -> Result<
    (Seq<ObisValue>, int),
>
    decreases end - p + 12,
{
    if p + ObisValue::LENGTH_MIN > end {
        Ok((acc, p))
    } else {
        match parse_obis(d, p) {
            Err(e) => Err(e),
            Ok(o) => if acc.len() >= SmaEmMessageBase::MAX_RECORD_COUNT {
                Err(Error::PayloadTooLarge { len: (acc.len() + 1) as usize })
            } else {
                let width: int = if is_short_id(o.id) {
                    8
                } else {
                    12
                };
                parse_obis_list(d, p + width, end, acc.push(o))
            },
        }
    }
}

/// What `SmaEmMessageBase::deserialize` yields on the bytes of `d` from index `p`.
pub open spec fn parse_em_message(d: Seq<u8>, p: int) -> Result<EmMessageView> {
    if p + SmaEmMessageBase::LENGTH_MIN > d.len() {
        Err(too_small(d, p, SmaEmMessageBase::LENGTH_MIN as int))
    } else {
        match parse_header(d, p) {
            Err(e) => Err(e),
            Ok(h) => if h.protocol != SmaPacketHeader::SMA_PROTOCOL_EM {
                Err(Error::UnsupportedProtocol { protocol: h.protocol })
            } else if p + 18 + h.data_len > d.len() {
                Err(too_small(d, p + 18, h.data_len as int))
            } else {
                let em = SmaEmHeader::spec_at(d, p + 18);
                match parse_obis_list(d, p + 28, p + 18 + h.data_len, Seq::empty()) {
                    Err(e) => Err(e),
                    Ok((payload, q)) => match parse_footer(d, q) {
                        Err(e) => Err(e),
                        Ok(_) => Ok(
                            EmMessageView { src: em.src, timestamp_ms: em.timestamp_ms, payload },
                        ),
                    },
                }
            },
        }
    }
}

/// The contents of an energymeter message.
pub struct EmMessageView {
    pub src: SmaEndpoint,
    pub timestamp_ms: u32,
    pub payload: Seq<ObisValue>,
}

impl EmMessageView {
    /// Total serialized length.
    pub open spec fn spec_len(&self) -> nat {
        (SmaEmMessageBase::LENGTH_MIN + obis_list_len(self.payload)) as nat
    }

    /// Packet header, energymeter header, OBIS values and footer.
    pub open spec fn spec_bytes(&self) -> Seq<u8> {
        SmaPacketHeader {
            data_len: (SmaEmHeader::LENGTH + obis_list_len(self.payload)) as usize,
            protocol: SmaPacketHeader::SMA_PROTOCOL_EM,
        }.spec_bytes() + (SmaEmHeader {
            src: self.src,
            timestamp_ms: self.timestamp_ms,
        }).spec_bytes() + obis_list_bytes(self.payload) + SmaPacketFooter::spec_bytes()
    }

    /// A message that decodes back to itself: at most 80 values, each valid.
    pub open spec fn valid(&self) -> bool {
        &&& self.payload.len() <= SmaEmMessageBase::MAX_RECORD_COUNT
        &&& forall|i: int| 0 <= i < self.payload.len() ==> #[trigger] self.payload[i].valid()
    }
}

/// A logical SMA energymeter message.
#[derive(Clone, Debug, Default, PartialEq, Eq)]
pub struct SmaEmMessageBase {
    /// Source endpoint address.
    pub src: SmaEndpoint,
    /// Overflowing timestamp in milliseconds.
    pub timestamp_ms: u32,
    /// Vector of OBIS data.
    pub payload: Vec<ObisValue>,
}

/// The energymeter message with heap storage for its payload.
pub type SmaEmMessage = SmaEmMessageBase;

impl View for SmaEmMessageBase {
    type V = EmMessageView;

    open spec fn view(&self) -> EmMessageView {
        EmMessageView { src: self.src, timestamp_ms: self.timestamp_ms, payload: self.payload@ }
    }
}

/// Each value adds at most 12 bytes.
pub proof fn lemma_obis_list_len_bound(s: Seq<ObisValue>)
    ensures
        obis_list_len(s) <= 12 * s.len(),
    decreases s.len(),
{
    if s.len() > 0 {
        lemma_obis_list_len_bound(s.drop_last());
    }
}

/// Prefixes of a list are no longer than the list.
proof fn lemma_obis_list_len_prefix(s: Seq<ObisValue>, i: int)
    requires
        0 <= i <= s.len(),
    ensures
        obis_list_len(s.take(i)) <= obis_list_len(s),
    decreases s.len() - i,
{
    if i < s.len() {
        lemma_obis_list_len_prefix(s, i + 1);
        assert(s.take(i + 1).drop_last() =~= s.take(i));
    } else {
        assert(s.take(i) =~= s);
    }
}

impl SmaEmMessageBase {
    /// Minimum serialized length of the energymeter message.
    pub const LENGTH_MIN: usize = 32;
    /// Maximum serialized length of the energymeter message.
    pub const LENGTH_MAX: usize = 992;
    /// Maximum number of OBIS values in the payload.
    pub const MAX_RECORD_COUNT: usize = 80;

    /// Returns total serialized message length.
    pub fn serialized_len(&self) -> (r: usize)
        requires
            self@.spec_len() <= usize::MAX,
        ensures
            r == self@.spec_len(),
    {
        let mut len: usize = Self::LENGTH_MIN;
        let mut i: usize = 0;
        while i < self.payload.len()
            invariant
                i <= self.payload@.len(),
                len == Self::LENGTH_MIN + obis_list_len(self.payload@.take(i as int)),
                Self::LENGTH_MIN + obis_list_len(self.payload@) <= usize::MAX,
            decreases self.payload@.len() - i,
        {
            proof {
                assert(self.payload@.take(i + 1).drop_last() =~= self.payload@.take(i as int));
                lemma_obis_list_len_prefix(self.payload@, i + 1);
            }
            len = len + self.payload[i].serialized_len();
            i = i + 1;
        }
        assert(self.payload@.take(i as int) =~= self.payload@);
        len
    }

    /// Writes the message at the cursor position.
    #[verifier::rlimit(60)]
    pub fn serialize(&self, buffer: &mut Cursor) -> (r: Result<()>)
        requires
            old(buffer).wf(),
        ensures
            self.payload@.len() > Self::MAX_RECORD_COUNT ==> r == Err::<(), Error>(
                Error::PayloadTooLarge { len: self.payload@.len() as usize },
            ),
            self.payload@.len() <= Self::MAX_RECORD_COUNT && old(buffer).pos() + self@.spec_len()
                > old(buffer).data().len() ==> r == Err::<(), Error>(
                old(buffer).too_small(self@.spec_len() as int),
            ),
            self.payload@.len() <= Self::MAX_RECORD_COUNT && old(buffer).pos() + self@.spec_len()
                <= old(buffer).data().len() ==> match first_unsupported(
                self.payload@,
                self.payload@.len() as int,
            ) {
                Some(id) => r == Err::<(), Error>(Error::UnsupportedObisId { id }),
                None => r is Ok,
            },
            r is Err ==> *final(buffer) == *old(buffer),
            r is Ok ==> final(buffer).data() == splice(
                old(buffer).data(),
                old(buffer).pos(),
                self@.spec_bytes(),
            ) && final(buffer).pos() == old(buffer).pos() + self@.spec_len(),
    {
        if self.payload.len() > Self::MAX_RECORD_COUNT {
            return Err(Error::PayloadTooLarge { len: self.payload.len() });
        }
        proof {
            lemma_obis_list_len_bound(self.payload@);
        }
        let len = self.serialized_len();
        buffer.check_remaining(len)?;

        let mut i: usize = 0;
        while i < self.payload.len()
            invariant
                i <= self.payload@.len() <= Self::MAX_RECORD_COUNT,
                first_unsupported(self.payload@, i as int) is None,
                old(buffer).pos() + self@.spec_len() <= old(buffer).data().len(),
                *buffer == *old(buffer),
            decreases self.payload@.len() - i,
        {
            if let Err(e) = self.payload[i].validate() {
                proof {
                    lemma_first_unsupported_stays(
                        self.payload@,
                        i + 1,
                        self.payload@.len() as int,
                    );
                }
                return Err(e);
            }
            i = i + 1;
        }

        let ghost d0 = buffer.data();
        let ghost pos0 = buffer.pos();
        let header = SmaPacketHeader {
            data_len: len - SmaPacketHeader::LENGTH - SmaPacketFooter::LENGTH,
            protocol: SmaPacketHeader::SMA_PROTOCOL_EM,
        };
        let em_header = SmaEmHeader { src: self.src, timestamp_ms: self.timestamp_ms };
        header.serialize(buffer)?;
        em_header.serialize(buffer)?;
        let ghost prefix = header.spec_bytes() + em_header.spec_bytes();

        let mut i: usize = 0;
        while i < self.payload.len()
            invariant
                i <= self.payload@.len() <= Self::MAX_RECORD_COUNT,
                first_unsupported(self.payload@, self.payload@.len() as int) is None,
                pos0 + self@.spec_len() <= d0.len() <= usize::MAX,
                0 <= pos0,
                buffer.wf(),
                buffer.data() == splice(
                    d0,
                    pos0,
                    prefix + obis_list_bytes(self.payload@.take(i as int)),
                ),
                buffer.pos() == pos0 + 28 + obis_list_len(self.payload@.take(i as int)),
                prefix.len() == 28,
            decreases self.payload@.len() - i,
        {
            proof {
                assert(self.payload@.take(i + 1).drop_last() =~= self.payload@.take(i as int));
                lemma_obis_list_len_prefix(self.payload@, i + 1);
                lemma_obis_list_bytes_len(self.payload@.take(i as int));
                lemma_first_unsupported_none(self.payload@, self.payload@.len() as int, i as int);
                assert(prefix + obis_list_bytes(self.payload@.take(i + 1)) =~= prefix
                    + obis_list_bytes(self.payload@.take(i as int))
                    + self.payload@[i as int].spec_bytes());
            }
            self.payload[i].serialize(buffer)?;
            i = i + 1;
        }
        assert(self.payload@.take(i as int) =~= self.payload@);
        proof {
            lemma_obis_list_bytes_len(self.payload@);
        }
        SmaPacketFooter {  }.serialize(buffer)?;
        assert(prefix + obis_list_bytes(self.payload@) + SmaPacketFooter::spec_bytes()
            =~= self@.spec_bytes());
        Ok(())
    }

    /// Reads a message that spans all remaining bytes of the cursor.
    #[verifier::rlimit(60)]
    pub fn deserialize(buffer: &mut Cursor) -> (r: Result<SmaEmMessageBase>)
        requires
            old(buffer).wf(),
        ensures
            match r {
                Ok(m) => parse_em_message(old(buffer).data(), old(buffer).pos()) == Ok::<
                    EmMessageView,
                    Error,
                >(m@),
                Err(e) => parse_em_message(old(buffer).data(), old(buffer).pos()) == Err::<
                    EmMessageView,
                    Error,
                >(e),
            },
            final(buffer).data() == old(buffer).data(),
            final(buffer).wf(),
            r is Ok ==> final(buffer).pos() == final(buffer).data().len(),
    {
        buffer.check_remaining(Self::LENGTH_MIN)?;
        let ghost d = buffer.data();
        let ghost p = buffer.pos();

        let header = SmaPacketHeader::deserialize(buffer)?;
        header.check_protocol(SmaPacketHeader::SMA_PROTOCOL_EM)?;
        buffer.check_remaining(header.data_len)?;
        let padding_len = buffer.remaining() - header.data_len;

        let em_header = SmaEmHeader::deserialize(buffer)?;

        let mut payload: BoundedVec<ObisValue> = BoundedVec::new(Self::MAX_RECORD_COUNT);
        while buffer.remaining() >= padding_len && buffer.remaining() - padding_len
            >= ObisValue::LENGTH_MIN
            invariant
                buffer.wf(),
                buffer.data() == d,
                d == old(buffer).data(),
                p == old(buffer).pos(),
                p + Self::LENGTH_MIN <= d.len(),
                parse_header(d, p) == Ok::<SmaPacketHeader, Error>(header),
                header.protocol == SmaPacketHeader::SMA_PROTOCOL_EM,
                p + 18 + header.data_len <= d.len(),
                em_header == SmaEmHeader::spec_at(d, p + 18),
                d.len() - padding_len == p + 18 + header.data_len,
                parse_obis_list(d, p + 28, p + 18 + header.data_len, Seq::empty())
                    == parse_obis_list(d, buffer.pos(), p + 18 + header.data_len, payload.items()),
                payload.items().len() <= payload.capacity(),
                payload.capacity() == Self::MAX_RECORD_COUNT,
            decreases d.len() - buffer.pos(),
        {
            let obis = ObisValue::deserialize(buffer)?;
            if payload.push(obis).is_err() {
                return Err(Error::PayloadTooLarge { len: payload.len() + 1 });
            }
        }

        SmaPacketFooter::deserialize(buffer)?;

        Ok(
            SmaEmMessageBase {
                src: em_header.src,
                timestamp_ms: em_header.timestamp_ms,
                payload: payload.into_vec(),
            },
        )
    }
}

/// Where the value at `i` is the first with an unsupported id, serializing
/// reports that id.
pub proof fn lemma_first_unsupported_is_first(s: Seq<ObisValue>, i: int)
    requires
        0 <= i < s.len(),
        !is_supported_id(s[i].id),
        forall|j: int| 0 <= j < i ==> is_supported_id(#[trigger] s[j].id),
    ensures
        first_unsupported(s, s.len() as int) == Some(s[i].id),
{
    lemma_first_unsupported_none_prefix(s, i);
    lemma_first_unsupported_stays(s, i + 1, s.len() as int);
}

/// Some unsupported id among the values means serializing reports one.
pub proof fn lemma_first_unsupported_exists(s: Seq<ObisValue>, i: int)
    requires
        0 <= i < s.len(),
        !is_supported_id(s[i].id),
    ensures
        first_unsupported(s, s.len() as int) is Some,
    decreases i,
{
    if forall|j: int| 0 <= j < i ==> is_supported_id(#[trigger] s[j].id) {
        lemma_first_unsupported_is_first(s, i);
    } else {
        let j = choose|j: int| 0 <= j < i && !is_supported_id(#[trigger] s[j].id);
        lemma_first_unsupported_exists(s, j);
    }
}

/// With supported ids in the first `n` values there is no unsupported one among them.
proof fn lemma_first_unsupported_none_prefix(s: Seq<ObisValue>, n: int)
    requires
        0 <= n <= s.len(),
        forall|j: int| 0 <= j < n ==> is_supported_id(#[trigger] s[j].id),
    ensures
        first_unsupported(s, n) is None,
    decreases n,
{
    if n > 0 {
        lemma_first_unsupported_none_prefix(s, n - 1);
    }
}

/// An unsupported id among the first `k` values stays the first one
/// among the first `n >= k` values.
proof fn lemma_first_unsupported_stays(s: Seq<ObisValue>, k: int, n: int)
    requires
        first_unsupported(s, k) is Some,
        k <= n,
    ensures
        first_unsupported(s, n) == first_unsupported(s, k),
    decreases n - k,
{
    if k < n {
        lemma_first_unsupported_stays(s, k, n - 1);
    }
}

/// The bytes of a list have the length the list's serialized length says.
pub proof fn lemma_obis_list_bytes_len(s: Seq<ObisValue>)
    ensures
        obis_list_bytes(s).len() == obis_list_len(s),
    decreases s.len(),
{
    if s.len() > 0 {
        lemma_obis_list_bytes_len(s.drop_last());
    }
}

/// No unsupported id among the first `n` values means none among fewer.
proof fn lemma_first_unsupported_none(s: Seq<ObisValue>, n: int, i: int)
    requires
        0 <= i < n <= s.len(),
        first_unsupported(s, n) is None,
    ensures
        is_supported_id(s[i].id),
        first_unsupported(s, i) is None,
    decreases n - i,
{
    if i + 1 < n {
        lemma_first_unsupported_none(s, n, i + 1);
    }
}

/// The bytes and length of a non-empty list start with those of its first value.
pub proof fn lemma_obis_list_front(s: Seq<ObisValue>)
    requires
        s.len() > 0,
    ensures
        obis_list_bytes(s) == s[0].spec_bytes() + obis_list_bytes(s.skip(1)),
        obis_list_len(s) == s[0].spec_len() + obis_list_len(s.skip(1)),
    decreases s.len(),
{
    if s.len() == 1 {
        assert(s.drop_last() =~= Seq::<ObisValue>::empty());
        assert(s.skip(1) =~= Seq::<ObisValue>::empty());
        assert(obis_list_bytes(s) =~= s[0].spec_bytes() + obis_list_bytes(s.skip(1)));
    } else {
        lemma_obis_list_front(s.drop_last());
        assert(s.drop_last().skip(1) =~= s.skip(1).drop_last());
        assert(obis_list_bytes(s) =~= s[0].spec_bytes() + obis_list_bytes(s.skip(1)));
    }
}

/// Valid OBIS values decode from their bytes, appended to what was read before.
#[verifier::rlimit(80)]
pub proof fn lemma_obis_list_parse(
    d: Seq<u8>,
    p: int,
    end: int,
    acc: Seq<ObisValue>,
    s: Seq<ObisValue>,
)
    requires
        0 <= p,
        end == p + obis_list_len(s),
        end <= d.len(),
        d.subrange(p, end) == obis_list_bytes(s),
        forall|i: int| 0 <= i < s.len() ==> #[trigger] s[i].valid(),
        acc.len() + s.len() <= SmaEmMessageBase::MAX_RECORD_COUNT,
    ensures
        parse_obis_list(d, p, end, acc) == Ok::<(Seq<ObisValue>, int), Error>((acc + s, end)),
    decreases s.len(),
{
    if s.len() == 0 {
        assert(acc + s =~= acc);
    } else {
        lemma_obis_list_front(s);
        lemma_obis_list_bytes_len(s.skip(1));
        assert(s[0].valid());
        assert(s[0].spec_bytes().len() == s[0].spec_len());
        lemma_split(d, p, s[0].spec_bytes(), obis_list_bytes(s.skip(1)));
        lemma_obis_at(s[0], d, p);
        assert forall|i: int| 0 <= i < s.skip(1).len() implies #[trigger] s.skip(1)[i].valid() by {
            assert(s.skip(1)[i] == s[i + 1]);
        }
        lemma_obis_list_parse(d, p + s[0].spec_len(), end, acc.push(s[0]), s.skip(1));
        assert(acc.push(s[0]) + s.skip(1) =~= acc + s);
    }
}

/// Where the parts of an energymeter message lie in its bytes.
#[verifier::rlimit(60)]
proof fn lemma_em_layout(m: EmMessageView, tail: Seq<u8>, d: Seq<u8>)
    requires
        d == m.spec_bytes() + tail,
    ensures
        d.len() == m.spec_len() + tail.len(),
        d.subrange(m.spec_len() - 4, d.len() as int) == SmaPacketFooter::spec_bytes() + tail,
        d.subrange(0, 18) == (SmaPacketHeader {
            data_len: (SmaEmHeader::LENGTH + obis_list_len(m.payload)) as usize,
            protocol: SmaPacketHeader::SMA_PROTOCOL_EM,
        }).spec_bytes(),
        d.subrange(18, 24) == m.src.spec_bytes(),
        d.subrange(24, 28) == u32_bytes(Endian::Big, m.timestamp_ms),
        d.subrange(28, (28 + obis_list_len(m.payload)) as int) == obis_list_bytes(m.payload),
{
    let h = SmaPacketHeader {
        data_len: (SmaEmHeader::LENGTH + obis_list_len(m.payload)) as usize,
        protocol: SmaPacketHeader::SMA_PROTOCOL_EM,
    };
    let e = m.src.spec_bytes();
    let t = u32_bytes(Endian::Big, m.timestamp_ms);
    let l = obis_list_bytes(m.payload);
    lemma_obis_list_bytes_len(m.payload);
    assert(h.spec_bytes().len() == 18);
    assert((SmaEmHeader { src: m.src, timestamp_ms: m.timestamp_ms }).spec_bytes() == e + t);
    assert(m.spec_bytes() == h.spec_bytes() + (e + t) + l + SmaPacketFooter::spec_bytes());
    assert(h.spec_bytes() + (e + t) + l =~= h.spec_bytes() + e + t + l);
    lemma_body_footer(d, h.spec_bytes() + e + t + l, tail);
    lemma_split(d, 0, h.spec_bytes() + e + t, l);
    lemma_split(d, 0, h.spec_bytes() + e, t);
    lemma_split(d, 0, h.spec_bytes(), e);
}

/// A valid energymeter message decodes from its bytes, also with an even
/// number of zero padding bytes after them.
#[verifier::rlimit(60)]
pub proof fn lemma_em_round_trip(m: EmMessageView, tail: Seq<u8>)
    requires
        m.valid(),
    ensures
        parse_em_message(m.spec_bytes() + tail, 0) == after_footer(
            parse_footer(m.spec_bytes() + tail, (m.spec_len() - 4) as int),
            m,
        ),
        (m.spec_bytes() + tail).subrange((m.spec_len() - 4) as int, (m.spec_bytes() + tail).len() as int)
            == SmaPacketFooter::spec_bytes() + tail,
        parse_header(m.spec_bytes() + tail, 0) == Ok::<SmaPacketHeader, Error>(
            SmaPacketHeader {
                data_len: (SmaEmHeader::LENGTH + obis_list_len(m.payload)) as usize,
                protocol: SmaPacketHeader::SMA_PROTOCOL_EM,
            },
        ),
{
    let d = m.spec_bytes() + tail;
    lemma_obis_list_len_bound(m.payload);
    lemma_em_layout(m, tail, d);
    let h = SmaPacketHeader {
        data_len: (SmaEmHeader::LENGTH + obis_list_len(m.payload)) as usize,
        protocol: SmaPacketHeader::SMA_PROTOCOL_EM,
    };
    lemma_header_round_trip(h, d, 0);
    lemma_endpoint_round_trip(m.src, d, 18);
    lemma_u32_round_trip(Endian::Big, m.timestamp_ms, d, 24);
    lemma_obis_list_parse(d, 28, (28 + obis_list_len(m.payload)) as int, Seq::empty(), m.payload);
    assert(Seq::<ObisValue>::empty() + m.payload =~= m.payload);
}

} // verus!
