use vstd::prelude::*;

use crate::cursor::{
    lemma_splice_concat, lemma_split, lemma_u32_round_trip, splice, u32_at, u32_bytes, zeros, Cursor,
    Endian,
};
use crate::error::{Error, Result};
use crate::inverter::cmd::SmaCmdWord;
use crate::inverter::counter::SmaInvCounter;
use crate::inverter::header::{
    deserialize_frame, frame_bytes, lemma_frame_round_trip, parse_inv_frame, serialize_frame,
    SmaInvHeader,
};
use crate::packet::{
    after_footer, lemma_body_footer, parse_footer, SmaEndpoint, SmaPacketFooter, SmaPacketHeader,
};

verus! {

/// A password byte as sent: 0x88 is added modulo 256. This obfuscates the
/// password for device compatibility; it is no protection at all.
pub open spec fn obfuscate(b: u8) -> u8 {
    ((b as int + 0x88) % 256) as u8
}

/// A password byte as received, with the obfuscation taken off.
pub open spec fn deobfuscate(b: u8) -> u8 {
    ((b as int + 256 - 0x88) % 256) as u8
}

/// The twelve password bytes of an ASCII password: its characters, cut
/// after twelve, then zeros.
pub open spec fn password_bytes(s: Seq<char>) -> Seq<u8> {
    Seq::new(
        SmaInvLogin::PASSWORD_LEN as nat,
        |i: int|
            if i < s.len() {
                s[i] as u8
            } else {
                0u8
            },
    )
}

/// The contents of a login message.
pub struct LoginView {
    pub dst: SmaEndpoint,
    pub src: SmaEndpoint,
    pub error_code: u16,
    pub counters: SmaInvCounter,
    pub user_group: u32,
    pub timeout: u32,
    pub timestamp: u32,
    pub password: Option<Seq<u8>>,
}

impl LoginView {
    /// A password, where there is one, has its 12 bytes.
    pub open spec fn wf(&self) -> bool {
        self.password matches Some(pw) ==> pw.len() == SmaInvLogin::PASSWORD_LEN
    }

    /// Length of the data between packet header and footer.
    pub open spec fn data_len(&self) -> nat {
        if self.password is Some {
            (SmaInvHeader::LENGTH + SmaInvLogin::PAYLOAD_MAX) as nat
        } else {
            (SmaInvHeader::LENGTH + SmaInvLogin::PAYLOAD_MIN) as nat
        }
    }

    /// Total serialized length.
    pub open spec fn spec_len(&self) -> nat {
        (SmaPacketHeader::LENGTH + self.data_len() + SmaPacketFooter::LENGTH) as nat
    }

    /// The inverter header that the message is sent with: a request carries
    /// the password, a failed response echoes it with an error code, and a
    /// successful response has none.
    pub open spec fn spec_inv_header(&self) -> SmaInvHeader {
        SmaInvHeader {
            wordcount: (self.data_len() / 4) as u8,
            class: if self.password is Some {
                if self.error_code == 0 {
                    0xA0
                } else {
                    0xD0
                }
            } else {
                0xE0
            },
            dst: self.dst,
            dst_ctrl: 1,
            src: self.src,
            src_ctrl: 1,
            error_code: self.error_code,
            counters: self.counters,
            cmd: SmaCmdWord {
                channel: if self.password is Some {
                    0x0C
                } else {
                    0x0D
                },
                opcode: SmaInvLogin::OPCODE,
            },
        }
    }

    /// User group, timeout, timestamp and a zero word, little endian,
    /// then the obfuscated password if there is one.
    pub open spec fn payload_bytes(&self) -> Seq<u8> {
        u32_bytes(Endian::Little, self.user_group) + u32_bytes(Endian::Little, self.timeout)
            + u32_bytes(Endian::Little, self.timestamp) + u32_bytes(Endian::Little, 0)
            + match self.password {
            Some(pw) => pw.map_values(|b: u8| obfuscate(b)),
            None => Seq::empty(),
        }
    }

    /// Headers, payload and footer.
    pub open spec fn spec_bytes(&self) -> Seq<u8> {
        frame_bytes(self.data_len() as usize, self.spec_inv_header()) + self.payload_bytes()
            + SmaPacketFooter::spec_bytes()
    }
}

/// What `SmaInvLogin::deserialize` yields on the bytes of `d` from index `p`.
pub open spec fn parse_login(d: Seq<u8>, p: int) -> Result<LoginView> {
    match parse_inv_frame(d, p, SmaInvLogin::LENGTH_MIN as int) {
        Err(e) => Err(e),
        Ok((h, ih)) => if ih.class != 0xA0 && ih.class != 0xD0 && ih.class != 0xE0 {
            Err(Error::UnsupportedCommandClass { class: ih.class })
        } else if ih.cmd.opcode != SmaInvLogin::OPCODE {
            Err(Error::UnsupportedOpcode { opcode: ih.cmd.opcode })
        } else if u32_at(Endian::Little, d, p + 58) != 0 {
            Err(Error::InvalidPadding { padding: u32_at(Endian::Little, d, p + 58) })
        } else {
            let long = h.data_len >= SmaInvHeader::LENGTH + SmaInvLogin::PAYLOAD_MAX;
            let q = if long {
                p + 74
            } else {
                p + 62
            };
            match parse_footer(d, q) {
                Err(e) => Err(e),
                Ok(_) => Ok(
                    LoginView {
                        dst: ih.dst,
                        src: ih.src,
                        error_code: ih.error_code,
                        counters: ih.counters,
                        user_group: u32_at(Endian::Little, d, p + 46),
                        timeout: u32_at(Endian::Little, d, p + 50),
                        timestamp: u32_at(Endian::Little, d, p + 54),
                        password: if long {
                            Some(d.subrange(p + 62, p + 74).map_values(|b: u8| deobfuscate(b)))
                        } else {
                            None
                        },
                    },
                ),
            }
        },
    }
}

/// Invalid input password error.
#[derive(Clone, Copy, Debug, PartialEq, Eq, Structural)]
pub struct InvalidPasswordError {}

/// A logical SMA inverter login message.
#[derive(Clone, Debug, PartialEq, Eq)]
pub struct SmaInvLogin {
    /// Destination application/device address.
    pub dst: SmaEndpoint,
    /// Source application/device address.
    pub src: SmaEndpoint,
    /// Non-zero in case of errors.
    pub error_code: u16,
    /// Packet counters.
    pub counters: SmaInvCounter,
    /// User group ID on the inverter.
    pub user_group: u32,
    /// Session timeout in seconds.
    pub timeout: u32,
    /// Unix timestamp of the request.
    pub timestamp: u32,
    /// Up to 12 character zero padded password.
    /// Required for command, usually absent in response.
    pub password: Option<[u8; 12]>,
}

impl View for SmaInvLogin {
    type V = LoginView;

    open spec fn view(&self) -> LoginView {
        LoginView {
            dst: self.dst,
            src: self.src,
            error_code: self.error_code,
            counters: self.counters,
            user_group: self.user_group,
            timeout: self.timeout,
            timestamp: self.timestamp,
            password: match self.password {
                Some(a) => Some(a@),
                None => None,
            },
        }
    }
}

impl Default for SmaInvLogin {
    fn default() -> (r: Self)
        ensures
            r.dst == (SmaEndpoint { susy_id: 0, serial: 0 }) && r.src == (SmaEndpoint { susy_id: 0, serial: 0 }),
            r.error_code == 0,
            r.counters == (SmaInvCounter { fragment_id: 0, packet_id: 0, first_fragment: true }),
            r.user_group == 7,
            r.timeout == 900,
            r.timestamp == 0,
            r.password is None,
    {
        SmaInvLogin {
            dst: SmaEndpoint { susy_id: 0, serial: 0 },
            src: SmaEndpoint { susy_id: 0, serial: 0 },
            error_code: 0,
            counters: SmaInvCounter { fragment_id: 0, packet_id: 0, first_fragment: true },
            user_group: 7,
            timeout: 900,
            timestamp: 0,
            password: None,
        }
    }
}

impl SmaInvLogin {
    pub const OPCODE: u32 = 0x04FDFF;
    /// Serialized length without password.
    pub const LENGTH_MIN: usize = 66;
    /// Serialized length with password.
    pub const LENGTH_MAX: usize = 78;
    pub const PAYLOAD_MIN: usize = 16;
    pub const PAYLOAD_MAX: usize = 28;
    pub const PASSWORD_LEN: usize = 12;

    /// Converts a password to its twelve zero padded bytes. Only ASCII
    /// passwords are accepted; characters after the twelfth are dropped.
    pub fn pw_from_str(passwd: &str) -> (r: core::result::Result<[u8; 12], InvalidPasswordError>)
        ensures
            r is Ok <==> vstd::string::is_ascii(passwd),
            r is Ok ==> r->Ok_0@ == password_bytes(passwd@),
    {
        if !passwd.is_ascii() {
            return Err(InvalidPasswordError {  });
        }
        let bytes = passwd.as_bytes();
        proof {
            vstd::string::is_ascii_spec_bytes(passwd);
        }
        let mut buffer = [0u8; 12];
        let mut i: usize = 0;
        while i < 12 && i < bytes.len()
            invariant
                i <= 12,
                bytes@ == Seq::new(passwd@.len(), |k: int| passwd@[k] as u8),
                buffer@.len() == 12,
                forall|k: int| 0 <= k < i ==> buffer@[k] == password_bytes(passwd@)[k],
                forall|k: int| i <= k < 12 ==> buffer@[k] == 0,
            decreases 12 - i,
        {
            buffer[i] = bytes[i];
            i = i + 1;
        }
        assert(buffer@ =~= password_bytes(passwd@));
        Ok(buffer)
    }

    /// Writes the message at the cursor position.
    #[verifier::rlimit(60)]
    pub fn serialize(&self, buffer: &mut Cursor) -> (r: Result<()>)
        requires
            old(buffer).wf(),
        ensures
            r is Ok <==> old(buffer).pos() + self@.spec_len() <= old(buffer).data().len(),
            r is Err ==> r == Err::<(), Error>(old(buffer).too_small(self@.spec_len() as int))
                && *final(buffer) == *old(buffer),
            r is Ok ==> final(buffer).data() == splice(
                old(buffer).data(),
                old(buffer).pos(),
                self@.spec_bytes(),
            ) && final(buffer).pos() == old(buffer).pos() + self@.spec_len(),
    {
        let len = if self.password.is_some() {
            Self::LENGTH_MAX
        } else {
            Self::LENGTH_MIN
        };
        buffer.check_remaining(len)?;
        let ghost d0 = buffer.data();
        let ghost pos0 = buffer.pos();

        let (class, channel) = if self.password.is_some() {
            if self.error_code == 0 {
                (0xA0u8, 0x0Cu8)
            } else {
                (0xD0u8, 0x0Cu8)
            }
        } else {
            (0xE0u8, 0x0Du8)
        };
        let data_len = len - SmaPacketHeader::LENGTH - SmaPacketFooter::LENGTH;
        let inv_header = SmaInvHeader {
            wordcount: (data_len / 4) as u8,
            class,
            dst: self.dst,
            dst_ctrl: 1,
            src: self.src,
            src_ctrl: 1,
            error_code: self.error_code,
            counters: self.counters,
            cmd: SmaCmdWord { channel, opcode: Self::OPCODE },
        };
        serialize_frame(buffer, data_len, &inv_header);
        assert(inv_header == self@.spec_inv_header());
        let ghost a0 = frame_bytes(data_len, inv_header);

        buffer.write_u32(Endian::Little, self.user_group);
        proof {
            lemma_splice_concat(d0, pos0, a0, u32_bytes(Endian::Little, self.user_group));
        }
        let ghost a1 = a0 + u32_bytes(Endian::Little, self.user_group);
        buffer.write_u32(Endian::Little, self.timeout);
        proof {
            lemma_splice_concat(d0, pos0, a1, u32_bytes(Endian::Little, self.timeout));
        }
        let ghost a2 = a1 + u32_bytes(Endian::Little, self.timeout);
        buffer.write_u32(Endian::Little, self.timestamp);
        proof {
            lemma_splice_concat(d0, pos0, a2, u32_bytes(Endian::Little, self.timestamp));
        }
        let ghost a3 = a2 + u32_bytes(Endian::Little, self.timestamp);
        buffer.write_u32(Endian::Little, 0);
        proof {
            lemma_splice_concat(d0, pos0, a3, u32_bytes(Endian::Little, 0));
        }
        let ghost a4 = a3 + u32_bytes(Endian::Little, 0);

        let ghost mut pw_bytes: Seq<u8> = Seq::empty();
        if let Some(password) = &self.password {
            let mut encoded = [0u8; 12];
            let mut i: usize = 0;
            while i < 12
                invariant
                    i <= 12,
                    encoded@.len() == 12,
                    forall|k: int| 0 <= k < i ==> encoded@[k] == obfuscate(password@[k]),
                decreases 12 - i,
            {
                encoded[i] = password[i].wrapping_add(0x88);
                i = i + 1;
            }
            buffer.write_bytes(encoded.as_slice());
            proof {
                pw_bytes = encoded@;
                assert(pw_bytes =~= password@.map_values(|b: u8| obfuscate(b)));
                lemma_splice_concat(d0, pos0, a4, pw_bytes);
            }
        } else {
            assert(a4 + pw_bytes =~= a4);
        }
        SmaPacketFooter {  }.serialize(buffer)?;
        proof {
            lemma_splice_concat(d0, pos0, a4 + pw_bytes, SmaPacketFooter::spec_bytes());
            assert(a4 + pw_bytes + SmaPacketFooter::spec_bytes() =~= self@.spec_bytes());
        }
        Ok(())
    }

    /// Reads a login message that spans all remaining bytes of the cursor.
    #[verifier::rlimit(60)]
    pub fn deserialize(buffer: &mut Cursor) -> (r: Result<SmaInvLogin>)
        requires
            old(buffer).wf(),
        ensures
            match r {
                Ok(m) => parse_login(old(buffer).data(), old(buffer).pos()) == Ok::<
                    LoginView,
                    Error,
                >(m@),
                Err(e) => parse_login(old(buffer).data(), old(buffer).pos()) == Err::<
                    LoginView,
                    Error,
                >(e),
            },
            final(buffer).data() == old(buffer).data(),
            final(buffer).wf(),
            r is Ok ==> final(buffer).pos() == final(buffer).data().len(),
    {
        let ghost d = buffer.data();
        let ghost p = buffer.pos();
        let (header, inv_header) = deserialize_frame(buffer, Self::LENGTH_MIN)?;
        if inv_header.check_class(0xA0).is_err() && inv_header.check_class(0xD0).is_err() {
            inv_header.check_class(0xE0)?;
        }
        inv_header.check_opcode(Self::OPCODE)?;

        let user_group = buffer.read_u32(Endian::Little);
        let timeout = buffer.read_u32(Endian::Little);
        let timestamp = buffer.read_u32(Endian::Little);
        let padding = buffer.read_u32(Endian::Little);
        if padding != 0 {
            return Err(Error::InvalidPadding { padding });
        }

        let password = if header.data_len >= SmaInvHeader::LENGTH + Self::PAYLOAD_MAX {
            let mut password = [0u8; 12];
            let mut i: usize = 0;
            while i < 12
                invariant
                    i <= 12,
                    buffer.wf(),
                    buffer.data() == d,
                    buffer.pos() == p + 62 + i,
                    p + 74 <= d.len(),
                    password@.len() == 12,
                    forall|k: int| 0 <= k < i ==> password@[k] == deobfuscate(d[p + 62 + k]),
                decreases 12 - i,
            {
                password[i] = buffer.read_u8().wrapping_sub(0x88);
                i = i + 1;
            }
            assert(password@ =~= d.subrange(p + 62, p + 74).map_values(|b: u8| deobfuscate(b)));
            Some(password)
        } else {
            None
        };

        SmaPacketFooter::deserialize(buffer)?;

        Ok(
            SmaInvLogin {
                dst: inv_header.dst,
                src: inv_header.src,
                error_code: inv_header.error_code,
                counters: inv_header.counters,
                user_group,
                timeout,
                timestamp,
                password,
            },
        )
    }
}

/// Taking the obfuscation off obfuscated bytes gives the bytes back.
#[verifier::rlimit(60)]
pub proof fn lemma_obfuscation_round_trip(p: Seq<u8>)
    ensures
        p.map_values(|x: u8| obfuscate(x)).map_values(|x: u8| deobfuscate(x)) == p,
{
    assert forall|i: int| 0 <= i < p.len() implies deobfuscate(obfuscate(#[trigger] p[i])) == p[i] by {
        let x = p[i];
        assert(deobfuscate(obfuscate(x)) == x);
    }
    assert(p.map_values(|x: u8| obfuscate(x)).map_values(|x: u8| deobfuscate(x)) =~= p);
}

/// Where the fields of a login message lie in its bytes.
#[verifier::rlimit(60)]
proof fn lemma_login_layout(m: LoginView, tail: Seq<u8>, d: Seq<u8>)
    requires
        m.wf(),
        d == m.spec_bytes() + tail,
    ensures
        d.len() == m.spec_len() + tail.len(),
        d.subrange(m.spec_len() - 4, d.len() as int) == SmaPacketFooter::spec_bytes() + tail,
        d.subrange(0, 46) == frame_bytes(m.data_len() as usize, m.spec_inv_header()),
        d.subrange(46, 50) == u32_bytes(Endian::Little, m.user_group),
        d.subrange(50, 54) == u32_bytes(Endian::Little, m.timeout),
        d.subrange(54, 58) == u32_bytes(Endian::Little, m.timestamp),
        d.subrange(58, 62) == u32_bytes(Endian::Little, 0),
        m.password matches Some(pw) ==> d.subrange(62, 74) == pw.map_values(|x: u8| obfuscate(x)),
{
    let ih = m.spec_inv_header();
    let f = frame_bytes(m.data_len() as usize, ih);
    let a = u32_bytes(Endian::Little, m.user_group);
    let b = u32_bytes(Endian::Little, m.timeout);
    let c = u32_bytes(Endian::Little, m.timestamp);
    let z = u32_bytes(Endian::Little, 0);
    let pw = match m.password {
        Some(pw) => pw.map_values(|x: u8| obfuscate(x)),
        None => Seq::empty(),
    };
    assert(f.len() == 46);
    assert(m.payload_bytes() == a + b + c + z + pw);
    assert(m.spec_bytes() == f + (a + b + c + z + pw) + SmaPacketFooter::spec_bytes());
    assert(f + (a + b + c + z + pw) =~= f + a + b + c + z + pw);
    lemma_body_footer(d, f + a + b + c + z + pw, tail);
    lemma_split(d, 0, f + a + b + c + z, pw);
    lemma_split(d, 0, f + a + b + c, z);
    lemma_split(d, 0, f + a + b, c);
    lemma_split(d, 0, f + a, b);
    lemma_split(d, 0, f, a);
    assert(m.data_len() + 18 == 62 + pw.len());
}

/// A well-formed login message with a packet id below 0x8000 decodes from
/// its bytes, also with an even number of zero padding bytes after them.
#[verifier::rlimit(60)]
pub proof fn lemma_login_round_trip(m: LoginView, tail: Seq<u8>)
    requires
        m.wf(),
        m.counters.packet_id < 0x8000,
    ensures
        parse_login(m.spec_bytes() + tail, 0) == after_footer(
            parse_footer(m.spec_bytes() + tail, (m.spec_len() - 4) as int),
            m,
        ),
        (m.spec_bytes() + tail).subrange((m.spec_len() - 4) as int, (m.spec_bytes() + tail).len() as int)
            == SmaPacketFooter::spec_bytes() + tail,
        parse_inv_frame(m.spec_bytes() + tail, 0, SmaInvLogin::LENGTH_MIN as int) == Ok::<
            (SmaPacketHeader, SmaInvHeader),
            Error,
        >(
            (
                SmaPacketHeader { data_len: m.data_len() as usize, protocol: SmaPacketHeader::SMA_PROTOCOL_INV },
                m.spec_inv_header(),
            ),
        ),
{
    let d = m.spec_bytes() + tail;
    lemma_login_layout(m, tail, d);
    lemma_frame_round_trip(
        m.data_len() as usize,
        m.spec_inv_header(),
        d,
        0,
        SmaInvLogin::LENGTH_MIN as int,
    );
    lemma_u32_round_trip(Endian::Little, m.user_group, d, 46);
    lemma_u32_round_trip(Endian::Little, m.timeout, d, 50);
    lemma_u32_round_trip(Endian::Little, m.timestamp, d, 54);
    lemma_u32_round_trip(Endian::Little, 0, d, 58);
    if let Some(p) = m.password {
        lemma_obfuscation_round_trip(p);
    }
}

} // verus!
