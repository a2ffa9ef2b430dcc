//! The fixed twelve octets at the start of every message.

use vstd::prelude::*;
use crate::dns_error::DnsError;
use crate::wire::{be16, be16_bytes, push_u16};

verus! {

/// What a [`Header`] holds.
pub ghost struct HeaderView {
    pub id: u16,
    pub flags: u16,
    pub qdcount: u16,
    pub ancount: u16,
    pub nscount: u16,
    pub arcount: u16,
}

/// The header of a message: the identifier of the transaction, the flags, and
/// how many entries each of the four sections holds.
#[derive(Debug, Clone, Copy, PartialEq, Eq)]
pub struct Header {
    /// Chosen by whoever asks, and repeated in the reply.
    pub id: u16,
    flags: u16,
    qdcount: u16,
    ancount: u16,
    nscount: u16,
    arcount: u16,
}

impl View for Header {
    type V = HeaderView;

    closed spec fn view(&self) -> HeaderView {
        HeaderView {
            id: self.id,
            flags: self.flags,
            qdcount: self.qdcount,
            ancount: self.ancount,
            nscount: self.nscount,
            arcount: self.arcount,
        }
    }
}

/// The opcode: the four bits below the highest one.
pub open spec fn opcode_bits(flags: u16) -> u16 {
    (flags & 0x7800) >> 11
}

/// The reserved field Z: the three bits above the lowest four.
pub open spec fn z_bits(flags: u16) -> u16 {
    (flags & 0x0070) >> 4
}

/// The response code: the lowest four bits.
pub open spec fn rcode_bits(flags: u16) -> u16 {
    flags & 0x000F
}

/// Whether `flags` may be stored, and if not, the first field that forbids it:
/// the opcode is looked at before Z, and Z before the response code.
pub open spec fn check_flags(flags: u16) -> Result<(), DnsError> {
    if opcode_bits(flags) > 2 {
        Err(DnsError::InvalidOpcodeFlag(opcode_bits(flags) as i32))
    } else if z_bits(flags) != 0 {
        Err(DnsError::InvalidZFlag(z_bits(flags) as i32))
    } else if rcode_bits(flags) > 5 {
        Err(DnsError::InvalidRcodeFlag(rcode_bits(flags) as i32))
    } else {
        Ok(())
    }
}

/// The three checked fields are the digits of `flags` that the layout
/// `QR(1) Opcode(4) AA(1) TC(1) RD(1) RA(1) Z(3) RCODE(4)` gives them.
pub proof fn lemma_flag_fields(flags: u16)
    ensures
        opcode_bits(flags) == (flags / 2048) % 16,
        z_bits(flags) == (flags / 16) % 8,
        rcode_bits(flags) == flags % 16,
{
    assert((flags & 0x7800) >> 11 == (flags / 2048) % 16) by (bit_vector);
    assert((flags & 0x0070) >> 4 == (flags / 16) % 8) by (bit_vector);
    assert(flags & 0x000F == flags % 16) by (bit_vector);
}

/// The twelve octets of a header: six 16-bit numbers, each high octet first.
pub open spec fn header_bytes(h: HeaderView) -> Seq<u8> {
    be16_bytes(h.id) + be16_bytes(h.flags) + be16_bytes(h.qdcount) + be16_bytes(h.ancount)
        + be16_bytes(h.nscount) + be16_bytes(h.arcount)
}

/// The header that the first twelve octets of `buf` spell out.
pub open spec fn parse_header(buf: Seq<u8>) -> HeaderView
    recommends
        buf.len() >= 12,
{
    HeaderView {
        id: be16(buf[0], buf[1]),
        flags: be16(buf[2], buf[3]),
        qdcount: be16(buf[4], buf[5]),
        ancount: be16(buf[6], buf[7]),
        nscount: be16(buf[8], buf[9]),
        arcount: be16(buf[10], buf[11]),
    }
}

/// A header is twelve octets long, and parsing them gives the header back,
/// whatever follows them.
pub proof fn lemma_header_round_trip(h: HeaderView, rest: Seq<u8>)
    ensures
        header_bytes(h).len() == 12,
        parse_header(header_bytes(h) + rest) == h,
{
    let b = header_bytes(h) + rest;
    assert(header_bytes(h).len() == 12);
    assert(b[0] == (h.id / 256) as u8);
    assert(b[1] == (h.id % 256) as u8);
    assert(b[2] == (h.flags / 256) as u8);
    assert(b[3] == (h.flags % 256) as u8);
    assert(b[4] == (h.qdcount / 256) as u8);
    assert(b[5] == (h.qdcount % 256) as u8);
    assert(b[6] == (h.ancount / 256) as u8);
    assert(b[7] == (h.ancount % 256) as u8);
    assert(b[8] == (h.nscount / 256) as u8);
    assert(b[9] == (h.nscount % 256) as u8);
    assert(b[10] == (h.arcount / 256) as u8);
    assert(b[11] == (h.arcount % 256) as u8);
}

/// `rand::random::<u16>()`: a number drawn from the generator of the thread.
/// Nothing is claimed of it: any 16-bit number may come back. The generator
/// is seeded by the operating system when a thread first uses it, and the
/// call panics where the system has no seed to give.
#[verifier::external_body]
fn random_id() -> (id: u16) {
    rand::random::<u16>()
}

impl Header {
    /// A header for a new query: an identifier drawn at random, no flag set,
    /// and all four counts zero.
    pub fn new() -> (h: Header)
        ensures
            h@ == Header::fresh(h@.id),
    {
        Header::with_id(random_id())
    }

    /// What a new header with the identifier `id` holds.
    pub open spec fn fresh(id: u16) -> HeaderView {
        HeaderView { id, flags: 0, qdcount: 0, ancount: 0, nscount: 0, arcount: 0 }
    }

    /// A header for a new query with the identifier `id`.
    pub fn with_id(id: u16) -> (h: Header)
        ensures
            h@ == Header::fresh(id),
    {
        Header { id, flags: 0, qdcount: 0, ancount: 0, nscount: 0, arcount: 0 }
    }

    /// Replaces the identifier and leaves the rest as it is.
    pub fn set_id(&mut self, id: u16)
        ensures
            final(self)@ == (HeaderView { id, ..old(self)@ }),
    {
        self.id = id;
    }

    /// Stores `flags` if its opcode is at most 2, its Z bits are zero and its
    /// response code is at most 5; otherwise reports the first of these that
    /// fails and changes nothing. The other bits are stored as they come.
    pub fn set_flags(&mut self, flags: u16) -> (r: Result<(), DnsError>)
        ensures
            r == check_flags(flags),
            r is Ok ==> final(self)@ == (HeaderView { flags, ..old(self)@ }),
            r is Err ==> final(self)@ == old(self)@,
    {
        let opcode: u16 = (flags & 0x7800) >> 11;
        if opcode > 2 {
            return Err(DnsError::InvalidOpcodeFlag(opcode as i32));
        }
        let z: u16 = (flags & 0x0070) >> 4;
        if z != 0 {
            return Err(DnsError::InvalidZFlag(z as i32));
        }
        let rcode: u16 = flags & 0x000F;
        if rcode > 5 {
            return Err(DnsError::InvalidRcodeFlag(rcode as i32));
        }
        self.flags = flags;
        Ok(())
    }

    /// Replaces the count of questions and leaves the rest as it is.
    pub(crate) fn set_qdcount(&mut self, qdcount: u16)
        ensures
            final(self)@ == (HeaderView { qdcount, ..old(self)@ }),
    {
        self.qdcount = qdcount;
    }

    /// The identifier.
    pub fn id(&self) -> (r: u16)
        ensures
            r == self@.id,
    {
        self.id
    }

    /// The flags, all sixteen bits.
    pub fn flags(&self) -> (r: u16)
        ensures
            r == self@.flags,
    {
        self.flags
    }

    /// How many questions the message holds.
    pub fn qdcount(&self) -> (r: u16)
        ensures
            r == self@.qdcount,
    {
        self.qdcount
    }

    /// How many answer records the message holds.
    pub fn ancount(&self) -> (r: u16)
        ensures
            r == self@.ancount,
    {
        self.ancount
    }

    /// How many authority records the message holds.
    pub fn nscount(&self) -> (r: u16)
        ensures
            r == self@.nscount,
    {
        self.nscount
    }

    /// How many additional records the message holds.
    pub fn arcount(&self) -> (r: u16)
        ensures
            r == self@.arcount,
    {
        self.arcount
    }

    /// The twelve octets of this header.
    pub fn encode(&self) -> (out: Vec<u8>)
        ensures
            out@ == header_bytes(self@),
    {
        let mut out: Vec<u8> = Vec::new();
        push_u16(&mut out, self.id);
        push_u16(&mut out, self.flags);
        push_u16(&mut out, self.qdcount);
        push_u16(&mut out, self.ancount);
        push_u16(&mut out, self.nscount);
        push_u16(&mut out, self.arcount);
        assert(out@ =~= header_bytes(self@));
        out
    }

    /// Reads a header from the first twelve octets of `buf`. No field is
    /// checked: what arrives is kept as it is.
    pub fn decode(buf: &[u8]) -> (h: Header)
        requires
            buf@.len() >= 12,
        ensures
            h@ == parse_header(buf@),
    {
        Header {
            id: buf[0] as u16 * 256 + buf[1] as u16,
            flags: buf[2] as u16 * 256 + buf[3] as u16,
            qdcount: buf[4] as u16 * 256 + buf[5] as u16,
            ancount: buf[6] as u16 * 256 + buf[7] as u16,
            nscount: buf[8] as u16 * 256 + buf[9] as u16,
            arcount: buf[10] as u16 * 256 + buf[11] as u16,
        }
    }
}

impl Default for Header {
    /// The same as [`Header::new`].
    fn default() -> (h: Header)
        ensures
            h@ == Header::fresh(h@.id),
    {
        Header::new()
    }
}

} // verus!
