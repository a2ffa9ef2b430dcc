//! One record of the answer, authority or additional section.

use vstd::prelude::*;
use crate::dns_error::DnsError;
use crate::name::{decode_name, decode_name_spec, lemma_parsed_name_is_labels};
use crate::wire::{extend_from_range, read_u16, read_u32, u16_at, u32_at};

verus! {

/// What a [`Resource`] holds.
pub ghost struct ResourceView {
    pub name: Seq<u8>,
    pub rtype: u16,
    pub rclass: u16,
    pub ttl: u32,
    pub rdlength: u16,
    pub rdata: Seq<u8>,
}

/// A resource record: the name it belongs to, its type and class, how many
/// seconds it may be kept, and its data, which is carried as it came.
#[derive(Debug, PartialEq, Eq)]
pub struct Resource {
    name: Vec<u8>,
    rtype: u16,
    rclass: u16,
    ttl: u32,
    rdlength: u16,
    rdata: Vec<u8>,
}

impl View for Resource {
    type V = ResourceView;

    closed spec fn view(&self) -> ResourceView {
        ResourceView {
            name: self.name@,
            rtype: self.rtype,
            rclass: self.rclass,
            ttl: self.ttl,
            rdlength: self.rdlength,
            rdata: self.rdata@,
        }
    }
}

/// The record at `pos` in `buf` and the place behind it: a name, type and
/// class, the time to live, the length of the data and the data itself. There
/// is none where the name cannot be read or `buf` ends before the data does.
pub open spec fn parse_resource(buf: Seq<u8>, pos: int) -> Option<(ResourceView, int)> {
    match decode_name_spec(buf, pos) {
        Some((name, p)) => match (
            u16_at(buf, p),
            u16_at(buf, p + 2),
            u32_at(buf, p + 4),
            u16_at(buf, p + 8),
        ) {
            (Some(rtype), Some(rclass), Some(ttl), Some(rdlength)) => if p + 10 + rdlength
                <= buf.len() {
                Some(
                    (
                        ResourceView {
                            name,
                            rtype,
                            rclass,
                            ttl,
                            rdlength,
                            rdata: buf.subrange(p + 10, p + 10 + rdlength),
                        },
                        p + 10 + rdlength,
                    ),
                )
            } else {
                None
            },
            _ => None,
        },
        None => None,
    }
}

/// A record that was read holds as many octets of data as its length says,
/// and the place behind it lies behind `pos` and inside `buf`.
pub proof fn lemma_parsed_resource(buf: Seq<u8>, pos: int)
    ensures
        parse_resource(buf, pos) matches Some((r, end)) ==> r.rdata.len() == r.rdlength && pos
            < end <= buf.len(),
{
    lemma_parsed_name_is_labels(buf, pos, pos);
}

impl Resource {
    /// The invariant of a record: the length it states is that of its data.
    #[verifier::type_invariant]
    spec fn length_agrees(self) -> bool {
        self.rdlength == self.rdata@.len()
    }

    /// The name the record belongs to, with its labels written out.
    pub fn name(&self) -> (r: &Vec<u8>)
        ensures
            r@ == self@.name,
    {
        &self.name
    }

    /// The type of the record.
    pub fn rtype(&self) -> (r: u16)
        ensures
            r == self@.rtype,
    {
        self.rtype
    }

    /// The class of the record.
    pub fn rclass(&self) -> (r: u16)
        ensures
            r == self@.rclass,
    {
        self.rclass
    }

    /// For how many seconds the record may be kept; 0 means not at all.
    pub fn ttl(&self) -> (r: u32)
        ensures
            r == self@.ttl,
    {
        self.ttl
    }

    /// The length of the data in octets.
    pub fn rdlength(&self) -> (r: u16)
        ensures
            r == self@.rdlength,
            r == self@.rdata.len(),
    {
        proof {
            use_type_invariant(self);
        }
        self.rdlength
    }

    /// The data of the record, as it came.
    pub fn rdata(&self) -> (r: &Vec<u8>)
        ensures
            r@ == self@.rdata,
    {
        &self.rdata
    }

    /// Reads the record at `pos` in `buf` and returns it with the place
    /// behind its data. Fails where the name cannot be read or `buf` ends
    /// before the data does.
    pub fn decode(buf: &[u8], pos: usize) -> (r: Result<(Resource, usize), DnsError>)
        ensures
            match parse_resource(buf@, pos as int) {
                Some((res, end)) => r is Ok && r.unwrap().0@ == res && r.unwrap().1 == end,
                None => r == Err::<(Resource, usize), DnsError>(DnsError::MalformedMessage),
            },
    {
        let (name, p) = match decode_name(buf, pos) {
            Ok(found) => found,
            Err(_) => {
                return Err(DnsError::MalformedMessage);
            },
        };
        proof {
            lemma_parsed_name_is_labels(buf@, pos as int, pos as int);
        }
        if buf.len() - p < 10 {
            return Err(DnsError::MalformedMessage);
        }
        let rtype: u16 = match read_u16(buf, p) {
            Some(v) => v,
            None => {
                return Err(DnsError::MalformedMessage);
            },
        };
        let rclass: u16 = match read_u16(buf, p + 2) {
            Some(v) => v,
            None => {
                return Err(DnsError::MalformedMessage);
            },
        };
        let ttl: u32 = match read_u32(buf, p + 4) {
            Some(v) => v,
            None => {
                return Err(DnsError::MalformedMessage);
            },
        };
        let rdlength: u16 = match read_u16(buf, p + 8) {
            Some(v) => v,
            None => {
                return Err(DnsError::MalformedMessage);
            },
        };
        let from: usize = p + 10;
        if rdlength as usize > buf.len() - from {
            return Err(DnsError::MalformedMessage);
        }
        let to: usize = from + rdlength as usize;
        let mut rdata: Vec<u8> = Vec::new();
        extend_from_range(&mut rdata, buf, from, to);
        assert(rdata@ =~= buf@.subrange(from as int, to as int));
        Ok((Resource { name, rtype, rclass, ttl, rdlength, rdata }, to))
    }
}

} // verus!
