//! One entry of the question section: a name, a record type and a class.

use vstd::prelude::*;
use crate::dns_error::DnsError;
use crate::name::{
    decode_name, decode_name_spec, is_wire_name, lemma_parse_plain_name,
    lemma_parsed_name_is_labels,
};
use crate::wire::{
    be16_bytes, extend_from_range, lemma_be16_round_trip, push_u16, read_u16, u16_at,
};

verus! {

/// What a [`Question`] holds.
pub ghost struct QuestionView {
    pub qname: Seq<u8>,
    pub qtype: u16,
    pub qclass: u16,
}

/// A question to a name server: which name, which type of record, which class.
#[derive(Debug, PartialEq, Eq)]
pub struct Question {
    /// The name asked for: its labels, each behind an octet with its length,
    /// and a zero octet at the end.
    pub qname: Vec<u8>,
    qtype: u16,
    qclass: u16,
}

impl View for Question {
    type V = QuestionView;

    closed spec fn view(&self) -> QuestionView {
        QuestionView { qname: self.qname@, qtype: self.qtype, qclass: self.qclass }
    }
}

/// Whether `v` is one of the record types that a question may ask for.
pub open spec fn is_valid_qtype(v: u16) -> bool {
    v == 1 || v == 2 || v == 5 || v == 6 || v == 12 || v == 13 || (15 <= v && v <= 18) || v == 24
        || v == 25 || v == 28 || v == 29 || v == 33 || (35 <= v && v <= 37) || v == 39 || (41 <= v
        && v <= 53) || v == 55 || (59 <= v && v <= 65) || v == 108 || v == 109 || (249 <= v && v
        <= 252) || (255 <= v && v <= 257) || v == 32768 || v == 32769
}

/// Whether `v` is a class that a question may ask for: not 0, not from 5 to
/// 253, not from 256 to 65279, and not 65535.
pub open spec fn is_valid_qclass(v: u16) -> bool {
    (1 <= v && v <= 4) || v == 254 || v == 255 || (65280 <= v && v <= 65534)
}

/// A question as it stands in a message: the name, then type and class,
/// each as two octets with the high one first.
pub open spec fn question_bytes(q: QuestionView) -> Seq<u8> {
    q.qname + be16_bytes(q.qtype) + be16_bytes(q.qclass)
}

/// The question at `pos` in `buf` and the place behind it, if the name can
/// be read and `buf` holds the four octets after it.
pub open spec fn parse_question(buf: Seq<u8>, pos: int) -> Option<(QuestionView, int)> {
    match decode_name_spec(buf, pos) {
        Some((qname, p)) => match (u16_at(buf, p), u16_at(buf, p + 2)) {
            (Some(qtype), Some(qclass)) => Some((QuestionView { qname, qtype, qclass }, p + 4)),
            _ => None,
        },
        None => None,
    }
}

/// A question whose name is a name, written at `pos` in `buf`, is read as
/// itself, and the place behind it is the place behind its class.
pub proof fn lemma_parse_encoded_question(buf: Seq<u8>, pos: int, q: QuestionView)
    requires
        is_wire_name(q.qname),
        0 <= pos,
        pos + question_bytes(q).len() <= buf.len(),
        buf.subrange(pos, pos + question_bytes(q).len()) == question_bytes(q),
    ensures
        parse_question(buf, pos) == Some((q, pos + question_bytes(q).len())),
{
    let enc = question_bytes(q);
    let n = q.qname.len() as int;
    let part = buf.subrange(pos, pos + enc.len());
    assert(enc.len() == n + 4);
    assert(buf.subrange(pos, pos + n) =~= q.qname) by {
        assert forall|k: int| 0 <= k < n implies buf[pos + k] == q.qname[k] by {
            assert(part[k] == buf[pos + k]);
        }
    }
    lemma_parse_plain_name(buf, pos, pos, q.qname);
    assert(part[n] == buf[pos + n]);
    assert(part[n + 1] == buf[pos + n + 1]);
    assert(part[n + 2] == buf[pos + n + 2]);
    assert(part[n + 3] == buf[pos + n + 3]);
    lemma_be16_round_trip(q.qtype);
    lemma_be16_round_trip(q.qclass);
}

impl Question {
    /// A question with no name yet, for an address record (type 1) of the
    /// Internet (class 1).
    pub fn new() -> (q: Question)
        ensures
            q@ == (QuestionView { qname: Seq::empty(), qtype: 1, qclass: 1 }),
    {
        Question { qname: Vec::new(), qtype: 1, qclass: 1 }
    }

    /// A question made of the three parts as they come, none of them checked.
    pub(crate) fn from_parts(qname: Vec<u8>, qtype: u16, qclass: u16) -> (q: Question)
        ensures
            q@ == (QuestionView { qname: qname@, qtype, qclass }),
    {
        Question { qname, qtype, qclass }
    }

    /// Stores `qtype` if it is a recognised record type; otherwise reports it
    /// and changes nothing.
    pub fn set_qtype(&mut self, qtype: u16) -> (r: Result<(), DnsError>)
        ensures
            is_valid_qtype(qtype) ==> r is Ok && final(self)@ == (QuestionView {
                qtype,
                ..old(self)@
            }),
            !is_valid_qtype(qtype) ==> r == Err::<(), DnsError>(DnsError::InvalidQType(qtype))
                && final(self)@ == old(self)@,
    {
        match qtype {
            1 | 2 | 5 | 6 | 12 | 13 | 15 | 16 | 17 | 18 | 24 | 25 | 28 | 29 | 33 | 35 | 36 | 37
            | 39 | 41 | 42 | 43 | 44 | 45 | 46 | 47 | 48 | 49 | 50 | 51 | 52 | 53 | 55 | 59 | 60
            | 61 | 62 | 63 | 64 | 65 | 108 | 109 | 249 | 250 | 251 | 252 | 255 | 256 | 257
            | 32768 | 32769 => {
                self.qtype = qtype;
                Ok(())
            },
            _ => Err(DnsError::InvalidQType(qtype)),
        }
    }

    /// Stores `qclass` unless it is reserved or unassigned; then reports it
    /// and changes nothing.
    pub fn set_qclass(&mut self, qclass: u16) -> (r: Result<(), DnsError>)
        ensures
            is_valid_qclass(qclass) ==> r is Ok && final(self)@ == (QuestionView {
                qclass,
                ..old(self)@
            }),
            !is_valid_qclass(qclass) ==> r == Err::<(), DnsError>(DnsError::InvalidQClass(qclass))
                && final(self)@ == old(self)@,
    {
        if qclass == 0 || (5 <= qclass && qclass <= 253) || (256 <= qclass && qclass <= 65279)
            || qclass == 65535 {
            return Err(DnsError::InvalidQClass(qclass));
        }
        self.qclass = qclass;
        Ok(())
    }

    /// The record type asked for.
    pub fn qtype(&self) -> (r: u16)
        ensures
            r == self@.qtype,
    {
        self.qtype
    }

    /// The class asked for.
    pub fn qclass(&self) -> (r: u16)
        ensures
            r == self@.qclass,
    {
        self.qclass
    }

    /// Appends this question to `out` as it stands in a message.
    pub fn encode_into(&self, out: &mut Vec<u8>)
        ensures
            final(out)@ == old(out)@ + question_bytes(self@),
    {
        extend_from_range(out, self.qname.as_slice(), 0, self.qname.len());
        push_u16(out, self.qtype);
        push_u16(out, self.qclass);
        assert(out@ =~= old(out)@ + question_bytes(self@));
    }

    /// Reads the question at `pos` in `buf` and returns it with the place
    /// behind its class. Type and class are kept as they come. Fails where
    /// the name cannot be read or `buf` ends before the class does.
    pub fn decode(buf: &[u8], pos: usize) -> (r: Result<(Question, usize), DnsError>)
        ensures
            match parse_question(buf@, pos as int) {
                Some((q, end)) => r is Ok && r.unwrap().0@ == q && r.unwrap().1 == end,
                None => r == Err::<(Question, usize), DnsError>(DnsError::MalformedMessage),
            },
    {
        let (qname, p) = match decode_name(buf, pos) {
            Ok(found) => found,
            Err(_) => {
                return Err(DnsError::MalformedMessage);
            },
        };
        proof {
            lemma_parsed_name_is_labels(buf@, pos as int, pos as int);
        }
        if buf.len() - p < 4 {
            return Err(DnsError::MalformedMessage);
        }
        let qtype: u16 = match read_u16(buf, p) {
            Some(v) => v,
            None => {
                return Err(DnsError::MalformedMessage);
            },
        };
        let qclass: u16 = match read_u16(buf, p + 2) {
            Some(v) => v,
            None => {
                return Err(DnsError::MalformedMessage);
            },
        };
        Ok((Question { qname, qtype, qclass }, p + 4))
    }
}

impl Default for Question {
    /// The same as [`Question::new`].
    fn default() -> (q: Question)
        ensures
            q@ == (QuestionView { qname: Seq::empty(), qtype: 1, qclass: 1 }),
    {
        Question::new()
    }
}

} // verus!
