//! A whole message: the header, the questions, and the three sections of
//! resource records.

use vstd::prelude::*;
use crate::dns_error::DnsError;
use crate::header::{header_bytes, parse_header, Header, HeaderView};
use crate::name::{encode_name, encode_name_spec};
use crate::question::{parse_question, question_bytes, Question, QuestionView};
use crate::resource::{parse_resource, Resource, ResourceView};
use crate::wire::push_u16;

verus! {

/// What a [`Message`] holds.
pub ghost struct MessageView {
    pub header: HeaderView,
    pub question: Seq<QuestionView>,
    pub answer: Seq<ResourceView>,
    pub authority: Seq<ResourceView>,
    pub additional: Seq<ResourceView>,
}

/// A message as it is built for sending or as it was parsed.
#[derive(Debug, PartialEq, Eq)]
pub struct Message {
    /// Identifier, flags and the counts of the four sections.
    pub header: Header,
    /// The questions, in the order in which they go over the wire.
    pub question: Vec<Question>,
    /// The records that answer the questions.
    pub answer: Vec<Resource>,
    /// The records that point to an authoritative name server.
    pub authority: Vec<Resource>,
    /// The records that relate to the questions without answering them.
    pub additional: Vec<Resource>,
}

/// What each question of `v` holds, in the same order.
pub open spec fn question_views(v: Seq<Question>) -> Seq<QuestionView> {
    Seq::new(v.len(), |i: int| v[i]@)
}

/// What each record of `v` holds, in the same order.
pub open spec fn resource_views(v: Seq<Resource>) -> Seq<ResourceView> {
    Seq::new(v.len(), |i: int| v[i]@)
}

impl View for Message {
    type V = MessageView;

    open spec fn view(&self) -> MessageView {
        MessageView {
            header: self.header@,
            question: question_views(self.question@),
            answer: resource_views(self.answer@),
            authority: resource_views(self.authority@),
            additional: resource_views(self.additional@),
        }
    }
}

/// Whether each count of the header is the length of its section.
pub open spec fn counts_agree(m: MessageView) -> bool {
    &&& m.header.qdcount == m.question.len()
    &&& m.header.ancount == m.answer.len()
    &&& m.header.nscount == m.authority.len()
    &&& m.header.arcount == m.additional.len()
}

/// The questions `qs` as they stand in a message, one after the other.
pub open spec fn questions_bytes(qs: Seq<QuestionView>) -> Seq<u8>
    decreases qs.len(),
{
    if qs.len() == 0 {
        Seq::empty()
    } else {
        questions_bytes(qs.drop_last()) + question_bytes(qs.last())
    }
}

/// The header that is sent for `m`: its identifier and flags, the number of
/// its questions, and zero for the three sections that are not sent.
pub open spec fn packet_header(m: MessageView) -> HeaderView {
    HeaderView {
        id: m.header.id,
        flags: m.header.flags,
        qdcount: m.question.len() as u16,
        ancount: 0,
        nscount: 0,
        arcount: 0,
    }
}

/// The octets that are sent for `m`: the header, then the questions.
pub open spec fn packet_bytes(m: MessageView) -> Seq<u8> {
    header_bytes(packet_header(m)) + questions_bytes(m.question)
}

/// The first `n` questions that stand in `buf` from `pos` on, and the place
/// behind the last of them, if every one of them can be read.
pub open spec fn parse_questions(buf: Seq<u8>, pos: int, n: nat) -> Option<
    (Seq<QuestionView>, int),
>
    decreases n,
{
    if n == 0 {
        Some((Seq::empty(), pos))
    } else {
        match parse_questions(buf, pos, (n - 1) as nat) {
            Some((qs, p)) => match parse_question(buf, p) {
                Some((q, end)) => Some((qs.push(q), end)),
                None => None,
            },
            None => None,
        }
    }
}

/// The first `n` records that stand in `buf` from `pos` on, and the place
/// behind the last of them, if every one of them can be read.
pub open spec fn parse_resources(buf: Seq<u8>, pos: int, n: nat) -> Option<
    (Seq<ResourceView>, int),
>
    decreases n,
{
    if n == 0 {
        Some((Seq::empty(), pos))
    } else {
        match parse_resources(buf, pos, (n - 1) as nat) {
            Some((rs, p)) => match parse_resource(buf, p) {
                Some((r, end)) => Some((rs.push(r), end)),
                None => None,
            },
            None => None,
        }
    }
}

/// The message that `buf` spells out and the place behind its last record:
/// twelve octets of header, then as many questions, answers, authority
/// records and additional records as the header counts, one behind the
/// other. There is none where `buf` ends before the last of them does or a
/// name in it cannot be read. What follows the last record is not looked at.
pub open spec fn parse_message(buf: Seq<u8>) -> Option<(MessageView, int)> {
    if buf.len() < 12 {
        None
    } else {
        let header = parse_header(buf);
        match parse_questions(buf, 12, header.qdcount as nat) {
            Some((question, q_end)) => match parse_resources(buf, q_end, header.ancount as nat) {
                Some((answer, an_end)) => match parse_resources(buf, an_end, header.nscount as nat) {
                    Some((authority, ns_end)) => match parse_resources(
                        buf,
                        ns_end,
                        header.arcount as nat,
                    ) {
                        Some((additional, ar_end)) => Some(
                            (MessageView { header, question, answer, authority, additional }, ar_end),
                        ),
                        None => None,
                    },
                    None => None,
                },
                None => None,
            },
            None => None,
        }
    }
}

/// Where the first `k` questions cannot all be read, no larger number of
/// them can, and where they can, there are `k` of them.
pub proof fn lemma_parse_questions_count(buf: Seq<u8>, pos: int, k: nat, n: nat)
    requires
        k <= n,
    ensures
        parse_questions(buf, pos, k) is None ==> parse_questions(buf, pos, n) is None,
        parse_questions(buf, pos, n) matches Some((qs, _)) ==> qs.len() == n,
    decreases n,
{
    if n > 0 {
        if k < n {
            lemma_parse_questions_count(buf, pos, k, (n - 1) as nat);
        } else {
            lemma_parse_questions_count(buf, pos, (n - 1) as nat, (n - 1) as nat);
        }
    }
}

/// Where the first `k` records cannot all be read, no larger number of them
/// can, and where they can, there are `k` of them.
pub proof fn lemma_parse_resources_count(buf: Seq<u8>, pos: int, k: nat, n: nat)
    requires
        k <= n,
    ensures
        parse_resources(buf, pos, k) is None ==> parse_resources(buf, pos, n) is None,
        parse_resources(buf, pos, n) matches Some((rs, _)) ==> rs.len() == n,
    decreases n,
{
    if n > 0 {
        if k < n {
            lemma_parse_resources_count(buf, pos, k, (n - 1) as nat);
        } else {
            lemma_parse_resources_count(buf, pos, (n - 1) as nat, (n - 1) as nat);
        }
    }
}

/// In a message that was parsed, each count of the header is the length of
/// its section.
pub proof fn lemma_parsed_counts_agree(buf: Seq<u8>)
    ensures
        parse_message(buf) matches Some((m, _)) ==> counts_agree(m),
{
    if buf.len() >= 12 {
        let h = parse_header(buf);
        lemma_parse_questions_count(buf, 12, h.qdcount as nat, h.qdcount as nat);
        if let Some((_, q_end)) = parse_questions(buf, 12, h.qdcount as nat) {
            lemma_parse_resources_count(buf, q_end, h.ancount as nat, h.ancount as nat);
            if let Some((_, an_end)) = parse_resources(buf, q_end, h.ancount as nat) {
                lemma_parse_resources_count(buf, an_end, h.nscount as nat, h.nscount as nat);
                if let Some((_, ns_end)) = parse_resources(buf, an_end, h.nscount as nat) {
                    lemma_parse_resources_count(buf, ns_end, h.arcount as nat, h.arcount as nat);
                }
            }
        }
    }
}

/// The octets of each text of `texts`, in the same order.
pub open spec fn texts_of(texts: Seq<String>) -> Seq<Seq<u8>> {
    Seq::new(texts.len(), |i: int| vstd::utf8::encode_utf8(texts[i]@))
}

/// Whether every dotted text of `texts` has a name.
pub open spec fn all_encodable(texts: Seq<Seq<u8>>) -> bool {
    forall|i: int| 0 <= i < texts.len() ==> (#[trigger] encode_name_spec(texts[i])) is Some
}

/// One question for each dotted text of `texts`, with the name of that text
/// and with type and class still zero.
pub open spec fn new_questions(texts: Seq<Seq<u8>>) -> Seq<QuestionView> {
    Seq::new(
        texts.len(),
        |i: int| QuestionView { qname: encode_name_spec(texts[i]).unwrap(), qtype: 0, qclass: 0 },
    )
}

/// Reads `count` questions from `pos` on.
fn decode_questions(buf: &[u8], pos: usize, count: u16) -> (r: Result<
    (Vec<Question>, usize),
    DnsError,
>)
    ensures
        match parse_questions(buf@, pos as int, count as nat) {
            Some((qs, end)) => r is Ok && question_views(r.unwrap().0@) == qs && r.unwrap().1
                == end,
            None => r == Err::<(Vec<Question>, usize), DnsError>(DnsError::MalformedMessage),
        },
{
    let mut out: Vec<Question> = Vec::new();
    let mut cur: usize = pos;
    let mut k: u16 = 0;
    assert(question_views(out@) =~= Seq::empty());
    while k < count
        invariant
            k <= count,
            parse_questions(buf@, pos as int, k as nat) == Some((question_views(out@), cur as int)),
        decreases count - k,
    {
        let ghost before = out@;
        match Question::decode(buf, cur) {
            Ok((q, next)) => {
                out.push(q);
                cur = next;
                k += 1;
                assert(question_views(out@) =~= question_views(before).push(q@));
            },
            Err(_) => {
                proof {
                    lemma_parse_questions_count(buf@, pos as int, (k + 1) as nat, count as nat);
                }
                return Err(DnsError::MalformedMessage);
            },
        }
    }
    Ok((out, cur))
}

/// Reads `count` records from `pos` on.
fn decode_resources(buf: &[u8], pos: usize, count: u16) -> (r: Result<
    (Vec<Resource>, usize),
    DnsError,
>)
    ensures
        match parse_resources(buf@, pos as int, count as nat) {
            Some((rs, end)) => r is Ok && resource_views(r.unwrap().0@) == rs && r.unwrap().1
                == end,
            None => r == Err::<(Vec<Resource>, usize), DnsError>(DnsError::MalformedMessage),
        },
{
    let mut out: Vec<Resource> = Vec::new();
    let mut cur: usize = pos;
    let mut k: u16 = 0;
    assert(resource_views(out@) =~= Seq::empty());
    while k < count
        invariant
            k <= count,
            parse_resources(buf@, pos as int, k as nat) == Some((resource_views(out@), cur as int)),
        decreases count - k,
    {
        let ghost before = out@;
        match Message::get_resource(buf, cur) {
            Ok((next, res)) => {
                out.push(res);
                cur = next;
                k += 1;
                assert(resource_views(out@) =~= resource_views(before).push(res@));
            },
            Err(_) => {
                proof {
                    lemma_parse_resources_count(buf@, pos as int, (k + 1) as nat, count as nat);
                }
                return Err(DnsError::MalformedMessage);
            },
        }
    }
    Ok((out, cur))
}

impl Message {
    /// Whether each count of the header is the length of its section.
    pub open spec fn wf(&self) -> bool {
        counts_agree(self@)
    }

    /// An empty message for a new query, with an identifier drawn at random.
    pub fn new() -> (m: Message)
        ensures
            m.wf(),
            m@ == Message::empty(m@.header.id),
    {
        Message::with_header(Header::new())
    }

    /// What an empty message with the identifier `id` holds.
    pub open spec fn empty(id: u16) -> MessageView {
        MessageView {
            header: Header::fresh(id),
            question: Seq::empty(),
            answer: Seq::empty(),
            authority: Seq::empty(),
            additional: Seq::empty(),
        }
    }

    /// A message with the given header and nothing in its four sections.
    pub fn with_header(header: Header) -> (m: Message)
        ensures
            m@ == (MessageView {
                header: header@,
                question: Seq::empty(),
                answer: Seq::empty(),
                authority: Seq::empty(),
                additional: Seq::empty(),
            }),
    {
        let m = Message {
            header,
            question: Vec::new(),
            answer: Vec::new(),
            authority: Vec::new(),
            additional: Vec::new(),
        };
        assert(question_views(m.question@) =~= Seq::empty());
        assert(resource_views(m.answer@) =~= Seq::empty());
        assert(resource_views(m.authority@) =~= Seq::empty());
        assert(resource_views(m.additional@) =~= Seq::empty());
        m
    }

    /// Appends one question for each dotted name of `questions`, in their
    /// order, with type and class still zero, and counts them in the header.
    /// Each name is split at its dots and each label trimmed of white space.
    /// Where one of the names has a label of more than 63 octets or is longer
    /// than 255 octets in all, nothing is appended. The header can count
    /// 65535 questions, so no more than that may be held in the end.
    pub fn set_questions(&mut self, questions: Vec<String>) -> (r: Result<(), DnsError>)
        requires
            old(self).question@.len() + questions@.len() <= 0xFFFF,
        ensures
            all_encodable(texts_of(questions@)) ==> r is Ok && final(self)@ == (MessageView {
                header: HeaderView {
                    qdcount: (old(self)@.question.len() + questions@.len()) as u16,
                    ..old(self)@.header
                },
                question: old(self)@.question + new_questions(texts_of(questions@)),
                ..old(self)@
            }),
            !all_encodable(texts_of(questions@)) ==> r == Err::<(), DnsError>(
                DnsError::NameTooLong,
            ) && final(self)@ == old(self)@,
            old(self).wf() ==> final(self).wf(),
    {
        let ghost texts = texts_of(questions@);
        let mut added: Vec<Question> = Vec::new();
        let mut i: usize = 0;
        while i < questions.len()
            invariant
                i <= questions@.len(),
                texts == texts_of(questions@),
                added@.len() == i,
                forall|k: int| 0 <= k < i ==> (#[trigger] encode_name_spec(texts[k])) is Some,
                forall|k: int|
                    0 <= k < i ==> (#[trigger] added@[k])@ == (QuestionView {
                        qname: encode_name_spec(texts[k]).unwrap(),
                        qtype: 0,
                        qclass: 0,
                    }),
            decreases questions@.len() - i,
        {
            let name = match encode_name(questions[i].as_str().as_bytes()) {
                Ok(name) => name,
                Err(_) => {
                    assert(encode_name_spec(texts[i as int]) is None);
                    return Err(DnsError::NameTooLong);
                },
            };
            added.push(Question::from_parts(name, 0, 0));
            i += 1;
        }
        let total: usize = self.question.len() + added.len();
        let ghost kept = self.question@;
        let ghost fresh = added@;
        self.question.append(&mut added);
        self.header.set_qdcount(total as u16);
        assert(question_views(kept + fresh) =~= question_views(kept) + new_questions(texts));
        Ok(())
    }

    /// Parses the octets of a message. Fails where they end before the last
    /// record that the header counts, or hold a name that cannot be read.
    pub fn from(vec: Vec<u8>) -> (r: Result<Message, DnsError>)
        ensures
            match parse_message(vec@) {
                Some((m, _)) => r is Ok && r.unwrap()@ == m && r.unwrap().wf(),
                None => r == Err::<Message, DnsError>(DnsError::MalformedMessage),
            },
    {
        let buf = vec.as_slice();
        if buf.len() < 12 {
            return Err(DnsError::MalformedMessage);
        }
        proof {
            lemma_parsed_counts_agree(buf@);
        }
        let header = Header::decode(buf);
        let (question, q_end) = match decode_questions(buf, 12, header.qdcount()) {
            Ok(found) => found,
            Err(_) => {
                return Err(DnsError::MalformedMessage);
            },
        };
        let (answer, an_end) = match decode_resources(buf, q_end, header.ancount()) {
            Ok(found) => found,
            Err(_) => {
                return Err(DnsError::MalformedMessage);
            },
        };
        let (authority, ns_end) = match decode_resources(buf, an_end, header.nscount()) {
            Ok(found) => found,
            Err(_) => {
                return Err(DnsError::MalformedMessage);
            },
        };
        let (additional, _) = match decode_resources(buf, ns_end, header.arcount()) {
            Ok(found) => found,
            Err(_) => {
                return Err(DnsError::MalformedMessage);
            },
        };
        Ok(Message { header, question, answer, authority, additional })
    }

    /// The octets to send: the header, with the number of questions held and
    /// zero for the three sections of records, then each question in order.
    /// The records of a parsed message are not sent.
    pub fn get_packet(&self) -> (out: Vec<u8>)
        requires
            self.question@.len() <= 0xFFFF,
        ensures
            out@ == packet_bytes(self@),
    {
        let n: usize = self.question.len();
        let mut out: Vec<u8> = Vec::new();
        push_u16(&mut out, self.header.id());
        push_u16(&mut out, self.header.flags());
        push_u16(&mut out, n as u16);
        push_u16(&mut out, 0);
        push_u16(&mut out, 0);
        push_u16(&mut out, 0);
        let ghost head = header_bytes(packet_header(self@));
        let ghost qs = question_views(self.question@);
        assert(out@ =~= head + questions_bytes(qs.take(0)));
        let mut i: usize = 0;
        while i < n
            invariant
                i <= n,
                n == self.question@.len(),
                qs == question_views(self.question@),
                out@ == head + questions_bytes(qs.take(i as int)),
            decreases n - i,
        {
            let ghost before = out@;
            self.question[i].encode_into(&mut out);
            proof {
                assert(qs.take(i + 1).drop_last() =~= qs.take(i as int));
                assert(qs.take(i + 1).last() == self.question@[i as int]@);
                assert(out@ =~= head + questions_bytes(qs.take(i + 1)));
            }
            i += 1;
        }
        assert(qs.take(n as int) =~= qs);
        out
    }

    /// Reads the resource record at `i` in `vec` and returns the place behind
    /// it and the record. Fails where its name cannot be read or `vec` ends
    /// before its data does.
    pub fn get_resource(vec: &[u8], i: usize) -> (r: Result<(usize, Resource), DnsError>)
        ensures
            match parse_resource(vec@, i as int) {
                Some((res, end)) => r is Ok && r.unwrap().0 == end && r.unwrap().1@ == res,
                None => r == Err::<(usize, Resource), DnsError>(DnsError::MalformedMessage),
            },
    {
        match Resource::decode(vec, i) {
            Ok((res, end)) => Ok((end, res)),
            Err(e) => Err(e),
        }
    }
}

impl Default for Message {
    /// The same as [`Message::new`].
    fn default() -> (m: Message)
        ensures
            m.wf(),
            m@ == Message::empty(m@.header.id),
    {
        Message::new()
    }
}

} // verus!
