//! What holds between building, sending and parsing a message.

use vstd::prelude::*;
use crate::header::{lemma_header_round_trip, parse_header};
use crate::message::{
    counts_agree, lemma_parse_questions_count, packet_bytes, packet_header, parse_message,
    parse_questions, parse_resources, questions_bytes, MessageView,
};
use crate::name::{
    decode_name_spec, is_pointer, is_wire_name, lemma_parsed_name_is_labels, parse_name,
    pointer_target,
};
use crate::question::{
    lemma_parse_encoded_question, parse_question, question_bytes, QuestionView,
};
use crate::resource::{lemma_parsed_resource, parse_resource};

verus! {

/// Whether the name of every question of `qs` is a name: a run of labels of
/// at most 255 octets.
pub open spec fn names_ok(qs: Seq<QuestionView>) -> bool {
    forall|i: int| 0 <= i < qs.len() ==> is_wire_name(#[trigger] qs[i].qname)
}

/// What comes back when the octets sent for `m` are parsed: the header that
/// was sent, the questions of `m`, and no records.
pub open spec fn sent(m: MessageView) -> MessageView {
    MessageView {
        header: packet_header(m),
        question: m.question,
        answer: Seq::empty(),
        authority: Seq::empty(),
        additional: Seq::empty(),
    }
}

/// Questions whose names are names, written one after the other at `pos` in
/// `buf`, are read as themselves.
pub proof fn lemma_parse_encoded_questions(buf: Seq<u8>, pos: int, qs: Seq<QuestionView>)
    requires
        names_ok(qs),
        0 <= pos,
        pos + questions_bytes(qs).len() <= buf.len(),
        buf.subrange(pos, pos + questions_bytes(qs).len()) == questions_bytes(qs),
    ensures
        parse_questions(buf, pos, qs.len()) == Some((qs, pos + questions_bytes(qs).len())),
    decreases qs.len(),
{
    if qs.len() == 0 {
        assert(qs =~= Seq::empty());
    } else {
        let front = qs.drop_last();
        let last = qs.last();
        let fb = questions_bytes(front);
        let lb = question_bytes(last);
        let whole = buf.subrange(pos, pos + (fb + lb).len());
        assert(buf.subrange(pos, pos + fb.len()) =~= fb) by {
            assert forall|k: int| 0 <= k < fb.len() implies buf[pos + k] == fb[k] by {
                assert(whole[k] == buf[pos + k]);
                assert((fb + lb)[k] == fb[k]);
            }
        }
        assert(buf.subrange(pos + fb.len(), pos + fb.len() + lb.len()) =~= lb) by {
            assert forall|k: int| 0 <= k < lb.len() implies buf[pos + fb.len() + k] == lb[k] by {
                assert(whole[fb.len() + k] == buf[pos + fb.len() + k]);
                assert((fb + lb)[fb.len() + k] == lb[k]);
            }
        }
        assert(names_ok(front)) by {
            assert forall|i: int| 0 <= i < front.len() implies is_wire_name(
                #[trigger] front[i].qname,
            ) by {
                assert(front[i] == qs[i]);
            }
        }
        lemma_parse_encoded_questions(buf, pos, front);
        lemma_parse_encoded_question(buf, pos + fb.len(), last);
        assert(front.push(last) =~= qs);
    }
}

/// Round trip: parsing the octets sent for a message gives back its
/// identifier, its flags and its questions, each as it was, provided that it
/// has at most 65535 questions and that the name of each is a name. The
/// count of questions that comes back is their number, the other three
/// counts are zero and the three sections of records are empty; so a message
/// without records whose counts agree with its sections comes back whole.
pub proof fn lemma_round_trip(m: MessageView)
    requires
        m.question.len() <= 0xFFFF,
        names_ok(m.question),
    ensures
        parse_message(packet_bytes(m)) == Some((sent(m), packet_bytes(m).len() as int)),
        counts_agree(m) && m.answer.len() == 0 && m.authority.len() == 0 && m.additional.len()
            == 0 ==> sent(m) == m,
{
    let h = packet_header(m);
    let qb = questions_bytes(m.question);
    let buf = packet_bytes(m);
    lemma_header_round_trip(h, qb);
    assert(buf.subrange(12, 12 + qb.len() as int) =~= qb);
    lemma_parse_encoded_questions(buf, 12, m.question);
    if counts_agree(m) && m.answer.len() == 0 && m.authority.len() == 0 && m.additional.len()
        == 0 {
        assert(m.answer =~= Seq::empty());
        assert(m.authority =~= Seq::empty());
        assert(m.additional =~= Seq::empty());
    }
}

/// The questions that were read from a message have names that are names.
pub proof fn lemma_parsed_questions_names(buf: Seq<u8>, pos: int, n: nat)
    ensures
        parse_questions(buf, pos, n) matches Some((qs, _)) ==> names_ok(qs),
    decreases n,
{
    if n > 0 {
        lemma_parsed_questions_names(buf, pos, (n - 1) as nat);
        if let Some((qs, p)) = parse_questions(buf, pos, (n - 1) as nat) {
            lemma_parsed_name_is_labels(buf, p, p);
            if let Some((q, _)) = parse_question(buf, p) {
                assert forall|i: int| 0 <= i < qs.push(q).len() implies is_wire_name(
                    #[trigger] qs.push(q)[i].qname,
                ) by {
                    if i < qs.len() {
                        assert(qs.push(q)[i] == qs[i]);
                    }
                }
            }
        }
    }
}

/// Sending again: the octets sent for a message that was parsed can be
/// parsed, and give the same identifier, flags and questions; the records
/// of the first message are left out.
pub proof fn lemma_reencode(buf: Seq<u8>)
    requires
        parse_message(buf) is Some,
    ensures
        parse_message(packet_bytes(parse_message(buf).unwrap().0)) == Some(
            (
                sent(parse_message(buf).unwrap().0),
                packet_bytes(parse_message(buf).unwrap().0).len() as int,
            ),
        ),
        sent(parse_message(buf).unwrap().0).question == parse_message(buf).unwrap().0.question,
{
    let m = parse_message(buf).unwrap().0;
    let h = parse_header(buf);
    lemma_parsed_questions_names(buf, 12, h.qdcount as nat);
    lemma_parse_questions_count(buf, 12, h.qdcount as nat, h.qdcount as nat);
    lemma_round_trip(m);
}

/// Whether `long` starts with the octets of `short`.
pub open spec fn is_prefix(short: Seq<u8>, long: Seq<u8>) -> bool {
    short.len() <= long.len() && forall|i: int| 0 <= i < short.len() ==> short[i] == long[i]
}

/// A name that can be read in `short` is read in the same way in every
/// `long` that starts with `short`.
pub proof fn lemma_parse_name_extends(short: Seq<u8>, long: Seq<u8>, pos: int, start: int)
    requires
        is_prefix(short, long),
    ensures
        parse_name(short, pos, start) is Some ==> parse_name(long, pos, start) == parse_name(
            short,
            pos,
            start,
        ),
    decreases start, short.len() - pos,
{
    if 0 <= start <= pos < short.len() && short[pos] != 0 {
        if is_pointer(short[pos]) {
            if pos + 1 < short.len() {
                let target = pointer_target(short[pos], short[pos + 1]);
                if target < start {
                    lemma_parse_name_extends(short, long, target, target);
                }
            }
        } else if short[pos] < 64 && pos + 1 + short[pos] <= short.len() {
            let next = pos + 1 + short[pos];
            lemma_parse_name_extends(short, long, next, start);
            assert(short.subrange(pos, next) =~= long.subrange(pos, next));
        }
    }
}

/// A question that can be read in `short` is read in the same way in every
/// `long` that starts with `short`, and ends inside `short`.
pub proof fn lemma_parse_question_extends(short: Seq<u8>, long: Seq<u8>, pos: int)
    requires
        is_prefix(short, long),
    ensures
        parse_question(short, pos) is Some ==> parse_question(long, pos) == parse_question(
            short,
            pos,
        ),
        parse_question(short, pos) matches Some((_, end)) ==> pos < end <= short.len(),
{
    lemma_parse_name_extends(short, long, pos, pos);
    lemma_parsed_name_is_labels(short, pos, pos);
}

/// A record that can be read in `short` is read in the same way in every
/// `long` that starts with `short`, and ends inside `short`.
pub proof fn lemma_parse_resource_extends(short: Seq<u8>, long: Seq<u8>, pos: int)
    requires
        is_prefix(short, long),
    ensures
        parse_resource(short, pos) is Some ==> parse_resource(long, pos) == parse_resource(
            short,
            pos,
        ),
        parse_resource(short, pos) matches Some((_, end)) ==> pos < end <= short.len(),
{
    lemma_parse_name_extends(short, long, pos, pos);
    lemma_parsed_resource(short, pos);
    if let Some((_, p)) = decode_name_spec(short, pos) {
        if let Some((_, end)) = parse_resource(short, pos) {
            assert(short.subrange(p + 10, end) =~= long.subrange(p + 10, end));
        }
    }
}

/// Questions that can be read in `short` are read in the same way in every
/// `long` that starts with `short`, and end inside `short`.
pub proof fn lemma_parse_questions_extends(short: Seq<u8>, long: Seq<u8>, pos: int, n: nat)
    requires
        is_prefix(short, long),
        0 <= pos <= short.len(),
    ensures
        parse_questions(short, pos, n) is Some ==> parse_questions(long, pos, n)
            == parse_questions(short, pos, n),
        parse_questions(short, pos, n) matches Some((_, end)) ==> pos <= end <= short.len(),
    decreases n,
{
    if n > 0 {
        lemma_parse_questions_extends(short, long, pos, (n - 1) as nat);
        if let Some((_, p)) = parse_questions(short, pos, (n - 1) as nat) {
            lemma_parse_question_extends(short, long, p);
        }
    }
}

/// Records that can be read in `short` are read in the same way in every
/// `long` that starts with `short`, and end inside `short`.
pub proof fn lemma_parse_resources_extends(short: Seq<u8>, long: Seq<u8>, pos: int, n: nat)
    requires
        is_prefix(short, long),
        0 <= pos <= short.len(),
    ensures
        parse_resources(short, pos, n) is Some ==> parse_resources(long, pos, n)
            == parse_resources(short, pos, n),
        parse_resources(short, pos, n) matches Some((_, end)) ==> pos <= end <= short.len(),
    decreases n,
{
    if n > 0 {
        lemma_parse_resources_extends(short, long, pos, (n - 1) as nat);
        if let Some((_, p)) = parse_resources(short, pos, (n - 1) as nat) {
            lemma_parse_resource_extends(short, long, p);
        }
    }
}

/// A message that can be parsed from `short` is parsed in the same way from
/// every `long` that starts with `short`, and ends inside `short`: the
/// parser looks at nothing behind the last record.
pub proof fn lemma_parse_message_extends(short: Seq<u8>, long: Seq<u8>)
    requires
        is_prefix(short, long),
    ensures
        parse_message(short) is Some ==> parse_message(long) == parse_message(short),
        parse_message(short) matches Some((_, end)) ==> 12 <= end <= short.len(),
{
    if short.len() >= 12 {
        let h = parse_header(short);
        assert(parse_header(long) == h);
        lemma_parse_questions_extends(short, long, 12, h.qdcount as nat);
        if let Some((_, q_end)) = parse_questions(short, 12, h.qdcount as nat) {
            lemma_parse_resources_extends(short, long, q_end, h.ancount as nat);
            if let Some((_, an_end)) = parse_resources(short, q_end, h.ancount as nat) {
                lemma_parse_resources_extends(short, long, an_end, h.nscount as nat);
                if let Some((_, ns_end)) = parse_resources(short, an_end, h.nscount as nat) {
                    lemma_parse_resources_extends(short, long, ns_end, h.arcount as nat);
                }
            }
        }
    }
}

/// Truncation: where `buf` holds a message that ends at `end`, the first
/// `cut` octets of `buf` hold none, for every `cut` before `end`. Parsing
/// them reports a malformed message, wherever the cut falls.
pub proof fn lemma_truncated_message_is_malformed(buf: Seq<u8>, cut: int)
    requires
        parse_message(buf) is Some,
        0 <= cut < parse_message(buf).unwrap().1,
    ensures
        cut < buf.len(),
        parse_message(buf.take(cut)) is None,
{
    lemma_parse_message_extends(buf, buf);
    let short = buf.take(cut);
    lemma_parse_message_extends(short, buf);
}

} // verus!
