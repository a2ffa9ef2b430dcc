//! Domain names: from dotted text to labels, and from the octets of a
//! message, where a name may end in a pointer to an earlier one, back to
//! labels.
//!
//! A name is held as the octets of its labels, each behind an octet with its
//! length, and a zero octet at the end.

use vstd::prelude::*;
use crate::dns_error::DnsError;
use crate::wire::extend_from_range;

verus! {

/// Whether `s` is a run of labels, each of 1 to 63 octets behind an octet
/// with its length, ended by one zero octet with nothing after it.
pub open spec fn labels_ok(s: Seq<u8>) -> bool
    decreases s.len(),
{
    s.len() >= 1 && if s[0] == 0 {
        s.len() == 1
    } else {
        s[0] <= 63 && s.len() > 1 + s[0] && labels_ok(s.skip(1 + s[0] as int))
    }
}

/// Whether `s` is a name: a run of labels of at most 255 octets in all.
pub open spec fn is_wire_name(s: Seq<u8>) -> bool {
    labels_ok(s) && s.len() <= 255
}

/// Whether an octet in the place of a length opens a pointer: its two top
/// bits are set.
pub open spec fn is_pointer(b: u8) -> bool {
    b >= 192
}

/// The place that the pointer made of `hi` and `lo` leads to: the number
/// made of the lower six bits of `hi` and the eight bits of `lo`.
pub open spec fn pointer_target(hi: u8, lo: u8) -> int {
    (hi - 192) * 256 + lo
}

/// The two top bits of an octet tell a pointer from a length, and the place
/// a pointer leads to is the fourteen bits below them.
pub proof fn lemma_pointer_bits(hi: u8, lo: u8)
    ensures
        is_pointer(hi) <==> hi & 0xC0 == 0xC0,
        hi < 64 <==> hi & 0xC0 == 0,
        is_pointer(hi) ==> pointer_target(hi, lo) == (((hi & 0x3F) as u16) << 8 | lo as u16),
{
    assert(hi >= 192 <==> hi & 0xC0 == 0xC0) by (bit_vector);
    assert(hi < 64 <==> hi & 0xC0 == 0) by (bit_vector);
    assert(hi >= 192 ==> (hi - 192) as u16 * 256 + lo as u16 == (((hi & 0x3F) as u16) << 8
        | lo as u16)) by (bit_vector);
}

/// The name that starts at `pos` in `buf`, with its labels written out, and
/// the place just behind its last octet in the run that starts at `pos`.
///
/// An octet with both top bits set and the octet after it form a pointer:
/// the fourteen bits below are the place where the name goes on. A pointer
/// ends the run it stands in. `start` is where the run being read
/// began: a pointer must lead to a place before `start`, so every jump goes
/// strictly backwards and no chain of pointers can come round to itself.
/// Length octets from 64 to 191 have no meaning and make the name unreadable,
/// as does a label or a pointer that `buf` ends in the middle of.
pub open spec fn parse_name(buf: Seq<u8>, pos: int, start: int) -> Option<(Seq<u8>, int)>
    decreases start, buf.len() - pos,
{
    if !(0 <= start <= pos < buf.len()) {
        None
    } else if buf[pos] == 0 {
        Some((seq![0u8], pos + 1))
    } else if is_pointer(buf[pos]) {
        if pos + 1 >= buf.len() {
            None
        } else {
            let target = pointer_target(buf[pos], buf[pos + 1]);
            if target >= start {
                None
            } else {
                match parse_name(buf, target, target) {
                    Some((name, _)) => Some((name, pos + 2)),
                    None => None,
                }
            }
        }
    } else if buf[pos] >= 64 {
        None
    } else if pos + 1 + buf[pos] > buf.len() {
        None
    } else {
        match parse_name(buf, pos + 1 + buf[pos], start) {
            Some((rest, end)) => Some((buf.subrange(pos, pos + 1 + buf[pos]) + rest, end)),
            None => None,
        }
    }
}

/// The name at `pos` in `buf` and the place behind it, if it can be read and
/// is at most 255 octets long once its labels are written out.
pub open spec fn decode_name_spec(buf: Seq<u8>, pos: int) -> Option<(Seq<u8>, int)> {
    match parse_name(buf, pos, pos) {
        Some((name, end)) => if name.len() <= 255 {
            Some((name, end))
        } else {
            None
        },
        None => None,
    }
}

/// What was read from a message is a run of labels, and the place behind it
/// lies behind `pos` and inside `buf`.
pub proof fn lemma_parsed_name_is_labels(buf: Seq<u8>, pos: int, start: int)
    ensures
        parse_name(buf, pos, start) matches Some((name, end)) ==> labels_ok(name) && pos < end
            <= buf.len(),
    decreases start, buf.len() - pos,
{
    if 0 <= start <= pos < buf.len() && buf[pos] != 0 {
        if is_pointer(buf[pos]) {
            if pos + 1 < buf.len() {
                let target = pointer_target(buf[pos], buf[pos + 1]);
                if target < start {
                    lemma_parsed_name_is_labels(buf, target, target);
                }
            }
        } else if buf[pos] < 64 && pos + 1 + buf[pos] <= buf.len() {
            let next = pos + 1 + buf[pos];
            lemma_parsed_name_is_labels(buf, next, start);
            if let Some((rest, _)) = parse_name(buf, next, start) {
                let name = buf.subrange(pos, next) + rest;
                assert(name[0] == buf[pos]);
                assert(name.skip(1 + name[0] as int) =~= rest);
            }
        }
    }
}

/// A name that stands in `buf` at `pos` with its labels written out is read
/// as itself, and the place behind it is the place behind its zero octet.
pub proof fn lemma_parse_plain_name(buf: Seq<u8>, pos: int, start: int, name: Seq<u8>)
    requires
        labels_ok(name),
        0 <= start <= pos,
        pos + name.len() <= buf.len(),
        buf.subrange(pos, pos + name.len()) == name,
    ensures
        parse_name(buf, pos, start) == Some((name, pos + name.len())),
    decreases name.len(),
{
    assert(buf.subrange(pos, pos + name.len())[0] == buf[pos]);
    if name[0] == 0 {
        assert(name =~= seq![0u8]);
    } else {
        let next = pos + 1 + name[0];
        let rest = name.skip(1 + name[0] as int);
        assert(buf.subrange(next, next + rest.len()) =~= rest) by {
            assert forall|k: int| 0 <= k < rest.len() implies buf[next + k] == rest[k] by {
                assert(buf.subrange(pos, pos + name.len())[1 + name[0] + k] == buf[next + k]);
            }
        }
        lemma_parse_plain_name(buf, next, start, rest);
        assert(buf.subrange(pos, next) + rest =~= name) by {
            assert forall|k: int| 0 <= k < next - pos implies buf[pos + k] == name[k] by {
                assert(buf.subrange(pos, pos + name.len())[k] == buf[pos + k]);
            }
        }
    }
}

/// Reads the name at `pos` in `buf`, following pointers, and returns it with
/// its labels written out, together with the place behind the name in the run
/// that starts at `pos`. Fails where the name cannot be read or would be
/// longer than 255 octets.
pub fn decode_name(buf: &[u8], pos: usize) -> (r: Result<(Vec<u8>, usize), DnsError>)
    ensures
        match decode_name_spec(buf@, pos as int) {
            Some((name, end)) => r is Ok && r.unwrap().0@ == name && r.unwrap().1 == end,
            None => r == Err::<(Vec<u8>, usize), DnsError>(DnsError::MalformedMessage),
        },
{
    let mut name: Vec<u8> = Vec::new();
    let mut cur: usize = pos;
    let mut start: usize = pos;
    let mut end: Option<usize> = None;
    proof {
        match parse_name(buf@, pos as int, pos as int) {
            Some((rest, _)) => {
                assert(name@ + rest =~= rest);
            },
            None => {},
        }
    }
    loop
        invariant
            start <= cur,
            name@.len() <= 255,
            parse_name(buf@, pos as int, pos as int) == match parse_name(
                buf@,
                cur as int,
                start as int,
            ) {
                Some((rest, e)) => Some(
                    (
                        name@ + rest,
                        if end is Some {
                            end.unwrap() as int
                        } else {
                            e
                        },
                    ),
                ),
                None => None,
            },
        decreases start, buf@.len() - cur,
    {
        if cur >= buf.len() {
            return Err(DnsError::MalformedMessage);
        }
        let b: u8 = buf[cur];
        if b == 0 {
            if name.len() >= 255 {
                return Err(DnsError::MalformedMessage);
            }
            name.push(0);
            let e: usize = match end {
                Some(e) => e,
                None => cur + 1,
            };
            return Ok((name, e));
        } else if b >= 192 {
            if cur + 1 >= buf.len() {
                return Err(DnsError::MalformedMessage);
            }
            let target: usize = (b as usize - 192) * 256 + buf[cur + 1] as usize;
            if target >= start {
                return Err(DnsError::MalformedMessage);
            }
            if end.is_none() {
                end = Some(cur + 2);
            }
            cur = target;
            start = target;
        } else if b >= 64 {
            return Err(DnsError::MalformedMessage);
        } else {
            let n: usize = b as usize;
            if n > buf.len() - cur - 1 {
                return Err(DnsError::MalformedMessage);
            }
            let next: usize = cur + 1 + n;
            proof {
                lemma_parsed_name_is_labels(buf@, next as int, start as int);
            }
            if name.len() + 1 + n >= 255 {
                return Err(DnsError::MalformedMessage);
            }
            let ghost before = name@;
            extend_from_range(&mut name, buf, cur, next);
            proof {
                match parse_name(buf@, next as int, start as int) {
                    Some((rest, _)) => {
                        let label = buf@.subrange(cur as int, next as int);
                        assert((before + label) + rest =~= before + (label + rest));
                    },
                    None => {},
                }
            }
            cur = next;
        }
    }
}

/// Whether the three octets are one of the white-space characters that take
/// three octets in UTF-8: U+1680, U+2000 to U+200A, U+2028, U+2029, U+202F,
/// U+205F and U+3000.
pub open spec fn is_wide_space(b0: u8, b1: u8, b2: u8) -> bool {
    ||| (b0 == 0xE1 && b1 == 0x9A && b2 == 0x80)
    ||| (b0 == 0xE2 && b1 == 0x80 && ((0x80 <= b2 && b2 <= 0x8A) || b2 == 0xA8 || b2 == 0xA9
        || b2 == 0xAF))
    ||| (b0 == 0xE2 && b1 == 0x81 && b2 == 0x9F)
    ||| (b0 == 0xE3 && b1 == 0x80 && b2 == 0x80)
}

/// How many octets the white-space character has that starts at `i` in `s`,
/// or 0 where none starts there. White space is what Unicode calls so: the
/// blank and the control characters from tab to carriage return (one octet),
/// U+0085 and U+00A0 (two octets), and those of [`is_wide_space`].
pub open spec fn space_at(s: Seq<u8>, i: int) -> int {
    if !(0 <= i < s.len()) {
        0
    } else if s[i] == 0x20 || (0x09 <= s[i] && s[i] <= 0x0D) {
        1
    } else if i + 1 < s.len() && s[i] == 0xC2 && (s[i + 1] == 0x85 || s[i + 1] == 0xA0) {
        2
    } else if i + 2 < s.len() && is_wide_space(s[i], s[i + 1], s[i + 2]) {
        3
    } else {
        0
    }
}

/// How many octets the white-space character has that `s` ends with, or 0
/// where it ends with none.
pub open spec fn space_before_end(s: Seq<u8>) -> int {
    if space_at(s, s.len() - 1) == 1 {
        1
    } else if space_at(s, s.len() - 2) == 2 {
        2
    } else if space_at(s, s.len() - 3) == 3 {
        3
    } else {
        0
    }
}

/// `s` without the white space at its two ends.
pub open spec fn trim(s: Seq<u8>) -> Seq<u8>
    decreases s.len(),
{
    if space_at(s, 0) > 0 {
        trim(s.skip(space_at(s, 0)))
    } else if space_before_end(s) > 0 {
        trim(s.take(s.len() - space_before_end(s)))
    } else {
        s
    }
}

/// Where the first dot of `s` stands, or the length of `s` if it has none.
pub open spec fn first_dot(s: Seq<u8>) -> int
    decreases s.len(),
{
    if s.len() == 0 || s[0] == 46 {
        0
    } else {
        1 + first_dot(s.skip(1))
    }
}

/// One label of dotted text as it stands in a name: the length of the
/// trimmed label, then its octets.
pub open spec fn label_bytes(label: Seq<u8>) -> Seq<u8> {
    seq![trim(label).len() as u8] + trim(label)
}

/// The labels of the dotted text `s`, one after the other, each as
/// [`label_bytes`] gives it. Text without a dot is one label.
pub open spec fn labels_bytes(s: Seq<u8>) -> Seq<u8>
    decreases s.len(),
{
    let d = first_dot(s);
    if d < 0 || d >= s.len() {
        label_bytes(s)
    } else {
        label_bytes(s.take(d)) + labels_bytes(s.skip(d + 1))
    }
}

/// Whether every trimmed label of the dotted text `s` has between `low` and
/// `high` octets.
pub open spec fn labels_within(s: Seq<u8>, low: int, high: int) -> bool
    decreases s.len(),
{
    let d = first_dot(s);
    if d < 0 || d >= s.len() {
        low <= trim(s).len() <= high
    } else {
        low <= trim(s.take(d)).len() <= high && labels_within(s.skip(d + 1), low, high)
    }
}

/// The name for the dotted text `s`: its labels and a zero octet. There is
/// none where a label has more than 63 octets or the name more than 255.
pub open spec fn encode_name_spec(s: Seq<u8>) -> Option<Seq<u8>> {
    if labels_within(s, 0, 63) && labels_bytes(s).len() < 255 {
        Some(labels_bytes(s) + seq![0u8])
    } else {
        None
    }
}

/// The place `d` is where the first dot of `s` stands if no dot stands
/// before it and either a dot stands there or `s` ends there.
pub proof fn lemma_first_dot(s: Seq<u8>, d: int)
    requires
        0 <= d <= s.len(),
        forall|k: int| 0 <= k < d ==> s[k] != 46,
        d == s.len() || s[d] == 46,
    ensures
        first_dot(s) == d,
    decreases d,
{
    if d > 0 {
        lemma_first_dot(s.skip(1), d - 1);
    }
}

/// A name made from dotted text in which no label is empty, none is longer
/// than 63 octets, and which is short enough, is a name as [`is_wire_name`]
/// has it.
pub proof fn lemma_encoded_name_is_wire_name(s: Seq<u8>)
    requires
        labels_within(s, 1, 63),
    ensures
        labels_within(s, 0, 63),
        labels_ok(labels_bytes(s) + seq![0u8]),
        encode_name_spec(s) matches Some(name) ==> is_wire_name(name),
    decreases s.len(),
{
    let d = first_dot(s);
    let tail = if d < 0 || d >= s.len() {
        seq![0u8]
    } else {
        labels_bytes(s.skip(d + 1)) + seq![0u8]
    };
    let label = if d < 0 || d >= s.len() {
        s
    } else {
        s.take(d)
    };
    if !(d < 0 || d >= s.len()) {
        lemma_encoded_name_is_wire_name(s.skip(d + 1));
    }
    let whole = labels_bytes(s) + seq![0u8];
    assert(whole =~= label_bytes(label) + tail);
    assert(whole[0] == trim(label).len() as u8);
    assert(whole.skip(1 + whole[0] as int) =~= tail);
    assert(labels_ok(tail));
}

/// Whether the three octets are a white-space character of three octets.
fn wide_space(b0: u8, b1: u8, b2: u8) -> (r: bool)
    ensures
        r == is_wide_space(b0, b1, b2),
{
    (b0 == 0xE1 && b1 == 0x9A && b2 == 0x80) || (b0 == 0xE2 && b1 == 0x80 && ((0x80 <= b2 && b2
        <= 0x8A) || b2 == 0xA8 || b2 == 0xA9 || b2 == 0xAF)) || (b0 == 0xE2 && b1 == 0x81 && b2
        == 0x9F) || (b0 == 0xE3 && b1 == 0x80 && b2 == 0x80)
}

/// The length of the white-space character at the start of the part of
/// `text` between `from` and `to`, or 0.
fn space_len_front(text: &[u8], from: usize, to: usize) -> (k: usize)
    requires
        from <= to <= text@.len(),
    ensures
        k == space_at(text@.subrange(from as int, to as int), 0),
        k <= to - from,
{
    let n: usize = to - from;
    if n >= 1 && (text[from] == 0x20 || (0x09 <= text[from] && text[from] <= 0x0D)) {
        1
    } else if n >= 2 && text[from] == 0xC2 && (text[from + 1] == 0x85 || text[from + 1] == 0xA0) {
        2
    } else if n >= 3 && wide_space(text[from], text[from + 1], text[from + 2]) {
        3
    } else {
        0
    }
}

/// The length of the white-space character at the end of the part of `text`
/// between `from` and `to`, or 0.
fn space_len_back(text: &[u8], from: usize, to: usize) -> (k: usize)
    requires
        from <= to <= text@.len(),
    ensures
        k == space_before_end(text@.subrange(from as int, to as int)),
        k <= to - from,
{
    let n: usize = to - from;
    if n >= 1 && (text[to - 1] == 0x20 || (0x09 <= text[to - 1] && text[to - 1] <= 0x0D)) {
        1
    } else if n >= 2 && text[to - 2] == 0xC2 && (text[to - 1] == 0x85 || text[to - 1] == 0xA0) {
        2
    } else if n >= 3 && wide_space(text[to - 3], text[to - 2], text[to - 1]) {
        3
    } else {
        0
    }
}

/// Finds the part of `text` between `from` and `to` that is left when the
/// white space at both ends is taken away.
fn trim_range(text: &[u8], from: usize, to: usize) -> (r: (usize, usize))
    requires
        from <= to <= text@.len(),
    ensures
        from <= r.0 <= r.1 <= to,
        text@.subrange(r.0 as int, r.1 as int) == trim(text@.subrange(from as int, to as int)),
{
    let mut a: usize = from;
    let mut k: usize = space_len_front(text, a, to);
    while k > 0
        invariant
            from <= a <= to <= text@.len(),
            k == space_at(text@.subrange(a as int, to as int), 0),
            k <= to - a,
            trim(text@.subrange(a as int, to as int)) == trim(
                text@.subrange(from as int, to as int),
            ),
        decreases to - a,
    {
        assert(text@.subrange(a as int, to as int).skip(k as int) =~= text@.subrange(
            a + k,
            to as int,
        ));
        a += k;
        k = space_len_front(text, a, to);
    }
    let mut b: usize = to;
    let mut k: usize = space_len_back(text, a, b);
    while k > 0
        invariant
            a <= b <= to <= text@.len(),
            space_at(text@.subrange(a as int, b as int), 0) == 0,
            k == space_before_end(text@.subrange(a as int, b as int)),
            k <= b - a,
            trim(text@.subrange(a as int, b as int)) == trim(
                text@.subrange(from as int, to as int),
            ),
        decreases b - a,
    {
        assert(text@.subrange(a as int, b as int).take(b - a - k) =~= text@.subrange(
            a as int,
            b - k,
        ));
        b -= k;
        k = space_len_back(text, a, b);
    }
    (a, b)
}

/// Makes the name for the dotted text `text`, given as the octets of its
/// UTF-8: splits it at the dots, trims each label of white space, and writes
/// each behind an octet with its length, then a zero octet. A label that is
/// empty once trimmed is written like any other, as an octet of zero. Fails
/// where a label is longer than 63 octets or the name longer than 255.
pub fn encode_name(text: &[u8]) -> (r: Result<Vec<u8>, DnsError>)
    ensures
        match encode_name_spec(text@) {
            Some(name) => r is Ok && r.unwrap()@ == name,
            None => r == Err::<Vec<u8>, DnsError>(DnsError::NameTooLong),
        },
{
    let mut out: Vec<u8> = Vec::new();
    let mut i: usize = 0;
    assert(text@.skip(0) =~= text@);
    assert(out@ + labels_bytes(text@) =~= labels_bytes(text@));
    loop
        invariant
            i <= text@.len(),
            out@.len() < 255,
            labels_within(text@, 0, 63) == labels_within(text@.skip(i as int), 0, 63),
            labels_bytes(text@) == out@ + labels_bytes(text@.skip(i as int)),
        decreases text@.len() - i,
    {
        let ghost s = text@.skip(i as int);
        let mut j: usize = i;
        while j < text.len() && text[j] != 46
            invariant
                i <= j <= text@.len(),
                forall|k: int| i <= k < j ==> text@[k] != 46,
            decreases text@.len() - j,
        {
            j += 1;
        }
        proof {
            lemma_first_dot(s, j - i);
            assert(s.take(j - i) =~= text@.subrange(i as int, j as int));
            assert(s =~= text@.subrange(i as int, text@.len() as int));
            if j < text@.len() {
                assert(s.skip(j - i + 1) =~= text@.skip(j + 1));
            }
        }
        let (a, b) = trim_range(text, i, j);
        let n: usize = b - a;
        if n > 63 {
            return Err(DnsError::NameTooLong);
        }
        if out.len() + 1 + n >= 255 {
            return Err(DnsError::NameTooLong);
        }
        let ghost before = out@;
        out.push(n as u8);
        extend_from_range(&mut out, text, a, b);
        assert(out@ =~= before + label_bytes(text@.subrange(i as int, j as int)));
        if j >= text.len() {
            out.push(0);
            return Ok(out);
        }
        proof {
            let label = label_bytes(text@.subrange(i as int, j as int));
            let rest = labels_bytes(text@.skip(j + 1));
            assert((before + label) + rest =~= before + (label + rest));
        }
        i = j + 1;
    }
}

} // verus!
