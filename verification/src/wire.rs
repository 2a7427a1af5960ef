//! The wire format as mathematics: what a message is, which bytes spell it,
//! and which message a run of bytes spells.

use crate::buffer::{be16, be32};
use crate::error::Error;
use crate::flags::{pack, unpack, Flags};
use crate::reader::{u16_at, u32_at};
use vstd::prelude::*;

verus! {

/// A domain name: its labels in order, each the raw bytes between two dots.
pub type Name = Seq<Seq<u8>>;

/// An entry of the question section.
pub struct Question {
    pub name: Name,
    pub qtype: u16,
    pub qclass: u16,
}

/// A resource record.
pub struct Record {
    pub name: Name,
    pub rtype: u16,
    pub rclass: u16,
    pub ttl: u32,
    pub rdata: Seq<u8>,
}

/// A message: header fields, questions and answers. The authority and
/// additional sections are not held; their counts are written as zero.
pub struct Message {
    pub id: u16,
    pub flags: Flags,
    pub questions: Seq<Question>,
    pub answers: Seq<Record>,
}

/// The name that a vector of labels holds.
pub open spec fn labels_of(labels: Seq<Vec<u8>>) -> Name {
    Seq::new(labels.len(), |i: int| labels[i]@)
}

/// The most that the labels of a name, each with its length byte, may take:
/// with the closing zero byte a name is at most 255 bytes.
pub open spec fn name_room() -> int {
    254
}

/// A label has 1 to 63 bytes.
pub open spec fn label_ok(label: Seq<u8>) -> bool {
    1 <= label.len() <= 63
}

/// Every label of the name has 1 to 63 bytes.
pub open spec fn labels_ok(name: Name) -> bool {
    forall|i: int| 0 <= i < name.len() ==> label_ok(#[trigger] name[i])
}

/// A name can be written: every label has 1 to 63 bytes, and with the
/// length bytes and the closing zero byte the name takes at most 255 bytes.
pub open spec fn name_ok(name: Name) -> bool {
    labels_ok(name) && labels_wire(name).len() <= name_room()
}

/// A message can be written: each flag fits in its width, neither section
/// has more than 65535 entries, every name can be written, and no record's
/// data has more than 65535 bytes.
pub open spec fn message_ok(m: Message) -> bool {
    &&& m.flags.valid()
    &&& m.questions.len() <= 0xffff
    &&& m.answers.len() <= 0xffff
    &&& forall|i: int| 0 <= i < m.questions.len() ==> name_ok((#[trigger] m.questions[i]).name)
    &&& forall|i: int|
        0 <= i < m.answers.len() ==> name_ok((#[trigger] m.answers[i]).name) && m.answers[i].rdata.len()
            <= 0xffff
}

/// The labels of a name on the wire, each behind its length byte, without
/// the closing zero byte.
pub open spec fn labels_wire(name: Name) -> Seq<u8>
    decreases name.len(),
{
    if name.len() == 0 {
        Seq::empty()
    } else {
        seq![name[0].len() as u8] + name[0] + labels_wire(name.drop_first())
    }
}

/// The name on the wire, uncompressed: its labels and a zero byte. A name
/// with a label of no or more than 63 bytes has no encoding; neither has
/// one that would take more than 255 bytes.
pub open spec fn encode_name(name: Name) -> Result<Seq<u8>, Error> {
    if !labels_ok(name) {
        Err(Error::InvalidLabelLength)
    } else if labels_wire(name).len() > name_room() {
        Err(Error::NameTooLong)
    } else {
        Ok(labels_wire(name).push(0u8))
    }
}

/// The question on the wire: name, type, class.
pub open spec fn encode_question(q: Question) -> Result<Seq<u8>, Error> {
    match encode_name(q.name) {
        Err(e) => Err(e),
        Ok(name) => Ok(name + be16(q.qtype) + be16(q.qclass)),
    }
}

/// The record on the wire: name, type, class, time to live, the length of
/// the data in 16 bits, the data. Data of more than 65535 bytes has no
/// encoding.
pub open spec fn encode_record(r: Record) -> Result<Seq<u8>, Error> {
    match encode_name(r.name) {
        Err(e) => Err(e),
        Ok(name) => if r.rdata.len() > 0xffff {
            Err(Error::PayloadTooLarge)
        } else {
            Ok(
                name + be16(r.rtype) + be16(r.rclass) + be32(r.ttl) + be16(r.rdata.len() as u16)
                    + r.rdata,
            )
        },
    }
}

/// The questions on the wire, one after the other; the error of the first
/// that has no encoding.
pub open spec fn encode_questions(qs: Seq<Question>) -> Result<Seq<u8>, Error>
    decreases qs.len(),
{
    if qs.len() == 0 {
        Ok(Seq::empty())
    } else {
        match encode_question(qs[0]) {
            Err(e) => Err(e),
            Ok(first) => match encode_questions(qs.drop_first()) {
                Err(e) => Err(e),
                Ok(rest) => Ok(first + rest),
            },
        }
    }
}

/// The records on the wire, one after the other; the error of the first
/// that has no encoding.
pub open spec fn encode_records(rs: Seq<Record>) -> Result<Seq<u8>, Error>
    decreases rs.len(),
{
    if rs.len() == 0 {
        Ok(Seq::empty())
    } else {
        match encode_record(rs[0]) {
            Err(e) => Err(e),
            Ok(first) => match encode_records(rs.drop_first()) {
                Err(e) => Err(e),
                Ok(rest) => Ok(first + rest),
            },
        }
    }
}

/// The twelve header bytes: id, flag word, the four section counts.
pub open spec fn encode_header(id: u16, flags: Flags, qdcount: u16, ancount: u16) -> Seq<u8> {
    be16(id) + be16(pack(flags)) + be16(qdcount) + be16(ancount) + be16(0) + be16(0)
}

/// The message on the wire: the header with the counts of its two sections
/// and zero for the other two, the questions, the answers. A section of more
/// than 65535 entries has no encoding.
pub open spec fn encode_message(m: Message) -> Result<Seq<u8>, Error> {
    if m.questions.len() > 0xffff || m.answers.len() > 0xffff {
        Err(Error::PayloadTooLarge)
    } else {
        match encode_questions(m.questions) {
            Err(e) => Err(e),
            Ok(qs) => match encode_records(m.answers) {
                Err(e) => Err(e),
                Ok(rs) => Ok(
                    encode_header(m.id, m.flags, m.questions.len() as u16, m.answers.len() as u16)
                        + qs + rs,
                ),
            },
        }
    }
}

/// The pointer target that the two bytes `hi`, `lo` spell: the low 14 bits.
pub open spec fn pointer_target(hi: u8, lo: u8) -> int {
    (hi - 192) * 256 + lo
}

/// The name that starts at `pos` in `cur`, and the position behind it.
///
/// A length byte of 1 to 63 is followed by that many label bytes; a zero
/// byte ends the name; a byte of 192 or more starts a two-byte pointer into
/// `pkt`, where the rest of the name is read, and ends the name in `cur`.
/// A pointer must target an offset below `bound`; behind a pointer to
/// offset `t` the bound is `t`, so a chain of pointers moves strictly
/// backwards. `room` is what the labels still to come may take, each with
/// its length byte.
pub open spec fn name_from(cur: Seq<u8>, pos: int, pkt: Seq<u8>, bound: int, room: int) -> Result<
    (Name, int),
    Error,
>
    decreases bound, cur.len() - pos,
{
    if pos < 0 || pos >= cur.len() {
        Err(Error::TruncatedInput)
    } else {
        let head = cur[pos];
        if head == 0 {
            Ok((Seq::empty(), pos + 1))
        } else if head < 64 {
            if pos + 1 + head > cur.len() {
                Err(Error::TruncatedInput)
            } else if head + 1 > room {
                Err(Error::NameTooLong)
            } else {
                match name_from(cur, pos + 1 + head, pkt, bound, room - head - 1) {
                    Err(e) => Err(e),
                    Ok((rest, end)) => Ok(
                        (seq![cur.subrange(pos + 1, pos + 1 + head)] + rest, end),
                    ),
                }
            }
        } else if head < 192 {
            Err(Error::InvalidLabelLength)
        } else if pos + 2 > cur.len() {
            Err(Error::TruncatedInput)
        } else {
            let target = pointer_target(head, cur[pos + 1]);
            if target >= pkt.len() {
                Err(Error::PointerOutOfRange)
            } else if target >= bound {
                Err(Error::PointerCycle)
            } else {
                match name_from(pkt, target, pkt, target, room) {
                    Err(e) => Err(e),
                    Ok((rest, _)) => Ok((rest, pos + 2)),
                }
            }
        }
    }
}

/// The name that starts at `pos` in `buf`, with pointers into `pkt`, and the
/// position behind it. The first pointer of a name may target any offset of
/// `pkt`.
pub open spec fn decode_name(buf: Seq<u8>, pos: int, pkt: Seq<u8>) -> Result<(Name, int), Error> {
    name_from(buf, pos, pkt, pkt.len() as int, name_room())
}

/// The question that starts at `pos` in `buf`, and the position behind it.
pub open spec fn decode_question(buf: Seq<u8>, pos: int, pkt: Seq<u8>) -> Result<
    (Question, int),
    Error,
> {
    match decode_name(buf, pos, pkt) {
        Err(e) => Err(e),
        Ok((name, at)) => if at + 4 > buf.len() {
            Err(Error::TruncatedInput)
        } else {
            Ok(
                (
                    Question {
                        name,
                        qtype: u16_at(buf, at) as u16,
                        qclass: u16_at(buf, at + 2) as u16,
                    },
                    at + 4,
                ),
            )
        },
    }
}

/// The record that starts at `pos` in `buf`, and the position behind it.
pub open spec fn decode_record(buf: Seq<u8>, pos: int, pkt: Seq<u8>) -> Result<(Record, int), Error> {
    match decode_name(buf, pos, pkt) {
        Err(e) => Err(e),
        Ok((name, at)) => if at + 10 > buf.len() || at + 10 + u16_at(buf, at + 8) > buf.len() {
            Err(Error::TruncatedInput)
        } else {
            Ok(
                (
                    Record {
                        name,
                        rtype: u16_at(buf, at) as u16,
                        rclass: u16_at(buf, at + 2) as u16,
                        ttl: u32_at(buf, at + 4) as u32,
                        rdata: buf.subrange(at + 10, at + 10 + u16_at(buf, at + 8)),
                    },
                    at + 10 + u16_at(buf, at + 8),
                ),
            )
        },
    }
}

/// The `n` questions that start at `pos` in `buf`, and the position behind
/// them; the error of the first that cannot be read.
pub open spec fn decode_questions(buf: Seq<u8>, pos: int, pkt: Seq<u8>, n: nat) -> Result<
    (Seq<Question>, int),
    Error,
>
    decreases n,
{
    if n == 0 {
        Ok((Seq::empty(), pos))
    } else {
        match decode_question(buf, pos, pkt) {
            Err(e) => Err(e),
            Ok((q, at)) => match decode_questions(buf, at, pkt, (n - 1) as nat) {
                Err(e) => Err(e),
                Ok((rest, end)) => Ok((seq![q] + rest, end)),
            },
        }
    }
}

/// The `n` records that start at `pos` in `buf`, and the position behind
/// them; the error of the first that cannot be read.
pub open spec fn decode_records(buf: Seq<u8>, pos: int, pkt: Seq<u8>, n: nat) -> Result<
    (Seq<Record>, int),
    Error,
>
    decreases n,
{
    if n == 0 {
        Ok((Seq::empty(), pos))
    } else {
        match decode_record(buf, pos, pkt) {
            Err(e) => Err(e),
            Ok((r, at)) => match decode_records(buf, at, pkt, (n - 1) as nat) {
                Err(e) => Err(e),
                Ok((rest, end)) => Ok((seq![r] + rest, end)),
            },
        }
    }
}

/// The message that `buf` spells, and the position behind its answer
/// section. The header's first two counts say how many questions and
/// answers follow; its last two counts are read and dropped, and whatever
/// follows the answers is left where it is.
pub open spec fn decode_message(buf: Seq<u8>) -> Result<(Message, int), Error> {
    if buf.len() < 12 {
        Err(Error::TruncatedInput)
    } else {
        match decode_questions(buf, 12, buf, u16_at(buf, 4) as nat) {
            Err(e) => Err(e),
            Ok((questions, at)) => match decode_records(buf, at, buf, u16_at(buf, 6) as nat) {
                Err(e) => Err(e),
                Ok((answers, end)) => Ok(
                    (
                        Message {
                            id: u16_at(buf, 0) as u16,
                            flags: unpack(u16_at(buf, 2) as u16),
                            questions,
                            answers,
                        },
                        end,
                    ),
                ),
            },
        }
    }
}

} // verus!
