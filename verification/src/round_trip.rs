//! Reading back what was written: a message that can be written decodes
//! from its own encoding to itself.

use crate::buffer::{be16, be32};
use crate::error::Error;
use crate::flags::lemma_unpack_pack;
use crate::reader::{u16_at, u32_at};
use crate::wire::{
    decode_message, decode_question, decode_questions, decode_record,
    decode_records, encode_header, encode_message, encode_name, encode_question,
    encode_questions, encode_record, encode_records, labels_ok, labels_wire, message_ok,
    name_from, name_ok, name_room, Message, Name, Question, Record,
};
use vstd::prelude::*;

verus! {

/// The bytes `wire` stand in `buf` from `pos` on.
#[verifier::opaque]
pub open spec fn holds_at(buf: Seq<u8>, pos: int, wire: Seq<u8>) -> bool {
    &&& 0 <= pos
    &&& pos + wire.len() <= buf.len()
    &&& forall|k: int| 0 <= k < wire.len() ==> buf[pos + k] == #[trigger] wire[k]
}

/// Where a run of bytes stands, each of its two parts stands.
pub proof fn lemma_holds_split(buf: Seq<u8>, pos: int, front: Seq<u8>, back: Seq<u8>)
    requires
        holds_at(buf, pos, front + back),
    ensures
        holds_at(buf, pos, front),
        holds_at(buf, pos + front.len(), back),
{
    reveal(holds_at);
    let whole = front + back;
    assert forall|k: int| 0 <= k < front.len() implies buf[pos + k] == #[trigger] front[k] by {
        assert(whole[k] == front[k]);
    }
    assert forall|k: int| 0 <= k < back.len() implies buf[pos + front.len() + k]
        == #[trigger] back[k] by {
        assert(whole[front.len() + k] == back[k]);
    }
}

/// Two bytes written big-endian read back as the number.
pub proof fn lemma_u16_reads_back(buf: Seq<u8>, pos: int, v: u16)
    requires
        holds_at(buf, pos, be16(v)),
    ensures
        u16_at(buf, pos) == v,
{
    reveal(holds_at);
    assert(be16(v)[0] == (v / 256) as u8);
    assert(be16(v)[1] == (v % 256) as u8);
}

/// Four bytes written big-endian read back as the number.
pub proof fn lemma_u32_reads_back(buf: Seq<u8>, pos: int, v: u32)
    requires
        holds_at(buf, pos, be32(v)),
    ensures
        u32_at(buf, pos) == v,
{
    reveal(holds_at);
    assert(be32(v)[0] == (v / 16777216) as u8);
    assert(be32(v)[1] == (v / 65536 % 256) as u8);
    assert(be32(v)[2] == (v / 256 % 256) as u8);
    assert(be32(v)[3] == (v % 256) as u8);
}

/// Where the uncompressed form of a name stands, the name is read, and
/// reading ends right behind it, whatever the pointers could reach.
pub proof fn lemma_name_reads_back(
    buf: Seq<u8>,
    pos: int,
    pkt: Seq<u8>,
    bound: int,
    room: int,
    name: Name,
)
    requires
        labels_ok(name),
        labels_wire(name).len() <= room,
        holds_at(buf, pos, labels_wire(name).push(0u8)),
    ensures
        name_from(buf, pos, pkt, bound, room) == Ok::<(Name, int), Error>(
            (name, pos + labels_wire(name).len() + 1),
        ),
    decreases name.len(),
{
    reveal(holds_at);
    let wire = labels_wire(name).push(0u8);
    if name.len() == 0 {
        assert(wire[0] == 0u8);
        assert(name =~= Seq::<Seq<u8>>::empty());
    } else {
        let label = name[0];
        let rest = name.drop_first();
        let head = seq![label.len() as u8] + label;
        assert(labels_ok(rest)) by {
            assert forall|i: int| 0 <= i < rest.len() implies crate::wire::label_ok(
                #[trigger] rest[i],
            ) by {
                assert(rest[i] == name[i + 1]);
            }
        }
        assert(crate::wire::label_ok(label));
        assert(wire =~= head + labels_wire(rest).push(0u8));
        lemma_holds_split(buf, pos, head, labels_wire(rest).push(0u8));
        assert(head[0] == label.len() as u8);
        assert(buf[pos] == label.len() as u8);
        assert(buf.subrange(pos + 1, pos + 1 + label.len()) =~= label) by {
            assert forall|k: int| 0 <= k < label.len() implies buf[pos + 1 + k] == label[k] by {
                assert(head[1 + k] == label[k]);
            }
        }
        lemma_name_reads_back(
            buf,
            pos + 1 + label.len(),
            pkt,
            bound,
            room - label.len() - 1,
            rest,
        );
        assert(seq![label] + rest =~= name);
    }
}

/// Where the encoding of a question stands, the question is read, and
/// reading ends right behind it.
pub proof fn lemma_question_reads_back(buf: Seq<u8>, pos: int, pkt: Seq<u8>, q: Question)
    requires
        encode_question(q) is Ok,
        holds_at(buf, pos, encode_question(q)->Ok_0),
    ensures
        decode_question(buf, pos, pkt) == Ok::<(Question, int), Error>(
            (q, pos + encode_question(q)->Ok_0.len()),
        ),
{
    let name = encode_name(q.name)->Ok_0;
    let wire = encode_question(q)->Ok_0;
    assert(wire =~= name + (be16(q.qtype) + be16(q.qclass)));
    lemma_holds_split(buf, pos, name, be16(q.qtype) + be16(q.qclass));
    lemma_holds_split(buf, pos + name.len(), be16(q.qtype), be16(q.qclass));
    lemma_name_reads_back(buf, pos, pkt, pkt.len() as int, name_room(), q.name);
    lemma_u16_reads_back(buf, pos + name.len(), q.qtype);
    lemma_u16_reads_back(buf, pos + name.len() + 2, q.qclass);
    assert(pos + wire.len() <= buf.len()) by {
        reveal(holds_at);
    }
}

/// Where the encoding of a record stands, the record is read, and reading
/// ends right behind it.
pub proof fn lemma_record_reads_back(buf: Seq<u8>, pos: int, pkt: Seq<u8>, r: Record)
    requires
        encode_record(r) is Ok,
        holds_at(buf, pos, encode_record(r)->Ok_0),
    ensures
        decode_record(buf, pos, pkt) == Ok::<(Record, int), Error>(
            (r, pos + encode_record(r)->Ok_0.len()),
        ),
{
    let name = encode_name(r.name)->Ok_0;
    let wire = encode_record(r)->Ok_0;
    let len = r.rdata.len() as u16;
    let fixed = be16(r.rtype) + be16(r.rclass) + be32(r.ttl) + be16(len);
    assert(wire =~= name + (fixed + r.rdata));
    lemma_holds_split(buf, pos, name, fixed + r.rdata);
    lemma_holds_split(buf, pos + name.len(), fixed, r.rdata);
    assert(fixed =~= be16(r.rtype) + (be16(r.rclass) + (be32(r.ttl) + be16(len))));
    lemma_holds_split(
        buf,
        pos + name.len(),
        be16(r.rtype),
        be16(r.rclass) + (be32(r.ttl) + be16(len)),
    );
    lemma_holds_split(buf, pos + name.len() + 2, be16(r.rclass), be32(r.ttl) + be16(len));
    lemma_holds_split(buf, pos + name.len() + 4, be32(r.ttl), be16(len));
    lemma_name_reads_back(buf, pos, pkt, pkt.len() as int, name_room(), r.name);
    lemma_u16_reads_back(buf, pos + name.len(), r.rtype);
    lemma_u16_reads_back(buf, pos + name.len() + 2, r.rclass);
    lemma_u32_reads_back(buf, pos + name.len() + 4, r.ttl);
    lemma_u16_reads_back(buf, pos + name.len() + 8, len);
    let at = pos + name.len();
    assert(buf.subrange(at + 10, at + 10 + r.rdata.len()) =~= r.rdata) by {
        reveal(holds_at);
    }
    assert(at + 10 + r.rdata.len() <= buf.len()) by {
        reveal(holds_at);
    }
}

/// Where the encoding of a run of questions stands, the questions are read,
/// and reading ends right behind them.
pub proof fn lemma_questions_read_back(buf: Seq<u8>, pos: int, pkt: Seq<u8>, qs: Seq<Question>)
    requires
        encode_questions(qs) is Ok,
        holds_at(buf, pos, encode_questions(qs)->Ok_0),
    ensures
        decode_questions(buf, pos, pkt, qs.len()) == Ok::<(Seq<Question>, int), Error>(
            (qs, pos + encode_questions(qs)->Ok_0.len()),
        ),
    decreases qs.len(),
{
    if qs.len() == 0 {
        assert(qs =~= Seq::<Question>::empty());
    } else {
        let first = encode_question(qs[0])->Ok_0;
        let rest = encode_questions(qs.drop_first())->Ok_0;
        lemma_holds_split(buf, pos, first, rest);
        lemma_question_reads_back(buf, pos, pkt, qs[0]);
        lemma_questions_read_back(buf, pos + first.len(), pkt, qs.drop_first());
        assert(seq![qs[0]] + qs.drop_first() =~= qs);
    }
}

/// Where the encoding of a run of records stands, the records are read,
/// and reading ends right behind them.
pub proof fn lemma_records_read_back(buf: Seq<u8>, pos: int, pkt: Seq<u8>, rs: Seq<Record>)
    requires
        encode_records(rs) is Ok,
        holds_at(buf, pos, encode_records(rs)->Ok_0),
    ensures
        decode_records(buf, pos, pkt, rs.len()) == Ok::<(Seq<Record>, int), Error>(
            (rs, pos + encode_records(rs)->Ok_0.len()),
        ),
    decreases rs.len(),
{
    if rs.len() == 0 {
        assert(rs =~= Seq::<Record>::empty());
    } else {
        let first = encode_record(rs[0])->Ok_0;
        let rest = encode_records(rs.drop_first())->Ok_0;
        lemma_holds_split(buf, pos, first, rest);
        lemma_record_reads_back(buf, pos, pkt, rs[0]);
        lemma_records_read_back(buf, pos + first.len(), pkt, rs.drop_first());
        assert(seq![rs[0]] + rs.drop_first() =~= rs);
    }
}

/// A run of questions whose names can all be written can be written.
pub proof fn lemma_questions_encode(qs: Seq<Question>)
    requires
        forall|i: int| 0 <= i < qs.len() ==> name_ok((#[trigger] qs[i]).name),
    ensures
        encode_questions(qs) is Ok,
    decreases qs.len(),
{
    if qs.len() > 0 {
        let rest = qs.drop_first();
        assert(name_ok(qs[0].name));
        assert forall|i: int| 0 <= i < rest.len() implies name_ok((#[trigger] rest[i]).name) by {
            assert(rest[i] == qs[i + 1]);
        }
        lemma_questions_encode(rest);
    }
}

/// A run of records whose names can all be written, and whose data fit a
/// 16-bit length, can be written.
pub proof fn lemma_records_encode(rs: Seq<Record>)
    requires
        forall|i: int|
            0 <= i < rs.len() ==> name_ok((#[trigger] rs[i]).name) && rs[i].rdata.len() <= 0xffff,
    ensures
        encode_records(rs) is Ok,
    decreases rs.len(),
{
    if rs.len() > 0 {
        let rest = rs.drop_first();
        assert(name_ok(rs[0].name));
        assert forall|i: int| 0 <= i < rest.len() implies name_ok((#[trigger] rest[i]).name)
            && rest[i].rdata.len() <= 0xffff by {
            assert(rest[i] == rs[i + 1]);
        }
        lemma_records_encode(rest);
    }
}

/// Where the twelve header bytes stand, id, flag word and the two counts
/// are read back.
pub proof fn lemma_header_reads_back(
    buf: Seq<u8>,
    pos: int,
    id: u16,
    flags: crate::flags::Flags,
    qdcount: u16,
    ancount: u16,
)
    requires
        holds_at(buf, pos, encode_header(id, flags, qdcount, ancount)),
    ensures
        encode_header(id, flags, qdcount, ancount).len() == 12,
        u16_at(buf, pos) == id,
        u16_at(buf, pos + 2) == crate::flags::pack(flags),
        u16_at(buf, pos + 4) == qdcount,
        u16_at(buf, pos + 6) == ancount,
{
    let word = crate::flags::pack(flags);
    let header = encode_header(id, flags, qdcount, ancount);
    let tail = be16(0) + be16(0);
    assert(header =~= be16(id) + (be16(word) + (be16(qdcount) + (be16(ancount) + tail))));
    lemma_holds_split(buf, pos, be16(id), be16(word) + (be16(qdcount) + (be16(ancount) + tail)));
    lemma_holds_split(buf, pos + 2, be16(word), be16(qdcount) + (be16(ancount) + tail));
    lemma_holds_split(buf, pos + 4, be16(qdcount), be16(ancount) + tail);
    lemma_holds_split(buf, pos + 6, be16(ancount), tail);
    lemma_u16_reads_back(buf, pos, id);
    lemma_u16_reads_back(buf, pos + 2, word);
    lemma_u16_reads_back(buf, pos + 4, qdcount);
    lemma_u16_reads_back(buf, pos + 6, ancount);
}

/// Every message that can be written has an encoding, and its encoding
/// decodes to the message itself, with nothing left over.
pub proof fn lemma_round_trip(m: Message)
    requires
        message_ok(m),
    ensures
        encode_message(m) is Ok,
        decode_message(encode_message(m)->Ok_0) == Ok::<(Message, int), Error>(
            (m, encode_message(m)->Ok_0.len() as int),
        ),
{
    lemma_questions_encode(m.questions);
    lemma_records_encode(m.answers);
    let qd = m.questions.len() as u16;
    let an = m.answers.len() as u16;
    let header = encode_header(m.id, m.flags, qd, an);
    let qs = encode_questions(m.questions)->Ok_0;
    let rs = encode_records(m.answers)->Ok_0;
    let wire = encode_message(m)->Ok_0;
    assert(wire == header + qs + rs);
    assert(holds_at(wire, 0, header) && holds_at(wire, 12, qs) && holds_at(
        wire,
        12 + qs.len() as int,
        rs,
    ) && header.len() == 12) by {
        assert(wire =~= header + (qs + rs));
        assert(holds_at(wire, 0, wire)) by {
            reveal(holds_at);
        }
        lemma_holds_split(wire, 0, header, qs + rs);
        lemma_holds_split(wire, header.len() as int, qs, rs);
    }
    lemma_header_reads_back(wire, 0, m.id, m.flags, qd, an);
    lemma_unpack_pack(m.flags);
    lemma_questions_read_back(wire, 12, wire, m.questions);
    lemma_records_read_back(wire, 12 + qs.len() as int, wire, m.answers);
    assert(wire.len() == 12 + qs.len() + rs.len());
}

} // verus!
