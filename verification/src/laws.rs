//! What holds of every message and every store: that whatever was decoded
//! can be written again, that pointer loops are refused, and what a
//! response holds.

use crate::dns_hdr::{OpCode, RCode, RRClass, RRType};
use crate::dns_server::{
    answer_for, answers_for, first_absent, forward_message, lemma_first_absent, plan,
    response_to, Plan, Records,
};
use crate::domain::domain_of;
use crate::error::Error;
use crate::flags::lemma_unpack_valid;
use crate::reader::u16_at;
use crate::wire::{
    decode_message, decode_name, decode_question, decode_questions, decode_record,
    decode_records, label_ok, labels_ok, labels_wire, message_ok, name_from, name_ok, name_room,
    pointer_target, Message, Name, Question, Record,
};
use vstd::prelude::*;

verus! {

/// A name that was read can be written: each of its labels has 1 to 63
/// bytes, and they fit the room that reading was given. Reading moved
/// forward and stayed inside the buffer.
pub proof fn lemma_name_read_is_ok(cur: Seq<u8>, pos: int, pkt: Seq<u8>, bound: int, room: int)
    requires
        0 <= room,
        name_from(cur, pos, pkt, bound, room) is Ok,
    ensures
        labels_ok(name_from(cur, pos, pkt, bound, room)->Ok_0.0),
        labels_wire(name_from(cur, pos, pkt, bound, room)->Ok_0.0).len() <= room,
        pos < name_from(cur, pos, pkt, bound, room)->Ok_0.1 <= cur.len(),
    decreases bound, cur.len() - pos,
{
    let head = cur[pos];
    if head == 0 {
    } else if head < 64 {
        let label = cur.subrange(pos + 1, pos + 1 + head);
        lemma_name_read_is_ok(cur, pos + 1 + head, pkt, bound, room - head - 1);
        let rest = name_from(cur, pos + 1 + head, pkt, bound, room - head - 1)->Ok_0.0;
        let name = seq![label] + rest;
        assert(name[0] == label);
        assert(name.drop_first() =~= rest);
        assert(labels_ok(name)) by {
            assert forall|i: int| 0 <= i < name.len() implies label_ok(#[trigger] name[i]) by {
                if i > 0 {
                    assert(name[i] == rest[i - 1]);
                }
            }
        }
    } else {
        let target = pointer_target(head, cur[pos + 1]);
        lemma_name_read_is_ok(pkt, target, pkt, target, room);
    }
}

/// The questions that were read are as many as were asked for, their names
/// can be written, and reading stayed inside the buffer.
pub proof fn lemma_questions_read_are_ok(buf: Seq<u8>, pos: int, pkt: Seq<u8>, n: nat)
    requires
        0 <= pos <= buf.len(),
        decode_questions(buf, pos, pkt, n) is Ok,
    ensures
        decode_questions(buf, pos, pkt, n)->Ok_0.0.len() == n,
        forall|i: int|
            0 <= i < n ==> name_ok((#[trigger] decode_questions(buf, pos, pkt, n)->Ok_0.0[i]).name),
        pos <= decode_questions(buf, pos, pkt, n)->Ok_0.1 <= buf.len(),
    decreases n,
{
    if n > 0 {
        lemma_name_read_is_ok(buf, pos, pkt, pkt.len() as int, name_room());
        let (q, at) = decode_question(buf, pos, pkt)->Ok_0;
        lemma_questions_read_are_ok(buf, at, pkt, (n - 1) as nat);
        let rest = decode_questions(buf, at, pkt, (n - 1) as nat)->Ok_0.0;
        let all = seq![q] + rest;
        assert forall|i: int| 0 <= i < n implies name_ok((#[trigger] all[i]).name) by {
            if i > 0 {
                assert(all[i] == rest[i - 1]);
            }
        }
    }
}

/// The records that were read are as many as were asked for, their names
/// can be written, their data fit a 16-bit length, and reading stayed
/// inside the buffer.
pub proof fn lemma_records_read_are_ok(buf: Seq<u8>, pos: int, pkt: Seq<u8>, n: nat)
    requires
        0 <= pos <= buf.len(),
        decode_records(buf, pos, pkt, n) is Ok,
    ensures
        decode_records(buf, pos, pkt, n)->Ok_0.0.len() == n,
        forall|i: int|
            0 <= i < n ==> name_ok((#[trigger] decode_records(buf, pos, pkt, n)->Ok_0.0[i]).name)
                && decode_records(buf, pos, pkt, n)->Ok_0.0[i].rdata.len() <= 0xffff,
        pos <= decode_records(buf, pos, pkt, n)->Ok_0.1 <= buf.len(),
    decreases n,
{
    if n > 0 {
        lemma_name_read_is_ok(buf, pos, pkt, pkt.len() as int, name_room());
        let (r, at) = decode_record(buf, pos, pkt)->Ok_0;
        lemma_records_read_are_ok(buf, at, pkt, (n - 1) as nat);
        let rest = decode_records(buf, at, pkt, (n - 1) as nat)->Ok_0.0;
        let all = seq![r] + rest;
        assert forall|i: int| 0 <= i < n implies name_ok((#[trigger] all[i]).name)
            && all[i].rdata.len() <= 0xffff by {
            if i > 0 {
                assert(all[i] == rest[i - 1]);
            }
        }
    }
}

/// Every message that decodes can be written: decoding never hands out a
/// message that encoding would refuse.
pub proof fn lemma_decoded_is_ok(buf: Seq<u8>)
    requires
        decode_message(buf) is Ok,
    ensures
        message_ok(decode_message(buf)->Ok_0.0),
        12 <= decode_message(buf)->Ok_0.1 <= buf.len(),
{
    let qd = u16_at(buf, 4) as nat;
    let an = u16_at(buf, 6) as nat;
    lemma_questions_read_are_ok(buf, 12, buf, qd);
    let at = decode_questions(buf, 12, buf, qd)->Ok_0.1;
    lemma_records_read_are_ok(buf, at, buf, an);
    lemma_unpack_valid(u16_at(buf, 2) as u16);
}

/// The answers to a run of questions are no more than the questions; each
/// is under the name of one of the questions and has four bytes of data.
pub proof fn lemma_answers_are_ok(store: Records, qs: Seq<Question>)
    requires
        forall|i: int| 0 <= i < qs.len() ==> name_ok((#[trigger] qs[i]).name),
    ensures
        answers_for(store, qs).len() <= qs.len(),
        forall|i: int|
            0 <= i < answers_for(store, qs).len() ==> name_ok(
                (#[trigger] answers_for(store, qs)[i]).name,
            ) && answers_for(store, qs)[i].rdata.len() == 4,
    decreases qs.len(),
{
    if qs.len() > 0 {
        let front = qs.drop_last();
        assert forall|i: int| 0 <= i < front.len() implies name_ok((#[trigger] front[i]).name) by {
            assert(front[i] == qs[i]);
        }
        lemma_answers_are_ok(store, front);
        assert(name_ok(qs.last().name));
    }
}

/// The response to a request that can be written can be written, whatever
/// the store holds.
pub proof fn lemma_response_is_ok(store: Records, request: Message)
    requires
        message_ok(request),
    ensures
        message_ok(response_to(store, request)),
{
    lemma_answers_are_ok(store, request.questions);
}

/// A forwarded query can be written whenever the name it asks for can.
pub proof fn lemma_forward_is_ok(id: u16, name: Name)
    requires
        name_ok(name),
    ensures
        message_ok(forward_message(id, name)),
{
}

/// A pointer that targets itself is refused.
pub proof fn lemma_self_pointer_fails(buf: Seq<u8>, pos: int)
    requires
        0 <= pos,
        pos + 2 <= buf.len(),
        buf[pos] >= 192,
        pointer_target(buf[pos], buf[pos + 1]) == pos,
    ensures
        decode_name(buf, pos, buf) == Err::<(Name, int), Error>(Error::PointerCycle),
{
    reveal_with_fuel(name_from, 3);
}

/// Two pointers that target each other are refused, at whichever of them
/// reading starts: a loop of pointers never keeps the decoder busy.
pub proof fn lemma_pointer_loop_fails(buf: Seq<u8>, a: int, b: int)
    requires
        0 <= a,
        a + 2 <= buf.len(),
        0 <= b,
        b + 2 <= buf.len(),
        buf[a] >= 192,
        buf[b] >= 192,
        pointer_target(buf[a], buf[a + 1]) == b,
        pointer_target(buf[b], buf[b + 1]) == a,
    ensures
        decode_name(buf, a, buf) == Err::<(Name, int), Error>(Error::PointerCycle),
{
    reveal_with_fuel(name_from, 4);
}

/// A pointer into the message whose target is not below the bound is
/// refused. Behind a pointer the bound is that pointer's target, so the
/// targets of a chain of pointers fall strictly, and reading ends.
pub proof fn lemma_pointer_must_move_back(
    cur: Seq<u8>,
    pos: int,
    pkt: Seq<u8>,
    bound: int,
    room: int,
)
    requires
        0 <= pos,
        pos + 2 <= cur.len(),
        cur[pos] >= 192,
        bound <= pointer_target(cur[pos], cur[pos + 1]) < pkt.len(),
    ensures
        name_from(cur, pos, pkt, bound, room) == Err::<(Name, int), Error>(Error::PointerCycle),
{
}

/// A request whose opcode is not that of a standard query is never
/// forwarded. Its response says `NotImplemented`, is marked as a response,
/// has no answers, and echoes id and questions.
pub proof fn lemma_unimplemented_opcode(store: Records, forwarding: bool, request: Message)
    requires
        request.flags.opcode != OpCode::QUERY.spec_code(),
    ensures
        plan(store, forwarding, request) == Plan::Respond(response_to(store, request)),
        response_to(store, request).flags.rcode == RCode::NotImplemted.spec_code(),
        response_to(store, request).flags.rcode == 4,
        response_to(store, request).flags.qr == 1,
        response_to(store, request).flags.aa == 0,
        response_to(store, request).answers.len() == 0,
        response_to(store, request).questions == request.questions,
        response_to(store, request).id == request.id,
{
}

/// A standard query with one question of type A and class IN, for a domain
/// that the store holds, gets exactly one answer: an A record of class IN
/// under the question's name, with the time to live and the address that
/// the store holds. Nothing is forwarded for it.
pub proof fn lemma_lookup_hit(store: Records, forwarding: bool, request: Message)
    requires
        request.flags.opcode == OpCode::QUERY.spec_code(),
        request.questions.len() == 1,
        request.questions[0].qtype == RRType::A.spec_code(),
        request.questions[0].qclass == RRClass::IN.spec_code(),
        store.contains_key(domain_of(request.questions[0].name)),
    ensures
        plan(store, forwarding, request) == Plan::Respond(response_to(store, request)),
        response_to(store, request).flags.rcode == RCode::OK.spec_code(),
        response_to(store, request).answers == seq![
            Record {
                name: request.questions[0].name,
                rtype: 1,
                rclass: 1,
                ttl: store[domain_of(request.questions[0].name)].0,
                rdata: store[domain_of(request.questions[0].name)].1@,
            },
        ],
{
    let qs = request.questions;
    lemma_first_absent(store, qs);
    if first_absent(store, qs) < qs.len() {
        assert(first_absent(store, qs) == 0);
    }
    assert(qs.drop_last() =~= Seq::<Question>::empty());
    assert(answers_for(store, qs.drop_last()) =~= Seq::<Record>::empty());
    assert(qs.last() == qs[0]);
    assert(answers_for(store, qs) =~= seq![answer_for(store, qs[0])->Some_0]);
}

/// What is learned for a forwarded question is held: once the record that
/// the upstream reply taught is stored under the question's domain, that
/// question and those before it are never forwarded again for this
/// request, and a later question of type A and class IN for the same
/// domain is answered from the store with what was learned.
pub proof fn lemma_learned_is_held(
    store: Records,
    forwarding: bool,
    request: Message,
    ttl: u32,
    addr: [u8; 4],
    later: Question,
)
    requires
        plan(store, forwarding, request) is Forward,
        later.qtype == RRType::A.spec_code(),
        later.qclass == RRClass::IN.spec_code(),
        domain_of(later.name) == domain_of(
            request.questions[first_absent(store, request.questions)].name,
        ),
    ensures
        ({
            let i = first_absent(store, request.questions);
            let domain = domain_of(request.questions[i].name);
            let learned = store.insert(domain, (ttl, addr));
            &&& plan(store, forwarding, request) == Plan::Forward(i)
            &&& 0 <= i < request.questions.len()
            &&& !store.contains_key(domain)
            &&& learned[domain] == (ttl, addr)
            &&& first_absent(learned, request.questions) > i
            &&& answer_for(learned, later) == Some(
                Record { name: later.name, rtype: 1, rclass: 1, ttl, rdata: addr@ },
            )
        }),
{
    let qs = request.questions;
    let i = first_absent(store, qs);
    let domain = domain_of(qs[i].name);
    let learned = store.insert(domain, (ttl, addr));
    lemma_first_absent(store, qs);
    lemma_first_absent(learned, qs);
    let k = first_absent(learned, qs);
    if k <= i {
        if k < i {
            assert(store.contains_key(domain_of(qs[k].name)));
        }
        assert(learned.contains_key(domain_of(qs[k].name)));
    }
}

} // verus!
