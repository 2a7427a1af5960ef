//! The resolution rules of the name server: what it answers to a query from
//! the records it holds, when it asks an upstream resolver first, and what
//! it learns from the upstream reply.
//!
//! Nothing here sends or receives. A caller that owns the sockets asks
//! [`Engine::step`] what to do for a request, does it, and hands an upstream
//! reply to [`Engine::learn`] before it asks again.

use crate::dns_hdr::{
    copy_name, copy_queries, questions_of, records_of, Answer, DNSHdr, Flags, OpCode, Query,
    RCode, RRClass, RRType,
};
use crate::laws::lemma_response_is_ok;
use crate::domain::domain_of;
use crate::error::Error;
use crate::wire::{decode_message, labels_of, message_ok, Message, Name, Question, Record};
use rand::Rng;
use vstd::hash_map::StringHashMap;
use vstd::prelude::*;

verus! {

/// What a record store holds: for each domain, a time to live and an IPv4
/// address.
pub type Records = Map<Seq<char>, (u32, [u8; 4])>;

/// The records that the server holds, by domain. A domain is looked up as
/// it is written: no case is folded. Nothing is ever evicted.
pub struct RecordStore {
    records: StringHashMap<(u32, [u8; 4])>,
}

impl View for RecordStore {
    type V = Records;

    closed spec fn view(&self) -> Records {
        self.records@
    }
}

impl RecordStore {
    /// A store that holds nothing.
    pub fn new() -> (store: Self)
        ensures
            store@ == Records::empty(),
    {
        RecordStore { records: StringHashMap::new() }
    }

    /// Holds `ttl` and `addr` for `domain` from now on, in place of what was
    /// held for it.
    pub fn insert(&mut self, domain: String, ttl: u32, addr: [u8; 4])
        ensures
            final(self)@ == old(self)@.insert(domain@, (ttl, addr)),
    {
        self.records.insert(domain, (ttl, addr));
    }

    /// What is held for `domain`, if anything.
    pub fn get(&self, domain: &str) -> (found: Option<(u32, [u8; 4])>)
        ensures
            found == (if self@.contains_key(domain@) {
                Some(self@[domain@])
            } else {
                None
            }),
    {
        match self.records.get(domain) {
            Some(held) => Some((held.0, held.1)),
            None => None,
        }
    }

    /// Whether anything is held for `domain`.
    pub fn contains(&self, domain: &str) -> (held: bool)
        ensures
            held == self@.contains_key(domain@),
    {
        self.records.contains_key(domain)
    }
}

/// The flags of a response to a request with the flags `request`: a
/// response, not authoritative, not truncated, no recursion on offer, with
/// the given response code; opcode and the recursion-desired bit as asked.
pub open spec fn response_flags(request: Flags, rcode: u8) -> Flags {
    Flags { qr: 1, opcode: request.opcode, aa: 0, tc: 0, rd: request.rd, ra: 0, rcode }
}

/// The answer to one question: for a question of type A and class IN whose
/// domain the store holds, an A record of class IN under the question's own
/// name, with the time to live and the address that the store holds. Any
/// other question has no answer.
pub open spec fn answer_for(store: Records, q: Question) -> Option<Record> {
    if q.qtype == RRType::A.spec_code() && q.qclass == RRClass::IN.spec_code()
        && store.contains_key(domain_of(q.name)) {
        Some(
            Record {
                name: q.name,
                rtype: RRType::A.spec_code(),
                rclass: RRClass::IN.spec_code(),
                ttl: store[domain_of(q.name)].0,
                rdata: store[domain_of(q.name)].1@,
            },
        )
    } else {
        None
    }
}

/// The answers to the questions that have one, in the order of the
/// questions.
pub open spec fn answers_for(store: Records, qs: Seq<Question>) -> Seq<Record>
    decreases qs.len(),
{
    if qs.len() == 0 {
        Seq::empty()
    } else {
        match answer_for(store, qs.last()) {
            Some(r) => answers_for(store, qs.drop_last()).push(r),
            None => answers_for(store, qs.drop_last()),
        }
    }
}

/// The response to a request, from what the store holds. A request whose
/// opcode is not that of a standard query is refused as not implemented,
/// with no answers. Either way the id and the questions are the request's.
pub open spec fn response_to(store: Records, request: Message) -> Message {
    if request.flags.opcode != OpCode::QUERY.spec_code() {
        Message {
            id: request.id,
            flags: response_flags(request.flags, RCode::NotImplemted.spec_code()),
            questions: request.questions,
            answers: Seq::empty(),
        }
    } else {
        Message {
            id: request.id,
            flags: response_flags(request.flags, RCode::OK.spec_code()),
            questions: request.questions,
            answers: answers_for(store, request.questions),
        }
    }
}

/// The index of the first question whose domain the store does not hold;
/// the number of questions where it holds them all.
pub open spec fn first_absent(store: Records, qs: Seq<Question>) -> int
    decreases qs.len(),
{
    if qs.len() == 0 {
        0
    } else if !store.contains_key(domain_of(qs[0].name)) {
        0
    } else {
        1 + first_absent(store, qs.drop_first())
    }
}

/// The query that asks an upstream resolver for the address of `name`: a
/// standard query with every flag clear, recursion not desired, and the one
/// question of type A and class IN.
pub open spec fn forward_message(id: u16, name: Name) -> Message {
    Message {
        id,
        flags: Flags { qr: 0, opcode: OpCode::QUERY.spec_code(), aa: 0, tc: 0, rd: 0, ra: 0, rcode: 0 },
        questions: seq![
            Question { name, qtype: RRType::A.spec_code(), qclass: RRClass::IN.spec_code() },
        ],
        answers: Seq::empty(),
    }
}

/// The address that the first four bytes of a record's data spell.
pub open spec fn address_of(rdata: Seq<u8>) -> [u8; 4] {
    [rdata[0], rdata[1], rdata[2], rdata[3]]
}

/// What an upstream reply teaches: the time to live and the address of its
/// first answer. A reply that does not decode, that has no answer, or whose
/// first answer has fewer than four bytes of data, teaches nothing.
pub open spec fn upstream_record(reply: Seq<u8>) -> Result<(u32, [u8; 4]), Error> {
    match decode_message(reply) {
        Err(_) => Err(Error::UpstreamResolutionFailed),
        Ok((m, _)) => if m.answers.len() == 0 || m.answers[0].rdata.len() < 4 {
            Err(Error::UpstreamResolutionFailed)
        } else {
            Ok((m.answers[0].ttl, address_of(m.answers[0].rdata)))
        },
    }
}

/// What to do next for a request.
pub enum Plan {
    /// Ask upstream for the domain of the question at this index.
    Forward(int),
    /// Send this response.
    Respond(Message),
}

/// What to do next for a request, from what the store holds and whether an
/// upstream resolver is configured. With one configured, a standard query
/// is answered only once the store holds the domain of each of its
/// questions; until then the first question whose domain it lacks is
/// forwarded.
pub open spec fn plan(store: Records, forwarding: bool, request: Message) -> Plan {
    if request.flags.opcode == OpCode::QUERY.spec_code() && forwarding && first_absent(
        store,
        request.questions,
    ) < request.questions.len() {
        Plan::Forward(first_absent(store, request.questions))
    } else {
        Plan::Respond(response_to(store, request))
    }
}

/// What the first absent index is: the store holds the domain of every
/// question before it, and not that of the question at it, if there is one.
pub proof fn lemma_first_absent(store: Records, qs: Seq<Question>)
    ensures
        0 <= first_absent(store, qs) <= qs.len(),
        forall|j: int|
            0 <= j < first_absent(store, qs) ==> store.contains_key(
                domain_of((#[trigger] qs[j]).name),
            ),
        first_absent(store, qs) < qs.len() ==> !store.contains_key(
            domain_of(qs[first_absent(store, qs)].name),
        ),
    decreases qs.len(),
{
    if qs.len() > 0 && store.contains_key(domain_of(qs[0].name)) {
        let rest = qs.drop_first();
        lemma_first_absent(store, rest);
        assert forall|j: int| 0 <= j < first_absent(store, qs) implies store.contains_key(
            domain_of((#[trigger] qs[j]).name),
        ) by {
            if j > 0 {
                assert(qs[j] == rest[j - 1]);
            }
        }
        if first_absent(store, rest) < rest.len() {
            assert(qs[first_absent(store, qs)] == rest[first_absent(store, rest)]);
        }
    }
}

/// An index is the first absent one if the store holds the domain of every
/// question before it and not that of the question at it.
pub proof fn lemma_first_absent_is(store: Records, qs: Seq<Question>, i: int)
    requires
        0 <= i <= qs.len(),
        forall|j: int| 0 <= j < i ==> store.contains_key(domain_of((#[trigger] qs[j]).name)),
        i < qs.len() ==> !store.contains_key(domain_of(qs[i].name)),
    ensures
        first_absent(store, qs) == i,
{
    lemma_first_absent(store, qs);
    let k = first_absent(store, qs);
    if k < i {
        assert(store.contains_key(domain_of(qs[k].name)));
    } else if i < k {
        assert(store.contains_key(domain_of(qs[i].name)));
    }
}

/// `rand::thread_rng` and `Rng::gen`: a 16-bit number from the thread's
/// random generator. Nothing is known of it.
#[verifier::external_body]
fn fresh_id() -> u16 {
    rand::thread_rng().gen()
}

/// The query to send upstream for the address of `name`, under the given
/// id.
pub fn forward_query(id: u16, name: &Vec<Vec<u8>>) -> (query: DNSHdr)
    ensures
        query@ == forward_message(id, labels_of(name@)),
        query.flags.valid(),
{
    let flags = Flags { qr: 0, opcode: OpCode::QUERY.code(), aa: 0, tc: 0, rd: 0, ra: 0, rcode: 0 };
    let question = Query {
        name: copy_name(name),
        qtype: RRType::A.code(),
        qclass: RRClass::IN.code(),
    };
    let mut queries: Vec<Query> = Vec::new();
    queries.push(question);
    let query = DNSHdr::new(id, flags, queries, Vec::new());
    assert(query@.questions =~= forward_message(id, labels_of(name@)).questions);
    assert(query@.answers =~= forward_message(id, labels_of(name@)).answers);
    query
}

/// Reads what an upstream reply teaches: the time to live and the address
/// of its first answer.
pub fn read_upstream(reply: &[u8]) -> (r: Result<(u32, [u8; 4]), Error>)
    ensures
        r == upstream_record(reply@),
{
    match DNSHdr::from_bytes(reply) {
        Err(_) => Err(Error::UpstreamResolutionFailed),
        Ok((_, message)) => {
            if message.answers.len() == 0 {
                return Err(Error::UpstreamResolutionFailed);
            }
            let first = &message.answers[0];
            if first.rddata.len() < 4 {
                return Err(Error::UpstreamResolutionFailed);
            }
            let addr: [u8; 4] = [first.rddata[0], first.rddata[1], first.rddata[2], first.rddata[3]];
            assert(addr@ =~= address_of(first@.rdata)@);
            Ok((first.ttl, addr))
        },
    }
}

/// Builds the answers to the questions that have one, in the order of the
/// questions.
pub fn assemble_answers(store: &RecordStore, queries: &Vec<Query>) -> (answers: Vec<Answer>)
    ensures
        records_of(answers@) == answers_for(store@, questions_of(queries@)),
{
    let ghost qs = questions_of(queries@);
    let mut answers: Vec<Answer> = Vec::new();
    let mut i: usize = 0;
    assert(qs.take(0) =~= Seq::<Question>::empty());
    assert(records_of(answers@) =~= Seq::<Record>::empty());
    while i < queries.len()
        invariant
            i <= queries@.len(),
            qs == questions_of(queries@),
            records_of(answers@) == answers_for(store@, qs.take(i as int)),
        decreases queries@.len() - i,
    {
        let query = &queries[i];
        proof {
            assert(qs.take(i + 1).drop_last() =~= qs.take(i as int));
            assert(qs.take(i + 1).last() == query@);
        }
        if query.qtype == RRType::A.code() && query.qclass == RRClass::IN.code() {
            let domain = query.domain();
            match store.get(domain.as_str()) {
                None => {},
                Some((ttl, addr)) => {
                    let ghost before = records_of(answers@);
                    let data: &[u8] = &addr;
                    let answer = Answer::new(
                        copy_name(&query.name),
                        RRType::A,
                        RRClass::IN,
                        ttl,
                        data,
                    );
                    assert(answer@ == answer_for(store@, query@)->Some_0);
                    answers.push(answer);
                    assert(records_of(answers@) =~= before.push(answer@));
                },
            }
        }
        i += 1;
    }
    assert(qs.take(i as int) =~= qs);
    answers
}

/// Builds the response to a request from what the store holds.
pub fn respond(store: &RecordStore, request: &DNSHdr) -> (response: DNSHdr)
    ensures
        response@ == response_to(store@, request@),
        request.flags.valid() ==> response.flags.valid(),
        message_ok(request@) ==> message_ok(response@),
{
    proof {
        if message_ok(request@) {
            lemma_response_is_ok(store@, request@);
        }
    }
    if request.flags.opcode != OpCode::QUERY.code() {
        let response = DNSHdr::new(
            request.id,
            Flags {
                qr: 1,
                opcode: request.flags.opcode,
                aa: 0,
                tc: 0,
                rd: request.flags.rd,
                ra: 0,
                rcode: RCode::NotImplemted.code(),
            },
            copy_queries(&request.queries),
            Vec::new(),
        );
        assert(response@.answers =~= Seq::<Record>::empty());
        response
    } else {
        DNSHdr::new(
            request.id,
            Flags {
                qr: 1,
                opcode: request.flags.opcode,
                aa: 0,
                tc: 0,
                rd: request.flags.rd,
                ra: 0,
                rcode: RCode::OK.code(),
            },
            copy_queries(&request.queries),
            assemble_answers(store, &request.queries),
        )
    }
}

/// What the caller is to do next for a request.
#[derive(Debug, PartialEq, Eq)]
pub enum Step {
    /// Send `query` to the upstream resolver, wait for its one reply, and
    /// hand the reply to [`Engine::learn`] with `domain`.
    Forward { domain: String, query: DNSHdr },
    /// Send `response` to whoever sent the request. The request is done.
    Respond { response: DNSHdr },
}

/// The server's rules and what it holds: the record store, and whether an
/// upstream resolver is configured.
pub struct Engine {
    store: RecordStore,
    forwarding: bool,
}

impl Engine {
    /// What the engine holds.
    pub closed spec fn records(&self) -> Records {
        self.store@
    }

    /// Whether an upstream resolver is configured.
    pub closed spec fn forwards(&self) -> bool {
        self.forwarding
    }

    /// An engine that starts out with the given store; `forwarding` says
    /// whether an upstream resolver is configured.
    pub fn new(store: RecordStore, forwarding: bool) -> (engine: Self)
        ensures
            engine.records() == store@,
            engine.forwards() == forwarding,
    {
        Engine { store, forwarding }
    }

    /// What the engine holds for `domain`, if anything.
    pub fn lookup(&self, domain: &str) -> (found: Option<(u32, [u8; 4])>)
        ensures
            found == (if self.records().contains_key(domain@) {
                Some(self.records()[domain@])
            } else {
                None
            }),
    {
        self.store.get(domain)
    }

    /// Says what to do next for `request`: to forward the first question
    /// whose domain the engine does not hold, or to respond. The id of a
    /// forwarded query is random; the rest of it is fixed by the question.
    pub fn step(&self, request: &DNSHdr) -> (step: Step)
        ensures
            match plan(self.records(), self.forwards(), request@) {
                Plan::Forward(i) => step matches Step::Forward { domain, query } && domain@
                    == domain_of(request@.questions[i].name) && query@ == forward_message(
                    query.id,
                    request@.questions[i].name,
                ) && query.flags.valid(),
                Plan::Respond(message) => step matches Step::Respond { response } && response@
                    == message && (request.flags.valid() ==> response.flags.valid()) && (
                message_ok(request@) ==> message_ok(response@)),
            },
    {
        let ghost qs = questions_of(request.queries@);
        if self.forwarding && request.flags.opcode == OpCode::QUERY.code() {
            let mut i: usize = 0;
            while i < request.queries.len()
                invariant
                    i <= request.queries@.len(),
                    self.forwarding,
                    request.flags.opcode == OpCode::QUERY.spec_code(),
                    qs == questions_of(request.queries@),
                    forall|j: int|
                        0 <= j < i ==> self.store@.contains_key(domain_of((#[trigger] qs[j]).name)),
                decreases request.queries@.len() - i,
            {
                let domain = request.queries[i].domain();
                assert(qs[i as int] == request.queries@[i as int]@);
                if !self.store.contains(domain.as_str()) {
                    proof {
                        lemma_first_absent_is(self.store@, qs, i as int);
                    }
                    let query = forward_query(fresh_id(), &request.queries[i].name);
                    return Step::Forward { domain, query };
                }
                i += 1;
            }
            proof {
                lemma_first_absent_is(self.store@, qs, i as int);
            }
        }
        Step::Respond { response: respond(&self.store, request) }
    }

    /// Takes in the upstream reply to a forwarded query for `domain`: holds
    /// the time to live and the address of its first answer for `domain`
    /// from now on. A reply that teaches nothing changes nothing and is an
    /// `UpstreamResolutionFailed`: the request is then not to be answered.
    pub fn learn(&mut self, domain: String, reply: &[u8]) -> (r: Result<(), Error>)
        ensures
            final(self).forwards() == old(self).forwards(),
            match upstream_record(reply@) {
                Ok((ttl, addr)) => r is Ok && final(self).records() == old(self).records().insert(
                    domain@,
                    (ttl, addr),
                ),
                Err(e) => r matches Err(x) && x == e && final(self).records() == old(
                    self,
                ).records(),
            },
    {
        match read_upstream(reply) {
            Err(e) => Err(e),
            Ok((ttl, addr)) => {
                self.store.insert(domain, ttl, addr);
                Ok(())
            },
        }
    }
}

} // verus!
