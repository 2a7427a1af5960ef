//! DNS messages as values, and their codec.
//!
//! ```text
//!                                 1  1  1  1  1  1
//!   0  1  2  3  4  5  6  7  8  9  0  1  2  3  4  5
//! +--+--+--+--+--+--+--+--+--+--+--+--+--+--+--+--+
//! |                      ID                       |
//! +--+--+--+--+--+--+--+--+--+--+--+--+--+--+--+--+
//! |QR|   Opcode  |AA|TC|RD|RA|   Z    |   RCODE   |
//! +--+--+--+--+--+--+--+--+--+--+--+--+--+--+--+--+
//! |                    QDCOUNT                    |
//! +--+--+--+--+--+--+--+--+--+--+--+--+--+--+--+--+
//! |                    ANCOUNT                    |
//! +--+--+--+--+--+--+--+--+--+--+--+--+--+--+--+--+
//! |                    NSCOUNT                    |
//! +--+--+--+--+--+--+--+--+--+--+--+--+--+--+--+--+
//! |                    ARCOUNT                    |
//! +--+--+--+--+--+--+--+--+--+--+--+--+--+--+--+--+
//! ```

use crate::buffer::{
    extend_from_slice, freeze, frozen, put_u16, put_u32, with_capacity, written,
};
use crate::domain::{domain_of, domain_text};
use crate::error::Error;
pub use crate::flags::Flags;
use crate::name::{check_name, name_at, put_name};
use crate::laws::lemma_decoded_is_ok;
use crate::reader::{be_u16, be_u32, length_data_u16, u16_at};
use crate::wire::{
    decode_message, decode_question, decode_questions, decode_record, decode_records,
    encode_header, encode_message, encode_question, encode_questions, encode_record,
    encode_records, labels_of, message_ok, Message, Question, Record,
};
use bytes::{Bytes, BytesMut};
use vstd::prelude::*;
use vstd::slice::{slice_subrange, slice_to_vec};

verus! {

/// The kind of query, as the header's opcode field says it.
#[derive(Debug, Clone, Copy, PartialEq, Eq, Structural)]
#[allow(non_camel_case_types)]
pub enum OpCode {
    QUERY,
    IQUERY,
    STATUS,
}

impl OpCode {
    /// The number of the opcode on the wire.
    pub open spec fn spec_code(self) -> u8 {
        match self {
            OpCode::QUERY => 0,
            OpCode::IQUERY => 1,
            OpCode::STATUS => 2,
        }
    }

    /// The number of the opcode on the wire.
    #[verifier::when_used_as_spec(spec_code)]
    pub fn code(self) -> (c: u8)
        ensures
            c == self.spec_code(),
    {
        match self {
            OpCode::QUERY => 0,
            OpCode::IQUERY => 1,
            OpCode::STATUS => 2,
        }
    }
}

/// The status of a response, as the header's rcode field says it.
#[derive(Debug, Clone, Copy, PartialEq, Eq, Structural)]
pub enum RCode {
    OK,
    FmtError,
    ServerFailure,
    NameError,
    NotImplemted,
    Refused,
}

impl RCode {
    /// The number of the response code on the wire.
    pub open spec fn spec_code(self) -> u8 {
        match self {
            RCode::OK => 0,
            RCode::FmtError => 1,
            RCode::ServerFailure => 2,
            RCode::NameError => 3,
            RCode::NotImplemted => 4,
            RCode::Refused => 5,
        }
    }

    /// The number of the response code on the wire.
    #[verifier::when_used_as_spec(spec_code)]
    pub fn code(self) -> (c: u8)
        ensures
            c == self.spec_code(),
    {
        match self {
            RCode::OK => 0,
            RCode::FmtError => 1,
            RCode::ServerFailure => 2,
            RCode::NameError => 3,
            RCode::NotImplemted => 4,
            RCode::Refused => 5,
        }
    }
}

/// The type of a resource record.
#[derive(Debug, Clone, Copy, PartialEq, Eq, Structural)]
pub enum RRType {
    /// A host address.
    A,
    /// An authoritative name server.
    NS,
    /// A mail destination (obsolete).
    MD,
    /// A mail forwarder (obsolete).
    MF,
    /// The canonical name for an alias.
    CNAME,
    /// The start of a zone of authority.
    SOA,
    /// A mailbox domain name.
    MB,
    /// A mail group member.
    MG,
    /// A mail rename domain name.
    MR,
    /// A null record.
    NULL,
    /// A well known service description.
    WKS,
    /// A domain name pointer.
    PTR,
    /// Host information.
    HINFO,
    /// Mailbox or mail list information.
    MINFO,
    /// A mail exchange.
    MX,
    /// Text strings.
    TXT,
}

impl RRType {
    /// The number of the type on the wire.
    pub open spec fn spec_code(self) -> u16 {
        match self {
            RRType::A => 1,
            RRType::NS => 2,
            RRType::MD => 3,
            RRType::MF => 4,
            RRType::CNAME => 5,
            RRType::SOA => 6,
            RRType::MB => 7,
            RRType::MG => 8,
            RRType::MR => 9,
            RRType::NULL => 10,
            RRType::WKS => 11,
            RRType::PTR => 12,
            RRType::HINFO => 13,
            RRType::MINFO => 14,
            RRType::MX => 15,
            RRType::TXT => 16,
        }
    }

    /// The number of the type on the wire.
    #[verifier::when_used_as_spec(spec_code)]
    pub fn code(self) -> (c: u16)
        ensures
            c == self.spec_code(),
    {
        match self {
            RRType::A => 1,
            RRType::NS => 2,
            RRType::MD => 3,
            RRType::MF => 4,
            RRType::CNAME => 5,
            RRType::SOA => 6,
            RRType::MB => 7,
            RRType::MG => 8,
            RRType::MR => 9,
            RRType::NULL => 10,
            RRType::WKS => 11,
            RRType::PTR => 12,
            RRType::HINFO => 13,
            RRType::MINFO => 14,
            RRType::MX => 15,
            RRType::TXT => 16,
        }
    }
}

/// The class of a resource record.
#[derive(Debug, Clone, Copy, PartialEq, Eq, Structural)]
pub enum RRClass {
    /// The Internet.
    IN,
    /// The CSNET class (obsolete).
    CS,
    /// The CHAOS class.
    CH,
    /// Hesiod.
    HS,
}

impl RRClass {
    /// The number of the class on the wire.
    pub open spec fn spec_code(self) -> u16 {
        match self {
            RRClass::IN => 1,
            RRClass::CS => 2,
            RRClass::CH => 3,
            RRClass::HS => 4,
        }
    }

    /// The number of the class on the wire.
    #[verifier::when_used_as_spec(spec_code)]
    pub fn code(self) -> (c: u16)
        ensures
            c == self.spec_code(),
    {
        match self {
            RRClass::IN => 1,
            RRClass::CS => 2,
            RRClass::CH => 3,
            RRClass::HS => 4,
        }
    }
}

/// Copies the labels of a name.
pub fn copy_name(name: &Vec<Vec<u8>>) -> (copy: Vec<Vec<u8>>)
    ensures
        labels_of(copy@) == labels_of(name@),
{
    let mut copy: Vec<Vec<u8>> = Vec::new();
    let mut i: usize = 0;
    while i < name.len()
        invariant
            i <= name@.len(),
            copy@.len() == i,
            forall|j: int| 0 <= j < i ==> copy@[j]@ == name@[j]@,
        decreases name@.len() - i,
    {
        copy.push(slice_to_vec(name[i].as_slice()));
        i += 1;
    }
    assert(labels_of(copy@) =~= labels_of(name@));
    copy
}

/// The result of reading a run of entries of which `done` have been read
/// and the rest reads as `tail`.
pub open spec fn prepend<T>(done: Seq<T>, tail: Result<(Seq<T>, int), Error>) -> Result<
    (Seq<T>, int),
    Error,
> {
    match tail {
        Err(e) => Err(e),
        Ok((rest, end)) => Ok((done + rest, end)),
    }
}

/// The result of writing a run of entries of which the first are written as
/// `done` and the rest writes as `tail`.
pub open spec fn append(done: Seq<u8>, tail: Result<Seq<u8>, Error>) -> Result<Seq<u8>, Error> {
    match tail {
        Err(e) => Err(e),
        Ok(rest) => Ok(done + rest),
    }
}

/*
                                1  1  1  1  1  1
  0  1  2  3  4  5  6  7  8  9  0  1  2  3  4  5
+--+--+--+--+--+--+--+--+--+--+--+--+--+--+--+--+
|                                               |
/                     QNAME                     /
/                                               /
+--+--+--+--+--+--+--+--+--+--+--+--+--+--+--+--+
|                     QTYPE                     |
+--+--+--+--+--+--+--+--+--+--+--+--+--+--+--+--+
|                     QCLASS                    |
+--+--+--+--+--+--+--+--+--+--+--+--+--+--+--+--+
*/

/// An entry of the question section. The labels of the name are owned: a
/// decoded question does not borrow from the buffer it was read from.
#[derive(Debug, PartialEq, Eq)]
pub struct Query {
    pub name: Vec<Vec<u8>>,
    pub qtype: u16,
    pub qclass: u16,
}

impl View for Query {
    type V = Question;

    open spec fn view(&self) -> Question {
        Question { name: labels_of(self.name@), qtype: self.qtype, qclass: self.qclass }
    }
}

impl Clone for Query {
    fn clone(&self) -> (copy: Self)
        ensures
            copy@ == self@,
    {
        Query { name: copy_name(&self.name), qtype: self.qtype, qclass: self.qclass }
    }
}

/// The questions that a vector of entries holds.
pub open spec fn questions_of(qs: Seq<Query>) -> Seq<Question> {
    Seq::new(qs.len(), |i: int| qs[i]@)
}

/// Copies the questions.
pub fn copy_queries(queries: &Vec<Query>) -> (copy: Vec<Query>)
    ensures
        questions_of(copy@) == questions_of(queries@),
{
    let mut copy: Vec<Query> = Vec::new();
    let mut i: usize = 0;
    while i < queries.len()
        invariant
            i <= queries@.len(),
            copy@.len() == i,
            forall|j: int| 0 <= j < i ==> copy@[j]@ == queries@[j]@,
        decreases queries@.len() - i,
    {
        copy.push(queries[i].clone());
        i += 1;
    }
    assert(questions_of(copy@) =~= questions_of(queries@));
    copy
}

/// Reads the question that starts at `pos` in `buf`, with pointers into
/// `pkt`; gives it and the position behind it.
pub(crate) fn question_at(buf: &[u8], pos: usize, pkt: &[u8]) -> (r: Result<(Query, usize), Error>)
    requires
        pos <= buf@.len(),
    ensures
        match decode_question(buf@, pos as int, pkt@) {
            Ok((q, end)) => r matches Ok((query, at)) && query@ == q && at == end && at
                <= buf@.len(),
            Err(e) => r matches Err(x) && x == e,
        },
{
    let (name, at) = match name_at(buf, pos, pkt) {
        Err(e) => {
            return Err(e);
        },
        Ok(found) => found,
    };
    let qtype = match be_u16(slice_subrange(buf, at, buf.len())) {
        None => {
            return Err(Error::TruncatedInput);
        },
        Some(v) => v,
    };
    let qclass = match be_u16(slice_subrange(buf, at + 2, buf.len())) {
        None => {
            return Err(Error::TruncatedInput);
        },
        Some(v) => v,
    };
    Ok((Query { name, qtype, qclass }, at + 4))
}

/// Reads the `n` questions that start at `pos` in `buf`, with pointers into
/// `pkt`; gives them and the position behind them.
pub(crate) fn questions_at(buf: &[u8], pos: usize, n: usize, pkt: &[u8]) -> (r: Result<
    (Vec<Query>, usize),
    Error,
>)
    requires
        pos <= buf@.len(),
    ensures
        match decode_questions(buf@, pos as int, pkt@, n as nat) {
            Ok((qs, end)) => r matches Ok((queries, at)) && questions_of(queries@) == qs && at
                == end && at <= buf@.len(),
            Err(e) => r matches Err(x) && x == e,
        },
{
    let mut queries: Vec<Query> = Vec::new();
    let mut at: usize = pos;
    let mut i: usize = 0;
    assert(questions_of(queries@) =~= Seq::<Question>::empty());
    assert(forall|t: Seq<Question>| Seq::<Question>::empty() + t =~= t);
    while i < n
        invariant
            i <= n,
            at <= buf@.len(),
            decode_questions(buf@, pos as int, pkt@, n as nat) == prepend(
                questions_of(queries@),
                decode_questions(buf@, at as int, pkt@, (n - i) as nat),
            ),
        decreases n - i,
    {
        let ghost done = questions_of(queries@);
        let (query, next) = match question_at(buf, at, pkt) {
            Err(e) => {
                return Err(e);
            },
            Ok(found) => found,
        };
        proof {
            assert(questions_of(queries@.push(query)) =~= done.push(query@));
            assert(forall|t: Seq<Question>| done + (seq![query@] + t) =~= done.push(query@) + t);
        }
        queries.push(query);
        at = next;
        i += 1;
    }
    assert(questions_of(queries@) + Seq::<Question>::empty() =~= questions_of(queries@));
    Ok((queries, at))
}

impl Query {
    /// Reads `n` questions from the start of `buf`, following compression
    /// pointers into `pkt`, the whole message. Gives what of `buf` lies
    /// behind them, and the questions in order. Fails with the error of the
    /// first question that cannot be read; `TruncatedInput` where `buf` ends
    /// before the last of them does.
    pub fn from_bytes<'a>(buf: &'a [u8], n: usize, pkt: &[u8]) -> (r: Result<
        (&'a [u8], Vec<Query>),
        Error,
    >)
        ensures
            match decode_questions(buf@, 0, pkt@, n as nat) {
                Ok((qs, end)) => r matches Ok((rest, queries)) && questions_of(queries@) == qs
                    && rest@ == buf@.subrange(end, buf@.len() as int),
                Err(e) => r matches Err(x) && x == e,
            },
    {
        match questions_at(buf, 0, n, pkt) {
            Err(e) => Err(e),
            Ok((queries, at)) => Ok((slice_subrange(buf, at, buf.len()), queries)),
        }
    }

    /// The domain that the question asks for: the labels of its name that
    /// are valid UTF-8, joined by dots.
    pub fn domain(&self) -> (domain: String)
        ensures
            domain@ == domain_of(self@.name),
    {
        domain_text(&self.name)
    }

    /// Appends the question to `buf`: the name, uncompressed, then type and
    /// class. Where the name cannot be written, `buf` is left as it was.
    pub fn to_bytes(&self, buf: &mut BytesMut) -> (r: Result<(), Error>)
        ensures
            match encode_question(self@) {
                Ok(wire) => r is Ok && written(*final(buf)) == written(*old(buf)) + wire,
                Err(e) => r matches Err(x) && x == e && written(*final(buf)) == written(
                    *old(buf),
                ),
            },
    {
        match check_name(&self.name) {
            Err(e) => {
                return Err(e);
            },
            Ok(_) => {},
        }
        let ghost before = written(*buf);
        put_name(&self.name, buf);
        put_u16(buf, self.qtype);
        put_u16(buf, self.qclass);
        assert(written(*buf) =~= before + encode_question(self@)->Ok_0);
        Ok(())
    }
}

/*
  0  1  2  3  4  5  6  7  8  9  0  1  2  3  4  5
+--+--+--+--+--+--+--+--+--+--+--+--+--+--+--+--+
|                                               |
/                                               /
/                      NAME                     /
|                                               |
+--+--+--+--+--+--+--+--+--+--+--+--+--+--+--+--+
|                      TYPE                     |
+--+--+--+--+--+--+--+--+--+--+--+--+--+--+--+--+
|                     CLASS                     |
+--+--+--+--+--+--+--+--+--+--+--+--+--+--+--+--+
|                      TTL                      |
|                                               |
+--+--+--+--+--+--+--+--+--+--+--+--+--+--+--+--+
|                   RDLENGTH                    |
+--+--+--+--+--+--+--+--+--+--+--+--+--+--+--+--|
/                     RDATA                     /
/                                               /
+--+--+--+--+--+--+--+--+--+--+--+--+--+--+--+--+
*/

/// A resource record of the answer section. Name and data are owned.
#[derive(Debug, PartialEq, Eq)]
pub struct Answer {
    pub name: Vec<Vec<u8>>,
    pub qtype: u16,
    pub qclass: u16,
    pub ttl: u32,
    pub rddata: Vec<u8>,
}

impl View for Answer {
    type V = Record;

    open spec fn view(&self) -> Record {
        Record {
            name: labels_of(self.name@),
            rtype: self.qtype,
            rclass: self.qclass,
            ttl: self.ttl,
            rdata: self.rddata@,
        }
    }
}

impl Clone for Answer {
    fn clone(&self) -> (copy: Self)
        ensures
            copy@ == self@,
    {
        Answer {
            name: copy_name(&self.name),
            qtype: self.qtype,
            qclass: self.qclass,
            ttl: self.ttl,
            rddata: slice_to_vec(self.rddata.as_slice()),
        }
    }
}

/// The records that a vector of answers holds.
pub open spec fn records_of(rs: Seq<Answer>) -> Seq<Record> {
    Seq::new(rs.len(), |i: int| rs[i]@)
}

/// Reads the record that starts at `pos` in `buf`, with pointers into
/// `pkt`; gives it and the position behind it.
pub(crate) fn record_at(buf: &[u8], pos: usize, pkt: &[u8]) -> (r: Result<(Answer, usize), Error>)
    requires
        pos <= buf@.len(),
    ensures
        match decode_record(buf@, pos as int, pkt@) {
            Ok((rec, end)) => r matches Ok((answer, at)) && answer@ == rec && at == end && at
                <= buf@.len(),
            Err(e) => r matches Err(x) && x == e,
        },
{
    let (name, at) = match name_at(buf, pos, pkt) {
        Err(e) => {
            return Err(e);
        },
        Ok(found) => found,
    };
    let qtype = match be_u16(slice_subrange(buf, at, buf.len())) {
        None => {
            return Err(Error::TruncatedInput);
        },
        Some(v) => v,
    };
    let qclass = match be_u16(slice_subrange(buf, at + 2, buf.len())) {
        None => {
            return Err(Error::TruncatedInput);
        },
        Some(v) => v,
    };
    let ttl = match be_u32(slice_subrange(buf, at + 4, buf.len())) {
        None => {
            return Err(Error::TruncatedInput);
        },
        Some(v) => v,
    };
    let data = match length_data_u16(slice_subrange(buf, at + 8, buf.len())) {
        None => {
            return Err(Error::TruncatedInput);
        },
        Some(d) => d,
    };
    let rddata = slice_to_vec(data);
    assert(rddata@ =~= buf@.subrange(at + 10, at + 10 + u16_at(buf@, at + 8)));
    Ok((Answer { name, qtype, qclass, ttl, rddata }, at + 10 + data.len()))
}

/// Reads the `n` records that start at `pos` in `buf`, with pointers into
/// `pkt`; gives them and the position behind them.
pub(crate) fn records_at(buf: &[u8], pos: usize, n: usize, pkt: &[u8]) -> (r: Result<
    (Vec<Answer>, usize),
    Error,
>)
    requires
        pos <= buf@.len(),
    ensures
        match decode_records(buf@, pos as int, pkt@, n as nat) {
            Ok((rs, end)) => r matches Ok((answers, at)) && records_of(answers@) == rs && at
                == end && at <= buf@.len(),
            Err(e) => r matches Err(x) && x == e,
        },
{
    let mut answers: Vec<Answer> = Vec::new();
    let mut at: usize = pos;
    let mut i: usize = 0;
    assert(records_of(answers@) =~= Seq::<Record>::empty());
    assert(forall|t: Seq<Record>| Seq::<Record>::empty() + t =~= t);
    while i < n
        invariant
            i <= n,
            at <= buf@.len(),
            decode_records(buf@, pos as int, pkt@, n as nat) == prepend(
                records_of(answers@),
                decode_records(buf@, at as int, pkt@, (n - i) as nat),
            ),
        decreases n - i,
    {
        let ghost done = records_of(answers@);
        let (answer, next) = match record_at(buf, at, pkt) {
            Err(e) => {
                return Err(e);
            },
            Ok(found) => found,
        };
        proof {
            assert(records_of(answers@.push(answer)) =~= done.push(answer@));
            assert(forall|t: Seq<Record>| done + (seq![answer@] + t) =~= done.push(answer@) + t);
        }
        answers.push(answer);
        at = next;
        i += 1;
    }
    assert(records_of(answers@) + Seq::<Record>::empty() =~= records_of(answers@));
    Ok((answers, at))
}

impl Answer {
    /// A record with the given name, type, class, time to live and data.
    pub fn new(name: Vec<Vec<u8>>, qtype: RRType, qclass: RRClass, ttl: u32, data: &[u8]) -> (a:
        Self)
        ensures
            a.name == name,
            a.qtype == qtype.spec_code(),
            a.qclass == qclass.spec_code(),
            a.ttl == ttl,
            a.rddata@ == data@,
    {
        Answer { name, qtype: qtype.code(), qclass: qclass.code(), ttl, rddata: slice_to_vec(data) }
    }

    /// Reads `n` records from the start of `buf`, following compression
    /// pointers into `pkt`, the whole message. Gives what of `buf` lies
    /// behind them, and the records in order. Fails with the error of the
    /// first record that cannot be read; `TruncatedInput` where `buf` ends
    /// before the last of them does.
    pub fn from_bytes<'a>(buf: &'a [u8], n: usize, pkt: &[u8]) -> (r: Result<
        (&'a [u8], Vec<Answer>),
        Error,
    >)
        ensures
            match decode_records(buf@, 0, pkt@, n as nat) {
                Ok((rs, end)) => r matches Ok((rest, answers)) && records_of(answers@) == rs
                    && rest@ == buf@.subrange(end, buf@.len() as int),
                Err(e) => r matches Err(x) && x == e,
            },
    {
        match records_at(buf, 0, n, pkt) {
            Err(e) => Err(e),
            Ok((answers, at)) => Ok((slice_subrange(buf, at, buf.len()), answers)),
        }
    }

    /// Appends the record to `buf`: the name, uncompressed, then type,
    /// class, time to live, the length of the data and the data. Where the
    /// name cannot be written, or the data is longer than 65535 bytes, `buf`
    /// is left as it was.
    pub fn to_bytes(&self, buf: &mut BytesMut) -> (r: Result<(), Error>)
        ensures
            match encode_record(self@) {
                Ok(wire) => r is Ok && written(*final(buf)) == written(*old(buf)) + wire,
                Err(e) => r matches Err(x) && x == e && written(*final(buf)) == written(
                    *old(buf),
                ),
            },
    {
        match check_name(&self.name) {
            Err(e) => {
                return Err(e);
            },
            Ok(_) => {},
        }
        if self.rddata.len() > 0xffff {
            return Err(Error::PayloadTooLarge);
        }
        let ghost before = written(*buf);
        put_name(&self.name, buf);
        put_u16(buf, self.qtype);
        put_u16(buf, self.qclass);
        put_u32(buf, self.ttl);
        put_u16(buf, self.rddata.len() as u16);
        extend_from_slice(buf, self.rddata.as_slice());
        assert(written(*buf) =~= before + encode_record(self@)->Ok_0);
        Ok(())
    }
}

/// A message: the header's id and flags, the question section and the
/// answer section. The header's four counts are not held: the first two are
/// the lengths of the sections, the last two are written as zero.
#[derive(Debug, PartialEq, Eq)]
pub struct DNSHdr {
    pub id: u16,
    pub flags: Flags,
    pub queries: Vec<Query>,
    pub answers: Vec<Answer>,
}

impl View for DNSHdr {
    type V = Message;

    open spec fn view(&self) -> Message {
        Message {
            id: self.id,
            flags: self.flags,
            questions: questions_of(self.queries@),
            answers: records_of(self.answers@),
        }
    }
}

impl DNSHdr {
    /// A message with the given id, flags, questions and answers.
    pub fn new(id: u16, flags: Flags, queries: Vec<Query>, answers: Vec<Answer>) -> (m: Self)
        ensures
            m.id == id,
            m.flags == flags,
            m.queries == queries,
            m.answers == answers,
    {
        DNSHdr { id, flags, queries, answers }
    }

    /// The message on the wire: the twelve header bytes, each question,
    /// each answer. Fails with `PayloadTooLarge` where a section has more
    /// than 65535 entries, else with the error of the first question, else
    /// of the first answer, that cannot be written.
    pub fn to_bytes(&self) -> (r: Result<Bytes, Error>)
        requires
            self.flags.valid(),
        ensures
            match encode_message(self@) {
                Ok(wire) => r matches Ok(bytes) && frozen(bytes) == wire,
                Err(e) => r matches Err(x) && x == e,
            },
    {
        if self.queries.len() > 0xffff || self.answers.len() > 0xffff {
            return Err(Error::PayloadTooLarge);
        }
        let ghost qs = questions_of(self.queries@);
        let ghost rs = records_of(self.answers@);
        let mut buf = with_capacity(12);
        put_u16(&mut buf, self.id);
        put_u16(&mut buf, self.flags.compress_u16());
        put_u16(&mut buf, self.queries.len() as u16);
        put_u16(&mut buf, self.answers.len() as u16);
        put_u16(&mut buf, 0);
        put_u16(&mut buf, 0);
        let ghost header = encode_header(
            self.id,
            self.flags,
            self.queries.len() as u16,
            self.answers.len() as u16,
        );
        assert(written(buf) =~= header);
        let mut i: usize = 0;
        assert(qs.skip(0) =~= qs);
        assert(forall|t: Seq<u8>| header + Seq::<u8>::empty() + t =~= header + t);
        let ghost mut sofar = Seq::<u8>::empty();
        while i < self.queries.len()
            invariant
                i <= self.queries@.len(),
                self.queries@.len() <= 0xffff,
                self.answers@.len() <= 0xffff,
                qs == questions_of(self.queries@),
                written(buf) == header + sofar,
                encode_questions(qs) == append(sofar, encode_questions(qs.skip(i as int))),
            decreases self.queries@.len() - i,
        {
            assert(qs.skip(i as int).drop_first() =~= qs.skip(i + 1));
            assert(qs.skip(i as int)[0] == self.queries@[i as int]@);
            match self.queries[i].to_bytes(&mut buf) {
                Err(e) => {
                    return Err(e);
                },
                Ok(_) => {},
            }
            proof {
                let one = encode_question(self.queries@[i as int]@)->Ok_0;
                assert(forall|t: Seq<u8>| sofar + (one + t) =~= sofar + one + t);
                assert(written(buf) =~= header + (sofar + one));
                sofar = sofar + one;
            }
            i += 1;
        }
        let ghost qwire = encode_questions(qs)->Ok_0;
        assert(qwire =~= sofar);
        let mut j: usize = 0;
        assert(rs.skip(0) =~= rs);
        let ghost mut more = Seq::<u8>::empty();
        assert(header + qwire + more =~= header + qwire);
        while j < self.answers.len()
            invariant
                j <= self.answers@.len(),
                self.queries@.len() <= 0xffff,
                self.answers@.len() <= 0xffff,
                encode_questions(questions_of(self.queries@)) == Ok::<Seq<u8>, Error>(qwire),
                rs == records_of(self.answers@),
                written(buf) == header + qwire + more,
                encode_records(rs) == append(more, encode_records(rs.skip(j as int))),
            decreases self.answers@.len() - j,
        {
            assert(rs.skip(j as int).drop_first() =~= rs.skip(j + 1));
            assert(rs.skip(j as int)[0] == self.answers@[j as int]@);
            match self.answers[j].to_bytes(&mut buf) {
                Err(e) => {
                    return Err(e);
                },
                Ok(_) => {},
            }
            proof {
                let one = encode_record(self.answers@[j as int]@)->Ok_0;
                assert(forall|t: Seq<u8>| more + (one + t) =~= more + one + t);
                assert(written(buf) =~= header + qwire + (more + one));
                more = more + one;
            }
            j += 1;
        }
        assert(encode_records(rs)->Ok_0 =~= more);
        Ok(freeze(buf))
    }

    /// Reads a message from the start of `buf`: the header, then as many
    /// questions and answers as the header's first two counts say. Gives the
    /// message and what of `buf` lies behind its answer section. A message
    /// that was read can be written again.
    ///
    /// The header's last two counts are read and dropped: the authority and
    /// additional sections are not decoded, whatever their counts say, and
    /// their bytes are part of what is handed back.
    pub fn from_bytes<'a>(buf: &'a [u8]) -> (r: Result<(&'a [u8], DNSHdr), Error>)
        ensures
            match decode_message(buf@) {
                Ok((msg, end)) => r matches Ok((rest, m)) && m@ == msg && rest@ == buf@.subrange(
                    end,
                    buf@.len() as int,
                ),
                Err(e) => r matches Err(x) && x == e,
            },
            r matches Ok((_, m)) ==> message_ok(m@),
    {
        proof {
            if decode_message(buf@) is Ok {
                lemma_decoded_is_ok(buf@);
            }
        }
        let id = match be_u16(buf) {
            None => {
                return Err(Error::TruncatedInput);
            },
            Some(v) => v,
        };
        let word = match be_u16(slice_subrange(buf, 2, buf.len())) {
            None => {
                return Err(Error::TruncatedInput);
            },
            Some(v) => v,
        };
        let qdcount = match be_u16(slice_subrange(buf, 4, buf.len())) {
            None => {
                return Err(Error::TruncatedInput);
            },
            Some(v) => v,
        };
        let ancount = match be_u16(slice_subrange(buf, 6, buf.len())) {
            None => {
                return Err(Error::TruncatedInput);
            },
            Some(v) => v,
        };
        match be_u16(slice_subrange(buf, 8, buf.len())) {
            None => {
                return Err(Error::TruncatedInput);
            },
            Some(_) => {},
        }
        match be_u16(slice_subrange(buf, 10, buf.len())) {
            None => {
                return Err(Error::TruncatedInput);
            },
            Some(_) => {},
        }
        let flags = Flags::parse_flags(word);
        let (queries, at) = match questions_at(buf, 12, qdcount as usize, buf) {
            Err(e) => {
                return Err(e);
            },
            Ok(found) => found,
        };
        let (answers, end) = match records_at(buf, at, ancount as usize, buf) {
            Err(e) => {
                return Err(e);
            },
            Ok(found) => found,
        };
        Ok((slice_subrange(buf, end, buf.len()), DNSHdr { id, flags, queries, answers }))
    }
}

} // verus!
