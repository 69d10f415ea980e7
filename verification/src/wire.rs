//! Wire-format handling: decoding an inbound datagram into the model, and
//! encoding a synthesized reply back into bytes.
//!
//! RFC 1035 coding itself is done by hickory_proto behind trusted items
//! whose results are named: `wire_parse` for what a datagram decodes to,
//! `wire_reply` for what a reply's plain fields encode to. Which header,
//! question section and answer a reply carries is decided and proved in the
//! model, and the transaction id of every encoded reply is written by
//! verified code.

use vstd::prelude::*;
use hickory_proto::op::{Message, MessageType, OpCode, Query, ResponseCode};
use hickory_proto::rr::rdata::{A, AAAA};
use hickory_proto::rr::{DNSClass, Name, RData, Record, RecordType};
use hickory_proto::serialize::binary::{BinDecodable, BinEncodable};
use crate::message::{
    questions_view, rewrite_id, wire_id, AnswerRecord, ParsedQuery, Question, Rcode, RecordData,
    ResponseInfo,
};

verus! {

#[verifier::external_type_specification]
#[verifier::external_body]
pub struct ExRData(RData);

/// What decoding a datagram yields: the transaction id, the operation code,
/// and the question section as (name, type, class) triples.
pub uninterp spec fn wire_parse(b: Seq<u8>) -> Option<
    (u16, u8, Seq<(Seq<char>, u16, u16)>),
>;

/// The view of a parsed query, in the shape `wire_parse` uses.
pub open spec fn parsed_view(r: Option<ParsedQuery>) -> Option<
    (u16, u8, Seq<(Seq<char>, u16, u16)>),
> {
    match r {
        None => None,
        Some(q) => Some((q.id, q.opcode, questions_view(q.questions@))),
    }
}

/// Relies on hickory_proto's `Message::from_bytes` (RFC 1035 decoding) and
/// the accessors `Message::id`, `Message::op_code` (`u8::from` is total on
/// it), `Message::queries`, `Query::name`, `Name::to_utf8`,
/// `Query::query_type` and `Query::query_class`. What they decode is a
/// function of the datagram's bytes alone.
#[verifier::external_body]
pub(crate) fn parse_query(buf: &[u8]) -> (r: Option<ParsedQuery>)
    ensures
        parsed_view(r) == wire_parse(buf@),
{
    let msg = match Message::from_bytes(buf) { Ok(m) => m, Err(_) => return None };
    let questions: Vec<Question> = msg.queries().iter().map(|q| Question {
        name: q.name().to_utf8(),
        qtype: u16::from(q.query_type()),
        qclass: u16::from(q.query_class()),
    }).collect();
    Some(ParsedQuery { id: msg.id(), opcode: u8::from(msg.op_code()), questions })
}

/// The view of a synthesized answer: its name's characters, its TTL, and
/// its address as numeric components — four octets for an A record, eight
/// segments for an AAAA record.
pub open spec fn answer_data_view(d: RecordData) -> Seq<u16> {
    match d {
        RecordData::Ipv4(o) => seq![o[0] as u16, o[1] as u16, o[2] as u16, o[3] as u16],
        RecordData::Ipv6(s) => seq![s[0], s[1], s[2], s[3], s[4], s[5], s[6], s[7]],
    }
}

/// The view of a reply's answer section.
pub open spec fn answer_opt_view(a: Option<AnswerRecord>) -> Option<(Seq<char>, u32, Seq<u16>)> {
    match a {
        None => None,
        Some(ar) => Some((ar.name@, ar.ttl, answer_data_view(ar.data))),
    }
}

/// The view of encoder output bytes.
pub open spec fn bytes_view(r: Option<Vec<u8>>) -> Option<Seq<u8>> {
    match r {
        None => None,
        Some(b) => Some(b@),
    }
}

/// What a response message with a zero transaction id encodes to: `None`
/// exactly when the operation code is not a defined one or some name does
/// not parse as a DNS name; otherwise the RFC 1035 bytes, a function of
/// these plain fields alone.
pub uninterp spec fn wire_reply(
    opcode: u8,
    rcode: u16,
    questions: Seq<(Seq<char>, u16, u16)>,
    answer: Option<(Seq<char>, u32, Seq<u16>)>,
) -> Option<Seq<u8>>;

/// Relies on hickory_proto to build and encode one response message:
/// `OpCode::from_u8` (fails on undefined codes), the `Message` builders,
/// `ResponseCode`/`RecordType`/`DNSClass` `From<u16>` (total),
/// `Name::from_utf8` (fails on malformed names), `Query::query`,
/// `Record::from_rdata` and `to_bytes`. The result is a function of the
/// plain arguments alone; the id field is left zero for verified code to
/// overwrite, and an encoded message starts with its full 12-byte header.
#[verifier::external_body]
fn encode_reply_wire(
    opcode: u8,
    rcode: u16,
    questions: &Vec<Question>,
    answer: &Option<AnswerRecord>,
) -> (r: Option<Vec<u8>>)
    ensures
        bytes_view(r) == wire_reply(opcode, rcode, questions_view(questions@), answer_opt_view(*answer)),
        r matches Some(b) ==> b@.len() >= 12,
{
    let op = OpCode::from_u8(opcode).ok()?;
    let mut m = Message::new();
    m.set_message_type(MessageType::Response).set_op_code(op);
    m.set_response_code(<ResponseCode as From<u16>>::from(rcode));
    for q in questions.iter() {
        let n = Name::from_utf8(&q.name).ok()?;
        let mut qq = Query::query(n, RecordType::from(q.qtype));
        qq.set_query_class(DNSClass::from(q.qclass));
        m.add_query(qq);
    }
    if let Some(a) = answer {
        let n = Name::from_utf8(&a.name).ok()?;
        m.add_answer(Record::from_rdata(n, a.ttl, answer_rdata(&a.data)));
    }
    m.to_bytes().ok()
}

/// Relies on hickory_proto's `RData`, `A::new` and `AAAA::new`: converts the
/// model's answer data into the matching rdata, one variant each. Only the
/// trusted encoder above uses it.
#[verifier::external_body]
fn answer_rdata(d: &RecordData) -> (r: RData) {
    match d {
        RecordData::Ipv4(o) => RData::A(A::new(o[0], o[1], o[2], o[3])),
        RecordData::Ipv6(s) => RData::AAAA(AAAA::new(s[0], s[1], s[2], s[3], s[4], s[5], s[6], s[7])),
    }
}

/// The wire number of a response code.
pub open spec fn rcode_num(rc: Rcode) -> u16 {
    match rc {
        Rcode::NoError => 0u16,
        Rcode::NxDomain => 3u16,
        Rcode::Refused => 5u16,
    }
}

/// The wire number of a response code, executable form.
pub fn rcode_value(rc: &Rcode) -> (r: u16)
    ensures
        r == rcode_num(*rc),
{
    match rc {
        Rcode::NoError => 0u16,
        Rcode::NxDomain => 3u16,
        Rcode::Refused => 5u16,
    }
}

/// Encodes a synthesized reply. Success is exactly the encodability of the
/// reply's plain fields; the encoded datagram is the named encoding with
/// the reply's transaction id written over its first two bytes.
pub fn encode_response(r: &ResponseInfo) -> (out: Option<Vec<u8>>)
    ensures
        (out is Some) == (wire_reply(
            r.opcode,
            rcode_num(r.rcode),
            questions_view(r.questions@),
            answer_opt_view(r.answer),
        ) is Some),
        out matches Some(b) ==> (wire_reply(
            r.opcode,
            rcode_num(r.rcode),
            questions_view(r.questions@),
            answer_opt_view(r.answer),
        ) matches Some(w) && b@.len() == w.len() && b@.len() >= 12 && wire_id(b@) == r.id && (
        forall|k: int| 2 <= k < b@.len() ==> b@[k] == w[k])),
{
    match encode_reply_wire(r.opcode, rcode_value(&r.rcode), &r.questions, &r.answer) {
        Some(b) => Some(rewrite_id(b, r.id)),
        None => None,
    }
}

} // verus!
