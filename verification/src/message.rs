//! The model of DNS messages that the pipeline decides over: the parsed
//! header and question section of a query, the denial policy, and the
//! synthesized reply.

use vstd::prelude::*;

verus! {

/// One question of a query: its name in presentation form, and its record
/// type and class as the raw wire numbers.
pub struct Question {
    pub name: String,
    pub qtype: u16,
    pub qclass: u16,
}

/// The view of one question: its name's characters, type and class.
pub open spec fn question_view(q: Question) -> (Seq<char>, u16, u16) {
    (q.name@, q.qtype, q.qclass)
}

/// The view of a whole question section.
pub open spec fn questions_view(qs: Seq<Question>) -> Seq<(Seq<char>, u16, u16)> {
    qs.map_values(|q: Question| question_view(q))
}

/// What the pipeline reads from an inbound datagram: the transaction id, the
/// operation code as its wire number, and the question section. Only the
/// first question is inspected; the rest is carried for the echo.
pub struct ParsedQuery {
    pub id: u16,
    pub opcode: u8,
    pub questions: Vec<Question>,
}

/// The configured reply for a blocked name.
pub enum BlockedResponse {
    /// Reply REFUSED.
    Refused,
    /// Reply NXDOMAIN.
    NxDomain,
    /// Reply NOERROR with one synthesized A record.
    Ipv4([u8; 4]),
    /// Reply NOERROR with one synthesized AAAA record.
    Ipv6([u16; 8]),
}

/// The response codes a synthesized reply can carry.
#[derive(Clone, Copy, PartialEq, Eq, Structural, Debug)]
pub enum Rcode {
    NoError,
    NxDomain,
    Refused,
}

/// The data of a synthesized answer record.
pub enum RecordData {
    Ipv4([u8; 4]),
    Ipv6([u16; 8]),
}

/// One synthesized answer record.
pub struct AnswerRecord {
    pub name: String,
    pub ttl: u32,
    pub data: RecordData,
}

/// A reply in model form: transaction id, operation code, response code,
/// the echoed question section, and at most one synthesized answer.
pub struct ResponseInfo {
    pub id: u16,
    pub opcode: u8,
    pub rcode: Rcode,
    pub questions: Vec<Question>,
    pub answer: Option<AnswerRecord>,
}

/// The TTL of a synthesized answer record.
pub const SYNTHESIZED_TTL: u32 = 60;

/// What a denial reply for a query under a policy must be: it keeps the
/// query's id and operation code and echoes its whole question section; the
/// response code and the answer follow the policy, and the answer names the
/// first question. A query without a question is answered REFUSED.
pub open spec fn is_denial_of(r: ResponseInfo, q: ParsedQuery, policy: BlockedResponse) -> bool {
    &&& r.id == q.id
    &&& r.opcode == q.opcode
    &&& r.questions@ == q.questions@
    &&& if q.questions@.len() == 0 {
        r.rcode == Rcode::Refused && r.answer is None
    } else {
        match policy {
            BlockedResponse::Refused => r.rcode == Rcode::Refused && r.answer is None,
            BlockedResponse::NxDomain => r.rcode == Rcode::NxDomain && r.answer is None,
            BlockedResponse::Ipv4(ip) => {
                &&& r.rcode == Rcode::NoError
                &&& r.answer matches Some(a) && a.name == q.questions@[0].name && a.ttl
                    == SYNTHESIZED_TTL && (a.data matches RecordData::Ipv4(x) && x == ip)
            },
            BlockedResponse::Ipv6(ip) => {
                &&& r.rcode == Rcode::NoError
                &&& r.answer matches Some(a) && a.name == q.questions@[0].name && a.ttl
                    == SYNTHESIZED_TTL && (a.data matches RecordData::Ipv6(x) && x == ip)
            },
        }
    }
}

/// `is_denial_of`, restated over the views of a query's id, opcode and
/// question section: what every field of a denial reply must be.
pub open spec fn denial_view_ok(
    resp: ResponseInfo,
    id: u16,
    opcode: u8,
    qv: Seq<(Seq<char>, u16, u16)>,
    policy: BlockedResponse,
) -> bool {
    &&& resp.id == id
    &&& resp.opcode == opcode
    &&& questions_view(resp.questions@) == qv
    &&& match policy {
        BlockedResponse::Refused => resp.rcode == Rcode::Refused && resp.answer is None,
        BlockedResponse::NxDomain => resp.rcode == Rcode::NxDomain && resp.answer is None,
        BlockedResponse::Ipv4(ip) => {
            &&& resp.rcode == Rcode::NoError
            &&& resp.answer matches Some(a) && qv.len() > 0 && a.name@ == qv[0].0 && a.ttl
                == SYNTHESIZED_TTL && (a.data matches RecordData::Ipv4(x) && x == ip)
        },
        BlockedResponse::Ipv6(ip) => {
            &&& resp.rcode == Rcode::NoError
            &&& resp.answer matches Some(a) && qv.len() > 0 && a.name@ == qv[0].0 && a.ttl
                == SYNTHESIZED_TTL && (a.data matches RecordData::Ipv6(x) && x == ip)
        },
    }
}

/// Copies a question.
pub fn clone_question(q: &Question) -> (r: Question)
    ensures
        r == *q,
{
    Question { name: q.name.clone(), qtype: q.qtype, qclass: q.qclass }
}

/// Copies a whole question section.
pub fn clone_questions(qs: &Vec<Question>) -> (r: Vec<Question>)
    ensures
        r@ == qs@,
{
    let n = qs.len();
    let mut r: Vec<Question> = Vec::new();
    let mut i: usize = 0;
    while i < n
        invariant
            i <= n,
            n == qs@.len(),
            r@ == qs@.take(i as int),
        decreases n - i,
    {
        r.push(clone_question(&qs[i]));
        proof {
            assert(qs@.take(i + 1 as int) =~= qs@.take(i as int).push(qs@[i as int]));
        }
        i = i + 1;
    }
    proof {
        assert(qs@.take(n as int) =~= qs@);
    }
    r
}

/// Synthesizes the denial reply for a query under the configured policy.
/// The reply always carries the query's own transaction id and operation
/// code and echoes its whole question section; a query without a question
/// is answered REFUSED with an empty question section.
pub fn create_blocked_response(query: &ParsedQuery, policy: &BlockedResponse) -> (r: ResponseInfo)
    ensures
        is_denial_of(r, *query, *policy),
        r.id == query.id,
{
    let echoed = clone_questions(&query.questions);
    if query.questions.len() == 0 {
        ResponseInfo {
            id: query.id,
            opcode: query.opcode,
            rcode: Rcode::Refused,
            questions: echoed,
            answer: None,
        }
    } else {
        match policy {
            BlockedResponse::Refused => ResponseInfo {
                id: query.id,
                opcode: query.opcode,
                rcode: Rcode::Refused,
                questions: echoed,
                answer: None,
            },
            BlockedResponse::NxDomain => ResponseInfo {
                id: query.id,
                opcode: query.opcode,
                rcode: Rcode::NxDomain,
                questions: echoed,
                answer: None,
            },
            BlockedResponse::Ipv4(ip) => ResponseInfo {
                id: query.id,
                opcode: query.opcode,
                rcode: Rcode::NoError,
                questions: echoed,
                answer: Some(
                    AnswerRecord {
                        name: query.questions[0].name.clone(),
                        ttl: SYNTHESIZED_TTL,
                        data: RecordData::Ipv4(*ip),
                    },
                ),
            },
            BlockedResponse::Ipv6(ip) => ResponseInfo {
                id: query.id,
                opcode: query.opcode,
                rcode: Rcode::NoError,
                questions: echoed,
                answer: Some(
                    AnswerRecord {
                        name: query.questions[0].name.clone(),
                        ttl: SYNTHESIZED_TTL,
                        data: RecordData::Ipv6(*ip),
                    },
                ),
            },
        }
    }
}

/// The transaction id carried by a DNS datagram: its first two bytes,
/// big-endian.
pub open spec fn wire_id(b: Seq<u8>) -> u16
    recommends
        b.len() >= 2,
{
    ((b[0] as int) * 256 + (b[1] as int)) as u16
}

/// Overwrites the transaction id of a relayed reply datagram with the
/// client's original id; every other byte is left as the upstream sent it.
pub fn rewrite_id(reply: Vec<u8>, id: u16) -> (r: Vec<u8>)
    requires
        reply@.len() >= 2,
    ensures
        r@.len() == reply@.len(),
        wire_id(r@) == id,
        forall|k: int| 2 <= k < reply@.len() ==> r@[k] == reply@[k],
{
    let mut out = reply;
    let hi: u8 = (id >> 8) as u8;
    let lo: u8 = id as u8;
    out.set(0, hi);
    out.set(1, lo);
    proof {
        assert(((id >> 8) as u8 as u16) * 256 + ((id as u8) as u16) == id) by (bit_vector);
    }
    out
}

} // verus!
