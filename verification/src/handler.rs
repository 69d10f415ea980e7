//! The per-datagram decision pipeline and the server's counters.
//!
//! For each inbound datagram the handler decides: drop it (no parse, or no
//! question), deny it (synthesize the configured denial), or forward it to
//! the upstream resolver. Exactly one counter step is taken per datagram.

use vstd::prelude::*;
use crate::config::Config;
use crate::matcher::{blocked_in, BlocklistManager};
use crate::message::{
    create_blocked_response, denial_view_ok, is_denial_of, question_view, questions_view,
    rewrite_id, wire_id, BlockedResponse, ParsedQuery, Question, ResponseInfo,
};
use crate::domain::normalize_seq;
use crate::wire::{parse_query, wire_parse};

verus! {

/// Monotonic per-server counters and the start timestamp, in seconds.
#[derive(Clone, Copy, Debug)]
pub struct Statistics {
    pub total_queries: u64,
    pub blocked_queries: u64,
    pub allowed_queries: u64,
    pub start_time: Option<u64>,
}

/// At every instant, `blocked + allowed <= total`; the difference counts
/// datagrams dropped before the matcher ran.
pub open spec fn stats_wf(s: Statistics) -> bool {
    s.blocked_queries + s.allowed_queries <= s.total_queries
}

impl Statistics {
    /// Fresh counters, all zero, stamped with the server's start time.
    pub fn new(start_time: Option<u64>) -> (r: Self)
        ensures
            r.total_queries == 0,
            r.blocked_queries == 0,
            r.allowed_queries == 0,
            r.start_time == start_time,
            stats_wf(r),
    {
        Statistics { total_queries: 0, blocked_queries: 0, allowed_queries: 0, start_time }
    }
}

/// What the handler decided for one datagram.
pub enum QueryDecision {
    /// The datagram did not parse, or carried no question: no reply is sent.
    Dropped,
    /// The name is blocked: send this synthesized denial.
    Deny(ResponseInfo),
    /// The name is allowed: forward the first question upstream under the
    /// client's transaction id; the rest of the section rides along for the
    /// fallback echo.
    Forward { id: u16, opcode: u8, questions: Vec<Question> },
}

/// What goes back to the client after a forward attempt.
pub enum UpstreamReply {
    /// The upstream answered: relay these bytes.
    Relayed(Vec<u8>),
    /// The upstream failed: send this synthesized REFUSED reply.
    Synthesized(ResponseInfo),
}

/// The verified core of the server: configuration, the active policy, and
/// the counters. Listening, forwarding and signal handling drive it from
/// outside.
pub struct DnsServer {
    pub config: Config,
    pub blocklist: BlocklistManager,
    pub stats: Statistics,
}

impl DnsServer {
    /// A server over a configuration and an initial policy; counters start
    /// at zero.
    pub fn new(config: Config, blocklist: BlocklistManager, start_time: Option<u64>) -> (r: Self)
        ensures
            r.config == config,
            r.blocklist == blocklist,
            r.stats.total_queries == 0,
            r.stats.blocked_queries == 0,
            r.stats.allowed_queries == 0,
            r.stats.start_time == start_time,
            stats_wf(r.stats),
    {
        DnsServer { config, blocklist, stats: Statistics::new(start_time) }
    }

    /// Decides one parsed datagram: a datagram that did not parse or has no
    /// question is dropped and only `total` moves; a query whose first
    /// question names a blocked domain gets the configured denial and
    /// `blocked` moves; any other query is forwarded and `allowed` moves.
    pub fn handle_query(&mut self, parsed: Option<ParsedQuery>) -> (r: QueryDecision)
        requires
            stats_wf(old(self).stats),
            old(self).stats.total_queries < u64::MAX,
        ensures
            stats_wf(final(self).stats),
            final(self).config == old(self).config,
            final(self).blocklist == old(self).blocklist,
            final(self).stats.start_time == old(self).stats.start_time,
            final(self).stats.total_queries == old(self).stats.total_queries + 1,
            final(self).stats.blocked_queries >= old(self).stats.blocked_queries,
            final(self).stats.allowed_queries >= old(self).stats.allowed_queries,
            match parsed {
                None => {
                    &&& r is Dropped
                    &&& final(self).stats.blocked_queries == old(self).stats.blocked_queries
                    &&& final(self).stats.allowed_queries == old(self).stats.allowed_queries
                },
                Some(q) => {
                    if q.questions@.len() == 0 {
                        &&& r is Dropped
                        &&& final(self).stats.blocked_queries == old(self).stats.blocked_queries
                        &&& final(self).stats.allowed_queries == old(self).stats.allowed_queries
                    } else if blocked_in(
                        old(self).blocklist.exact_set(),
                        old(self).blocklist.wildcard_set(),
                        normalize_seq(q.questions@[0].name@),
                    ) {
                        &&& r matches QueryDecision::Deny(resp) && is_denial_of(
                            resp,
                            q,
                            old(self).config.server.blocked_response,
                        )
                        &&& final(self).stats.blocked_queries == old(
                            self,
                        ).stats.blocked_queries + 1
                        &&& final(self).stats.allowed_queries == old(self).stats.allowed_queries
                    } else {
                        &&& r matches QueryDecision::Forward { id, opcode, questions } && id
                            == q.id && opcode == q.opcode && questions@ == q.questions@
                        &&& final(self).stats.allowed_queries == old(
                            self,
                        ).stats.allowed_queries + 1
                        &&& final(self).stats.blocked_queries == old(self).stats.blocked_queries
                    }
                },
            },
    {
        self.stats.total_queries = self.stats.total_queries + 1;
        match parsed {
            None => QueryDecision::Dropped,
            Some(q) => {
                if q.questions.len() == 0 {
                    QueryDecision::Dropped
                } else {
                    let blocked = self.blocklist.is_blocked(q.questions[0].name.as_str());
                    if blocked {
                        self.stats.blocked_queries = self.stats.blocked_queries + 1;
                        let denial = create_blocked_response(
                            &q,
                            &self.config.server.blocked_response,
                        );
                        QueryDecision::Deny(denial)
                    } else {
                        self.stats.allowed_queries = self.stats.allowed_queries + 1;
                        let ParsedQuery { id, opcode, questions } = q;
                        QueryDecision::Forward { id, opcode, questions }
                    }
                }
            },
        }
    }

    /// Decides one raw inbound datagram: decode it, then let `handle_query`
    /// rule on it. The decision and the counter step are pinned by what the
    /// datagram's bytes decode to.
    pub fn handle_datagram(&mut self, buf: &[u8]) -> (r: QueryDecision)
        requires
            stats_wf(old(self).stats),
            old(self).stats.total_queries < u64::MAX,
        ensures
            stats_wf(final(self).stats),
            final(self).config == old(self).config,
            final(self).blocklist == old(self).blocklist,
            final(self).stats.start_time == old(self).stats.start_time,
            final(self).stats.total_queries == old(self).stats.total_queries + 1,
            final(self).stats.blocked_queries >= old(self).stats.blocked_queries,
            final(self).stats.allowed_queries >= old(self).stats.allowed_queries,
            match wire_parse(buf@) {
                None => {
                    &&& r is Dropped
                    &&& final(self).stats.blocked_queries == old(self).stats.blocked_queries
                    &&& final(self).stats.allowed_queries == old(self).stats.allowed_queries
                },
                Some(pv) => {
                    if pv.2.len() == 0 {
                        &&& r is Dropped
                        &&& final(self).stats.blocked_queries == old(self).stats.blocked_queries
                        &&& final(self).stats.allowed_queries == old(self).stats.allowed_queries
                    } else if blocked_in(
                        old(self).blocklist.exact_set(),
                        old(self).blocklist.wildcard_set(),
                        normalize_seq(pv.2[0].0),
                    ) {
                        &&& r matches QueryDecision::Deny(resp) && denial_view_ok(
                            resp,
                            pv.0,
                            pv.1,
                            pv.2,
                            old(self).config.server.blocked_response,
                        )
                        &&& final(self).stats.blocked_queries == old(
                            self,
                        ).stats.blocked_queries + 1
                        &&& final(self).stats.allowed_queries == old(self).stats.allowed_queries
                    } else {
                        &&& r matches QueryDecision::Forward { id, opcode, questions } && id
                            == pv.0 && opcode == pv.1 && questions_view(questions@) == pv.2
                        &&& final(self).stats.allowed_queries == old(
                            self,
                        ).stats.allowed_queries + 1
                        &&& final(self).stats.blocked_queries == old(self).stats.blocked_queries
                    }
                },
            },
    {
        let parsed = parse_query(buf);
        let ghost p = parsed;
        let r = self.handle_query(parsed);
        proof {
            match p {
                Some(q) => {
                    if q.questions@.len() > 0 {
                        assert(questions_view(q.questions@)[0] == question_view(
                            q.questions@[0],
                        ));
                    }
                },
                None => {},
            }
        }
        r
    }

    /// A copy of the current counters.
    pub fn get_stats(&self) -> (r: Statistics)
        ensures
            r == self.stats,
    {
        self.stats
    }
}

/// Finishes the forward path: a usable upstream reply is relayed with the
/// client's original transaction id written back over its first two bytes;
/// a failed or undersized reply turns into a synthesized REFUSED answer, so
/// the client observes a definite result rather than silence.
pub fn finish_forward(reply: Option<Vec<u8>>, query: ParsedQuery) -> (r: UpstreamReply)
    ensures
        match reply {
            Some(b) => if b@.len() >= 2 {
                r matches UpstreamReply::Relayed(out) && out@.len() == b@.len() && wire_id(out@)
                    == query.id && (forall|k: int| 2 <= k < b@.len() ==> out@[k] == b@[k])
            } else {
                r matches UpstreamReply::Synthesized(resp) && is_denial_of(
                    resp,
                    query,
                    BlockedResponse::Refused,
                )
            },
            None => r matches UpstreamReply::Synthesized(resp) && is_denial_of(
                resp,
                query,
                BlockedResponse::Refused,
            ),
        },
{
    match reply {
        Some(b) => {
            if b.len() >= 2 {
                UpstreamReply::Relayed(rewrite_id(b, query.id))
            } else {
                UpstreamReply::Synthesized(
                    create_blocked_response(&query, &BlockedResponse::Refused),
                )
            }
        },
        None => UpstreamReply::Synthesized(create_blocked_response(&query, &BlockedResponse::Refused)),
    }
}

} // verus!
