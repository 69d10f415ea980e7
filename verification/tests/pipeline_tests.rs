use hickory_proto::op::{Message, MessageType, OpCode, Query, ResponseCode};
use hickory_proto::rr::{Name, RData, RecordType};
use hickory_proto::serialize::binary::{BinDecodable, BinEncodable};
use skypier_blackhole::config::Config;
use skypier_blackhole::handler::{finish_forward, DnsServer, QueryDecision, UpstreamReply};
use skypier_blackhole::matcher::BlocklistManager;
use skypier_blackhole::message::{BlockedResponse, ParsedQuery, Question, Rcode};
use skypier_blackhole::wire::encode_response;

fn query_datagram(id: u16, name: &str) -> Vec<u8> {
    let mut msg = Message::new();
    msg.set_id(id);
    msg.set_message_type(MessageType::Query);
    msg.set_op_code(OpCode::Query);
    msg.add_query(Query::query(Name::from_utf8(name).unwrap(), RecordType::A));
    msg.to_bytes().unwrap()
}

fn server_with(domains: Vec<&str>) -> DnsServer {
    let mut blocklist = BlocklistManager::new();
    blocklist.load_domains(domains.into_iter().map(|d| d.to_string()).collect());
    DnsServer::new(Config::default(), blocklist, Some(0))
}

#[test]
fn test_blocked_query_gets_denial() {
    let mut server = server_with(vec!["ads.example.com"]);
    let datagram = query_datagram(0x1234, "ads.example.com.");

    match server.handle_datagram(&datagram) {
        QueryDecision::Deny(resp) => {
            assert_eq!(resp.id, 0x1234);
            assert_eq!(resp.rcode, Rcode::Refused);
            assert_eq!(resp.questions.len(), 1);
            assert_eq!(resp.questions[0].name, "ads.example.com.");
            assert!(resp.answer.is_none());
        }
        _ => panic!("expected a denial"),
    }
    let stats = server.get_stats();
    assert_eq!(stats.total_queries, 1);
    assert_eq!(stats.blocked_queries, 1);
    assert_eq!(stats.allowed_queries, 0);
}

#[test]
fn test_allowed_query_is_forwarded() {
    let mut server = server_with(vec!["ads.example.com"]);
    let datagram = query_datagram(0x77AA, "safe.example.com.");

    match server.handle_datagram(&datagram) {
        QueryDecision::Forward { id, opcode, questions } => {
            assert_eq!(id, 0x77AA);
            assert_eq!(opcode, 0);
            assert_eq!(questions.len(), 1);
            assert_eq!(questions[0].name, "safe.example.com.");
        }
        _ => panic!("expected a forward"),
    }
    let stats = server.get_stats();
    assert_eq!(stats.total_queries, 1);
    assert_eq!(stats.blocked_queries, 0);
    assert_eq!(stats.allowed_queries, 1);
}

#[test]
fn test_garbage_datagram_is_dropped() {
    let mut server = server_with(vec![]);
    match server.handle_datagram(&[1u8, 2, 3]) {
        QueryDecision::Dropped => {}
        _ => panic!("expected a drop"),
    }
    let stats = server.get_stats();
    assert_eq!(stats.total_queries, 1);
    assert_eq!(stats.blocked_queries, 0);
    assert_eq!(stats.allowed_queries, 0);
}

#[test]
fn test_query_without_question_is_dropped() {
    let mut server = server_with(vec![]);
    let mut msg = Message::new();
    msg.set_id(7);
    msg.set_message_type(MessageType::Query);
    msg.set_op_code(OpCode::Query);
    let datagram = msg.to_bytes().unwrap();

    match server.handle_datagram(&datagram) {
        QueryDecision::Dropped => {}
        _ => panic!("expected a drop"),
    }
    assert_eq!(server.get_stats().total_queries, 1);
}

#[test]
fn test_counters_stay_monotonic() {
    let mut server = server_with(vec!["ads.example.com"]);
    let mut last = server.get_stats();
    let datagrams = [
        query_datagram(1, "ads.example.com."),
        query_datagram(2, "safe.example.com."),
        vec![0u8, 1],
        query_datagram(3, "ads.example.com."),
    ];
    for d in datagrams.iter() {
        server.handle_datagram(d);
        let now = server.get_stats();
        assert!(now.total_queries >= last.total_queries);
        assert!(now.blocked_queries >= last.blocked_queries);
        assert!(now.allowed_queries >= last.allowed_queries);
        assert!(now.blocked_queries + now.allowed_queries <= now.total_queries);
        last = now;
    }
    assert_eq!(last.total_queries, 4);
    assert_eq!(last.blocked_queries, 2);
    assert_eq!(last.allowed_queries, 1);
}

#[test]
fn test_forwarded_reply_keeps_client_id() {
    // An upstream reply is relayed byte for byte, except that the first two
    // bytes carry the client's original transaction id again.
    let query = ParsedQuery {
        id: 0x1234,
        opcode: 0,
        questions: vec![Question { name: "safe.example.com.".to_string(), qtype: 1, qclass: 1 }],
    };
    let upstream: Vec<u8> = vec![0xAB, 0xCD, 0x81, 0x80, 0, 1, 0, 0, 0, 0, 0, 0, 9, 8];
    match finish_forward(Some(upstream.clone()), query) {
        UpstreamReply::Relayed(bytes) => {
            assert_eq!(bytes[0], 0x12);
            assert_eq!(bytes[1], 0x34);
            assert_eq!(&bytes[2..], &upstream[2..]);
        }
        _ => panic!("expected a relay"),
    }
}

#[test]
fn test_failed_forward_synthesizes_refused() {
    let query = ParsedQuery {
        id: 0x4242,
        opcode: 0,
        questions: vec![Question { name: "safe.example.com.".to_string(), qtype: 1, qclass: 1 }],
    };
    match finish_forward(None, query) {
        UpstreamReply::Synthesized(resp) => {
            assert_eq!(resp.id, 0x4242);
            assert_eq!(resp.rcode, Rcode::Refused);
            assert_eq!(resp.questions.len(), 1);
            assert_eq!(resp.questions[0].name, "safe.example.com.");
            assert!(resp.answer.is_none());
        }
        _ => panic!("expected a synthesized reply"),
    }
}

#[test]
fn test_denial_encodes_and_decodes() {
    let mut server = server_with(vec!["ads.example.com"]);
    let datagram = query_datagram(0x0F0F, "ads.example.com.");
    let resp = match server.handle_datagram(&datagram) {
        QueryDecision::Deny(resp) => resp,
        _ => panic!("expected a denial"),
    };
    let bytes = encode_response(&resp).expect("denial encodes");
    let decoded = Message::from_bytes(&bytes).expect("denial parses back");
    assert_eq!(decoded.id(), 0x0F0F);
    assert_eq!(decoded.response_code(), ResponseCode::Refused);
    assert_eq!(decoded.queries().len(), 1);
    assert_eq!(decoded.queries()[0].name().to_utf8(), "ads.example.com.");
    assert_eq!(decoded.answers().len(), 0);
}

#[test]
fn test_ip_denial_carries_a_record() {
    let mut blocklist = BlocklistManager::new();
    blocklist.load_domains(vec!["ads.example.com".to_string()]);
    let mut config = Config::default();
    config.server.blocked_response = BlockedResponse::Ipv4([0, 0, 0, 0]);
    let mut server = DnsServer::new(config, blocklist, Some(0));

    let datagram = query_datagram(0x2222, "ads.example.com.");
    let resp = match server.handle_datagram(&datagram) {
        QueryDecision::Deny(resp) => resp,
        _ => panic!("expected a denial"),
    };
    assert_eq!(resp.rcode, Rcode::NoError);
    let answer = resp.answer.as_ref().expect("synthesized answer");
    assert_eq!(answer.ttl, 60);

    let bytes = encode_response(&resp).expect("denial encodes");
    let decoded = Message::from_bytes(&bytes).expect("denial parses back");
    assert_eq!(decoded.id(), 0x2222);
    assert_eq!(decoded.response_code(), ResponseCode::NoError);
    assert_eq!(decoded.answers().len(), 1);
    let record = &decoded.answers()[0];
    assert_eq!(record.ttl(), 60);
    assert_eq!(record.record_type(), RecordType::A);
    match record.data() {
        Some(RData::A(a)) => assert_eq!(a.0.octets(), [0, 0, 0, 0]),
        other => panic!("expected an A record, got {:?}", other),
    }
}

#[test]
fn test_reload_during_stream_of_queries() {
    // The policy changes from {exact: a.example.com} to {exact: b.example.com}
    // mid-stream; every answer corresponds to exactly one of the two
    // policies, and no query is lost.
    let mut server = server_with(vec!["a.example.com"]);
    let da = query_datagram(1, "a.example.com.");
    let db = query_datagram(2, "b.example.com.");

    assert!(matches!(server.handle_datagram(&da), QueryDecision::Deny(_)));
    assert!(matches!(server.handle_datagram(&db), QueryDecision::Forward { .. }));

    server.blocklist.reload(vec!["b.example.com".to_string()]);

    assert!(matches!(server.handle_datagram(&da), QueryDecision::Forward { .. }));
    assert!(matches!(server.handle_datagram(&db), QueryDecision::Deny(_)));
    assert_eq!(server.get_stats().total_queries, 4);
    assert_eq!(server.get_stats().blocked_queries, 2);
    assert_eq!(server.get_stats().allowed_queries, 2);
}

#[test]
fn test_ipv6_denial_carries_aaaa_record() {
    let mut blocklist = BlocklistManager::new();
    blocklist.load_domains(vec!["ads.example.com".to_string()]);
    let mut config = Config::default();
    config.server.blocked_response = BlockedResponse::Ipv6([0, 0, 0, 0, 0, 0, 0, 1]);
    let mut server = DnsServer::new(config, blocklist, Some(0));

    let datagram = query_datagram(0x3333, "ads.example.com.");
    let resp = match server.handle_datagram(&datagram) {
        QueryDecision::Deny(resp) => resp,
        _ => panic!("expected a denial"),
    };
    let bytes = encode_response(&resp).expect("denial encodes");
    let decoded = Message::from_bytes(&bytes).expect("denial parses back");
    assert_eq!(decoded.id(), 0x3333);
    assert_eq!(decoded.response_code(), ResponseCode::NoError);
    assert_eq!(decoded.answers().len(), 1);
    let record = &decoded.answers()[0];
    assert_eq!(record.ttl(), 60);
    assert_eq!(record.record_type(), RecordType::AAAA);
    match record.data() {
        Some(RData::AAAA(a)) => assert_eq!(a.0.segments(), [0, 0, 0, 0, 0, 0, 0, 1]),
        other => panic!("expected an AAAA record, got {:?}", other),
    }
}

#[test]
fn test_nxdomain_denial() {
    let mut blocklist = BlocklistManager::new();
    blocklist.load_domains(vec!["ads.example.com".to_string()]);
    let mut config = Config::default();
    config.server.blocked_response = BlockedResponse::NxDomain;
    let mut server = DnsServer::new(config, blocklist, Some(0));

    let datagram = query_datagram(0x4444, "ads.example.com.");
    let resp = match server.handle_datagram(&datagram) {
        QueryDecision::Deny(resp) => resp,
        _ => panic!("expected a denial"),
    };
    assert_eq!(resp.rcode, Rcode::NxDomain);
    assert!(resp.answer.is_none());
    let bytes = encode_response(&resp).expect("denial encodes");
    let decoded = Message::from_bytes(&bytes).expect("denial parses back");
    assert_eq!(decoded.id(), 0x4444);
    assert_eq!(decoded.response_code(), ResponseCode::NXDomain);
    assert_eq!(decoded.answers().len(), 0);
}

#[test]
fn test_denial_echoes_all_questions() {
    // A multi-question query gets every question echoed in the denial.
    let mut msg = Message::new();
    msg.set_id(0x5151);
    msg.set_message_type(MessageType::Query);
    msg.set_op_code(OpCode::Query);
    msg.add_query(Query::query(Name::from_utf8("ads.example.com.").unwrap(), RecordType::A));
    msg.add_query(Query::query(Name::from_utf8("extra.example.org.").unwrap(), RecordType::AAAA));
    let datagram = msg.to_bytes().unwrap();

    let mut server = server_with(vec!["ads.example.com"]);
    let resp = match server.handle_datagram(&datagram) {
        QueryDecision::Deny(resp) => resp,
        _ => panic!("expected a denial"),
    };
    assert_eq!(resp.questions.len(), 2);
    assert_eq!(resp.questions[0].name, "ads.example.com.");
    assert_eq!(resp.questions[1].name, "extra.example.org.");

    let bytes = encode_response(&resp).expect("denial encodes");
    let decoded = Message::from_bytes(&bytes).expect("denial parses back");
    assert_eq!(decoded.queries().len(), 2);
    assert_eq!(decoded.queries()[1].name().to_utf8(), "extra.example.org.");
}

#[test]
fn test_denial_keeps_opcode() {
    // A blocked STATUS query is answered with opcode STATUS, not QUERY.
    let mut msg = Message::new();
    msg.set_id(0x6161);
    msg.set_message_type(MessageType::Query);
    msg.set_op_code(OpCode::Status);
    msg.add_query(Query::query(Name::from_utf8("ads.example.com.").unwrap(), RecordType::A));
    let datagram = msg.to_bytes().unwrap();

    let mut server = server_with(vec!["ads.example.com"]);
    let resp = match server.handle_datagram(&datagram) {
        QueryDecision::Deny(resp) => resp,
        _ => panic!("expected a denial"),
    };
    assert_eq!(resp.opcode, u8::from(OpCode::Status));

    let bytes = encode_response(&resp).expect("denial encodes");
    let decoded = Message::from_bytes(&bytes).expect("denial parses back");
    assert_eq!(decoded.id(), 0x6161);
    assert_eq!(decoded.op_code(), OpCode::Status);
    assert_eq!(decoded.response_code(), ResponseCode::Refused);
}
