use dns_codec::record::{Ipv4Addr, Ipv6Addr};
use dns_codec::{
    build_reply, take_question, DnsPacket, DnsQuestion, DnsRecord, QueryClass, QueryType, Resolver,
    ResolverAction, ResultCode,
};

fn answered_response(code: ResultCode, answers: Vec<DnsRecord>) -> DnsPacket {
    let mut packet = DnsPacket::new();
    packet.header.id = 6666;
    packet.header.is_response = true;
    packet.header.result_code = code;
    packet.header.answers_count = answers.len() as u16;
    packet.answers = answers;
    packet
}

fn a_record(domain: &str, ip: Ipv4Addr) -> DnsRecord {
    DnsRecord::A { domain: domain.to_string(), ip_v4_addr: ip, ttl: 300 }
}

fn ns_record(domain: &str, host: &str) -> DnsRecord {
    DnsRecord::NS { domain: domain.to_string(), host: host.to_string(), ttl: 300 }
}

#[test]
fn start_queries_the_root_server() {
    let (resolver, action) =
        Resolver::start("example.com".to_string(), QueryType::A, QueryClass::IN);
    assert_eq!(resolver.stack.len(), 1);
    match action {
        ResolverAction::Query { server, qname, qtype, qclass } => {
            assert_eq!(server, Ipv4Addr::new(198, 41, 0, 4));
            assert_eq!(qname, "example.com");
            assert_eq!(qtype, QueryType::A);
            assert_eq!(qclass, QueryClass::IN);
        },
        ResolverAction::Done { .. } => panic!("resolution ended before any query"),
    }
}

#[test]
fn answered_noerror_response_is_returned_unchanged() {
    let (mut resolver, _) =
        Resolver::start("example.com".to_string(), QueryType::A, QueryClass::IN);
    let response = answered_response(
        ResultCode::NOERROR,
        vec![a_record("example.com", Ipv4Addr::new(93, 184, 216, 34))],
    );
    match resolver.on_response(response.clone()) {
        ResolverAction::Done { packet } => assert_eq!(packet, response),
        ResolverAction::Query { .. } => panic!("a terminal response prompted another query"),
    }
}

#[test]
fn nxdomain_response_is_returned_unchanged() {
    let (mut resolver, _) =
        Resolver::start("no.such.name".to_string(), QueryType::A, QueryClass::IN);
    // answers present or not, the negative answer is terminal
    let response = answered_response(
        ResultCode::NXDOMAIN,
        vec![a_record("unrelated", Ipv4Addr::new(1, 2, 3, 4))],
    );
    match resolver.on_response(response.clone()) {
        ResolverAction::Done { packet } => assert_eq!(packet, response),
        ResolverAction::Query { .. } => panic!("a negative answer prompted another query"),
    }
}

#[test]
fn delegation_with_glue_queries_the_glue_address() {
    let (mut resolver, _) =
        Resolver::start("www.example.com".to_string(), QueryType::A, QueryClass::IN);
    let glue = Ipv4Addr::new(192, 0, 2, 53);
    let mut response = DnsPacket::new();
    response.header.is_response = true;
    response.authorities.push(ns_record("com", "ns1.example.com"));
    response.additionals.push(a_record("ns1.example.com", glue));
    response.header.authority_records_count = 1;
    response.header.additional_records_count = 1;

    match resolver.on_response(response) {
        ResolverAction::Query { server, qname, qtype, qclass } => {
            assert_eq!(server, glue);
            assert_eq!(qname, "www.example.com");
            assert_eq!(qtype, QueryType::A);
            assert_eq!(qclass, QueryClass::IN);
        },
        ResolverAction::Done { .. } => panic!("a delegation ended the resolution"),
    }
    assert_eq!(resolver.stack.len(), 1);
}

#[test]
fn delegation_without_glue_pushes_a_sub_lookup() {
    let (mut resolver, _) =
        Resolver::start("www.example.com".to_string(), QueryType::MX, QueryClass::IN);
    let mut response = DnsPacket::new();
    response.header.is_response = true;
    response.authorities.push(ns_record("example.com", "ns9.elsewhere.net"));
    response.header.authority_records_count = 1;

    match resolver.on_response(response) {
        ResolverAction::Query { server, qname, qtype, qclass } => {
            assert_eq!(server, Ipv4Addr::new(198, 41, 0, 4));
            assert_eq!(qname, "ns9.elsewhere.net");
            assert_eq!(qtype, QueryType::A);
            assert_eq!(qclass, QueryClass::IN);
        },
        ResolverAction::Done { .. } => panic!("a delegation ended the resolution"),
    }
    assert_eq!(resolver.stack.len(), 2);

    // the sub-lookup resolves the server's address; the original question
    // is then aimed at one of the addresses it brought
    let sub = answered_response(
        ResultCode::NOERROR,
        vec![
            a_record("ns9.elsewhere.net", Ipv4Addr::new(203, 0, 113, 1)),
            a_record("ns9.elsewhere.net", Ipv4Addr::new(203, 0, 113, 2)),
        ],
    );
    match resolver.on_response(sub) {
        ResolverAction::Query { server, qname, qtype, qclass } => {
            assert!(
                server == Ipv4Addr::new(203, 0, 113, 1) || server == Ipv4Addr::new(203, 0, 113, 2)
            );
            assert_eq!(qname, "www.example.com");
            assert_eq!(qtype, QueryType::MX);
            assert_eq!(qclass, QueryClass::IN);
        },
        ResolverAction::Done { .. } => panic!("the sub-lookup ended the resolution"),
    }
    assert_eq!(resolver.stack.len(), 1);
}

#[test]
fn fruitless_sub_lookup_returns_the_saved_response() {
    let (mut resolver, _) =
        Resolver::start("www.example.com".to_string(), QueryType::A, QueryClass::IN);
    let mut delegation = DnsPacket::new();
    delegation.header.is_response = true;
    delegation.authorities.push(ns_record("example.com", "ns9.elsewhere.net"));
    delegation.header.authority_records_count = 1;
    resolver.on_response(delegation.clone());

    // the sub-lookup brings no address: the saved delegation is the answer
    let empty = answered_response(ResultCode::NOERROR, Vec::new());
    match resolver.on_response(empty) {
        ResolverAction::Done { packet } => assert_eq!(packet, delegation),
        ResolverAction::Query { .. } => panic!("a fruitless sub-lookup prompted another query"),
    }
    assert_eq!(resolver.stack.len(), 0);
}

#[test]
fn unanswered_response_without_delegation_is_returned() {
    let (mut resolver, _) =
        Resolver::start("example.com".to_string(), QueryType::A, QueryClass::IN);
    let response = answered_response(ResultCode::SERVFAIL, Vec::new());
    match resolver.on_response(response.clone()) {
        ResolverAction::Done { packet } => assert_eq!(packet, response),
        ResolverAction::Query { .. } => panic!("a dead end prompted another query"),
    }
}

#[test]
fn get_random_a_draws_from_the_answer_set() {
    let packet = answered_response(
        ResultCode::NOERROR,
        vec![
            a_record("x", Ipv4Addr::new(1, 1, 1, 1)),
            DnsRecord::AAAA {
                domain: "x".to_string(),
                ip_v6_addr: Ipv6Addr::new(0, 0, 0, 0, 0, 0, 0, 1),
                ttl: 1,
            },
            a_record("x", Ipv4Addr::new(2, 2, 2, 2)),
        ],
    );
    for _ in 0..32 {
        let ip = packet.get_random_a().unwrap();
        assert!(ip == Ipv4Addr::new(1, 1, 1, 1) || ip == Ipv4Addr::new(2, 2, 2, 2));
    }
    assert_eq!(DnsPacket::new().get_random_a(), None);

    let single = answered_response(
        ResultCode::NOERROR,
        vec![a_record("x", Ipv4Addr::new(9, 9, 9, 9))],
    );
    assert_eq!(single.get_random_a(), Some(Ipv4Addr::new(9, 9, 9, 9)));
}

#[test]
fn resolved_ns_requires_suffix_and_glue() {
    let mut packet = DnsPacket::new();
    packet.authorities.push(ns_record("com", "a.gtld-servers.net"));
    packet.authorities.push(ns_record("org", "b.org-servers.net"));
    packet.additionals.push(a_record("b.org-servers.net", Ipv4Addr::new(9, 9, 9, 9)));
    packet.additionals.push(a_record("a.gtld-servers.net", Ipv4Addr::new(8, 8, 8, 8)));

    // the first suffix-matching authority with glue wins
    assert_eq!(
        packet.get_resolved_ns("www.example.com"),
        Some(Ipv4Addr::new(8, 8, 8, 8))
    );
    assert_eq!(
        packet.get_resolved_ns("www.example.org"),
        Some(Ipv4Addr::new(9, 9, 9, 9))
    );
    assert_eq!(packet.get_resolved_ns("example.net"), None);
    // the suffix test is by characters alone, not label-aware
    assert_eq!(
        packet.get_resolved_ns("notcom"),
        Some(Ipv4Addr::new(8, 8, 8, 8))
    );
}

#[test]
fn unresolved_ns_names_the_server_without_glue() {
    let mut packet = DnsPacket::new();
    packet.authorities.push(ns_record("com", "a.gtld-servers.net"));
    packet.authorities.push(ns_record("com", "glueless.example.net"));
    packet.additionals.push(a_record("a.gtld-servers.net", Ipv4Addr::new(8, 8, 8, 8)));

    assert_eq!(
        packet.get_unresolved_ns("www.example.com"),
        Some("glueless.example.net")
    );
    assert_eq!(packet.get_unresolved_ns("example.org"), None);
}

#[test]
fn reply_to_question_free_request_is_formerr() {
    let mut request = DnsPacket::new();
    request.header.id = 0xBEEF;
    let question = take_question(&mut request);
    assert_eq!(question, None);
    let reply = build_reply(request.header.id, question, None);
    assert_eq!(reply.header.id, 0xBEEF);
    assert_eq!(reply.header.result_code, ResultCode::FORMERR);
    assert!(reply.header.is_response);
    assert!(reply.header.recursion_desired && reply.header.recursion_available);
    assert_eq!(reply.answers.len(), 0);
    assert_eq!(reply.authorities.len(), 0);
    assert_eq!(reply.additionals.len(), 0);
    assert_eq!(reply.header.questions_count, 0);
    assert_eq!(reply.header.answers_count, 0);
    assert_eq!(reply.header.authority_records_count, 0);
    assert_eq!(reply.header.additional_records_count, 0);
}

#[test]
fn reply_copies_the_lookup_result() {
    let mut request = DnsPacket::new();
    request.header.id = 77;
    request.questions.push(DnsQuestion::new(
        "example.com".to_string(),
        QueryType::A,
        QueryClass::IN,
    ));
    request.header.questions_count = 1;
    let question = take_question(&mut request).unwrap();

    let result = answered_response(
        ResultCode::NOERROR,
        vec![a_record("example.com", Ipv4Addr::new(93, 184, 216, 34))],
    );
    let reply = build_reply(request.header.id, Some(question), Some(result.clone()));
    assert_eq!(reply.header.id, 77);
    assert_eq!(reply.header.result_code, ResultCode::NOERROR);
    assert_eq!(reply.questions.len(), 1);
    assert_eq!(reply.questions[0].name, "example.com");
    assert_eq!(reply.answers, result.answers);
    assert_eq!(reply.header.questions_count, 1);
    assert_eq!(reply.header.answers_count, 1);
}

#[test]
fn reply_to_failed_lookup_is_servfail_with_question_echoed() {
    let question = DnsQuestion::new("example.com".to_string(), QueryType::A, QueryClass::IN);
    let reply = build_reply(5, Some(question), None);
    assert_eq!(reply.header.result_code, ResultCode::SERVFAIL);
    assert_eq!(reply.questions.len(), 1);
    assert_eq!(reply.questions[0].name, "example.com");
    assert_eq!(reply.header.questions_count, 1);
    assert_eq!(reply.answers.len(), 0);
    assert_eq!(reply.authorities.len(), 0);
    assert_eq!(reply.additionals.len(), 0);
    assert_eq!(reply.header.answers_count, 0);
    assert_eq!(reply.header.authority_records_count, 0);
    assert_eq!(reply.header.additional_records_count, 0);
}
