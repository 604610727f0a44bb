//! DNS wire codec: the guest owns every byte of a query.

use vz_backend::dns::{build_refused, build_response, parse_query, DnsQuery, QueryType};
use vz_backend::ip::IpAddr;

fn v4(octets: [u8; 4]) -> IpAddr {
    IpAddr::V4(u32::from_be_bytes(octets))
}

fn query_bytes(id: u16, name: &str, qtype: u16) -> Vec<u8> {
    let mut out = Vec::new();
    out.extend_from_slice(&id.to_be_bytes());
    out.extend_from_slice(&[0x01, 0x00]); // RD=1, standard query
    out.extend_from_slice(&[0, 1, 0, 0, 0, 0, 0, 0]); // QDCOUNT=1
    for label in name.split('.') {
        out.push(label.len() as u8);
        out.extend_from_slice(label.as_bytes());
    }
    out.push(0);
    out.extend_from_slice(&qtype.to_be_bytes());
    out.extend_from_slice(&1u16.to_be_bytes()); // class IN
    out
}

#[test]
fn a_query_parses() {
    let bytes = query_bytes(0x1234, "api.github.com", 1);
    let query = parse_query(&bytes).expect("valid A query");
    assert_eq!(query.id, 0x1234);
    assert_eq!(query.name, "api.github.com");
    assert_eq!(query.qtype, QueryType::A);
    assert_eq!(query.raw_question, &bytes[12..]);
}

#[test]
fn aaaa_query_parses() {
    let query = parse_query(&query_bytes(7, "example.com", 28)).expect("valid AAAA query");
    assert_eq!(query.qtype, QueryType::Aaaa);
}

#[test]
fn other_qtypes_are_rejected() {
    // MX
    assert!(parse_query(&query_bytes(7, "example.com", 15)).is_none());
    // TXT
    assert!(parse_query(&query_bytes(7, "example.com", 16)).is_none());
}

#[test]
fn responses_and_truncated_packets_are_rejected_without_panicking() {
    let mut response = query_bytes(1, "example.com", 1);
    response[2] |= 0x80; // QR=1: a response, not a query
    assert!(parse_query(&response).is_none());

    let good = query_bytes(1, "example.com", 1);
    for len in 0..good.len() {
        assert!(parse_query(&good[..len]).is_none());
    }
    let garbage: Vec<u8> = (0..=255).cycle().take(64).collect();
    let _ = parse_query(&garbage);
}

#[test]
fn compressed_names_in_queries_are_rejected() {
    let mut bytes = Vec::new();
    bytes.extend_from_slice(&1u16.to_be_bytes());
    bytes.extend_from_slice(&[0x01, 0x00, 0, 1, 0, 0, 0, 0, 0, 0]);
    bytes.extend_from_slice(&[0xC0, 0x0C]); // pointer
    bytes.extend_from_slice(&1u16.to_be_bytes());
    bytes.extend_from_slice(&1u16.to_be_bytes());
    assert!(parse_query(&bytes).is_none());
}

#[test]
fn other_opcodes_classes_and_counts_are_rejected() {
    let mut opcode = query_bytes(1, "example.com", 1);
    opcode[2] = 0x08;
    assert!(parse_query(&opcode).is_none());
    let mut two_questions = query_bytes(1, "example.com", 1);
    two_questions[5] = 2;
    assert!(parse_query(&two_questions).is_none());
    let mut class = query_bytes(1, "example.com", 1);
    let last = class.len() - 1;
    class[last] = 3;
    assert!(parse_query(&class).is_none());
}

#[test]
fn names_are_bounded_and_must_be_text() {
    let label = "a".repeat(63);
    let at_limit = format!("{label}.{label}.{label}.{}", "b".repeat(61));
    assert_eq!(at_limit.len(), 253);
    assert_eq!(parse_query(&query_bytes(1, &at_limit, 1)).unwrap().name, at_limit);
    let over = format!("{label}.{label}.{label}.{}", "b".repeat(62));
    assert!(parse_query(&query_bytes(1, &over, 1)).is_none());

    let mut not_text = query_bytes(1, "ab.com", 1);
    not_text[13] = 0xff;
    assert!(parse_query(&not_text).is_none());
    let umlaut = query_bytes(1, "bücher.example", 1);
    assert_eq!(parse_query(&umlaut).unwrap().name, "bücher.example");
}

#[test]
fn root_name_and_trailing_bytes_are_accepted() {
    let mut bytes = vec![0, 9, 0, 0, 0, 1, 0, 0, 0, 0, 0, 0, 0, 0, 1, 0, 1];
    bytes.extend_from_slice(b"additional records");
    let query = parse_query(&bytes).unwrap();
    assert_eq!(query.name, "");
    assert_eq!(query.raw_question, [0, 0, 1, 0, 1]);
}

#[test]
fn answer_carries_the_ips_with_the_ttl() {
    let query = DnsQuery {
        id: 0x4242,
        name: "api.github.com".to_string(),
        qtype: QueryType::A,
        raw_question: query_bytes(0x4242, "api.github.com", 1)[12..].to_vec(),
    };
    let ips = vec![v4([140, 82, 112, 22]), v4([140, 82, 113, 22])];
    let response = build_response(&query, &ips, 60);

    assert_eq!(&response[0..2], &0x4242u16.to_be_bytes());
    assert_eq!(response[2] & 0x80, 0x80, "QR must be set");
    assert_eq!(response[3] & 0x0f, 0, "RCODE NoError");
    let ancount = u16::from_be_bytes([response[6], response[7]]);
    assert_eq!(ancount, 2);
    let answers_at = 12 + query.raw_question.len();
    let answer = &response[answers_at..];
    assert_eq!(&answer[0..2], &[0xC0, 0x0C], "name pointer to offset 12");
    assert_eq!(u16::from_be_bytes([answer[2], answer[3]]), 1, "type A");
    assert_eq!(u32::from_be_bytes([answer[6], answer[7], answer[8], answer[9]]), 60, "TTL");
    assert_eq!(u16::from_be_bytes([answer[10], answer[11]]), 4);
    assert_eq!(&answer[12..16], &[140, 82, 112, 22]);
    assert_eq!(&answer[28..32], &[140, 82, 113, 22]);
    assert!(parse_query(&response).is_none(), "a response is no query");
}

#[test]
fn answer_filters_ips_to_the_question_family() {
    let query = DnsQuery {
        id: 1,
        name: "example.com".to_string(),
        qtype: QueryType::A,
        raw_question: query_bytes(1, "example.com", 1)[12..].to_vec(),
    };
    let ips = vec![v4([1, 2, 3, 4]), IpAddr::V6(1)];
    let response = build_response(&query, &ips, 60);
    let ancount = u16::from_be_bytes([response[6], response[7]]);
    assert_eq!(ancount, 1, "an A question must not receive AAAA records");

    let query6 = DnsQuery { qtype: QueryType::Aaaa, ..query };
    let response = build_response(&query6, &ips, 60);
    assert_eq!(u16::from_be_bytes([response[6], response[7]]), 1);
    let mut loopback = [0u8; 16];
    loopback[15] = 1;
    assert!(response.ends_with(&loopback));
}

#[test]
fn refused_response_echoes_the_question_with_rcode_refused() {
    let query = DnsQuery {
        id: 0x9999,
        name: "evil.example.com".to_string(),
        qtype: QueryType::A,
        raw_question: query_bytes(0x9999, "evil.example.com", 1)[12..].to_vec(),
    };
    let response = build_refused(&query);
    assert_eq!(&response[0..2], &0x9999u16.to_be_bytes());
    assert_eq!(response[2] & 0x80, 0x80, "QR must be set");
    assert_eq!(response[3] & 0x0f, 5, "RCODE Refused");
    assert_eq!(u16::from_be_bytes([response[6], response[7]]), 0, "no answers");
    assert!(response.ends_with(&query.raw_question));
}
