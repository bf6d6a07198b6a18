use mget::addr::Ipv4;
use mget::addr::SockAddr;
use mget::addr::parse_ipv4;
use mget::dns::Datagram;
use mget::dns::DnsError;
use mget::dns::accept_datagram;
use mget::dns::encode_query;
use mget::dns::message_id;
use mget::dns::parse_response;
use mget::dns::parse_server_address;
use mget::dns::resolve;
use mget::dns::select_datagram;
use mget::dns::validate_hostname;

fn ip(o0: u8, o1: u8, o2: u8, o3: u8) -> Ipv4 {
    Ipv4 { o0, o1, o2, o3 }
}

#[test]
fn message_id_is_never_zero() {
    for _ in 0..10000 {
        assert_ne!(message_id(), 0);
    }
}

#[test]
fn encode_query_exact_bytes() {
    let encoded = encode_query(0x1234, &b"example.com".to_vec()).unwrap();
    let mut expected: Vec<u8> = vec![
        0x12, 0x34, // transaction id
        0x01, 0x00, // flags: recursion desired
        0x00, 0x01, // one question
        0x00, 0x00, 0x00, 0x00, 0x00, 0x00, // no other sections
    ];
    expected.push(7);
    expected.extend_from_slice(b"example");
    expected.push(3);
    expected.extend_from_slice(b"com");
    expected.push(0);
    expected.extend_from_slice(&[0x00, 0x01, 0x00, 0x01]); // type A, class IN
    assert_eq!(encoded, expected);
}

#[test]
fn encode_query_single_label() {
    let encoded = encode_query(1, &b"localhost".to_vec()).unwrap();
    let mut expected: Vec<u8> = vec![0, 1, 1, 0, 0, 1, 0, 0, 0, 0, 0, 0];
    expected.push(9);
    expected.extend_from_slice(b"localhost");
    expected.push(0);
    expected.extend_from_slice(&[0, 1, 0, 1]);
    assert_eq!(encoded, expected);
}

#[test]
fn encode_query_rejects_malformed_names() {
    assert_eq!(
        encode_query(7, &b"".to_vec()),
        Err(DnsError::ParseDomainName)
    );
    assert_eq!(
        encode_query(7, &b"a..b".to_vec()),
        Err(DnsError::ParseDomainName)
    );
    assert_eq!(
        encode_query(7, &b".example.com".to_vec()),
        Err(DnsError::ParseDomainName)
    );
    assert_eq!(
        encode_query(7, &b"example.com.".to_vec()),
        Err(DnsError::ParseDomainName)
    );
    assert_eq!(
        encode_query(7, &b"exa mple.com".to_vec()),
        Err(DnsError::ParseDomainName)
    );
}

#[test]
fn hostname_label_length_limits() {
    let label63: Vec<u8> = vec![b'a'; 63];
    assert!(validate_hostname(&label63));
    let label64: Vec<u8> = vec![b'a'; 64];
    assert!(!validate_hostname(&label64));
    let mut long: Vec<u8> = Vec::new();
    for _ in 0..127 {
        long.extend_from_slice(b"a.");
    }
    long.push(b'a'); // 254 bytes in all: one over the limit
    assert!(!validate_hostname(&long));
    assert!(validate_hostname(&b"xn--bcher-kva.example".to_vec()));
    assert!(validate_hostname(&b"under_score.example".to_vec()));
}

#[test]
fn hostname_total_length_limit() {
    // 126 two-byte labels and a final one-byte label: 253 bytes in all.
    let mut longest: Vec<u8> = Vec::new();
    for _ in 0..126 {
        longest.extend_from_slice(b"a.");
    }
    longest.push(b'a');
    assert_eq!(longest.len(), 253);
    assert!(validate_hostname(&longest));
}

/// A response header: the given transaction id, a standard response flags
/// word, one question, `answers` answer records.
fn fixture_header(answers: u8) -> Vec<u8> {
    vec![0x00, 0x01, 0x81, 0x80, 0x00, 0x01, 0x00, answers, 0x00, 0x00, 0x00, 0x00]
}

fn fixture_question() -> Vec<u8> {
    let mut q: Vec<u8> = Vec::new();
    q.push(7);
    q.extend_from_slice(b"example");
    q.push(3);
    q.extend_from_slice(b"com");
    q.push(0);
    q.extend_from_slice(&[0x00, 0x01, 0x00, 0x01]);
    q
}

/// An answer record whose name is a compression pointer to offset 12.
fn fixture_record(rtype: u16, payload: &[u8]) -> Vec<u8> {
    let mut r: Vec<u8> = vec![0xC0, 0x0C];
    r.extend_from_slice(&rtype.to_be_bytes());
    r.extend_from_slice(&[0x00, 0x01]); // class IN
    r.extend_from_slice(&[0x00, 0x00, 0x00, 0x3C]); // time to live
    r.extend_from_slice(&(payload.len() as u16).to_be_bytes());
    r.extend_from_slice(payload);
    r
}

#[test]
fn parse_response_single_address_record() {
    let mut buf = fixture_header(1);
    buf.extend_from_slice(&fixture_question());
    buf.extend_from_slice(&fixture_record(1, &[93, 184, 216, 34]));
    assert_eq!(parse_response(&buf), Ok(Some(ip(93, 184, 216, 34))));
}

#[test]
fn parse_response_no_address_record() {
    // A lone CNAME answer: a two-label name as its payload.
    let mut cname: Vec<u8> = vec![3];
    cname.extend_from_slice(b"www");
    cname.extend_from_slice(&[0xC0, 0x0C]);
    let mut buf = fixture_header(1);
    buf.extend_from_slice(&fixture_question());
    buf.extend_from_slice(&fixture_record(5, &cname));
    assert_eq!(parse_response(&buf), Ok(None));
}

#[test]
fn parse_response_first_address_record_wins() {
    let mut cname: Vec<u8> = vec![3];
    cname.extend_from_slice(b"www");
    cname.extend_from_slice(&[0xC0, 0x0C]);
    let mut buf = fixture_header(3);
    buf.extend_from_slice(&fixture_question());
    buf.extend_from_slice(&fixture_record(5, &cname));
    buf.extend_from_slice(&fixture_record(1, &[10, 0, 0, 1]));
    buf.extend_from_slice(&fixture_record(1, &[10, 0, 0, 2]));
    assert_eq!(parse_response(&buf), Ok(Some(ip(10, 0, 0, 1))));
}

#[test]
fn parse_response_rejects_malformed() {
    // Too short for a header.
    assert_eq!(parse_response(&vec![0u8; 11]), Err(DnsError::Decoding));
    // One answer promised, none present.
    let mut buf = fixture_header(1);
    buf.extend_from_slice(&fixture_question());
    assert_eq!(parse_response(&buf), Err(DnsError::Decoding));
    // An address record whose payload is not four octets.
    let mut buf = fixture_header(1);
    buf.extend_from_slice(&fixture_question());
    buf.extend_from_slice(&fixture_record(1, &[10, 0, 0, 1, 9]));
    assert_eq!(parse_response(&buf), Err(DnsError::Decoding));
}

#[test]
fn parse_server_address_accepts_ipv4_literal() {
    let a = parse_server_address(&b"1.1.1.1".to_vec()).unwrap();
    assert_eq!(a, SockAddr { ip: ip(1, 1, 1, 1), port: 53 });
    let b = parse_server_address(&b"192.168.42.100".to_vec()).unwrap();
    assert_eq!(b, SockAddr { ip: ip(192, 168, 42, 100), port: 53 });
}

#[test]
fn parse_server_address_rejects_malformed() {
    for bad in [
        &b""[..],
        b"1.1.1",
        b"1.1.1.1.1",
        b"256.1.1.1",
        b"1.1.1.1 ",
        b"a.b.c.d",
        b"1..1.1",
    ] {
        assert_eq!(
            parse_server_address(&bad.to_vec()),
            Err(DnsError::ParseDnsServerAddress)
        );
    }
}

#[test]
fn parse_ipv4_reads_multi_digit_octets() {
    assert_eq!(parse_ipv4(&b"255.0.12.3".to_vec()), Some(ip(255, 0, 12, 3)));
    assert_eq!(parse_ipv4(&b"999.0.0.1".to_vec()), None);
}

#[test]
fn resolve_replays_a_recorded_exchange() {
    let mut payload = fixture_header(1);
    payload.extend_from_slice(&fixture_question());
    payload.extend_from_slice(&fixture_record(1, &[93, 184, 216, 34]));
    let server = SockAddr { ip: ip(1, 1, 1, 1), port: 53 };
    let stranger = SockAddr { ip: ip(8, 8, 8, 8), port: 53 };
    let arrivals = vec![
        Datagram { source: stranger, payload: vec![0; 12] },
        Datagram { source: server, payload },
    ];
    assert_eq!(
        resolve(&b"1.1.1.1".to_vec(), &b"example.com".to_vec(), &arrivals),
        Ok(Some(ip(93, 184, 216, 34)))
    );
}

#[test]
fn resolve_times_out_without_a_matching_source() {
    let stranger = SockAddr { ip: ip(8, 8, 8, 8), port: 53 };
    let arrivals = vec![Datagram { source: stranger, payload: vec![0; 512] }];
    assert_eq!(
        resolve(&b"1.1.1.1".to_vec(), &b"example.com".to_vec(), &arrivals),
        Err(DnsError::Receiving)
    );
}

#[test]
fn resolve_rejects_bad_inputs_before_waiting() {
    assert_eq!(
        resolve(&b"1.1.1.1".to_vec(), &b"a..b".to_vec(), &Vec::new()),
        Err(DnsError::ParseDomainName)
    );
    assert_eq!(
        resolve(&b"1.1.1".to_vec(), &b"example.com".to_vec(), &Vec::new()),
        Err(DnsError::ParseDnsServerAddress)
    );
}

#[test]
fn resolve_reports_a_malformed_matching_datagram() {
    let server = SockAddr { ip: ip(1, 1, 1, 1), port: 53 };
    let arrivals = vec![Datagram { source: server, payload: vec![0xFF; 3] }];
    assert_eq!(
        resolve(&b"1.1.1.1".to_vec(), &b"example.com".to_vec(), &arrivals),
        Err(DnsError::Decoding)
    );
}

#[test]
fn mismatched_source_does_not_conclude_the_wait() {
    let server = SockAddr { ip: ip(1, 1, 1, 1), port: 53 };
    let stranger = SockAddr { ip: ip(8, 8, 8, 8), port: 53 };
    let wrong_port = SockAddr { ip: ip(1, 1, 1, 1), port: 5353 };
    assert!(!accept_datagram(&server, &stranger));
    assert!(!accept_datagram(&server, &wrong_port));
    assert!(accept_datagram(&server, &server.clone()));

    let arrivals = vec![
        Datagram { source: stranger, payload: vec![1] },
        Datagram { source: wrong_port, payload: vec![2] },
        Datagram { source: server, payload: vec![3] },
        Datagram { source: server, payload: vec![4] },
    ];
    // The two strangers are discarded; the first matching arrival concludes.
    assert_eq!(select_datagram(&server, &arrivals), Some(2));

    let only_strangers = vec![
        Datagram { source: stranger, payload: vec![1] },
        Datagram { source: wrong_port, payload: vec![2] },
    ];
    // Nothing matches: the wait is never concluded by these arrivals.
    assert_eq!(select_datagram(&server, &only_strangers), None);
}
