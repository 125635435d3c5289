use rcurl::dns::{
    build_query, get_system_dns_servers, parse_ipv4_literal, parse_response, query_id, random_id,
    resolve_from_hosts,
};
use rcurl::{DnsError, Ipv4, Resolution, ResolveAction};

fn question(name: &[&str]) -> Vec<u8> {
    let mut q = Vec::new();
    for label in name {
        q.push(label.len() as u8);
        q.extend_from_slice(label.as_bytes());
    }
    q.push(0);
    q.extend_from_slice(&[0, 1, 0, 1]);
    q
}

fn a_record(data: [u8; 4]) -> Vec<u8> {
    let mut r = vec![0xC0, 0x0C, 0, 1, 0, 1, 0, 0, 0x0E, 0x10, 0, 4];
    r.extend_from_slice(&data);
    r
}

fn reply(id: u16, flags: [u8; 2], answers: &[Vec<u8>]) -> Vec<u8> {
    let mut p = vec![(id >> 8) as u8, id as u8, flags[0], flags[1], 0, 1, 0, answers.len() as u8, 0, 0, 0, 0];
    p.extend(question(&["example", "com"]));
    for a in answers {
        p.extend_from_slice(a);
    }
    p
}

#[test]
fn query_for_example_com() {
    let q = build_query("example.com", 0x1234);
    let mut expected = vec![0x12, 0x34, 0x01, 0x00, 0x00, 0x01, 0, 0, 0, 0, 0, 0];
    expected.extend(question(&["example", "com"]));
    assert_eq!(q, expected);
}

#[test]
fn query_for_empty_and_dotted_names() {
    assert_eq!(
        build_query("", 1),
        vec![0, 1, 1, 0, 0, 1, 0, 0, 0, 0, 0, 0, 0, 0, 0, 1, 0, 1]
    );
    let q = build_query("a.", 2);
    assert_eq!(&q[12..], &[1u8, b'a', 0, 0, 0, 1, 0, 1][..]);
}

#[test]
fn transaction_id_mixes_seconds_and_nanos() {
    assert_eq!(query_id(0x1_0001_0002, 0x0003_0004), 0x0002 ^ 0x0004);
    assert_eq!(query_id(0xABCD, 0), 0xABCD);
    assert_eq!(query_id(0, 999_999_999), (999_999_999u32 & 0xFFFF) as u16);
    let _ = random_id();
}

#[test]
fn answers_are_collected_in_order() {
    let p = reply(7, [0x81, 0x80], &[a_record([93, 184, 216, 34]), a_record([1, 2, 3, 4])]);
    assert_eq!(
        parse_response(&p, 7),
        Ok(vec![Ipv4(93, 184, 216, 34), Ipv4(1, 2, 3, 4)])
    );
}

#[test]
fn mismatched_id_is_rejected() {
    let p = reply(7, [0x81, 0x80], &[a_record([93, 184, 216, 34])]);
    assert_eq!(
        parse_response(&p, 8),
        Err(DnsError::IdMismatch { expected: 8, received: 7 })
    );
}

#[test]
fn rcode_three_is_a_name_error() {
    let p = reply(9, [0x81, 0x83], &[a_record([1, 1, 1, 1])]);
    assert_eq!(parse_response(&p, 9), Err(DnsError::NameError));
}

#[test]
fn every_rcode_has_its_error() {
    let cases = [
        (1, DnsError::FormatError),
        (2, DnsError::ServerFailure),
        (4, DnsError::NotImplemented),
        (5, DnsError::Refused),
        (9, DnsError::UnknownRcode(9)),
    ];
    for (code, err) in cases {
        let p = reply(3, [0x81, 0x80 | code], &[a_record([1, 1, 1, 1])]);
        assert_eq!(parse_response(&p, 3), Err(err));
    }
}

#[test]
fn header_checks_come_first() {
    assert_eq!(parse_response(&[0; 11], 0), Err(DnsError::TooShort));
    let query = build_query("example.com", 5);
    assert_eq!(parse_response(&query, 5), Err(DnsError::NotResponse));
    let p = reply(5, [0x81 | (2 << 3), 0x80], &[a_record([1, 1, 1, 1])]);
    assert_eq!(parse_response(&p, 5), Err(DnsError::UnknownOpcode(2)));
    let p = reply(5, [0x81, 0x80], &[]);
    assert_eq!(parse_response(&p, 5), Err(DnsError::NoAnswers));
}

#[test]
fn cut_off_answer_is_incomplete() {
    let mut p = reply(5, [0x81, 0x80], &[a_record([1, 1, 1, 1])]);
    p.truncate(p.len() - 8);
    assert_eq!(parse_response(&p, 5), Err(DnsError::Incomplete));
    let mut p = reply(5, [0x81, 0x80], &[a_record([1, 1, 1, 1])]);
    p[7] = 2;
    assert_eq!(parse_response(&p, 5), Err(DnsError::Incomplete));
}

#[test]
fn only_a_records_count() {
    let cname = vec![0xC0, 0x0C, 0, 5, 0, 1, 0, 0, 0, 60, 0, 2, 0xC0, 0x0C];
    let p = reply(5, [0x81, 0x80], &[cname.clone()]);
    assert_eq!(parse_response(&p, 5), Err(DnsError::NoIpv4Address));
    let p = reply(5, [0x81, 0x80], &[cname, a_record([10, 0, 0, 1])]);
    assert_eq!(parse_response(&p, 5), Ok(vec![Ipv4(10, 0, 0, 1)]));
}

#[test]
fn uncompressed_answer_name_is_walked() {
    let mut answer = question(&["example", "com"]);
    answer.truncate(answer.len() - 4);
    answer.extend_from_slice(&[0, 1, 0, 1, 0, 0, 0, 1, 0, 4, 8, 8, 4, 4]);
    let p = reply(5, [0x81, 0x80], &[answer]);
    assert_eq!(parse_response(&p, 5), Ok(vec![Ipv4(8, 8, 4, 4)]));
}

#[test]
fn hosts_entry_answers_without_a_query() {
    let (mut resolution, first) = Resolution::new("example.test");
    assert!(matches!(first, ResolveAction::ReadHosts));
    match resolution.on_hosts("203.0.113.5 example.test\n") {
        ResolveAction::Finish(Ok(ips)) => assert_eq!(ips, vec![Ipv4(203, 0, 113, 5)]),
        other => panic!("{:?}", other),
    }
}

#[test]
fn hosts_file_lines() {
    let hosts = "# comment 1.1.1.1 x\n\n127.0.0.1\tlocalhost x\n  10.0.0.1 a x x # y\n01.2.3.4 x\n::1 x\n10.0.0.2 x\r\n";
    assert_eq!(
        resolve_from_hosts(hosts, "x"),
        Some(vec![
            Ipv4(127, 0, 0, 1),
            Ipv4(10, 0, 0, 1),
            Ipv4(10, 0, 0, 1),
            Ipv4(10, 0, 0, 2),
        ])
    );
    assert_eq!(resolve_from_hosts(hosts, "a"), Some(vec![Ipv4(10, 0, 0, 1)]));
    assert_eq!(resolve_from_hosts(hosts, "#"), Some(vec![Ipv4(10, 0, 0, 1)]));
    assert_eq!(resolve_from_hosts(hosts, "missing"), None);
    assert_eq!(resolve_from_hosts("", "x"), None);
}

#[test]
fn dotted_quads() {
    assert_eq!(parse_ipv4_literal("203.0.113.5"), Some(Ipv4(203, 0, 113, 5)));
    assert_eq!(parse_ipv4_literal("0.0.0.0"), Some(Ipv4(0, 0, 0, 0)));
    assert_eq!(parse_ipv4_literal("255.255.255.255"), Some(Ipv4(255, 255, 255, 255)));
    for bad in ["256.1.1.1", "1.2.3", "1.2.3.4.5", "01.2.3.4", "1.2.3.", "a.b.c.d", "+1.2.3.4", ""] {
        assert_eq!(parse_ipv4_literal(bad), None, "{}", bad);
    }
}

#[test]
fn nameservers_in_order() {
    let conf = "# resolv\nsearch lan\nnameserver 192.168.1.1\nnameserver\t8.8.8.8 extra\n nameserver 9.9.9.9\nnameserver\n";
    assert_eq!(
        get_system_dns_servers(conf),
        Ok(vec!["192.168.1.1".to_string(), "8.8.8.8".to_string()])
    );
    assert_eq!(get_system_dns_servers("search lan\n"), Err(DnsError::NoNameserver));
}

#[test]
fn resolution_queries_the_first_nameserver() {
    let (mut resolution, _) = Resolution::new("example.com");
    assert!(matches!(
        resolution.on_hosts("127.0.0.1 localhost\n"),
        ResolveAction::ReadConfig
    ));
    let (server, packet) = match resolution.on_config("nameserver 1.1.1.1\nnameserver 8.8.8.8\n") {
        ResolveAction::Send { server, packet } => (server, packet),
        other => panic!("{:?}", other),
    };
    assert_eq!(server, "1.1.1.1");
    let id = u16::from_be_bytes([packet[0], packet[1]]);
    assert_eq!(packet, build_query("example.com", id));
    let answer = reply(id, [0x81, 0x80], &[a_record([93, 184, 216, 34])]);
    match resolution.on_reply(&answer) {
        ResolveAction::Finish(Ok(ips)) => assert_eq!(ips, vec![Ipv4(93, 184, 216, 34)]),
        other => panic!("{:?}", other),
    }
}

#[test]
fn resolution_without_nameserver_fails() {
    let (mut resolution, _) = Resolution::new("example.com");
    resolution.on_hosts("");
    match resolution.on_config("") {
        ResolveAction::Finish(Err(e)) => assert_eq!(e, DnsError::NoNameserver),
        other => panic!("{:?}", other),
    }
}
