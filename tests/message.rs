use my_dns::domain::Domain;
use my_dns::message::{
    DNSEntry, DNSMessage, DNSMessageData, DNSMessageHeaders, DNSQueryInfo, QueryType,
};

fn entry(owner: &str, t: &str, value: &str, ttl: u32, priority: Option<u16>) -> DNSEntry {
    DNSEntry {
        domain_name: Domain::new(owner.to_string()),
        type_of_value: t.to_string(),
        value: value.to_string(),
        ttl,
        priority,
    }
}

fn header(flags: u8) -> DNSMessageHeaders {
    DNSMessageHeaders {
        message_id: 42,
        flags,
        response_code: Some(0),
        number_of_values: Some(1),
        number_of_authorities: None,
        number_of_extra_values: Some(0),
    }
}

#[test]
fn decode_flags_names_each_combination() {
    let cases = [(0u8, ""), (1, "A"), (2, "R"), (4, "Q"), (3, "R+A"), (6, "Q+R")];
    for (f, name) in cases {
        assert_eq!(header(f).decode_flags(), Ok(name));
    }
    assert!(header(5).decode_flags().is_err());
    assert!(header(7).decode_flags().is_err());
}

#[test]
fn query_type_names_round_trip() {
    for t in [QueryType::NS, QueryType::A, QueryType::CNAME, QueryType::MX, QueryType::PTR] {
        assert_eq!(QueryType::from_string(t.get_str().to_string()), Ok(t));
    }
    assert_eq!(QueryType::MX.get_str(), "MX");
    assert_eq!(
        QueryType::from_string("SOA".to_string()),
        Err("Cannot find QueryType of SOA".to_string())
    );
    assert!(QueryType::from_string("a".to_string()).is_err());
}

#[test]
fn entry_text_is_a_zone_line() {
    let e = entry("www.example.com", "A", "10.3.3.1", 86400, None);
    assert_eq!(e.get_string(), "www.example.com. A 10.3.3.1 86400");
    let e = entry("example.com.", "MX", "mx.example.com.", 0, Some(10));
    assert_eq!(e.get_string(), "example.com. MX mx.example.com. 0 10");
    assert_eq!(e.get_value(), "mx.example.com.");
}

#[test]
fn message_text_lists_sections() {
    let data = DNSMessageData {
        query_info: DNSQueryInfo {
            name: Domain::new("www.example.com.".to_string()),
            type_of_value: QueryType::A,
        },
        response_values: Some(vec![
            entry("www.example.com.", "A", "10.3.3.1", 86400, Some(200)),
            entry("www.example.com.", "A", "10.3.3.2", 60, None),
        ]),
        authorities_values: Some(vec![]),
        extra_values: None,
    };
    let m = DNSMessage { header: header(3), data };
    assert_eq!(m.header.get_string(), "42,R+A,0,1,0,0;");
    assert_eq!(
        m.get_string(),
        "42,R+A,0,1,0,0;www.example.com,A;www.example.com. A 10.3.3.1 86400 200,www.example.com. A 10.3.3.2 60;"
    );
    assert_eq!(m.get_message_id(), 42);
}

#[test]
fn new_values_are_empty() {
    let m = DNSMessage::new();
    assert_eq!(m.header.flags, 0);
    assert_eq!(m.header.response_code, None);
    assert!(m.data.query_info.name.is_root());
    assert_eq!(m.data.query_info.type_of_value, QueryType::A);
    assert!(m.data.response_values.is_none());
    let e = DNSEntry::new();
    assert!(e.domain_name.is_root());
    assert_eq!(e.ttl, 0);
    assert_eq!(DNSQueryInfo::new().get_string(), ".,A;");
    assert_eq!(DNSMessageData::new().get_string(), ".,A;");
}

#[test]
fn messages_compare_by_content() {
    let a = DNSMessage::new();
    let mut b = a.clone();
    assert_eq!(a, b);
    b.data.extra_values = Some(vec![entry("a.", "A", "1.1.1.1", 1, None)]);
    assert_ne!(a, b);
}
