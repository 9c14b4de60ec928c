use my_dns::database::{DomainDatabase, SOA};
use my_dns::domain::Domain;
use my_dns::message::{
    DNSEntry, DNSMessage, DNSMessageData, DNSMessageHeaders, DNSQueryInfo, QueryType,
};
use my_dns::resolver::{ResolveError, Resolution};
use my_dns::zones::{finish_resolution, QueryOutcome, ZoneRegistry};

fn d(s: &str) -> Domain {
    Domain::new(s.to_string())
}

fn entry(owner: &str, t: &str, value: &str, ttl: u32, priority: Option<u16>) -> DNSEntry {
    DNSEntry { domain_name: d(owner), type_of_value: t.to_string(), value: value.to_string(), ttl, priority }
}

fn query(name: &str, t: QueryType, flags: u8) -> DNSMessage {
    DNSMessage {
        header: DNSMessageHeaders {
            message_id: 77,
            flags,
            response_code: None,
            number_of_values: None,
            number_of_authorities: None,
            number_of_extra_values: None,
        },
        data: DNSMessageData {
            query_info: DNSQueryInfo { name: d(name), type_of_value: t },
            response_values: None,
            authorities_values: None,
            extra_values: None,
        },
    }
}

fn example_zone() -> DomainDatabase {
    let mut db = DomainDatabase::new();
    db.authority = true;
    db.add_ns_record(d("example.com."), entry("example.com.", "NS", "ns1.example.com.", 86400, None));
    db.add_a_record(entry("www.example.com.", "A", "10.3.3.1", 86400, Some(200)));
    db.add_a_record(entry("ns1.example.com.", "A", "10.2.2.2", 86400, None));
    db.add_ns_record(d("sub.example.com."), entry("sub.example.com.", "NS", "ns1.sub.example.com.", 3600, None));
    db.add_a_record(entry("ns1.sub.example.com.", "A", "10.9.9.9", 3600, None));
    db
}

fn registry() -> ZoneRegistry {
    let mut reg = ZoneRegistry::new();
    reg.insert(d("example.com."), example_zone());
    reg
}

#[test]
fn authoritative_answer_with_authority_and_glue() {
    let reg = registry();
    let q = query("www.example.com", QueryType::A, 6);
    let expected = DNSMessage {
        header: DNSMessageHeaders {
            message_id: 77,
            flags: 1,
            response_code: Some(0),
            number_of_values: Some(1),
            number_of_authorities: Some(1),
            number_of_extra_values: Some(1),
        },
        data: DNSMessageData {
            query_info: DNSQueryInfo { name: d("www.example.com"), type_of_value: QueryType::A },
            response_values: Some(vec![entry("www.example.com.", "A", "10.3.3.1", 86400, Some(200))]),
            authorities_values: Some(vec![entry("example.com.", "NS", "ns1.example.com.", 86400, None)]),
            extra_values: Some(vec![entry("ns1.example.com.", "A", "10.2.2.2", 86400, None)]),
        },
    };
    match reg.answer(&q, &vec![]) {
        QueryOutcome::Reply(m) => assert_eq!(m, expected),
        QueryOutcome::Resolve(..) => panic!("expected a local answer"),
    }
}

#[test]
fn authoritative_miss_is_name_not_found() {
    let reg = registry();
    let q = query("nothere.example.com", QueryType::A, 4);
    match reg.answer(&q, &vec![]) {
        QueryOutcome::Reply(m) => {
            assert_eq!(m.header.response_code, Some(2));
            assert!(m.data.response_values.is_none());
            assert_eq!(m.header.message_id, 77);
        }
        QueryOutcome::Resolve(..) => panic!("expected a local answer"),
    }
}

#[test]
fn referral_below_delegated_zone_without_recursion() {
    let reg = registry();
    let q = query("host.sub.example.com", QueryType::A, 4);
    match reg.answer(&q, &vec!["1.1.1.1:5353".to_string()]) {
        QueryOutcome::Reply(m) => {
            assert_eq!(m.header.response_code, Some(1));
            assert!(m.data.response_values.is_none());
            assert_eq!(m.header.number_of_values, None);
            assert_eq!(
                m.data.authorities_values,
                Some(vec![entry("sub.example.com.", "NS", "ns1.sub.example.com.", 3600, None)])
            );
            assert_eq!(m.data.extra_values, Some(vec![entry("ns1.sub.example.com.", "A", "10.9.9.9", 3600, None)]));
        }
        QueryOutcome::Resolve(..) => panic!("expected a referral"),
    }
}

#[test]
fn recursion_below_delegated_zone_asks_its_servers() {
    let reg = registry();
    let q = query("host.sub.example.com", QueryType::A, 6);
    match reg.answer(&q, &vec!["1.1.1.1:5353".to_string()]) {
        QueryOutcome::Resolve(m, servers) => {
            assert_eq!(m, q);
            assert_eq!(servers, vec!["10.9.9.9:5353".to_string()]);
        }
        QueryOutcome::Reply(..) => panic!("expected a resolution"),
    }
}

#[test]
fn no_zone_and_no_root_servers_fails_at_once() {
    let reg = ZoneRegistry::new();
    let q = query("www.elsewhere.org", QueryType::A, 6);
    match reg.answer(&q, &vec![]) {
        QueryOutcome::Resolve(m, servers) => {
            assert!(servers.is_empty());
            assert!(matches!(Resolution::start(m, servers, true), Err(ResolveError::EmptyServerList)));
        }
        QueryOutcome::Reply(..) => panic!("expected a resolution"),
    }
}

#[test]
fn resolved_answer_keeps_query_id_and_is_cached() {
    let mut reg = registry();
    let q = query("www.elsewhere.org", QueryType::A, 6);
    let mut answer = query("www.elsewhere.org", QueryType::A, 0);
    answer.header.message_id = 5;
    answer.header.response_code = Some(0);
    answer.data.response_values = Some(vec![entry("www.elsewhere.org.", "A", "10.0.0.7", 60, None)]);
    answer.header.number_of_values = Some(9);
    answer.header.number_of_extra_values = Some(4);
    let reply = finish_resolution(&q, Ok(answer.clone()));
    assert_eq!(reply.header.message_id, 77);
    assert_eq!(reply.header.number_of_values, Some(1));
    assert_eq!(reply.header.number_of_authorities, None);
    assert_eq!(reply.header.number_of_extra_values, None);
    assert_eq!(reply.data.response_values, answer.data.response_values);
    reg.cache_answer(&d("www.elsewhere.org"), &reply);
    match reg.answer(&q, &vec![]) {
        QueryOutcome::Reply(m) => {
            assert_eq!(m.header.response_code, Some(0));
            assert_eq!(m.header.flags, 0);
            assert_eq!(m.data.response_values, answer.data.response_values);
        }
        QueryOutcome::Resolve(..) => panic!("expected the cached answer"),
    }
    let failed = finish_resolution(&q, Err(ResolveError::NoServerAnswered));
    assert_eq!(failed.header.response_code, Some(3));
    assert!(failed.data.response_values.is_none());
    assert_eq!(failed.header.message_id, 77);
}

#[test]
fn find_cut_picks_most_specific_delegation() {
    let db = example_zone();
    let (cut, ns) = db.find_cut(&d("a.b.sub.example.com")).unwrap();
    assert_eq!(cut, d("sub.example.com"));
    assert_eq!(ns, vec![entry("sub.example.com.", "NS", "ns1.sub.example.com.", 3600, None)]);
    let (cut, _) = db.find_cut(&d("www.example.com")).unwrap();
    assert_eq!(cut, d("example.com"));
    assert!(db.find_cut(&d("example.org")).is_none());
    assert_eq!(db.get_ns_of(d("sub.example.com")).unwrap().len(), 1);
}

#[test]
fn records_are_kept_per_type_and_owner() {
    let mut db = example_zone();
    assert!(db.am_i_authority());
    db.add_mx_record(entry("example.com.", "MX", "mail.example.com.", 60, Some(10)));
    db.add_cname_record(entry("w.example.com.", "CNAME", "www.example.com.", 60, None));
    db.add_ptr_record(entry("1.3.3.10.in-addr.arpa.", "PTR", "www.example.com.", 60, None));
    db.add_ns_record(d("example.com."), entry("example.com.", "NS", "ns2.example.com.", 86400, None));
    assert_eq!(db.get_domain_query(QueryType::A, d("www.example.com")).unwrap().len(), 1);
    assert!(db.get_domain_query(QueryType::A, d("nope.example.com")).is_none());
    assert!(db.get_domain_query(QueryType::NS, d("www.example.com")).is_none());
    assert_eq!(db.get_domain_query(QueryType::NS, d("example.com")).unwrap().len(), 2);
    assert_eq!(
        db.get_domain_query(QueryType::NS, d("sub.example.com")),
        Some(vec![entry("sub.example.com.", "NS", "ns1.sub.example.com.", 3600, None)])
    );
    assert_eq!(db.get_domain_query(QueryType::MX, d("example.com")).unwrap()[0].priority, Some(10));
    assert_eq!(db.get_cname_records().unwrap().len(), 1);
    assert_eq!(db.get_ptr_records().unwrap().len(), 1);
    assert_eq!(db.get_mx_records().unwrap().len(), 1);
    assert_eq!(db.get_a_records().unwrap().len(), 3);
    let ns = db.get_ns_records();
    assert_eq!(ns.len(), 2);
    assert_eq!(ns[0].1.len(), 2);
    assert!(DomainDatabase::new().get_domain_query(QueryType::PTR, d("x")).is_none());
}

#[test]
fn soa_values_parse_or_default_to_zero() {
    let mut soa = SOA::new();
    soa.serial = entry("example.com.", "SOASERIAL", "2024010101", 86400, None);
    soa.refresh = entry("example.com.", "SOAREFRESH", "+300", 86400, None);
    soa.retry = entry("example.com.", "SOARETRY", "abc", 86400, None);
    soa.expire = entry("example.com.", "SOAEXPIRE", "99999999999", 86400, None);
    assert_eq!(soa.get_serial_value(), 2024010101);
    assert_eq!(soa.get_refresh_value(), 300);
    assert_eq!(soa.get_retry_value(), 0);
    assert_eq!(soa.get_expire_value(), 99999999999);
    soa.serial = entry("example.com.", "SOASERIAL", "4294967296", 86400, None);
    assert_eq!(soa.get_serial_value(), 0);
    assert_eq!(soa.get_serial().value, "4294967296");
    assert!(SOA::new().get_primary_ns().domain_name.is_root());
    assert_eq!(SOA::new().get_contact_email().ttl, 0);
    assert_eq!(SOA::new().get_refresh().value, "");
    assert_eq!(SOA::new().get_retry().value, "");
    assert_eq!(SOA::new().get_expire().value, "");
    assert_eq!(DomainDatabase::new().get_soa_records().get_serial_value(), 0);
}

#[test]
fn ns_query_for_other_name_is_not_answered_with_zone_ns() {
    let mut db = DomainDatabase::new();
    db.authority = true;
    db.add_ns_record(d("example.com."), entry("example.com.", "NS", "ns1.example.com.", 86400, None));
    db.add_a_record(entry("www.example.com.", "A", "10.3.3.1", 86400, None));
    let mut reg = ZoneRegistry::new();
    reg.insert(d("example.com."), db);
    match reg.answer(&query("www.example.com", QueryType::NS, 4), &vec![]) {
        QueryOutcome::Reply(m) => {
            assert_eq!(m.header.response_code, Some(2));
            assert!(m.data.response_values.is_none());
        }
        QueryOutcome::Resolve(..) => panic!("expected a local answer"),
    }
    match reg.answer(&query("example.com", QueryType::NS, 4), &vec![]) {
        QueryOutcome::Reply(m) => {
            assert_eq!(m.header.response_code, Some(0));
            assert_eq!(m.header.number_of_values, Some(1));
        }
        QueryOutcome::Resolve(..) => panic!("expected a local answer"),
    }
}
