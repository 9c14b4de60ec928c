use my_dns::config::{config_from_captures, root_server_list, ConfigError};
use my_dns::database::DomainDatabase;
use my_dns::domain::Domain;
use my_dns::message::{DNSEntry, QueryType};
use my_dns::transfer::{record_count_bytes, transfer_records};
use my_dns::zones::{QueryOutcome, ZoneRegistry};

fn d(s: &str) -> Domain {
    Domain::new(s.to_string())
}

fn a_record(owner: &str, value: &str) -> DNSEntry {
    DNSEntry { domain_name: d(owner), type_of_value: "A".to_string(), value: value.to_string(), ttl: 60, priority: None }
}

#[test]
fn oversized_sections_have_no_count() {
    let mut db = DomainDatabase::new();
    db.authority = true;
    db.add_ns_record(
        d("big.test."),
        DNSEntry { domain_name: d("big.test."), type_of_value: "NS".to_string(), value: "10.0.0.1".to_string(), ttl: 60, priority: None },
    );
    for i in 0..256 {
        db.add_a_record(a_record("many.big.test.", &format!("10.0.{}.{}", i / 256, i % 256)));
    }
    let mut reg = ZoneRegistry::new();
    reg.insert(d("big.test."), db);
    let q = my_dns::message::query_builder(d("many.big.test"), QueryType::A, 4);
    match reg.answer(&q, &vec![]) {
        QueryOutcome::Reply(m) => {
            assert_eq!(m.data.response_values.as_ref().unwrap().len(), 256);
            assert_eq!(m.header.number_of_values, None);
            assert_eq!(m.header.number_of_authorities, Some(1));
            assert_eq!(m.header.number_of_extra_values, Some(0));
        }
        QueryOutcome::Resolve(..) => panic!("expected a local answer"),
    }
}

#[test]
fn transfer_count_must_fit_two_bytes() {
    let mut db = DomainDatabase::new();
    for _ in 0..65530 {
        db.add_a_record(a_record("x.test.", "10.0.0.1"));
    }
    let records = transfer_records(&db);
    assert_eq!(records.len(), 65536);
    assert_eq!(record_count_bytes(&records), None);
    let fits = records[..65535].to_vec();
    assert_eq!(record_count_bytes(&fits), Some([0xff, 0xff]));
}

#[test]
fn config_line_without_value_is_refused() {
    let rows = vec![vec![Some("example.com DB".to_string()), Some("example.com".to_string()), Some("DB".to_string())]];
    assert!(matches!(config_from_captures(&rows), Err(ConfigError::MissingField)));
    assert!(config_from_captures(&vec![]).is_ok());
}

#[test]
fn root_listing_is_read_line_by_line() {
    let text = "# root servers\n  10.0.0.1 \r\n\n10.0.0.2:53\n1:2:3\n\t#10.0.0.9\n10.0.0.3";
    assert_eq!(
        root_server_list(text),
        vec!["10.0.0.1:5353".to_string(), "10.0.0.2:53".to_string(), "10.0.0.3:5353".to_string()]
    );
    assert!(root_server_list("").is_empty());
}
