use my_dns::config::{parse_config, ConfigError, ServerConfig};
use my_dns::domain::Domain;
use my_dns::message::{
    DNSEntry, DNSMessage, DNSMessageData, DNSMessageHeaders, DNSQueryInfo, QueryType,
};
use my_dns::zonefile::{parse_from_str, zone_from_captures, ZoneParseError};
use my_dns::zones::{QueryOutcome, ZoneRegistry};

const ZONE: &str = "# example.com zone
@ DEFAULT example.com.
TTL DEFAULT 86400

@ SOASP ns1.example.com. TTL
@ SOAADMIN dns\\.admin.example.com. TTL
@ SOASERIAL 0117102022 TTL
@ SOAREFRESH 14400 TTL
@ SOARETRY 3600 TTL
@ SOAEXPIRE 604800 TTL

@ NS ns1.example.com. TTL
www A 10.3.3.1 TTL 200
ns1 A 10.2.2.2 TTL
mail.example.com. MX mx.example.com. TTL 10
";

fn d(s: &str) -> Domain {
    Domain::new(s.to_string())
}

fn entry(owner: &str, t: &str, value: &str, ttl: u32, priority: Option<u16>) -> DNSEntry {
    DNSEntry { domain_name: d(owner), type_of_value: t.to_string(), value: value.to_string(), ttl, priority }
}

#[test]
fn zone_file_is_read() {
    let db = parse_from_str(ZONE.to_string()).unwrap();
    assert!(db.am_i_authority());
    let soa = db.get_soa_records();
    assert_eq!(soa.get_serial_value(), 117102022);
    assert_eq!(soa.get_refresh_value(), 14400);
    assert_eq!(soa.get_retry_value(), 3600);
    assert_eq!(soa.get_expire_value(), 604800);
    assert_eq!(soa.get_primary_ns().domain_name, d("example.com."));
    assert_eq!(soa.get_contact_email().value, "dns\\.admin.example.com.");
    assert_eq!(
        db.get_a_records(),
        Some(vec![
            entry("www.example.com.", "A", "10.3.3.1", 86400, Some(200)),
            entry("ns1.example.com.", "A", "10.2.2.2", 86400, None),
        ])
    );
    assert_eq!(db.get_mx_records(), Some(vec![entry("mail.example.com.", "MX", "mx.example.com.", 86400, Some(10))]));
    let ns = db.get_ns_records();
    assert_eq!(ns.len(), 1);
    assert_eq!(ns[0].0, d("example.com."));
}

#[test]
fn loaded_zone_answers_with_glue() {
    let mut reg = ZoneRegistry::new();
    reg.insert(d("example.com."), parse_from_str(ZONE.to_string()).unwrap());
    let q = DNSMessage {
        header: DNSMessageHeaders {
            message_id: 1234,
            flags: 4,
            response_code: None,
            number_of_values: None,
            number_of_authorities: None,
            number_of_extra_values: None,
        },
        data: DNSMessageData {
            query_info: DNSQueryInfo { name: d("www.example.com"), type_of_value: QueryType::A },
            response_values: None,
            authorities_values: None,
            extra_values: None,
        },
    };
    let expected = DNSMessage {
        header: DNSMessageHeaders {
            message_id: 1234,
            flags: 1,
            response_code: Some(0),
            number_of_values: Some(1),
            number_of_authorities: Some(1),
            number_of_extra_values: Some(1),
        },
        data: DNSMessageData {
            query_info: DNSQueryInfo { name: d("www.example.com"), type_of_value: QueryType::A },
            response_values: Some(vec![entry("www.example.com.", "A", "10.3.3.1", 86400, Some(200))]),
            authorities_values: Some(vec![entry("example.com.", "NS", "ns1.example.com.", 86400, None)]),
            extra_values: Some(vec![entry("ns1.example.com.", "A", "10.2.2.2", 86400, None)]),
        },
    };
    match reg.answer(&q, &vec![]) {
        QueryOutcome::Reply(m) => assert_eq!(m, expected),
        QueryOutcome::Resolve(..) => panic!("expected a local answer"),
    }
}

#[test]
fn zone_file_errors() {
    assert_eq!(parse_from_str("www A 10.0.0.1 60\n".to_string()).err(), Some(ZoneParseError::NoOrigin));
    assert_eq!(
        parse_from_str("@ DEFAULT example.com.\nwww A 10.0.0.1 99999999999\n".to_string()).err(),
        Some(ZoneParseError::BadTtl)
    );
    assert_eq!(
        parse_from_str("@ DEFAULT example.com.\nwww MX m.example.com. 60 70000\n".to_string()).err(),
        Some(ZoneParseError::BadPriority)
    );
    assert_eq!(
        parse_from_str("@ SOAOTHER x.example.com. 60\n".to_string()).err(),
        Some(ZoneParseError::UnknownSoaField)
    );
    let short = vec![vec![Some("@ DEFAULT".to_string()), Some("@".to_string())]];
    assert_eq!(zone_from_captures(&short, &vec![], &vec![]).err(), Some(ZoneParseError::MissingField));
}

#[test]
fn variables_are_substituted_and_redefined() {
    let vars = vec![
        vec![Some("".to_string()), Some("@".to_string()), Some("example.com.".to_string())],
        vec![Some("".to_string()), Some("TTL".to_string()), Some("60".to_string())],
        vec![Some("".to_string()), Some("TTL".to_string()), Some("120".to_string())],
    ];
    let entries = vec![vec![
        Some("".to_string()),
        Some("host".to_string()),
        Some("A".to_string()),
        Some("10.0.0.9".to_string()),
        Some("TTL".to_string()),
        None,
    ]];
    let db = zone_from_captures(&vars, &vec![], &entries).unwrap();
    assert_eq!(db.get_a_records(), Some(vec![entry("host.example.com.", "A", "10.0.0.9", 120, None)]));
}

#[test]
fn test_config_parse() {
    let text = "example.com DB etc/example-com.db
example.com SS 193.123.5.189
example.com SS 193.123.5.190:5353
example.com DD 127.0.0.1
example.com LG logs/example-com.log
all LG logs/all.log
root ST etc/rootservers.db
";
    let parsed_config = match parse_config(text) {
        Ok(config) => config,
        Err(err) => panic!("{err:?}"),
    };

    let mut server_config = ServerConfig::new();
    server_config.add_domain_db(Domain::new("example.com.".to_owned()), "etc/example-com.db".to_string());
    server_config.add_domain_ss(Domain::new("example.com.".to_owned()), "193.123.5.189".to_owned()).unwrap();
    server_config.add_domain_ss(Domain::new("example.com.".to_owned()), "193.123.5.190:5353".to_owned()).unwrap();
    server_config.add_server_dd(Domain::new("example.com.".to_owned()), "127.0.0.1".to_owned()).unwrap();
    server_config.set_domain_log(Domain::new("example.com.".to_owned()), "logs/example-com.log".to_owned());
    server_config.set_all_log("logs/all.log".to_owned());
    server_config.set_st_db("etc/rootservers.db".to_owned());

    let a = parsed_config.get_domain_configs();
    let b = server_config.get_domain_configs();
    assert_eq!(a.len(), b.len());
    for (x, y) in a.iter().zip(b.iter()) {
        assert_eq!(x.0, y.0);
        assert_eq!(x.1.get_domain_db(), y.1.get_domain_db());
        assert_eq!(x.1.get_domain_sp(), y.1.get_domain_sp());
        assert_eq!(x.1.get_domain_ss(), y.1.get_domain_ss());
        assert_eq!(x.1.get_domain_log(), y.1.get_domain_log());
    }
    assert_eq!(parsed_config.get_all_ss(), server_config.get_all_ss());
    assert_eq!(parsed_config.get_all_log(), server_config.get_all_log());
    assert_eq!(parsed_config.get_st_db(), server_config.get_st_db());
    assert_eq!(parsed_config.get_forward_servers(), server_config.get_forward_servers());
}

#[test]
fn config_addresses_get_default_ports() {
    let c = parse_config("example.com SS 10.0.0.1\nexample.com SP 10.0.0.2\n").unwrap();
    assert_eq!(c.get_all_ss(), vec!["10.0.0.1:5353".to_string()]);
    let dc = &c.get_domain_configs()[0].1;
    assert_eq!(dc.get_domain_sp(), Some("10.0.0.2:8000".to_string()));
    assert!(matches!(parse_config("example.com SS 1:2:3\n"), Err(ConfigError::MalformedAddress)));
    let mut s = ServerConfig::new();
    assert_eq!(s.set_domain_sp(d("x."), "a:b:c".to_string()), Err(ConfigError::MalformedAddress));
    assert!(s.get_domain_configs().is_empty());
}
