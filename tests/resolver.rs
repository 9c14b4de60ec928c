use my_dns::domain::Domain;
use my_dns::message::{
    DNSEntry, DNSMessage, DNSMessageData, DNSMessageHeaders, DNSQueryInfo, QueryType,
};
use my_dns::resolver::{ResolveError, Resolution, ServerEvent};

fn d(s: &str) -> Domain {
    Domain::new(s.to_string())
}

fn entry(owner: &str, t: &str, value: &str) -> DNSEntry {
    DNSEntry { domain_name: d(owner), type_of_value: t.to_string(), value: value.to_string(), ttl: 60, priority: None }
}

fn message(flags: u8, code: Option<u8>) -> DNSMessage {
    DNSMessage {
        header: DNSMessageHeaders {
            message_id: 9,
            flags,
            response_code: code,
            number_of_values: None,
            number_of_authorities: None,
            number_of_extra_values: None,
        },
        data: DNSMessageData {
            query_info: DNSQueryInfo { name: d("www.example.com"), type_of_value: QueryType::A },
            response_values: None,
            authorities_values: None,
            extra_values: None,
        },
    }
}

fn servers(list: &[&str]) -> Vec<String> {
    list.iter().map(|s| s.to_string()).collect()
}

#[test]
fn empty_server_list_fails() {
    assert!(matches!(Resolution::start(message(6, None), vec![], true), Err(ResolveError::EmptyServerList)));
}

#[test]
fn silent_first_server_then_answer_from_second() {
    let mut r = Resolution::start(message(6, None), servers(&["10.0.0.1:5353", "10.0.0.2:5353"]), true).unwrap();
    assert_eq!(r.current_server(), "10.0.0.1:5353");
    assert!(r.on_event(ServerEvent::NoReply).is_none());
    assert_eq!(r.current_server(), "10.0.0.2:5353");
    let mut answer = message(1, Some(0));
    answer.data.response_values = Some(vec![entry("www.example.com.", "A", "10.3.3.1")]);
    let out = r.on_event(ServerEvent::Reply(answer.clone()));
    assert_eq!(out, Some(Ok(answer)));
}

#[test]
fn no_reply_from_any_server() {
    let mut r = Resolution::start(message(6, None), servers(&["10.0.0.1:5353"]), true).unwrap();
    assert_eq!(r.on_event(ServerEvent::NoReply), Some(Err(ResolveError::NoServerAnswered)));
}

#[test]
fn recursion_bit_is_cleared_when_not_allowed() {
    let r = Resolution::start(message(6, None), servers(&["10.0.0.1:5353"]), false).unwrap();
    assert_eq!(r.query().header.flags, 4);
    let r = Resolution::start(message(6, None), servers(&["10.0.0.1:5353"]), true).unwrap();
    assert_eq!(r.query().header.flags, 6);
}

#[test]
fn reply_codes_are_interpreted() {
    let s = servers(&["10.0.0.1:5353"]);
    let mut r = Resolution::start(message(6, None), s.clone(), true).unwrap();
    let nx = message(1, Some(2));
    assert_eq!(r.on_event(ServerEvent::Reply(nx.clone())), Some(Ok(nx)));
    let mut r = Resolution::start(message(6, None), s.clone(), true).unwrap();
    assert_eq!(r.on_event(ServerEvent::Reply(message(0, Some(3)))), Some(Err(ResolveError::MalformedUpstream)));
    let mut r = Resolution::start(message(6, None), s.clone(), true).unwrap();
    assert_eq!(r.on_event(ServerEvent::Reply(message(0, Some(9)))), Some(Err(ResolveError::InvalidResponseCode)));
    let mut r = Resolution::start(message(6, None), s.clone(), true).unwrap();
    assert_eq!(r.on_event(ServerEvent::Reply(message(0, None))), Some(Err(ResolveError::InvalidResponseCode)));
    let mut r = Resolution::start(message(6, None), s.clone(), true).unwrap();
    assert_eq!(r.on_event(ServerEvent::Reply(message(0, Some(1)))), Some(Err(ResolveError::MissingAuthorities)));
    let mut r = Resolution::start(message(6, None), s.clone(), true).unwrap();
    assert_eq!(r.on_event(ServerEvent::SendFailed), Some(Err(ResolveError::SendFailed)));
    let mut r = Resolution::start(message(6, None), s, true).unwrap();
    assert_eq!(r.on_event(ServerEvent::Undecodable), Some(Err(ResolveError::UndecodableReply)));
}

#[test]
fn delegation_moves_to_the_authorities() {
    let mut r = Resolution::start(message(6, None), servers(&["10.0.0.1:5353", "10.0.0.5:5353"]), true).unwrap();
    let mut referral = message(0, Some(1));
    referral.data.authorities_values = Some(vec![
        entry("example.com.", "NS", "ns1.example.com."),
        entry("example.com.", "NS", "10.2.2.3:53"),
    ]);
    referral.data.extra_values = Some(vec![entry("ns1.example.com.", "A", "10.2.2.2")]);
    assert!(r.on_event(ServerEvent::Reply(referral)).is_none());
    assert_eq!(r.current_server(), "10.2.2.2:5353");
    assert!(r.on_event(ServerEvent::NoReply).is_none());
    assert_eq!(r.current_server(), "10.2.2.3:53");
}

#[test]
fn authority_addresses_need_glue() {
    let auths = vec![entry("example.com.", "NS", "ns9.example.com.")];
    assert_eq!(DNSMessage::get_authorities_ip(&None, &auths), Err(ResolveError::NoGlueForAuthority));
    let extras = Some(vec![entry("ns1.example.com.", "A", "10.2.2.2")]);
    assert_eq!(DNSMessage::get_authorities_ip(&extras, &auths), Err(ResolveError::NoGlueForAuthority));
    let bad = vec![entry("example.com.", "NS", "1:2:3")];
    assert_eq!(DNSMessage::get_authorities_ip(&None, &bad), Err(ResolveError::MalformedAddress));
    assert_eq!(DNSMessage::get_authorities_ip(&None, &vec![]), Ok(vec![]));
    let mut r = Resolution::start(message(6, None), servers(&["10.0.0.1:5353"]), true).unwrap();
    let mut referral = message(0, Some(1));
    referral.data.authorities_values = Some(vec![]);
    assert_eq!(r.on_event(ServerEvent::Reply(referral)), Some(Err(ResolveError::EmptyServerList)));
}
