use my_dns::database::DomainDatabase;
use my_dns::domain::Domain;
use my_dns::message::DNSEntry;
use my_dns::transfer::{
    count_from_bytes, count_to_bytes, decode_frame, frame_record, record_count_bytes,
    serial_from_bytes, serial_to_bytes, transfer_records, announced_serial, Reassembly,
    SecondaryZone, ZoneTransferError, ACCEPT_BYTE, DECLINE_BYTE,
};
use my_dns::zones::ZoneRegistry;

fn d(s: &str) -> Domain {
    Domain::new(s.to_string())
}

fn entry(owner: &str, t: &str, value: &str) -> DNSEntry {
    DNSEntry { domain_name: d(owner), type_of_value: t.to_string(), value: value.to_string(), ttl: 86400, priority: None }
}

fn zone(serial: &str) -> DomainDatabase {
    let mut db = DomainDatabase::new();
    db.authority = true;
    db.soa_entries.serial = entry("example.com.", "SOASERIAL", serial);
    db.soa_entries.refresh = entry("example.com.", "SOAREFRESH", "300");
    db.soa_entries.retry = entry("example.com.", "SOARETRY", "60");
    db.add_ns_record(d("example.com."), entry("example.com.", "NS", "ns1.example.com."));
    db.add_a_record(entry("www.example.com.", "A", "10.3.3.1"));
    db
}

#[test]
fn serial_bytes_are_big_endian() {
    assert_eq!(serial_to_bytes(0x01020304), [1, 2, 3, 4]);
    assert_eq!(serial_from_bytes([0, 0, 1, 0]), 256);
    assert_eq!(serial_from_bytes(serial_to_bytes(4000000000)), 4000000000);
    assert_eq!(count_to_bytes(258), [1, 2]);
    assert_eq!(count_from_bytes([1, 2]), 258);
    assert_eq!(announced_serial(&zone("7")), [0, 0, 0, 7]);
}

#[test]
fn primary_sends_soa_then_records() {
    let db = zone("7");
    let records = transfer_records(&db);
    assert_eq!(records.len(), 8);
    assert_eq!(records[2].value, "7");
    assert_eq!(records[6].type_of_value, "NS");
    assert_eq!(records[7].value, "10.3.3.1");
    assert_eq!(record_count_bytes(&records), Some([0, 8]));
}

#[test]
fn frames_carry_sequence_and_text() {
    let e = entry("www.example.com.", "A", "10.3.3.1");
    let f = frame_record(258, &e);
    assert_eq!(&f[..2], &[1, 2]);
    assert_eq!(&f[2..], "www.example.com. A 10.3.3.1 86400".as_bytes());
    assert_eq!(decode_frame(&f), Some((258, "www.example.com. A 10.3.3.1 86400".to_string())));
    assert_eq!(decode_frame(&vec![1]), None);
    assert_eq!(decode_frame(&vec![0, 1, 0xff]), None);
}

#[test]
fn reassembly_orders_lines_by_sequence() {
    let mut r = Reassembly::new(3);
    assert!(r.place(2, "c".to_string()));
    assert!(r.place(0, "a".to_string()));
    assert_eq!(r.text(), None);
    assert!(!r.place(3, "x".to_string()));
    assert!(r.place(1, "b".to_string()));
    assert_eq!(r.text(), Some("a\nb\nc\n".to_string()));
    assert_eq!(Reassembly::new(0).text(), Some(String::new()));
}

#[test]
fn unchanged_serial_transfers_nothing() {
    let apex = d("example.com.");
    let mut registry = ZoneRegistry::new();
    let mut secondary = SecondaryZone::new(apex.clone());
    assert_eq!(secondary.last_serial(), 0);
    let wait = secondary.after_transfer(&mut registry, Ok(zone("7")));
    assert_eq!(wait, 300);
    assert_eq!(secondary.last_serial(), 7);
    assert_eq!(secondary.answer_serial(serial_to_bytes(7)), DECLINE_BYTE);
    assert_eq!(secondary.answer_serial(serial_to_bytes(8)), ACCEPT_BYTE);
    let before = transfer_records(registry.get(&apex).unwrap());
    for _ in 0..2 {
        assert_eq!(secondary.answer_serial(serial_to_bytes(7)), DECLINE_BYTE);
        let wait = secondary.after_transfer(&mut registry, Err(ZoneTransferError::SameSerial));
        assert_eq!(wait, 300);
        assert_eq!(secondary.last_serial(), 7);
        assert_eq!(transfer_records(registry.get(&apex).unwrap()), before);
    }
    assert_eq!(secondary.after_transfer(&mut registry, Err(ZoneTransferError::ConnectError)), 60);
    assert_eq!(secondary.zone(), &apex);
}

#[test]
fn new_serial_replaces_the_copy() {
    let apex = d("example.com.");
    let mut registry = ZoneRegistry::new();
    let mut secondary = SecondaryZone::new(apex.clone());
    assert_eq!(secondary.after_transfer(&mut registry, Err(ZoneTransferError::ParseError)), 3600);
    assert!(registry.get(&apex).is_none());
    secondary.after_transfer(&mut registry, Ok(zone("7")));
    secondary.after_transfer(&mut registry, Ok(zone("9")));
    assert_eq!(secondary.last_serial(), 9);
    assert_eq!(registry.get(&apex).unwrap().get_soa_records().get_serial_value(), 9);
}

#[test]
fn copy_is_dropped_after_expiry() {
    let apex = d("example.com.");
    let mut registry = ZoneRegistry::new();
    let mut secondary = SecondaryZone::new(apex.clone());
    let mut db = zone("7");
    db.soa_entries.expire = entry("example.com.", "SOAEXPIRE", "500");
    secondary.after_transfer(&mut registry, Ok(db));
    // unconfirmed for 300, 360, 420 and 480 seconds: still kept
    for _ in 0..4 {
        assert_eq!(secondary.after_transfer(&mut registry, Err(ZoneTransferError::ConnectError)), 60);
        assert!(registry.get(&apex).is_some());
    }
    // unconfirmed for 540 seconds: dropped
    secondary.after_transfer(&mut registry, Err(ZoneTransferError::ConnectError));
    assert!(registry.get(&apex).is_none());
}

#[test]
fn confirmed_copy_does_not_expire() {
    let apex = d("example.com.");
    let mut registry = ZoneRegistry::new();
    let mut secondary = SecondaryZone::new(apex.clone());
    let mut db = zone("7");
    db.soa_entries.expire = entry("example.com.", "SOAEXPIRE", "400");
    secondary.after_transfer(&mut registry, Ok(db));
    for _ in 0..10 {
        secondary.after_transfer(&mut registry, Err(ZoneTransferError::ConnectError));
        secondary.after_transfer(&mut registry, Err(ZoneTransferError::SameSerial));
    }
    assert!(registry.get(&apex).is_some());
    let mut never = SecondaryZone::new(apex.clone());
    let mut other = ZoneRegistry::new();
    other.insert(apex.clone(), zone("1"));
    for _ in 0..100 {
        never.after_transfer(&mut other, Err(ZoneTransferError::ConnectError));
    }
    assert!(other.get(&apex).is_some());
}
