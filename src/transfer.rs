use vstd::prelude::*;
use vstd::utf8::*;

use crate::database::{
    all_delegated, value_u32_or_zero, value_u64_or_zero, DatabaseView, DomainDatabase,
};
use crate::domain::Domain;
use crate::message::{records_view, record_text, DNSEntry, RecordView};
use crate::zones::{or_empty, registry_insert, registry_remove, ZoneRegistry, ZoneView};

verus! {

/// Why a pull of a zone from its primary brought no new copy.
#[derive(Debug, Clone, Copy, PartialEq, Eq, Structural)]
pub enum ZoneTransferError {
    /// The primary's serial is the one last transferred: nothing to do.
    SameSerial,
    /// The transferred records could not be read as a zone.
    ParseError,
    /// The primary could not be reached.
    ConnectError,
}

/// The byte the secondary sends to decline a transfer.
pub const DECLINE_BYTE: u8 = 0;

/// The byte the secondary sends to accept a transfer.
pub const ACCEPT_BYTE: u8 = 1;

/// Seconds to wait before retrying when nothing is known yet of the primary's intervals.
pub const DEFAULT_RETRY: u64 = 3600;

/// The number that four bytes write, most significant first.
pub open spec fn be_u32_value(b: Seq<u8>) -> nat {
    b[0] as nat * 16777216 + b[1] as nat * 65536 + b[2] as nat * 256 + b[3] as nat
}

/// The number that two bytes write, most significant first.
pub open spec fn be_u16_value(b: Seq<u8>) -> nat {
    b[0] as nat * 256 + b[1] as nat
}

/// The serial number as it travels: four bytes, most significant first.
pub fn serial_to_bytes(n: u32) -> (r: [u8; 4])
    ensures
        be_u32_value(r@) == n,
{
    let b0 = (n >> 24) as u8;
    let b1 = ((n >> 16) & 0xff) as u8;
    let b2 = ((n >> 8) & 0xff) as u8;
    let b3 = (n & 0xff) as u8;
    assert(n == (b0 as u32) * 16777216 + (b1 as u32) * 65536 + (b2 as u32) * 256 + (b3 as u32))
        by (bit_vector)
        requires
            b0 == (n >> 24) as u8,
            b1 == ((n >> 16) & 0xff) as u8,
            b2 == ((n >> 8) & 0xff) as u8,
            b3 == (n & 0xff) as u8,
    ;
    [b0, b1, b2, b3]
}

/// The serial number that four received bytes write.
pub fn serial_from_bytes(b: [u8; 4]) -> (r: u32)
    ensures
        r == be_u32_value(b@),
{
    (b[0] as u32) * 16777216 + (b[1] as u32) * 65536 + (b[2] as u32) * 256 + (b[3] as u32)
}

/// A record count as it travels: two bytes, most significant first.
pub fn count_to_bytes(n: u16) -> (r: [u8; 2])
    ensures
        be_u16_value(r@) == n,
{
    let b0 = (n >> 8) as u8;
    let b1 = (n & 0xff) as u8;
    assert(n == (b0 as u16) * 256 + (b1 as u16)) by (bit_vector)
        requires
            b0 == (n >> 8) as u8,
            b1 == (n & 0xff) as u8,
    ;
    [b0, b1]
}

/// The record count that two received bytes write.
pub fn count_from_bytes(b: [u8; 2]) -> (r: u16)
    ensures
        r == be_u16_value(b@),
{
    (b[0] as u16) * 256 + (b[1] as u16)
}

/// The records a primary sends for a zone, in order: the six start-of-authority records,
/// then the name server, address, alias, mail exchange and pointer records.
pub open spec fn transfer_records_view(db: DatabaseView) -> Seq<RecordView> {
    seq![
        db.soa.primary_ns,
        db.soa.contact_email,
        db.soa.serial,
        db.soa.refresh,
        db.soa.retry,
        db.soa.expire,
    ] + all_delegated(db.delegations) + or_empty(db.a) + or_empty(db.cname) + or_empty(db.mx)
        + or_empty(db.ptr)
}

/// A frame of the transfer: the sequence number in two bytes, most significant first, then
/// the record's text in UTF-8.
pub open spec fn frame_bytes(seq_no: u16, text: Seq<char>) -> Seq<u8> {
    seq![(seq_no / 256) as u8, (seq_no % 256) as u8] + encode_utf8(text)
}

/// Appends copies of the records of an optional list.
fn append_all(out: &mut Vec<DNSEntry>, o: &Option<Vec<DNSEntry>>)
    ensures
        records_view(final(out)@) == records_view(old(out)@) + or_empty(
            crate::message::opt_records_view(*o),
        ),
{
    match o {
        Some(v) => append_records(out, v),
        None => {
            assert(records_view(out@) + Seq::<RecordView>::empty() =~= records_view(out@));
        },
    }
}

/// Appends copies of the records of `v`.
fn append_records(out: &mut Vec<DNSEntry>, v: &Vec<DNSEntry>)
    ensures
        records_view(final(out)@) == records_view(old(out)@) + records_view(v@),
{
    let ghost start = records_view(out@);
    let mut i: usize = 0;
    while i < v.len()
        invariant
            i <= v@.len(),
            records_view(out@) == start + records_view(v@).subrange(0, i as int),
        decreases v@.len() - i,
    {
        let ghost before = records_view(out@);
        out.push(v[i].clone());
        proof {
            assert(records_view(out@) =~= before.push(v@[i as int]@));
            assert(records_view(v@).subrange(0, i + 1) =~= records_view(v@).subrange(
                0,
                i as int,
            ).push(v@[i as int]@));
        }
        i = i + 1;
    }
    assert(records_view(v@).subrange(0, v@.len() as int) =~= records_view(v@));
}

/// The records a primary sends for `db`, in the order they are sent.
pub fn transfer_records(db: &DomainDatabase) -> (r: Vec<DNSEntry>)
    ensures
        records_view(r@) == transfer_records_view(db@),
{
    let mut out: Vec<DNSEntry> = Vec::new();
    out.push(db.soa_entries.primary_ns.clone());
    out.push(db.soa_entries.contact_email.clone());
    out.push(db.soa_entries.serial.clone());
    out.push(db.soa_entries.refresh.clone());
    out.push(db.soa_entries.retry.clone());
    out.push(db.soa_entries.expire.clone());
    let ns = db.all_ns_records();
    append_records(&mut out, &ns);
    append_all(&mut out, &db.a_records);
    append_all(&mut out, &db.cname_records);
    append_all(&mut out, &db.mx_records);
    append_all(&mut out, &db.ptr_records);
    proof {
        let s = db@.soa;
        assert(records_view(out@).subrange(0, 6) =~= seq![
            s.primary_ns,
            s.contact_email,
            s.serial,
            s.refresh,
            s.retry,
            s.expire,
        ]);
        assert(records_view(out@) =~= transfer_records_view(db@));
    }
    out
}

/// The serial a primary announces for `db`, as it travels.
pub fn announced_serial(db: &DomainDatabase) -> (r: [u8; 4])
    ensures
        be_u32_value(r@) == value_u32_or_zero(db@.soa.serial.value),
{
    serial_to_bytes(db.soa_entries.get_serial_value())
}

/// The number of records to send, as it travels; none when it does not fit in two bytes.
pub fn record_count_bytes(records: &Vec<DNSEntry>) -> (r: Option<[u8; 2]>)
    ensures
        r is Some <==> records@.len() <= 65535,
        r matches Some(b) ==> be_u16_value(b@) == records@.len(),
{
    if records.len() <= 65535 {
        Some(count_to_bytes(records.len() as u16))
    } else {
        None
    }
}

/// The frame that carries record `e` with sequence number `seq_no`.
pub fn frame_record(seq_no: u16, e: &DNSEntry) -> (r: Vec<u8>)
    ensures
        r@ == frame_bytes(seq_no, record_text(e@)),
{
    let text = e.get_string();
    let bytes = text.as_str().as_bytes();
    let mut r: Vec<u8> = Vec::new();
    r.push((seq_no / 256) as u8);
    r.push((seq_no % 256) as u8);
    let ghost head = r@;
    let mut i: usize = 0;
    while i < bytes.len()
        invariant
            i <= bytes@.len(),
            bytes@ == encode_utf8(record_text(e@)),
            head == seq![(seq_no / 256) as u8, (seq_no % 256) as u8],
            r@ == head + bytes@.subrange(0, i as int),
        decreases bytes@.len() - i,
    {
        r.push(bytes[i]);
        proof {
            assert(bytes@.subrange(0, i + 1) =~= bytes@.subrange(0, i as int).push(bytes@[i as int]));
        }
        i = i + 1;
    }
    assert(bytes@.subrange(0, bytes@.len() as int) =~= bytes@);
    assert(r@ =~= frame_bytes(seq_no, record_text(e@)));
    r
}

/// Relies on the standard library's `String::from_utf8`: it accepts exactly the byte
/// sequences that are valid UTF-8, and then holds the characters they encode.
#[verifier::external_body]
fn utf8_text(b: Vec<u8>) -> (r: Option<String>)
    ensures
        r is Some <==> valid_utf8(b@),
        r matches Some(s) ==> s@ == decode_utf8(b@),
{
    String::from_utf8(b).ok()
}

/// The sequence number and text that a received frame carries; none when the frame is
/// shorter than its sequence number or its text is not UTF-8.
pub fn decode_frame(frame: &Vec<u8>) -> (r: Option<(u16, String)>)
    ensures
        r is Some <==> (frame@.len() >= 2 && valid_utf8(frame@.subrange(2, frame@.len() as int))),
        r matches Some(p) ==> p.0 == be_u16_value(frame@) && p.1@ == decode_utf8(
            frame@.subrange(2, frame@.len() as int),
        ),
{
    if frame.len() < 2 {
        return None;
    }
    let seq_no = (frame[0] as u16) * 256 + (frame[1] as u16);
    let mut rest: Vec<u8> = Vec::new();
    let mut i: usize = 2;
    while i < frame.len()
        invariant
            2 <= i <= frame@.len(),
            rest@ == frame@.subrange(2, i as int),
        decreases frame@.len() - i,
    {
        rest.push(frame[i]);
        proof {
            assert(frame@.subrange(2, i + 1) =~= frame@.subrange(2, i as int).push(frame@[i as int]));
        }
        i = i + 1;
    }
    match utf8_text(rest) {
        Some(t) => Some((seq_no, t)),
        None => None,
    }
}

/// Decoding a frame gives back the sequence number and text it was made from.
pub proof fn lemma_frame_round_trip(seq_no: u16, text: Seq<char>)
    ensures
        frame_bytes(seq_no, text).len() >= 2,
        be_u16_value(frame_bytes(seq_no, text)) == seq_no,
        frame_bytes(seq_no, text).subrange(2, frame_bytes(seq_no, text).len() as int)
            == encode_utf8(text),
        valid_utf8(encode_utf8(text)),
        decode_utf8(encode_utf8(text)) == text,
{
    let f = frame_bytes(seq_no, text);
    assert(f.subrange(2, f.len() as int) =~= encode_utf8(text));
    encode_utf8_valid_utf8(text);
    encode_utf8_decode_utf8(text);
}

/// The zone text that received lines make: each line followed by a newline.
pub open spec fn lines_text(lines: Seq<Seq<char>>) -> Seq<char>
    decreases lines.len(),
{
    if lines.len() == 0 {
        Seq::empty()
    } else {
        lines_text(lines.drop_last()) + lines.last() + seq!['\n']
    }
}

/// Whether every slot holds a line.
pub open spec fn all_present(s: Seq<Option<Seq<char>>>) -> bool {
    forall|i: int| 0 <= i < s.len() ==> (#[trigger] s[i]) is Some
}

/// The lines held by slots that are all filled.
pub open spec fn present_lines(s: Seq<Option<Seq<char>>>) -> Seq<Seq<char>> {
    s.map_values(|o: Option<Seq<char>>| o.unwrap())
}

/// The received lines of a transfer, each in the slot its sequence number gives.
pub struct Reassembly {
    slots: Vec<Option<String>>,
}

impl View for Reassembly {
    type V = Seq<Option<Seq<char>>>;

    closed spec fn view(&self) -> Seq<Option<Seq<char>>> {
        self.slots@.map_values(|o: Option<String>| match o {
            Some(s) => Some(s@),
            None => None,
        })
    }
}

impl Reassembly {
    /// Room for `count` lines, none received yet.
    pub fn new(count: u16) -> (r: Reassembly)
        ensures
            r@ == Seq::new(count as nat, |i: int| None::<Seq<char>>),
    {
        let mut slots: Vec<Option<String>> = Vec::new();
        let mut i: u16 = 0;
        while i < count
            invariant
                i <= count,
                slots@.len() == i,
                forall|k: int| 0 <= k < i ==> slots@[k] is None,
            decreases count - i,
        {
            slots.push(None);
            i = i + 1;
        }
        let r = Reassembly { slots };
        assert(r@ =~= Seq::new(count as nat, |i: int| None::<Seq<char>>));
        r
    }

    /// Puts `line` in slot `seq_no`; false, with nothing changed, when there is no such slot.
    pub fn place(&mut self, seq_no: u16, line: String) -> (r: bool)
        ensures
            r == (seq_no < old(self)@.len()),
            r ==> final(self)@ == old(self)@.update(seq_no as int, Some(line@)),
            !r ==> final(self)@ == old(self)@,
    {
        if (seq_no as usize) < self.slots.len() {
            let ghost l = line@;
            self.slots.set(seq_no as usize, Some(line));
            assert(self@ =~= old(self)@.update(seq_no as int, Some(l)));
            true
        } else {
            false
        }
    }

    /// The zone text of the received lines in slot order; none while a slot is empty.
    pub fn text(&self) -> (r: Option<String>)
        ensures
            r is Some <==> all_present(self@),
            r matches Some(t) ==> t@ == lines_text(present_lines(self@)),
    {
        let ghost v = self@;
        let mut out = String::new();
        let mut i: usize = 0;
        proof {
            reveal_strlit("\n");
            assert("\n"@ =~= seq!['\n']);
            assert(present_lines(v.subrange(0, 0)) =~= Seq::<Seq<char>>::empty());
        }
        while i < self.slots.len()
            invariant
                i <= self.slots@.len(),
                v == self@,
                v.len() == self.slots@.len(),
                all_present(v.subrange(0, i as int)),
                out@ == lines_text(present_lines(v.subrange(0, i as int))),
            decreases self.slots@.len() - i,
        {
            match &self.slots[i] {
                Some(line) => {
                    proof {
                        reveal_strlit("\n");
                        assert("\n"@ =~= seq!['\n']);
                        let t = present_lines(v.subrange(0, i + 1));
                        assert(t.drop_last() =~= present_lines(v.subrange(0, i as int)));
                        assert(t.last() == line@);
                        assert forall|k: int| 0 <= k < i + 1 implies (#[trigger] v.subrange(
                            0,
                            i + 1,
                        )[k]) is Some by {
                            if k < i {
                                assert(v.subrange(0, i + 1)[k] == v.subrange(0, i as int)[k]);
                            }
                        }
                    }
                    out.append(line.as_str());
                    out.append("\n");
                },
                None => {
                    proof {
                        assert(v[i as int] is None);
                    }
                    return None;
                },
            }
            i = i + 1;
        }
        assert(v.subrange(0, v.len() as int) =~= v);
        Some(out)
    }
}

/// What a secondary keeps of a zone it replicates: the zone's apex, the serial last
/// transferred, the intervals to wait after a success and after a failure, how long a copy
/// may go unconfirmed before it is dropped (zero: for ever), and how long the copy has gone
/// unconfirmed when the next attempt is made.
pub struct SecondaryZone {
    zone: Domain,
    serial: u32,
    refresh: u64,
    retry: u64,
    expire: u64,
    stale: u64,
}

/// What a secondary keeps of a zone, as mathematical values.
pub ghost struct SecondaryView {
    pub zone: Seq<Seq<char>>,
    pub serial: u32,
    pub refresh: u64,
    pub retry: u64,
    pub expire: u64,
    pub stale: u64,
}

impl View for SecondaryZone {
    type V = SecondaryView;

    closed spec fn view(&self) -> SecondaryView {
        SecondaryView {
            zone: self.zone@,
            serial: self.serial,
            refresh: self.refresh,
            retry: self.retry,
            expire: self.expire,
            stale: self.stale,
        }
    }
}

/// Whether a secondary in state `st` asks for the records when the primary announces `serial`.
pub open spec fn transfer_accepted(st: SecondaryView, serial: u32) -> bool {
    serial != st.serial
}

/// `a + b`, or the largest `u64` when that does not fit.
pub open spec fn saturating_sum(a: u64, b: u64) -> u64 {
    if a + b > u64::MAX {
        u64::MAX
    } else {
        (a + b) as u64
    }
}

/// Whether the copy has gone unconfirmed for as long as it may.
pub open spec fn is_expired(st: SecondaryView) -> bool {
    st.expire > 0 && st.stale >= st.expire
}

/// One round of the secondary's loop: the new state, the new registry, and how many
/// seconds to wait before the next round. A new copy replaces the old one; a failed round
/// drops the copy once it has gone unconfirmed for its expiry.
pub open spec fn sync_step(
    st: SecondaryView,
    reg: Seq<ZoneView>,
    result: Result<DatabaseView, ZoneTransferError>,
) -> (SecondaryView, Seq<ZoneView>, u64) {
    match result {
        Ok(db) => {
            let refresh = value_u64_or_zero(db.soa.refresh.value);
            let next = SecondaryView {
                serial: value_u32_or_zero(db.soa.serial.value),
                refresh,
                retry: value_u64_or_zero(db.soa.retry.value),
                expire: value_u64_or_zero(db.soa.expire.value),
                stale: refresh,
                ..st
            };
            (next, registry_insert(reg, st.zone, db), refresh)
        },
        Err(ZoneTransferError::SameSerial) => (
            SecondaryView { stale: st.refresh, ..st },
            reg,
            st.refresh,
        ),
        Err(_) => {
            let next = SecondaryView { stale: saturating_sum(st.stale, st.retry), ..st };
            (
                next,
                if is_expired(st) {
                    registry_remove(reg, st.zone)
                } else {
                    reg
                },
                st.retry,
            )
        },
    }
}

/// The view of a transfer's result.
pub open spec fn result_view(r: Result<DomainDatabase, ZoneTransferError>) -> Result<
    DatabaseView,
    ZoneTransferError,
> {
    match r {
        Ok(db) => Ok(db@),
        Err(e) => Err(e),
    }
}

impl SecondaryZone {
    /// A zone not transferred yet: serial zero, no refresh interval, the default retry,
    /// no expiry.
    pub fn new(zone: Domain) -> (r: SecondaryZone)
        ensures
            r@ == (SecondaryView {
                zone: zone@,
                serial: 0,
                refresh: 0,
                retry: DEFAULT_RETRY,
                expire: 0,
                stale: 0,
            }),
    {
        SecondaryZone { zone, serial: 0, refresh: 0, retry: DEFAULT_RETRY, expire: 0, stale: 0 }
    }

    /// The apex of the zone.
    pub fn zone(&self) -> (r: &Domain)
        ensures
            r@ == self@.zone,
    {
        &self.zone
    }

    /// The serial last transferred.
    pub fn last_serial(&self) -> (r: u32)
        ensures
            r == self@.serial,
    {
        self.serial
    }

    /// Whether to ask for the records after the primary announced `announced`, as the byte
    /// that answers the primary.
    pub fn answer_serial(&self, announced: [u8; 4]) -> (r: u8)
        ensures
            r == if transfer_accepted(self@, be_u32_value(announced@) as u32) {
                ACCEPT_BYTE
            } else {
                DECLINE_BYTE
            },
    {
        if serial_from_bytes(announced) != self.serial {
            ACCEPT_BYTE
        } else {
            DECLINE_BYTE
        }
    }

    /// Takes in the result of one transfer: a new copy is committed to `registry` under the
    /// zone's apex and its serial and intervals are kept; a failure drops the copy once it
    /// has gone unconfirmed for its expiry; an unchanged serial leaves the registry alone.
    /// Gives the seconds to wait before the next transfer.
    pub fn after_transfer(
        &mut self,
        registry: &mut ZoneRegistry,
        result: Result<DomainDatabase, ZoneTransferError>,
    ) -> (wait: u64)
        requires
            old(registry).wf(),
            result matches Ok(db) ==> db.wf(),
        ensures
            final(registry).wf(),
            (final(self)@, final(registry)@, wait) == sync_step(
                old(self)@,
                old(registry)@,
                result_view(result),
            ),
    {
        match result {
            Ok(db) => {
                let soa = db.get_soa_records();
                self.serial = soa.get_serial_value();
                self.refresh = soa.get_refresh_value();
                self.retry = soa.get_retry_value();
                self.expire = soa.get_expire_value();
                self.stale = self.refresh;
                registry.insert(self.zone.clone(), db);
                self.refresh
            },
            Err(ZoneTransferError::SameSerial) => {
                self.stale = self.refresh;
                self.refresh
            },
            Err(_) => {
                if self.expire > 0 && self.stale >= self.expire {
                    registry.remove(&self.zone);
                }
                self.stale = if self.stale > u64::MAX - self.retry {
                    u64::MAX
                } else {
                    self.stale + self.retry
                };
                self.retry
            },
        }
    }
}

/// A secondary whose serial is the primary's declines the transfer, and the round leaves
/// the registry unchanged; asking again declines again and changes nothing more.
pub proof fn lemma_unchanged_serial_is_idempotent(
    st: SecondaryView,
    reg: Seq<ZoneView>,
    primary_serial: u32,
)
    requires
        primary_serial == st.serial,
    ensures
        !transfer_accepted(st, primary_serial),
        ({
            let (st1, reg1, wait1) = sync_step(st, reg, Err(ZoneTransferError::SameSerial));
            &&& reg1 == reg
            &&& wait1 == st.refresh
            &&& st1 == (SecondaryView { stale: st.refresh, ..st })
            &&& !transfer_accepted(st1, primary_serial)
            &&& sync_step(st1, reg1, Err(ZoneTransferError::SameSerial)) == (st1, reg, st.refresh)
        }),
{
}

} // verus!
