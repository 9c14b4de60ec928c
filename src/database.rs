use vstd::prelude::*;
use vstd::string::*;

use crate::domain::{is_subdomain, Domain};
use crate::message::{
    blank_record, clone_opt_records, clone_records, opt_records_view, records_view, DNSEntry,
    QueryType, RecordView,
};

verus! {

/// The value of a run of decimal digits.
pub open spec fn digits_value(s: Seq<char>) -> nat
    decreases s.len(),
{
    if s.len() == 0 {
        0
    } else {
        (digits_value(s.drop_last()) * 10 + ((s.last() as u32) as int - ('0' as u32) as int)) as nat
    }
}

/// Whether every character of `s` is a decimal digit.
pub open spec fn all_digits(s: Seq<char>) -> bool {
    forall|i: int| 0 <= i < s.len() ==> '0' <= #[trigger] s[i] <= '9'
}

/// The unsigned number that `s` writes: an optional `'+'`, then at least one digit.
pub open spec fn unsigned_text_value(s: Seq<char>) -> Option<nat> {
    let d = if s.len() > 0 && s[0] == '+' {
        s.drop_first()
    } else {
        s
    };
    if d.len() > 0 && all_digits(d) {
        Some(digits_value(d))
    } else {
        None
    }
}

/// What parsing `s` as a `u64` gives.
pub open spec fn parsed_u64(s: Seq<char>) -> Option<u64> {
    match unsigned_text_value(s) {
        Some(v) => if v <= u64::MAX {
            Some(v as u64)
        } else {
            None
        },
        None => None,
    }
}

/// Relies on the standard library's `FromStr` for `u64` (`str::parse`): an optional `+`
/// followed by decimal digits, with no other character, whose value fits, is accepted.
#[verifier::external_body]
pub(crate) fn parse_u64(s: &str) -> (r: Option<u64>)
    ensures
        r == parsed_u64(s@),
{
    s.parse::<u64>().ok()
}

/// The number a record's value writes, or zero when it writes none that fits in `u32`.
pub open spec fn value_u32_or_zero(v: Seq<char>) -> u32 {
    match parsed_u64(v) {
        Some(n) => if n <= u32::MAX {
            n as u32
        } else {
            0
        },
        None => 0,
    }
}

/// The number a record's value writes, or zero when it writes none that fits in `u64`.
pub open spec fn value_u64_or_zero(v: Seq<char>) -> u64 {
    match parsed_u64(v) {
        Some(n) => n,
        None => 0,
    }
}

/// The start-of-authority data of a zone, one pseudo-record per field.
#[derive(Debug)]
pub struct SOA {
    pub primary_ns: DNSEntry,
    pub contact_email: DNSEntry,
    pub serial: DNSEntry,
    pub refresh: DNSEntry,
    pub retry: DNSEntry,
    pub expire: DNSEntry,
}

/// What the start-of-authority data holds, as mathematical values.
pub ghost struct SoaView {
    pub primary_ns: RecordView,
    pub contact_email: RecordView,
    pub serial: RecordView,
    pub refresh: RecordView,
    pub retry: RecordView,
    pub expire: RecordView,
}

impl View for SOA {
    type V = SoaView;

    open spec fn view(&self) -> SoaView {
        SoaView {
            primary_ns: self.primary_ns@,
            contact_email: self.contact_email@,
            serial: self.serial@,
            refresh: self.refresh@,
            retry: self.retry@,
            expire: self.expire@,
        }
    }
}

impl Clone for SOA {
    fn clone(&self) -> (r: SOA)
        ensures
            r@ == self@,
    {
        SOA {
            primary_ns: self.primary_ns.clone(),
            contact_email: self.contact_email.clone(),
            serial: self.serial.clone(),
            refresh: self.refresh.clone(),
            retry: self.retry.clone(),
            expire: self.expire.clone(),
        }
    }
}

/// Start-of-authority data whose six records are all empty.
pub open spec fn blank_soa() -> SoaView {
    SoaView {
        primary_ns: blank_record(),
        contact_email: blank_record(),
        serial: blank_record(),
        refresh: blank_record(),
        retry: blank_record(),
        expire: blank_record(),
    }
}

impl SOA {
    /// Start-of-authority data whose six records are all empty.
    pub fn new() -> (r: SOA)
        ensures
            r@ == blank_soa(),
    {
        SOA {
            primary_ns: DNSEntry::new(),
            contact_email: DNSEntry::new(),
            serial: DNSEntry::new(),
            refresh: DNSEntry::new(),
            retry: DNSEntry::new(),
            expire: DNSEntry::new(),
        }
    }

    /// The primary name server record.
    pub fn get_primary_ns(&self) -> (r: DNSEntry)
        ensures
            r@ == self.primary_ns@,
    {
        self.primary_ns.clone()
    }

    /// The administrator contact record.
    pub fn get_contact_email(&self) -> (r: DNSEntry)
        ensures
            r@ == self.contact_email@,
    {
        self.contact_email.clone()
    }

    /// The serial number record.
    pub fn get_serial(&self) -> (r: DNSEntry)
        ensures
            r@ == self.serial@,
    {
        self.serial.clone()
    }

    /// The refresh interval record.
    pub fn get_refresh(&self) -> (r: DNSEntry)
        ensures
            r@ == self.refresh@,
    {
        self.refresh.clone()
    }

    /// The retry interval record.
    pub fn get_retry(&self) -> (r: DNSEntry)
        ensures
            r@ == self.retry@,
    {
        self.retry.clone()
    }

    /// The expiry record.
    pub fn get_expire(&self) -> (r: DNSEntry)
        ensures
            r@ == self.expire@,
    {
        self.expire.clone()
    }

    /// The serial number, or zero when the record holds none.
    pub fn get_serial_value(&self) -> (r: u32)
        ensures
            r == value_u32_or_zero(self.serial.value@),
    {
        match parse_u64(self.serial.value.as_str()) {
            Some(n) => if n <= 0xffff_ffff {
                n as u32
            } else {
                0
            },
            None => 0,
        }
    }

    /// The refresh interval in seconds, or zero when the record holds none.
    pub fn get_refresh_value(&self) -> (r: u64)
        ensures
            r == value_u64_or_zero(self.refresh.value@),
    {
        match parse_u64(self.refresh.value.as_str()) {
            Some(n) => n,
            None => 0,
        }
    }

    /// The retry interval in seconds, or zero when the record holds none.
    pub fn get_retry_value(&self) -> (r: u64)
        ensures
            r == value_u64_or_zero(self.retry.value@),
    {
        match parse_u64(self.retry.value.as_str()) {
            Some(n) => n,
            None => 0,
        }
    }

    /// The expiry in seconds, or zero when the record holds none.
    pub fn get_expire_value(&self) -> (r: u64)
        ensures
            r == value_u64_or_zero(self.expire.value@),
    {
        match parse_u64(self.expire.value.as_str()) {
            Some(n) => n,
            None => 0,
        }
    }
}

/// One delegation as mathematical values: the delegated apex and its name server records.
pub type DelegationView = (Seq<Seq<char>>, Seq<RecordView>);

/// The views of the delegation list.
pub open spec fn delegations_view(v: Seq<(Domain, Vec<DNSEntry>)>) -> Seq<DelegationView> {
    v.map_values(|d: (Domain, Vec<DNSEntry>)| (d.0@, records_view(d.1@)))
}

/// No apex occurs twice in the delegation list.
pub open spec fn keys_unique(s: Seq<DelegationView>) -> bool {
    forall|i: int, j: int| 0 <= i < j < s.len() ==> #[trigger] s[i].0 != #[trigger] s[j].0
}

/// Where the apex `k` stands in the delegation list, if it does.
pub open spec fn index_of_key(s: Seq<DelegationView>, k: Seq<Seq<char>>) -> Option<int> {
    if exists|i: int| 0 <= i < s.len() && s[i].0 == k {
        Some(choose|i: int| 0 <= i < s.len() && s[i].0 == k)
    } else {
        None
    }
}

/// The delegation list after adding the record `e` under the apex `k`: appended to the
/// apex's list when present, else a new delegation at the end.
pub open spec fn add_delegation(s: Seq<DelegationView>, k: Seq<Seq<char>>, e: RecordView) -> Seq<
    DelegationView,
> {
    match index_of_key(s, k) {
        Some(i) => s.update(i, (k, s[i].1.push(e))),
        None => s.push((k, seq![e])),
    }
}

/// The records of `s` whose owner is `owner`, in order.
pub open spec fn owned_by(s: Seq<RecordView>, owner: Seq<Seq<char>>) -> Seq<RecordView>
    decreases s.len(),
{
    if s.len() == 0 {
        Seq::empty()
    } else if s.last().owner == owner {
        owned_by(s.drop_last(), owner).push(s.last())
    } else {
        owned_by(s.drop_last(), owner)
    }
}

/// All name server records of all delegations, in order.
pub open spec fn all_delegated(s: Seq<DelegationView>) -> Seq<RecordView>
    decreases s.len(),
{
    if s.len() == 0 {
        Seq::empty()
    } else {
        all_delegated(s.drop_last()) + s.last().1
    }
}

/// The first record of `s` owned by `owner`.
pub open spec fn first_owned(s: Seq<RecordView>, owner: Seq<Seq<char>>) -> Option<RecordView>
    decreases s.len(),
{
    if s.len() == 0 {
        None
    } else {
        match first_owned(s.drop_last(), owner) {
            Some(r) => Some(r),
            None => if s.last().owner == owner {
                Some(s.last())
            } else {
                None
            },
        }
    }
}

proof fn lemma_first_owned_prefix(s: Seq<RecordView>, owner: Seq<Seq<char>>, i: int)
    requires
        0 <= i <= s.len(),
        first_owned(s.subrange(0, i), owner) is Some,
    ensures
        first_owned(s, owner) == first_owned(s.subrange(0, i), owner),
    decreases s.len() - i,
{
    if i < s.len() {
        let t = s.subrange(0, i + 1);
        assert(t.drop_last() =~= s.subrange(0, i));
        lemma_first_owned_prefix(s, owner, i + 1);
    } else {
        assert(s.subrange(0, i) =~= s);
    }
}

/// A copy of the first record of `v` owned by `owner`, if any.
pub fn find_first_owned(v: &Vec<DNSEntry>, owner: &Domain) -> (r: Option<DNSEntry>)
    ensures
        match r {
            Some(e) => first_owned(records_view(v@), owner@) == Some(e@),
            None => first_owned(records_view(v@), owner@) is None,
        },
{
    let ghost s = records_view(v@);
    let mut i: usize = 0;
    while i < v.len()
        invariant
            i <= v@.len(),
            s == records_view(v@),
            first_owned(s.subrange(0, i as int), owner@) is None,
        decreases v@.len() - i,
    {
        proof {
            let t = s.subrange(0, i + 1);
            assert(t.drop_last() =~= s.subrange(0, i as int));
            assert(t.last() == v@[i as int]@);
        }
        if v[i].domain_name.same_labels(owner) {
            proof {
                lemma_first_owned_prefix(s, owner@, i + 1);
            }
            return Some(v[i].clone());
        }
        i = i + 1;
    }
    assert(s.subrange(0, s.len() as int) =~= s);
    None
}

/// A list that is empty counts as no answer.
pub open spec fn none_if_empty(s: Seq<RecordView>) -> Option<Seq<RecordView>> {
    if s.len() == 0 {
        None
    } else {
        Some(s)
    }
}

/// The records of type `t` owned by `name`; name server records are looked up among the
/// records of every delegation.
pub open spec fn query_answer(db: DatabaseView, t: QueryType, name: Seq<Seq<char>>) -> Option<
    Seq<RecordView>,
> {
    match t {
        QueryType::NS => none_if_empty(owned_by(all_delegated(db.delegations), name)),
        QueryType::A => owned_answer(db.a, name),
        QueryType::CNAME => owned_answer(db.cname, name),
        QueryType::MX => owned_answer(db.mx, name),
        QueryType::PTR => owned_answer(db.ptr, name),
    }
}

/// The records of an optional list owned by `name`, none when there are none.
pub open spec fn owned_answer(o: Option<Seq<RecordView>>, name: Seq<Seq<char>>) -> Option<
    Seq<RecordView>,
> {
    match o {
        Some(s) => none_if_empty(owned_by(s, name)),
        None => None,
    }
}

/// The zone cut for `name`: the position of the most specific delegated apex at or above it.
pub open spec fn is_cut_for(s: Seq<DelegationView>, name: Seq<Seq<char>>, i: int) -> bool {
    &&& 0 <= i < s.len()
    &&& is_subdomain(name, s[i].0)
    &&& forall|j: int|
        0 <= j < s.len() && is_subdomain(name, #[trigger] s[j].0) ==> s[j].0.len() <= s[i].0.len()
}

/// Whether some delegated apex lies at or above `name`.
pub open spec fn has_cut_for(s: Seq<DelegationView>, name: Seq<Seq<char>>) -> bool {
    exists|j: int| 0 <= j < s.len() && is_subdomain(name, #[trigger] s[j].0)
}

/// A zone with no records and blank start-of-authority data.
pub open spec fn empty_zone(authority: bool) -> DatabaseView {
    DatabaseView {
        authority,
        soa: blank_soa(),
        delegations: Seq::empty(),
        a: None,
        cname: None,
        mx: None,
        ptr: None,
    }
}

/// The records of one zone: its start of authority, its delegations (name server records
/// keyed by the delegated apex, the zone's own apex included) and its other records by type.
#[derive(Debug)]
pub struct DomainDatabase {
    pub authority: bool,
    pub soa_entries: SOA,
    pub ns_records: Vec<(Domain, Vec<DNSEntry>)>,
    pub a_records: Option<Vec<DNSEntry>>,
    pub cname_records: Option<Vec<DNSEntry>>,
    pub mx_records: Option<Vec<DNSEntry>>,
    pub ptr_records: Option<Vec<DNSEntry>>,
}

/// What a zone's records hold, as mathematical values.
pub ghost struct DatabaseView {
    pub authority: bool,
    pub soa: SoaView,
    pub delegations: Seq<DelegationView>,
    pub a: Option<Seq<RecordView>>,
    pub cname: Option<Seq<RecordView>>,
    pub mx: Option<Seq<RecordView>>,
    pub ptr: Option<Seq<RecordView>>,
}

impl View for DomainDatabase {
    type V = DatabaseView;

    open spec fn view(&self) -> DatabaseView {
        DatabaseView {
            authority: self.authority,
            soa: self.soa_entries@,
            delegations: delegations_view(self.ns_records@),
            a: opt_records_view(self.a_records),
            cname: opt_records_view(self.cname_records),
            mx: opt_records_view(self.mx_records),
            ptr: opt_records_view(self.ptr_records),
        }
    }
}

impl Clone for DomainDatabase {
    fn clone(&self) -> (r: DomainDatabase)
        ensures
            r@ == self@,
    {
        DomainDatabase {
            authority: self.authority,
            soa_entries: self.soa_entries.clone(),
            ns_records: clone_delegations(&self.ns_records),
            a_records: clone_opt_records(&self.a_records),
            cname_records: clone_opt_records(&self.cname_records),
            mx_records: clone_opt_records(&self.mx_records),
            ptr_records: clone_opt_records(&self.ptr_records),
        }
    }
}

/// A copy of a delegation list.
pub fn clone_delegations(v: &Vec<(Domain, Vec<DNSEntry>)>) -> (r: Vec<(Domain, Vec<DNSEntry>)>)
    ensures
        delegations_view(r@) == delegations_view(v@),
{
    let mut r: Vec<(Domain, Vec<DNSEntry>)> = Vec::new();
    let mut i: usize = 0;
    while i < v.len()
        invariant
            i <= v@.len(),
            delegations_view(r@) == delegations_view(v@.subrange(0, i as int)),
        decreases v@.len() - i,
    {
        let ghost old_r = r@;
        let d = (v[i].0.clone(), clone_records(&v[i].1));
        r.push(d);
        proof {
            assert(delegations_view(r@) =~= delegations_view(old_r).push(
                delegations_view(v@)[i as int],
            ));
            assert(delegations_view(v@.subrange(0, i + 1)) =~= delegations_view(
                v@.subrange(0, i as int),
            ).push(delegations_view(v@)[i as int]));
        }
        i = i + 1;
    }
    assert(v@.subrange(0, v@.len() as int) =~= v@);
    r
}

/// Appends `entry` to an optional list, making the list when absent.
fn add_to_list(list: &mut Option<Vec<DNSEntry>>, entry: DNSEntry)
    ensures
        opt_records_view(*final(list)) == Some(
            match opt_records_view(*old(list)) {
                Some(s) => s.push(entry@),
                None => seq![entry@],
            },
        ),
{
    let ghost e = entry@;
    match list {
        Some(records) => {
            let ghost before = records@;
            records.push(entry);
            proof {
                assert(records_view(records@) =~= records_view(before).push(e));
            }
        },
        None => {
            let v = vec![entry];
            proof {
                assert(records_view(v@) =~= seq![e]);
            }
            *list = Some(v);
        },
    }
}

/// The records of `v` owned by `name`, or none when there are none.
fn records_owned_by(v: &Vec<DNSEntry>, name: &Domain) -> (r: Option<Vec<DNSEntry>>)
    ensures
        opt_records_view(r) == none_if_empty(owned_by(records_view(v@), name@)),
{
    let mut out: Vec<DNSEntry> = Vec::new();
    let mut i: usize = 0;
    while i < v.len()
        invariant
            i <= v@.len(),
            records_view(out@) == owned_by(records_view(v@).subrange(0, i as int), name@),
        decreases v@.len() - i,
    {
        proof {
            let l = records_view(v@).subrange(0, i + 1);
            assert(l.drop_last() =~= records_view(v@).subrange(0, i as int));
            assert(l.last() == v@[i as int]@);
        }
        if v[i].domain_name.same_labels(name) {
            let ghost before = out@;
            out.push(v[i].clone());
            proof {
                assert(records_view(out@) =~= records_view(before).push(v@[i as int]@));
            }
        }
        i = i + 1;
    }
    assert(records_view(v@).subrange(0, v@.len() as int) =~= records_view(v@));
    if out.len() == 0 {
        None
    } else {
        Some(out)
    }
}

impl DomainDatabase {
    /// Whether no delegated apex occurs twice.
    pub open spec fn wf(&self) -> bool {
        keys_unique(delegations_view(self.ns_records@))
    }

    /// An empty, non-authoritative zone.
    pub fn new() -> (r: DomainDatabase)
        ensures
            r.wf(),
            r@ == empty_zone(false),
    {
        let r = DomainDatabase {
            authority: false,
            soa_entries: SOA::new(),
            ns_records: Vec::new(),
            a_records: None,
            cname_records: None,
            mx_records: None,
            ptr_records: None,
        };
        assert(r@.delegations =~= Seq::<DelegationView>::empty());
        r
    }

    /// Whether this server is an authority for the zone.
    pub fn am_i_authority(&self) -> (r: bool)
        ensures
            r == self.authority,
    {
        self.authority
    }

    /// A copy of the start-of-authority data.
    pub fn get_soa_records(&self) -> (r: SOA)
        ensures
            r@ == self.soa_entries@,
    {
        self.soa_entries.clone()
    }

    /// A copy of the delegations.
    pub fn get_ns_records(&self) -> (r: Vec<(Domain, Vec<DNSEntry>)>)
        ensures
            delegations_view(r@) == self@.delegations,
    {
        clone_delegations(&self.ns_records)
    }

    /// A copy of the address records.
    pub fn get_a_records(&self) -> (r: Option<Vec<DNSEntry>>)
        ensures
            opt_records_view(r) == self@.a,
    {
        clone_opt_records(&self.a_records)
    }

    /// A copy of the alias records.
    pub fn get_cname_records(&self) -> (r: Option<Vec<DNSEntry>>)
        ensures
            opt_records_view(r) == self@.cname,
    {
        clone_opt_records(&self.cname_records)
    }

    /// A copy of the mail exchange records.
    pub fn get_mx_records(&self) -> (r: Option<Vec<DNSEntry>>)
        ensures
            opt_records_view(r) == self@.mx,
    {
        clone_opt_records(&self.mx_records)
    }

    /// A copy of the pointer records.
    pub fn get_ptr_records(&self) -> (r: Option<Vec<DNSEntry>>)
        ensures
            opt_records_view(r) == self@.ptr,
    {
        clone_opt_records(&self.ptr_records)
    }

    /// Adds a name server record under the delegated apex `domain_name`.
    pub fn add_ns_record(&mut self, domain_name: Domain, entry: DNSEntry)
        requires
            old(self).wf(),
        ensures
            final(self).wf(),
            final(self)@ == (DatabaseView {
                delegations: add_delegation(old(self)@.delegations, domain_name@, entry@),
                ..old(self)@
            }),
    {
        let ghost s = self@.delegations;
        let ghost k = domain_name@;
        let ghost e = entry@;
        let mut i: usize = 0;
        while i < self.ns_records.len()
            invariant
                i <= self.ns_records@.len(),
                s == delegations_view(self.ns_records@),
                s == old(self)@.delegations,
                keys_unique(s),
                *self == *old(self),
                k == domain_name@,
                e == entry@,
                forall|j: int| 0 <= j < i ==> s[j].0 != k,
            decreases self.ns_records@.len() - i,
        {
            proof {
                assert(s[i as int] == delegations_view(self.ns_records@)[i as int]);
                assert(s[i as int].0 == self.ns_records@[i as int].0@);
            }
            let same = self.ns_records[i].0.same_labels(&domain_name);
            if same {
                proof {
                    assert(self.ns_records@[i as int].0@ == domain_name@);
                    assert(s[i as int].0 == self.ns_records@[i as int].0@);
                    assert(s[i as int].0 == k);
                    assert(index_of_key(s, k) == Some(i as int)) by {
                        let c = choose|c: int| 0 <= c < s.len() && s[c].0 == k;
                        assert(0 <= c < s.len() && s[c].0 == k);
                        if c != i {
                            if c < i {
                                assert(s[c].0 != k);
                            } else {
                                assert(s[i as int].0 != s[c].0);
                            }
                        }
                    }
                }
                let (d, mut records) = self.ns_records.remove(i);
                let ghost old_list = records@;
                records.push(entry);
                proof {
                    assert(records_view(records@) =~= s[i as int].1.push(e));
                }
                self.ns_records.insert(i, (d, records));
                proof {
                    assert(delegations_view(self.ns_records@) =~= s.update(
                        i as int,
                        (k, s[i as int].1.push(e)),
                    ));
                }
                return;
            }
            i = i + 1;
        }
        proof {
            assert(index_of_key(s, k) is None);
        }
        let ghost before = self.ns_records@;
        let v = vec![entry];
        self.ns_records.push((domain_name, v));
        proof {
            assert(records_view(v@) =~= seq![e]);
            assert(delegations_view(self.ns_records@) =~= s.push((k, seq![e])));
            let t = s.push((k, seq![e]));
            assert forall|a: int, b: int| 0 <= a < b < t.len() implies #[trigger] t[a].0
                != #[trigger] t[b].0 by {
                if b == s.len() {
                    assert(s[a].0 != k);
                } else {
                    assert(s[a].0 != s[b].0);
                }
            }
        }
    }

    /// Adds an address record.
    pub fn add_a_record(&mut self, entry: DNSEntry)
        ensures
            final(self)@ == (DatabaseView {
                a: Some(
                    match old(self)@.a {
                        Some(s) => s.push(entry@),
                        None => seq![entry@],
                    },
                ),
                ..old(self)@
            }),
    {
        add_to_list(&mut self.a_records, entry);
    }

    /// Adds an alias record.
    pub fn add_cname_record(&mut self, entry: DNSEntry)
        ensures
            final(self)@ == (DatabaseView {
                cname: Some(
                    match old(self)@.cname {
                        Some(s) => s.push(entry@),
                        None => seq![entry@],
                    },
                ),
                ..old(self)@
            }),
    {
        add_to_list(&mut self.cname_records, entry);
    }

    /// Adds a mail exchange record.
    pub fn add_mx_record(&mut self, entry: DNSEntry)
        ensures
            final(self)@ == (DatabaseView {
                mx: Some(
                    match old(self)@.mx {
                        Some(s) => s.push(entry@),
                        None => seq![entry@],
                    },
                ),
                ..old(self)@
            }),
    {
        add_to_list(&mut self.mx_records, entry);
    }

    /// Adds a pointer record.
    pub fn add_ptr_record(&mut self, entry: DNSEntry)
        ensures
            final(self)@ == (DatabaseView {
                ptr: Some(
                    match old(self)@.ptr {
                        Some(s) => s.push(entry@),
                        None => seq![entry@],
                    },
                ),
                ..old(self)@
            }),
    {
        add_to_list(&mut self.ptr_records, entry);
    }

    /// The records of type `query_type` owned by `queried_domain` (name server records are
    /// taken from every delegation); none when there are none.
    pub fn get_domain_query(&self, query_type: QueryType, queried_domain: Domain) -> (r: Option<
        Vec<DNSEntry>,
    >)
        ensures
            opt_records_view(r) == query_answer(self@, query_type, queried_domain@),
    {
        match query_type {
            QueryType::NS => {
                let all = self.all_ns_records();
                records_owned_by(&all, &queried_domain)
            },
            QueryType::A => match &self.a_records {
                Some(v) => records_owned_by(v, &queried_domain),
                None => None,
            },
            QueryType::CNAME => match &self.cname_records {
                Some(v) => records_owned_by(v, &queried_domain),
                None => None,
            },
            QueryType::MX => match &self.mx_records {
                Some(v) => records_owned_by(v, &queried_domain),
                None => None,
            },
            QueryType::PTR => match &self.ptr_records {
                Some(v) => records_owned_by(v, &queried_domain),
                None => None,
            },
        }
    }

    /// Every delegated name server record, delegation by delegation.
    pub fn all_ns_records(&self) -> (r: Vec<DNSEntry>)
        ensures
            records_view(r@) == all_delegated(self@.delegations),
    {
        let ghost s = self@.delegations;
        let mut out: Vec<DNSEntry> = Vec::new();
        let mut i: usize = 0;
        while i < self.ns_records.len()
            invariant
                i <= self.ns_records@.len(),
                s == delegations_view(self.ns_records@),
                records_view(out@) == all_delegated(s.subrange(0, i as int)),
            decreases self.ns_records@.len() - i,
        {
            let list = &self.ns_records[i].1;
            let ghost before = out@;
            let mut j: usize = 0;
            while j < list.len()
                invariant
                    j <= list@.len(),
                    records_view(out@) == records_view(before) + records_view(list@).subrange(
                        0,
                        j as int,
                    ),
                decreases list@.len() - j,
            {
                let ghost mid = out@;
                out.push(list[j].clone());
                proof {
                    assert(records_view(out@) =~= records_view(mid).push(list@[j as int]@));
                    assert(records_view(list@).subrange(0, j + 1) =~= records_view(list@).subrange(
                        0,
                        j as int,
                    ).push(list@[j as int]@));
                }
                j = j + 1;
            }
            proof {
                assert(records_view(list@).subrange(0, list@.len() as int) =~= records_view(list@));
                let l = s.subrange(0, i + 1);
                assert(l.drop_last() =~= s.subrange(0, i as int));
                assert(l.last() == s[i as int]);
            }
            i = i + 1;
        }
        assert(s.subrange(0, s.len() as int) =~= s);
        out
    }

    /// The zone cut for `queried`: the most specific delegated apex at or above it, with its
    /// name server records; none when no delegated apex lies at or above it.
    pub fn find_cut(&self, queried: &Domain) -> (r: Option<(Domain, Vec<DNSEntry>)>)
        ensures
            r is None <==> !has_cut_for(self@.delegations, queried@),
            r is Some ==> exists|i: int|
                is_cut_for(self@.delegations, queried@, i) && self@.delegations[i] == (
                r->Some_0.0@,
                records_view(r->Some_0.1@),
            ),
    {
        let ghost s = self@.delegations;
        let mut best: Option<usize> = None;
        let mut i: usize = 0;
        while i < self.ns_records.len()
            invariant
                i <= self.ns_records@.len(),
                s == delegations_view(self.ns_records@),
                best is None <==> !exists|j: int| 0 <= j < i && is_subdomain(queried@, #[trigger] s[j].0),
                best matches Some(b) ==> b < i && is_subdomain(queried@, s[b as int].0) && forall|j: int|
                    0 <= j < i && is_subdomain(queried@, #[trigger] s[j].0) ==> s[j].0.len() <= s[b as int].0.len(),
            decreases self.ns_records@.len() - i,
        {
            proof {
                assert(s[i as int] == delegations_view(self.ns_records@)[i as int]);
                assert(s[i as int].0 == self.ns_records@[i as int].0@);
                if best is Some {
                    let b = best->Some_0 as int;
                    assert(s[b] == delegations_view(self.ns_records@)[b]);
                }
            }
            if queried.is_subdomain_of(&self.ns_records[i].0) {
                match best {
                    Some(b) => {
                        if self.ns_records[i].0.label_count() > self.ns_records[b].0.label_count() {
                            best = Some(i);
                        }
                    },
                    None => {
                        best = Some(i);
                    },
                }
            }
            i = i + 1;
        }
        match best {
            Some(b) => {
                let d = self.ns_records[b].0.clone();
                let l = clone_records(&self.ns_records[b].1);
                proof {
                    assert(is_cut_for(s, queried@, b as int));
                }
                Some((d, l))
            },
            None => None,
        }
    }

    /// The name server records of the zone cut for `domain`, if there is one.
    pub fn get_ns_of(&self, domain: Domain) -> (r: Option<Vec<DNSEntry>>)
        ensures
            r is None <==> !has_cut_for(self@.delegations, domain@),
            r is Some ==> exists|i: int|
                is_cut_for(self@.delegations, domain@, i) && self@.delegations[i].1 == records_view(
                    r->Some_0@,
                ),
    {
        match self.find_cut(&domain) {
            Some((_, l)) => Some(l),
            None => None,
        }
    }
}

} // verus!
