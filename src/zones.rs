use vstd::prelude::*;

use crate::database::{
    add_delegation, empty_zone, find_first_owned, first_owned, has_cut_for, is_cut_for,
    query_answer, DatabaseView, DelegationView, DomainDatabase,
};
use crate::domain::{is_subdomain, parse_labels, Domain};
use crate::message::{
    opt_records_view, query_type_text, records_view, DNSEntry, DNSMessage, DNSMessageData,
    DNSMessageHeaders, DataView, MessageView, QueryType, RecordView, CODE_ANSWER, CODE_DELEGATED,
    CODE_MALFORMED, CODE_NAME_NOT_FOUND, FLAG_AUTHORITATIVE, FLAG_RECURSION_DESIRED,
};
use crate::resolver::{authority_addresses, is_literal_address, literal_address, ResolveError};
use crate::text::text_is;

verus! {

/// Two ancestors of one name with as many labels are the same domain.
pub proof fn lemma_equal_length_ancestors(n: Seq<Seq<char>>, a: Seq<Seq<char>>, b: Seq<Seq<char>>)
    requires
        is_subdomain(n, a),
        is_subdomain(n, b),
        a.len() == b.len(),
    ensures
        a == b,
{
    if a.len() == 0 {
        assert(a =~= b);
    }
}

/// The delegation that forms the zone cut for `name`, if any.
pub open spec fn cut_for(s: Seq<DelegationView>, name: Seq<Seq<char>>) -> Option<DelegationView> {
    if has_cut_for(s, name) {
        Some(s[choose|i: int| is_cut_for(s, name, i)])
    } else {
        None
    }
}

/// One zone of the registry as mathematical values: its apex and its records.
pub type ZoneView = (Seq<Seq<char>>, DatabaseView);

/// The position of the most specific zone apex at or above `name`.
pub open spec fn is_zone_for(s: Seq<ZoneView>, name: Seq<Seq<char>>, i: int) -> bool {
    &&& 0 <= i < s.len()
    &&& is_subdomain(name, s[i].0)
    &&& forall|j: int|
        0 <= j < s.len() && is_subdomain(name, #[trigger] s[j].0) ==> s[j].0.len() <= s[i].0.len()
}

/// Whether some zone apex lies at or above `name`.
pub open spec fn has_zone_for(s: Seq<ZoneView>, name: Seq<Seq<char>>) -> bool {
    exists|j: int| 0 <= j < s.len() && is_subdomain(name, #[trigger] s[j].0)
}

/// The zone that answers for `name`: the one with the most specific apex at or above it.
pub open spec fn zone_for(s: Seq<ZoneView>, name: Seq<Seq<char>>) -> Option<ZoneView> {
    if has_zone_for(s, name) {
        Some(s[choose|i: int| is_zone_for(s, name, i)])
    } else {
        None
    }
}

/// No apex occurs twice in the registry.
pub open spec fn zone_keys_unique(s: Seq<ZoneView>) -> bool {
    forall|i: int, j: int| 0 <= i < j < s.len() ==> #[trigger] s[i].0 != #[trigger] s[j].0
}

/// Where the apex `k` stands in the registry, if it does.
pub open spec fn zone_index(s: Seq<ZoneView>, k: Seq<Seq<char>>) -> Option<int> {
    if exists|i: int| 0 <= i < s.len() && s[i].0 == k {
        Some(choose|i: int| 0 <= i < s.len() && s[i].0 == k)
    } else {
        None
    }
}

/// The registry after storing `db` under the apex `k`: it replaces the zone stored there,
/// or is added at the end.
pub open spec fn registry_insert(s: Seq<ZoneView>, k: Seq<Seq<char>>, db: DatabaseView) -> Seq<
    ZoneView,
> {
    match zone_index(s, k) {
        Some(i) => s.update(i, (k, db)),
        None => s.push((k, db)),
    }
}

/// The registry without the zone stored under `k`, if any.
pub open spec fn registry_remove(s: Seq<ZoneView>, k: Seq<Seq<char>>) -> Seq<ZoneView> {
    match zone_index(s, k) {
        Some(i) => s.remove(i),
        None => s,
    }
}

/// The glue for `recs`: for each record whose value is a name rather than an address,
/// the first address record owned by that name, when there is one.
pub open spec fn glue_records(a: Option<Seq<RecordView>>, recs: Seq<RecordView>) -> Seq<RecordView>
    decreases recs.len(),
{
    if recs.len() == 0 {
        Seq::empty()
    } else {
        let prev = glue_records(a, recs.drop_last());
        let r = recs.last();
        if is_literal_address(r.value) {
            prev
        } else {
            match a {
                Some(s) => match first_owned(s, parse_labels(r.value)) {
                    Some(g) => prev.push(g),
                    None => prev,
                },
                None => prev,
            }
        }
    }
}

/// The records of an optional list, none when absent.
pub open spec fn or_empty(o: Option<Seq<RecordView>>) -> Seq<RecordView> {
    match o {
        Some(s) => s,
        None => Seq::empty(),
    }
}

/// The size of a section as a header count: none when the section is absent or too long.
pub open spec fn count_of(o: Option<Seq<RecordView>>) -> Option<u8> {
    match o {
        Some(s) => if s.len() <= 255 {
            Some(s.len() as u8)
        } else {
            None
        },
        None => None,
    }
}

/// The reply built from zone `z` for query `q`: the question and id are kept, the
/// authoritative flag says whether `z` is authoritative, glue for the answers and
/// authorities is attached, and the counts give the section sizes.
pub open spec fn local_reply(
    q: MessageView,
    z: DatabaseView,
    answers: Option<Seq<RecordView>>,
    auths: Option<Seq<RecordView>>,
    code: u8,
) -> MessageView {
    let extras = glue_records(z.a, or_empty(answers)) + glue_records(z.a, or_empty(auths));
    MessageView {
        header: DNSMessageHeaders {
            message_id: q.header.message_id,
            flags: if z.authority {
                FLAG_AUTHORITATIVE
            } else {
                0
            },
            response_code: Some(code),
            number_of_values: count_of(answers),
            number_of_authorities: count_of(auths),
            number_of_extra_values: count_of(Some(extras)),
        },
        data: DataView { query: q.data.query, answers, authorities: auths, extras: Some(extras) },
    }
}

/// What answering a query comes to, as mathematical values: a reply, or a resolution of
/// the query against a list of servers.
pub ghost enum OutcomeView {
    Reply(MessageView),
    Resolve(MessageView, Seq<Seq<char>>),
}

/// How zone `z` with apex `apex` answers query `q`, given the root servers.
pub open spec fn zone_outcome(
    apex: Seq<Seq<char>>,
    z: DatabaseView,
    q: MessageView,
    roots: Seq<Seq<char>>,
) -> OutcomeView {
    let name = q.data.query.name;
    match cut_for(z.delegations, name) {
        None => OutcomeView::Resolve(q, roots),
        Some(cut) => if cut.0 == apex {
            match query_answer(z, q.data.query.qtype, name) {
                None => if z.authority {
                    OutcomeView::Reply(local_reply(q, z, None, Some(cut.1), CODE_NAME_NOT_FOUND))
                } else {
                    OutcomeView::Resolve(q, roots)
                },
                Some(ans) => OutcomeView::Reply(
                    local_reply(q, z, Some(ans), Some(cut.1), CODE_ANSWER),
                ),
            }
        } else {
            let referral = OutcomeView::Reply(
                local_reply(q, z, None, Some(cut.1), CODE_DELEGATED),
            );
            if q.header.flags & FLAG_RECURSION_DESIRED != 0 {
                match authority_addresses(z.a, cut.1) {
                    Ok(addrs) => if addrs.len() > 0 {
                        OutcomeView::Resolve(q, addrs)
                    } else {
                        referral
                    },
                    Err(_) => referral,
                }
            } else {
                referral
            }
        },
    }
}

/// How a registry answers query `q`, given the root servers.
pub open spec fn registry_outcome(
    s: Seq<ZoneView>,
    q: MessageView,
    roots: Seq<Seq<char>>,
) -> OutcomeView {
    match zone_for(s, q.data.query.name) {
        None => OutcomeView::Resolve(q, roots),
        Some(zone) => zone_outcome(zone.0, zone.1, q, roots),
    }
}

/// What answering a query comes to: a reply to send, or a query to resolve against servers
/// (whose answer is then sent, and cached).
pub enum QueryOutcome {
    Reply(DNSMessage),
    Resolve(DNSMessage, Vec<String>),
}

/// The view of an outcome.
pub open spec fn query_outcome_view(o: QueryOutcome) -> OutcomeView {
    match o {
        QueryOutcome::Reply(m) => OutcomeView::Reply(m@),
        QueryOutcome::Resolve(m, servers) => OutcomeView::Resolve(
            m@,
            crate::domain::string_views(servers@),
        ),
    }
}

/// Appends to `out` the glue for `recs` found among the address records `a`.
fn append_glue(a: &Option<Vec<DNSEntry>>, recs: &Vec<DNSEntry>, out: &mut Vec<DNSEntry>)
    ensures
        records_view(final(out)@) == records_view(old(out)@) + glue_records(
            opt_records_view(*a),
            records_view(recs@),
        ),
{
    let ghost av = opt_records_view(*a);
    let ghost rv = records_view(recs@);
    let ghost start = records_view(out@);
    let mut i: usize = 0;
    assert(rv.subrange(0, 0) =~= Seq::<RecordView>::empty());
    assert(start + Seq::<RecordView>::empty() =~= start);
    while i < recs.len()
        invariant
            i <= recs@.len(),
            av == opt_records_view(*a),
            rv == records_view(recs@),
            records_view(out@) == start + glue_records(av, rv.subrange(0, i as int)),
        decreases recs@.len() - i,
    {
        let r = &recs[i];
        proof {
            let t = rv.subrange(0, i + 1);
            assert(t.drop_last() =~= rv.subrange(0, i as int));
            assert(t.last() == r@);
        }
        if !literal_address(r.value.as_str()) {
            match a {
                Some(list) => {
                    let name = Domain::new(r.value.clone());
                    match find_first_owned(list, &name) {
                        Some(g) => {
                            let ghost before = records_view(out@);
                            out.push(g);
                            proof {
                                assert(records_view(out@) =~= before.push(g@));
                                assert(start + glue_records(av, rv.subrange(0, i as int)).push(g@)
                                    =~= (start + glue_records(av, rv.subrange(0, i as int))).push(
                                    g@,
                                ));
                            }
                        },
                        None => {},
                    }
                },
                None => {},
            }
        }
        i = i + 1;
    }
    assert(rv.subrange(0, rv.len() as int) =~= rv);
}

/// The size of a section as a header count.
fn count_section(o: &Option<Vec<DNSEntry>>) -> (r: Option<u8>)
    ensures
        r == count_of(opt_records_view(*o)),
{
    match o {
        Some(v) => if v.len() <= 255 {
            Some(v.len() as u8)
        } else {
            None
        },
        None => None,
    }
}

/// The reply to `query` from `zone` with the given sections and response code.
fn build_reply(
    query: &DNSMessage,
    zone: &DomainDatabase,
    answers: Option<Vec<DNSEntry>>,
    auths: Option<Vec<DNSEntry>>,
    code: u8,
) -> (r: DNSMessage)
    ensures
        r@ == local_reply(query@, zone@, opt_records_view(answers), opt_records_view(auths), code),
{
    let mut extras: Vec<DNSEntry> = Vec::new();
    let empty: Vec<DNSEntry> = Vec::new();
    match &answers {
        Some(v) => append_glue(&zone.a_records, v, &mut extras),
        None => append_glue(&zone.a_records, &empty, &mut extras),
    }
    match &auths {
        Some(v) => append_glue(&zone.a_records, v, &mut extras),
        None => append_glue(&zone.a_records, &empty, &mut extras),
    }
    proof {
        assert(records_view(empty@) =~= Seq::<RecordView>::empty());
        assert(records_view(Seq::<DNSEntry>::empty()) =~= Seq::<RecordView>::empty());
    }
    let number_of_values = count_section(&answers);
    let number_of_authorities = count_section(&auths);
    let extra_values = Some(extras);
    let number_of_extra_values = count_section(&extra_values);
    let header = DNSMessageHeaders {
        message_id: query.header.message_id,
        flags: if zone.authority {
            FLAG_AUTHORITATIVE
        } else {
            0
        },
        response_code: Some(code),
        number_of_values,
        number_of_authorities,
        number_of_extra_values,
    };
    let data = DNSMessageData {
        query_info: query.data.query_info.clone(),
        response_values: answers,
        authorities_values: auths,
        extra_values,
    };
    let r = DNSMessage { header, data };
    proof {
        let ghost ev = glue_records(zone@.a, or_empty(opt_records_view(answers))) + glue_records(
            zone@.a,
            or_empty(opt_records_view(auths)),
        );
        assert(records_view(extra_values->Some_0@) =~= ev);
    }
    r
}

/// How `zone`, stored under `apex`, answers `query`; the root servers are asked when it cannot.
pub fn answer_in_zone(
    apex: &Domain,
    zone: &DomainDatabase,
    query: &DNSMessage,
    root_servers: &Vec<String>,
) -> (r: QueryOutcome)
    requires
        zone.wf(),
    ensures
        query_outcome_view(r) == zone_outcome(
            apex@,
            zone@,
            query@,
            crate::domain::string_views(root_servers@),
        ),
{
    let ghost s = zone@.delegations;
    let ghost name = query@.data.query.name;
    let name = &query.data.query_info.name;
    let cut = zone.find_cut(name);
    match cut {
        None => {
            QueryOutcome::Resolve(query.clone(), crate::domain::clone_strings(root_servers))
        },
        Some((cut_apex, ns_list)) => {
            proof {
                let i = choose|i: int|
                    is_cut_for(s, name@, i) && s[i] == (cut_apex@, records_view(ns_list@));
                let c = choose|c: int| is_cut_for(s, name@, c);
                assert(is_cut_for(s, name@, c));
                assert(s[i].0.len() == s[c].0.len());
                lemma_equal_length_ancestors(name@, s[i].0, s[c].0);
                if i != c {
                    if i < c {
                        assert(s[i].0 != s[c].0);
                    } else {
                        assert(s[c].0 != s[i].0);
                    }
                }
                assert(cut_for(s, name@) == Some(s[i]));
            }
            if cut_apex.same_labels(apex) {
                let answers = zone.get_domain_query(
                    query.data.query_info.type_of_value,
                    query.data.query_info.name.clone(),
                );
                match answers {
                    None => {
                        if zone.authority {
                            QueryOutcome::Reply(
                                build_reply(query, zone, None, Some(ns_list), CODE_NAME_NOT_FOUND),
                            )
                        } else {
                            QueryOutcome::Resolve(
                                query.clone(),
                                crate::domain::clone_strings(root_servers),
                            )
                        }
                    },
                    Some(ans) => {
                        QueryOutcome::Reply(
                            build_reply(query, zone, Some(ans), Some(ns_list), CODE_ANSWER),
                        )
                    },
                }
            } else {
                if query.header.flags & FLAG_RECURSION_DESIRED != 0 {
                    match DNSMessage::get_authorities_ip(&zone.a_records, &ns_list) {
                        Ok(addrs) => {
                            if addrs.len() > 0 {
                                return QueryOutcome::Resolve(query.clone(), addrs);
                            }
                        },
                        Err(_) => {},
                    }
                }
                QueryOutcome::Reply(build_reply(query, zone, None, Some(ns_list), CODE_DELEGATED))
            }
        },
    }
}

/// The zones this server owns, replicates or has cached, each under its apex.
pub struct ZoneRegistry {
    zones: Vec<(Domain, DomainDatabase)>,
}

/// The views of a list of zones.
pub open spec fn zones_view(v: Seq<(Domain, DomainDatabase)>) -> Seq<ZoneView> {
    v.map_values(|z: (Domain, DomainDatabase)| (z.0@, z.1@))
}

impl View for ZoneRegistry {
    type V = Seq<ZoneView>;

    closed spec fn view(&self) -> Seq<ZoneView> {
        zones_view(self.zones@)
    }
}

impl ZoneRegistry {
    /// No apex occurs twice, and each zone is well formed.
    pub closed spec fn wf(&self) -> bool {
        &&& zone_keys_unique(self@)
        &&& forall|i: int| 0 <= i < self.zones@.len() ==> (#[trigger] self.zones@[i]).1.wf()
    }

    /// An empty registry.
    pub fn new() -> (r: ZoneRegistry)
        ensures
            r.wf(),
            r@.len() == 0,
    {
        let r = ZoneRegistry { zones: Vec::new() };
        assert(r@ =~= Seq::<ZoneView>::empty());
        r
    }

    /// Stores `db` under `apex`, replacing whatever zone was stored there.
    pub fn insert(&mut self, apex: Domain, db: DomainDatabase)
        requires
            old(self).wf(),
            db.wf(),
        ensures
            final(self).wf(),
            final(self)@ == registry_insert(old(self)@, apex@, db@),
    {
        let ghost s = self@;
        let ghost k = apex@;
        let ghost d = db@;
        let mut i: usize = 0;
        while i < self.zones.len()
            invariant
                i <= self.zones@.len(),
                s == zones_view(self.zones@),
                s == old(self)@,
                *self == *old(self),
                old(self).wf(),
                db.wf(),
                zone_keys_unique(s),
                k == apex@,
                d == db@,
                forall|j: int| 0 <= j < i ==> s[j].0 != k,
            decreases self.zones@.len() - i,
        {
            proof {
                assert(s[i as int] == zones_view(self.zones@)[i as int]);
            }
            let same = self.zones[i].0.same_labels(&apex);
            if same {
                proof {
                    assert(zone_index(s, k) == Some(i as int)) by {
                        let c = choose|c: int| 0 <= c < s.len() && s[c].0 == k;
                        assert(0 <= c < s.len() && s[c].0 == k);
                        if c != i {
                            if c < i {
                                assert(s[c].0 != k);
                            } else {
                                assert(s[i as int].0 != s[c].0);
                            }
                        }
                    }
                }
                self.zones.set(i, (apex, db));
                proof {
                    assert(zones_view(self.zones@) =~= s.update(i as int, (k, d)));
                    assert forall|j: int| 0 <= j < self.zones@.len() implies (
                    #[trigger] self.zones@[j]).1.wf() by {
                        if j != i {
                            assert(self.zones@[j] == old(self).zones@[j]);
                        }
                    }
                }
                return;
            }
            i = i + 1;
        }
        proof {
            assert(zone_index(s, k) is None);
        }
        self.zones.push((apex, db));
        proof {
            let t = s.push((k, d));
            assert(zones_view(self.zones@) =~= t);
            assert forall|a: int, b: int| 0 <= a < b < t.len() implies #[trigger] t[a].0
                != #[trigger] t[b].0 by {
                if b == s.len() {
                    assert(s[a].0 != k);
                } else {
                    assert(s[a].0 != s[b].0);
                }
            }
            assert forall|j: int| 0 <= j < self.zones@.len() implies (
            #[trigger] self.zones@[j]).1.wf() by {
                if j < old(self).zones@.len() {
                    assert(self.zones@[j] == old(self).zones@[j]);
                }
            }
        }
    }

    /// Drops the zone stored under `apex`, if any.
    pub fn remove(&mut self, apex: &Domain)
        requires
            old(self).wf(),
        ensures
            final(self).wf(),
            final(self)@ == registry_remove(old(self)@, apex@),
    {
        let ghost s = self@;
        let ghost k = apex@;
        let mut i: usize = 0;
        while i < self.zones.len()
            invariant
                i <= self.zones@.len(),
                s == zones_view(self.zones@),
                *self == *old(self),
                old(self).wf(),
                zone_keys_unique(s),
                k == apex@,
                forall|j: int| 0 <= j < i ==> s[j].0 != k,
            decreases self.zones@.len() - i,
        {
            proof {
                assert(s[i as int] == zones_view(self.zones@)[i as int]);
            }
            if self.zones[i].0.same_labels(apex) {
                proof {
                    assert(zone_index(s, k) == Some(i as int)) by {
                        let c = choose|c: int| 0 <= c < s.len() && s[c].0 == k;
                        assert(0 <= c < s.len() && s[c].0 == k);
                        if c != i {
                            if c < i {
                                assert(s[c].0 != k);
                            } else {
                                assert(s[i as int].0 != s[c].0);
                            }
                        }
                    }
                }
                let _ = self.zones.remove(i);
                proof {
                    let t = s.remove(i as int);
                    assert(zones_view(self.zones@) =~= t);
                    assert forall|a: int, b: int| 0 <= a < b < t.len() implies #[trigger] t[a].0
                        != #[trigger] t[b].0 by {
                        let a0 = if a < i { a } else { a + 1 };
                        let b0 = if b < i { b } else { b + 1 };
                        assert(t[a] == s[a0]);
                        assert(t[b] == s[b0]);
                        assert(s[a0].0 != s[b0].0);
                    }
                    assert forall|j: int| 0 <= j < self.zones@.len() implies (
                    #[trigger] self.zones@[j]).1.wf() by {
                        let j0 = if j < i { j } else { j + 1 };
                        assert(self.zones@[j] == old(self).zones@[j0]);
                    }
                }
                return;
            }
            i = i + 1;
        }
        proof {
            assert(zone_index(s, k) is None);
        }
    }

    /// The zone stored under exactly `apex`, if any.
    pub fn get(&self, apex: &Domain) -> (r: Option<&DomainDatabase>)
        requires
            self.wf(),
        ensures
            match r {
                Some(db) => zone_index(self@, apex@) is Some && self@[zone_index(
                    self@,
                    apex@,
                )->Some_0].1 == db@ && db.wf(),
                None => zone_index(self@, apex@) is None,
            },
    {
        let ghost s = self@;
        let mut i: usize = 0;
        while i < self.zones.len()
            invariant
                i <= self.zones@.len(),
                s == zones_view(self.zones@),
                self.wf(),
                forall|j: int| 0 <= j < i ==> s[j].0 != apex@,
            decreases self.zones@.len() - i,
        {
            proof {
                assert(s[i as int] == zones_view(self.zones@)[i as int]);
            }
            if self.zones[i].0.same_labels(apex) {
                proof {
                    let k = apex@;
                    assert(zone_keys_unique(s));
                    assert(zone_index(s, k) == Some(i as int)) by {
                        let c = choose|c: int| 0 <= c < s.len() && s[c].0 == k;
                        assert(0 <= c < s.len() && s[c].0 == k);
                        if c != i {
                            if c < i {
                                assert(s[c].0 != k);
                            } else {
                                assert(s[i as int].0 != s[c].0);
                            }
                        }
                    }
                    assert(self.zones@[i as int].1.wf());
                }
                return Some(&self.zones[i].1);
            }
            i = i + 1;
        }
        None
    }

    /// The position of the zone with the most specific apex at or above `name`, if any.
    pub fn select_zone(&self, name: &Domain) -> (r: Option<usize>)
        requires
            self.wf(),
        ensures
            r is None <==> !has_zone_for(self@, name@),
            r matches Some(i) ==> is_zone_for(self@, name@, i as int) && zone_for(self@, name@)
                == Some(self@[i as int]),
    {
        let ghost s = self@;
        let mut best: Option<usize> = None;
        let mut i: usize = 0;
        while i < self.zones.len()
            invariant
                i <= self.zones@.len(),
                s == zones_view(self.zones@),
                best is None <==> !exists|j: int|
                    0 <= j < i && is_subdomain(name@, #[trigger] s[j].0),
                best matches Some(b) ==> b < i && is_subdomain(name@, s[b as int].0) && forall|
                    j: int,
                |
                    0 <= j < i && is_subdomain(name@, #[trigger] s[j].0) ==> s[j].0.len()
                        <= s[b as int].0.len(),
            decreases self.zones@.len() - i,
        {
            proof {
                assert(s[i as int] == zones_view(self.zones@)[i as int]);
                if best is Some {
                    let b = best->Some_0 as int;
                    assert(s[b] == zones_view(self.zones@)[b]);
                }
            }
            let sub = name.is_subdomain_of(&self.zones[i].0);
            proof {
                assert(sub == is_subdomain(name@, s[i as int].0));
            }
            if sub {
                match best {
                    Some(b) => {
                        if self.zones[i].0.label_count() > self.zones[b].0.label_count() {
                            best = Some(i);
                        }
                    },
                    None => {
                        best = Some(i);
                    },
                }
            }
            i = i + 1;
        }
        proof {
            if best is Some {
                let b = best->Some_0 as int;
                assert(is_zone_for(s, name@, b));
                let c = choose|c: int| is_zone_for(s, name@, c);
                assert(is_zone_for(s, name@, c));
                lemma_equal_length_ancestors(name@, s[b].0, s[c].0);
                assert(zone_keys_unique(s));
                if b != c {
                    if b < c {
                        assert(s[b].0 != s[c].0);
                    } else {
                        assert(s[c].0 != s[b].0);
                    }
                }
            }
        }
        best
    }

    /// How this server answers `query`: from the zone with the most specific apex at or above
    /// the name asked, or, when that cannot settle it, by resolving against `root_servers`.
    pub fn answer(&self, query: &DNSMessage, root_servers: &Vec<String>) -> (r: QueryOutcome)
        requires
            self.wf(),
        ensures
            query_outcome_view(r) == registry_outcome(
                self@,
                query@,
                crate::domain::string_views(root_servers@),
            ),
    {
        match self.select_zone(&query.data.query_info.name) {
            None => QueryOutcome::Resolve(query.clone(), crate::domain::clone_strings(root_servers)),
            Some(i) => {
                proof {
                    assert(self.zones@[i as int].1.wf());
                    assert(self@[i as int] == (self.zones@[i as int].0@, self.zones@[i as int].1@));
                }
                answer_in_zone(&self.zones[i].0, &self.zones[i].1, query, root_servers)
            },
        }
    }
}

/// A list with `r` added at the end, made when absent.
pub open spec fn pushed(o: Option<Seq<RecordView>>, r: RecordView) -> Option<Seq<RecordView>> {
    Some(
        match o {
            Some(s) => s.push(r),
            None => seq![r],
        },
    )
}

/// The cached zone for `name` with the answer record `r` added according to its type:
/// name server records go to the delegation at `name`; other unknown types are dropped.
pub open spec fn cached_record(db: DatabaseView, name: Seq<Seq<char>>, r: RecordView) -> DatabaseView {
    if r.rtype == query_type_text(QueryType::NS) {
        DatabaseView { delegations: add_delegation(db.delegations, name, r), ..db }
    } else if r.rtype == query_type_text(QueryType::A) {
        DatabaseView { a: pushed(db.a, r), ..db }
    } else if r.rtype == query_type_text(QueryType::CNAME) {
        DatabaseView { cname: pushed(db.cname, r), ..db }
    } else if r.rtype == query_type_text(QueryType::MX) {
        DatabaseView { mx: pushed(db.mx, r), ..db }
    } else if r.rtype == query_type_text(QueryType::PTR) {
        DatabaseView { ptr: pushed(db.ptr, r), ..db }
    } else {
        db
    }
}

/// The cached zone for `name` after adding the answer records `s` in order.
pub open spec fn cached_records(base: DatabaseView, name: Seq<Seq<char>>, s: Seq<RecordView>) -> DatabaseView
    decreases s.len(),
{
    if s.len() == 0 {
        base
    } else {
        cached_record(cached_records(base, name, s.drop_last()), name, s.last())
    }
}

/// The zone that caches, under `name`, the answer records `s`: not authoritative, with a
/// delegation at `name` itself so that the zone answers for `name`.
pub open spec fn cache_zone(name: Seq<Seq<char>>, s: Seq<RecordView>) -> DatabaseView {
    cached_records(
        DatabaseView { delegations: seq![(name, Seq::<RecordView>::empty())], ..empty_zone(false) },
        name,
        s,
    )
}

/// The reply to `q` made from the outcome of resolving it: the answer under the query's id,
/// its counts taken from its sections; or, when resolution failed, the question alone with
/// the failure code (never the name-not-found code, which only a real answer gives).
pub open spec fn resolved_reply(q: MessageView, outcome: Result<MessageView, ResolveError>) -> MessageView {
    match outcome {
        Ok(m) => MessageView {
            header: DNSMessageHeaders {
                message_id: q.header.message_id,
                number_of_values: count_of(m.data.answers),
                number_of_authorities: count_of(m.data.authorities),
                number_of_extra_values: count_of(m.data.extras),
                ..m.header
            },
            ..m
        },
        Err(_) => MessageView {
            header: DNSMessageHeaders {
                response_code: Some(CODE_MALFORMED),
                number_of_values: None,
                number_of_authorities: None,
                number_of_extra_values: None,
                ..q.header
            },
            data: DataView { answers: None, authorities: None, extras: None, ..q.data },
        },
    }
}

/// The reply to `query` once resolving it has ended with `outcome`. A failed resolution is
/// reported with code 3, the protocol's one failure code, so that the asker sees an explicit
/// failure rather than a claim that the name does not exist.
pub fn finish_resolution(query: &DNSMessage, outcome: Result<DNSMessage, ResolveError>) -> (r:
    DNSMessage)
    ensures
        r@ == resolved_reply(
            query@,
            match outcome {
                Ok(m) => Ok(m@),
                Err(e) => Err(e),
            },
        ),
{
    match outcome {
        Ok(m) => {
            let mut m = m;
            m.header.message_id = query.header.message_id;
            m.header.number_of_values = count_section(&m.data.response_values);
            m.header.number_of_authorities = count_section(&m.data.authorities_values);
            m.header.number_of_extra_values = count_section(&m.data.extra_values);
            m
        },
        Err(_) => {
            let mut r = query.clone();
            r.header.response_code = Some(CODE_MALFORMED);
            r.header.number_of_values = None;
            r.header.number_of_authorities = None;
            r.header.number_of_extra_values = None;
            r.data.response_values = None;
            r.data.authorities_values = None;
            r.data.extra_values = None;
            r
        },
    }
}

impl DomainDatabase {
    /// The non-authoritative zone that caches, under `name`, the answer records of `answer`.
    pub fn from_answer(name: &Domain, answer: &DNSMessage) -> (r: DomainDatabase)
        ensures
            r.wf(),
            r@ == cache_zone(
                name@,
                or_empty(opt_records_view(answer.data.response_values)),
            ),
    {
        let mut db = DomainDatabase::new();
        db.ns_records.push((name.clone(), Vec::new()));
        let ghost base = DatabaseView {
            delegations: seq![(name@, Seq::<RecordView>::empty())],
            ..empty_zone(false)
        };
        proof {
            assert(records_view(Seq::<DNSEntry>::empty()) =~= Seq::<RecordView>::empty());
            assert(db@.delegations =~= seq![(name@, Seq::<RecordView>::empty())]);
            assert(db@ == base);
        }
        let empty: Vec<DNSEntry> = Vec::new();
        let records = match &answer.data.response_values {
            Some(v) => v,
            None => &empty,
        };
        let ghost s = records_view(records@);
        proof {
            assert(s == or_empty(opt_records_view(answer.data.response_values))) by {
                if answer.data.response_values is None {
                    assert(s =~= Seq::<RecordView>::empty());
                }
            }
        }
        let mut i: usize = 0;
        assert(s.subrange(0, 0) =~= Seq::<RecordView>::empty());
        while i < records.len()
            invariant
                i <= records@.len(),
                s == records_view(records@),
                db.wf(),
                db@ == cached_records(base, name@, s.subrange(0, i as int)),
            decreases records@.len() - i,
        {
            let e = records[i].clone();
            proof {
                let t = s.subrange(0, i + 1);
                assert(t.drop_last() =~= s.subrange(0, i as int));
                assert(t.last() == e@);
            }
            let t = e.type_of_value.as_str();
            if text_is(t, QueryType::NS.get_str()) {
                db.add_ns_record(name.clone(), e);
            } else if text_is(t, QueryType::A.get_str()) {
                db.add_a_record(e);
            } else if text_is(t, QueryType::CNAME.get_str()) {
                db.add_cname_record(e);
            } else if text_is(t, QueryType::MX.get_str()) {
                db.add_mx_record(e);
            } else if text_is(t, QueryType::PTR.get_str()) {
                db.add_ptr_record(e);
            }
            i = i + 1;
        }
        assert(s.subrange(0, s.len() as int) =~= s);
        db
    }
}

impl ZoneRegistry {
    /// Caches `answer` as the non-authoritative zone of `name`, replacing what was there.
    pub fn cache_answer(&mut self, name: &Domain, answer: &DNSMessage)
        requires
            old(self).wf(),
        ensures
            final(self).wf(),
            final(self)@ == registry_insert(
                old(self)@,
                name@,
                cache_zone(name@, or_empty(opt_records_view(answer.data.response_values))),
            ),
    {
        let db = DomainDatabase::from_answer(name, answer);
        self.insert(name.clone(), db);
    }
}

} // verus!
