use vstd::prelude::*;
use vstd::string::*;

use crate::domain::{render_labels, render_qualified, Domain};
use crate::text::{comma_str, decimal, decimal_string, semicolon_str, space_str, text_is};

verus! {

/// Flag bit: the answer comes from an authority for the zone.
pub const FLAG_AUTHORITATIVE: u8 = 1;

/// Flag bit: the asker wants the server to resolve recursively.
pub const FLAG_RECURSION_DESIRED: u8 = 2;

/// Flag bit: the message is a query.
pub const FLAG_QUERY: u8 = 4;

/// Response code: an answer is present.
pub const CODE_ANSWER: u8 = 0;

/// Response code: not answered here; the authorities of a delegated zone are given.
pub const CODE_DELEGATED: u8 = 1;

/// Response code: the name does not exist.
pub const CODE_NAME_NOT_FOUND: u8 = 2;

/// Response code: the query was malformed.
pub const CODE_MALFORMED: u8 = 3;

/// The type of record that a query asks for.
#[derive(Debug, Clone, Copy, PartialEq, Eq, Hash, Structural)]
pub enum QueryType {
    NS,
    A,
    CNAME,
    MX,
    PTR,
}

/// The name of a record type.
pub open spec fn query_type_text(t: QueryType) -> Seq<char> {
    match t {
        QueryType::NS => seq!['N', 'S'],
        QueryType::A => seq!['A'],
        QueryType::CNAME => seq!['C', 'N', 'A', 'M', 'E'],
        QueryType::MX => seq!['M', 'X'],
        QueryType::PTR => seq!['P', 'T', 'R'],
    }
}

/// A resource record: owner name, type name, value, time to live and optional priority.
#[derive(Debug)]
pub struct DNSEntry {
    pub domain_name: Domain,
    pub type_of_value: String,
    pub value: String,
    pub ttl: u32,
    pub priority: Option<u16>,
}

/// What a resource record holds, as mathematical values.
pub ghost struct RecordView {
    pub owner: Seq<Seq<char>>,
    pub rtype: Seq<char>,
    pub value: Seq<char>,
    pub ttl: u32,
    pub priority: Option<u16>,
}

impl View for DNSEntry {
    type V = RecordView;

    open spec fn view(&self) -> RecordView {
        RecordView {
            owner: self.domain_name@,
            rtype: self.type_of_value@,
            value: self.value@,
            ttl: self.ttl,
            priority: self.priority,
        }
    }
}

/// The empty record: root owner, empty type and value, zero time to live, no priority.
pub open spec fn blank_record() -> RecordView {
    RecordView {
        owner: Seq::empty(),
        rtype: Seq::empty(),
        value: Seq::empty(),
        ttl: 0,
        priority: None,
    }
}

/// The views of a sequence of records.
pub open spec fn records_view(v: Seq<DNSEntry>) -> Seq<RecordView> {
    v.map_values(|e: DNSEntry| e@)
}

/// The view of an optional list of records.
pub open spec fn opt_records_view(o: Option<Vec<DNSEntry>>) -> Option<Seq<RecordView>> {
    match o {
        Some(v) => Some(records_view(v@)),
        None => None,
    }
}

/// A copy of a list of records, record by record.
pub fn clone_records(v: &Vec<DNSEntry>) -> (r: Vec<DNSEntry>)
    ensures
        records_view(r@) == records_view(v@),
{
    let mut r: Vec<DNSEntry> = Vec::new();
    let mut i: usize = 0;
    while i < v.len()
        invariant
            i <= v@.len(),
            records_view(r@) == records_view(v@.subrange(0, i as int)),
        decreases v@.len() - i,
    {
        let ghost old_r = r@;
        r.push(v[i].clone());
        proof {
            assert(records_view(r@) =~= records_view(old_r).push(v@[i as int]@));
            assert(records_view(v@.subrange(0, i + 1)) =~= records_view(
                v@.subrange(0, i as int),
            ).push(v@[i as int]@));
        }
        i = i + 1;
    }
    assert(v@.subrange(0, v@.len() as int) =~= v@);
    r
}

/// A copy of an optional list of records.
pub fn clone_opt_records(o: &Option<Vec<DNSEntry>>) -> (r: Option<Vec<DNSEntry>>)
    ensures
        opt_records_view(r) == opt_records_view(*o),
{
    match o {
        Some(v) => Some(clone_records(v)),
        None => None,
    }
}

/// Whether two lists of records hold the same records in the same order.
pub fn records_equal(a: &Vec<DNSEntry>, b: &Vec<DNSEntry>) -> (r: bool)
    ensures
        r == (records_view(a@) == records_view(b@)),
{
    if a.len() != b.len() {
        assert(records_view(a@).len() != records_view(b@).len());
        return false;
    }
    let mut i: usize = 0;
    while i < a.len()
        invariant
            a@.len() == b@.len(),
            i <= a@.len(),
            forall|k: int| 0 <= k < i ==> a@[k]@ == b@[k]@,
        decreases a@.len() - i,
    {
        if !a[i].eq(&b[i]) {
            assert(records_view(a@)[i as int] != records_view(b@)[i as int]);
            return false;
        }
        i = i + 1;
    }
    assert(records_view(a@) =~= records_view(b@));
    true
}

/// Whether two optional lists of records are equal.
pub fn opt_records_equal(a: &Option<Vec<DNSEntry>>, b: &Option<Vec<DNSEntry>>) -> (r: bool)
    ensures
        r == (opt_records_view(*a) == opt_records_view(*b)),
{
    match (a, b) {
        (Some(x), Some(y)) => records_equal(x, y),
        (None, None) => true,
        _ => false,
    }
}

impl Clone for DNSEntry {
    fn clone(&self) -> (r: DNSEntry)
        ensures
            r@ == self@,
    {
        DNSEntry {
            domain_name: self.domain_name.clone(),
            type_of_value: self.type_of_value.clone(),
            value: self.value.clone(),
            ttl: self.ttl,
            priority: self.priority,
        }
    }
}

impl PartialEq for DNSEntry {
    fn eq(&self, other: &DNSEntry) -> (r: bool) {
        let same_priority = match (self.priority, other.priority) {
            (Some(p), Some(q)) => p == q,
            (None, None) => true,
            _ => false,
        };
        self.domain_name.same_labels(&other.domain_name) && self.type_of_value == other.type_of_value
            && self.value == other.value && self.ttl == other.ttl && same_priority
    }
}

impl vstd::std_specs::cmp::PartialEqSpecImpl for DNSEntry {
    open spec fn obeys_eq_spec() -> bool {
        true
    }

    open spec fn eq_spec(&self, other: &DNSEntry) -> bool {
        self@ == other@
    }
}

impl Eq for DNSEntry {
}

/// The question of a message: the name asked about and the record type wanted.
#[derive(Debug)]
pub struct DNSQueryInfo {
    pub name: Domain,
    pub type_of_value: QueryType,
}

/// What a question holds, as mathematical values.
pub ghost struct QueryView {
    pub name: Seq<Seq<char>>,
    pub qtype: QueryType,
}

impl View for DNSQueryInfo {
    type V = QueryView;

    open spec fn view(&self) -> QueryView {
        QueryView { name: self.name@, qtype: self.type_of_value }
    }
}

impl Clone for DNSQueryInfo {
    fn clone(&self) -> (r: DNSQueryInfo)
        ensures
            r@ == self@,
    {
        DNSQueryInfo { name: self.name.clone(), type_of_value: self.type_of_value }
    }
}

impl PartialEq for DNSQueryInfo {
    fn eq(&self, other: &DNSQueryInfo) -> (r: bool) {
        self.name.same_labels(&other.name) && self.type_of_value == other.type_of_value
    }
}

impl vstd::std_specs::cmp::PartialEqSpecImpl for DNSQueryInfo {
    open spec fn obeys_eq_spec() -> bool {
        true
    }

    open spec fn eq_spec(&self, other: &DNSQueryInfo) -> bool {
        self@ == other@
    }
}

impl Eq for DNSQueryInfo {
}

/// The header of a message.
#[derive(Debug, Clone, Copy, PartialEq, Eq, Hash, Structural)]
pub struct DNSMessageHeaders {
    pub message_id: u16,
    pub flags: u8,
    pub response_code: Option<u8>,
    pub number_of_values: Option<u8>,
    pub number_of_authorities: Option<u8>,
    pub number_of_extra_values: Option<u8>,
}

/// The body of a message: the question and the three optional record sections.
#[derive(Debug)]
pub struct DNSMessageData {
    pub query_info: DNSQueryInfo,
    pub response_values: Option<Vec<DNSEntry>>,
    pub authorities_values: Option<Vec<DNSEntry>>,
    pub extra_values: Option<Vec<DNSEntry>>,
}

/// What a message body holds, as mathematical values.
pub ghost struct DataView {
    pub query: QueryView,
    pub answers: Option<Seq<RecordView>>,
    pub authorities: Option<Seq<RecordView>>,
    pub extras: Option<Seq<RecordView>>,
}

impl View for DNSMessageData {
    type V = DataView;

    open spec fn view(&self) -> DataView {
        DataView {
            query: self.query_info@,
            answers: opt_records_view(self.response_values),
            authorities: opt_records_view(self.authorities_values),
            extras: opt_records_view(self.extra_values),
        }
    }
}

impl Clone for DNSMessageData {
    fn clone(&self) -> (r: DNSMessageData)
        ensures
            r@ == self@,
    {
        DNSMessageData {
            query_info: self.query_info.clone(),
            response_values: clone_opt_records(&self.response_values),
            authorities_values: clone_opt_records(&self.authorities_values),
            extra_values: clone_opt_records(&self.extra_values),
        }
    }
}

impl PartialEq for DNSMessageData {
    fn eq(&self, other: &DNSMessageData) -> (r: bool) {
        self.query_info.eq(&other.query_info) && opt_records_equal(
            &self.response_values,
            &other.response_values,
        ) && opt_records_equal(&self.authorities_values, &other.authorities_values)
            && opt_records_equal(&self.extra_values, &other.extra_values)
    }
}

impl vstd::std_specs::cmp::PartialEqSpecImpl for DNSMessageData {
    open spec fn obeys_eq_spec() -> bool {
        true
    }

    open spec fn eq_spec(&self, other: &DNSMessageData) -> bool {
        self@ == other@
    }
}

impl Eq for DNSMessageData {
}

/// A message: header and body.
#[derive(Debug)]
pub struct DNSMessage {
    pub header: DNSMessageHeaders,
    pub data: DNSMessageData,
}

/// What a message holds, as mathematical values.
pub ghost struct MessageView {
    pub header: DNSMessageHeaders,
    pub data: DataView,
}

impl View for DNSMessage {
    type V = MessageView;

    open spec fn view(&self) -> MessageView {
        MessageView { header: self.header, data: self.data@ }
    }
}

impl Clone for DNSMessage {
    fn clone(&self) -> (r: DNSMessage)
        ensures
            r@ == self@,
    {
        DNSMessage { header: self.header, data: self.data.clone() }
    }
}

impl PartialEq for DNSMessage {
    fn eq(&self, other: &DNSMessage) -> (r: bool) {
        self.header == other.header && self.data.eq(&other.data)
    }
}

impl vstd::std_specs::cmp::PartialEqSpecImpl for DNSMessage {
    open spec fn obeys_eq_spec() -> bool {
        true
    }

    open spec fn eq_spec(&self, other: &DNSMessage) -> bool {
        self@ == other@
    }
}

impl Eq for DNSMessage {
}

/// Relies on rand's `random`: a value drawn from the thread-local generator.
/// Nothing is promised of the value.
pub assume_specification<T>[ rand::random::<T> ]() -> (r: T)
    where
        rand::distributions::Standard: rand::distributions::Distribution<T>,
;

/// The text form of a record: owner (fully qualified), type, value and time to live,
/// separated by spaces, then the priority if there is one.
pub open spec fn record_text(r: RecordView) -> Seq<char> {
    let base = render_qualified(r.owner) + seq![' '] + r.rtype + seq![' '] + r.value + seq![' ']
        + decimal(r.ttl as nat);
    match r.priority {
        Some(p) => base + seq![' '] + decimal(p as nat),
        None => base,
    }
}

/// The text forms of records, separated by `','`.
pub open spec fn records_text(s: Seq<RecordView>) -> Seq<char>
    decreases s.len(),
{
    if s.len() == 0 {
        Seq::empty()
    } else if s.len() == 1 {
        record_text(s[0])
    } else {
        records_text(s.drop_last()) + seq![','] + record_text(s.last())
    }
}

/// The text form of a record section: its records then `';'`; nothing when absent or empty.
pub open spec fn section_text(o: Option<Seq<RecordView>>) -> Seq<char> {
    match o {
        Some(s) => if s.len() > 0 {
            records_text(s) + seq![';']
        } else {
            Seq::empty()
        },
        None => Seq::empty(),
    }
}

/// The text form of a question: `name,TYPE;`.
pub open spec fn query_text(q: QueryView) -> Seq<char> {
    render_labels(q.name) + seq![','] + query_type_text(q.qtype) + seq![';']
}

/// The text form of a message body: the question, then each present section.
pub open spec fn data_text(d: DataView) -> Seq<char> {
    query_text(d.query) + section_text(d.answers) + section_text(d.authorities) + section_text(
        d.extras,
    )
}

/// The names of the flag combinations that a header may carry.
pub open spec fn flags_text(f: u8) -> Option<Seq<char>> {
    if f == 0 {
        Some(Seq::empty())
    } else if f == 1 {
        Some(seq!['A'])
    } else if f == 2 {
        Some(seq!['R'])
    } else if f == 4 {
        Some(seq!['Q'])
    } else if f == 3 {
        Some(seq!['R', '+', 'A'])
    } else if f == 6 {
        Some(seq!['Q', '+', 'R'])
    } else {
        None
    }
}

/// An optional count or code, zero when absent.
pub open spec fn or_zero(o: Option<u8>) -> nat {
    match o {
        Some(v) => v as nat,
        None => 0,
    }
}

/// The text form of a header: id, flags, code and the three counts, separated by `','`, then `';'`.
pub open spec fn header_text(h: DNSMessageHeaders) -> Seq<char> {
    decimal(h.message_id as nat) + seq![','] + flags_text(h.flags).unwrap() + seq![','] + decimal(
        or_zero(h.response_code),
    ) + seq![','] + decimal(or_zero(h.number_of_values)) + seq![','] + decimal(
        or_zero(h.number_of_authorities),
    ) + seq![','] + decimal(or_zero(h.number_of_extra_values)) + seq![';']
}

/// The text form of a message: its header then its body.
pub open spec fn message_text(m: MessageView) -> Seq<char> {
    header_text(m.header) + data_text(m.data)
}

/// The message that `from_string` gives for an unknown type name.
pub open spec fn unknown_type_text(s: Seq<char>) -> Seq<char> {
    "Cannot find QueryType of "@ + s
}

impl QueryType {
    /// The name of the type.
    pub fn get_str(&self) -> (r: &'static str)
        ensures
            r@ == query_type_text(*self),
    {
        proof {
            reveal_strlit("NS");
            reveal_strlit("A");
            reveal_strlit("CNAME");
            reveal_strlit("MX");
            reveal_strlit("PTR");
        }
        let r = match self {
            QueryType::NS => "NS",
            QueryType::A => "A",
            QueryType::CNAME => "CNAME",
            QueryType::MX => "MX",
            QueryType::PTR => "PTR",
        };
        assert(r@ =~= query_type_text(*self));
        r
    }

    /// The type with the given name, or an error that names the text.
    pub fn from_string(query_type: String) -> (r: Result<QueryType, String>)
        ensures
            r is Ok <==> exists|t: QueryType| query_type_text(t) == query_type@,
            r is Ok ==> query_type_text(r->Ok_0) == query_type@,
            r is Err ==> r->Err_0@ == unknown_type_text(query_type@),
    {
        let all = [QueryType::NS, QueryType::A, QueryType::CNAME, QueryType::MX, QueryType::PTR];
        let mut i: usize = 0;
        while i < 5
            invariant
                i <= 5,
                all@ == seq![QueryType::NS, QueryType::A, QueryType::CNAME, QueryType::MX, QueryType::PTR],
                forall|k: int| 0 <= k < i ==> query_type_text(#[trigger] all@[k]) != query_type@,
            decreases 5 - i,
        {
            let t = all[i];
            if text_is(query_type.as_str(), t.get_str()) {
                return Ok(t);
            }
            i = i + 1;
        }
        proof {
            assert forall|t: QueryType| query_type_text(t) != query_type@ by {
                match t {
                    QueryType::NS => assert(all@[0] == t),
                    QueryType::A => assert(all@[1] == t),
                    QueryType::CNAME => assert(all@[2] == t),
                    QueryType::MX => assert(all@[3] == t),
                    QueryType::PTR => assert(all@[4] == t),
                }
            }
        }
        let mut e = String::from_str("Cannot find QueryType of ");
        e.append(query_type.as_str());
        Err(e)
    }
}

impl DNSEntry {
    /// An empty record: root owner, empty type and value, zero time to live, no priority.
    pub fn new() -> (r: DNSEntry)
        ensures
            r@ == blank_record(),
    {
        let r = DNSEntry {
            domain_name: Domain::new_empty(),
            type_of_value: String::new(),
            value: String::new(),
            ttl: 0,
            priority: None,
        };
        assert(r@.owner =~= Seq::<Seq<char>>::empty());
        assert(r@.rtype =~= Seq::<char>::empty());
        assert(r@.value =~= Seq::<char>::empty());
        r
    }

    /// A copy of the record's value.
    pub fn get_value(&self) -> (r: String)
        ensures
            r@ == self.value@,
    {
        self.value.clone()
    }

    /// The text form of the record, as a zone file line holds it.
    pub fn get_string(&self) -> (r: String)
        ensures
            r@ == record_text(self@),
    {
        let mut r = self.domain_name.to_qualified_string();
        r.append(space_str());
        r.append(self.type_of_value.as_str());
        r.append(space_str());
        r.append(self.value.as_str());
        r.append(space_str());
        let ttl = decimal_string(self.ttl as u64);
        r.append(ttl.as_str());
        match self.priority {
            Some(p) => {
                r.append(space_str());
                let ps = decimal_string(p as u64);
                r.append(ps.as_str());
            },
            None => {},
        }
        r
    }
}

impl DNSQueryInfo {
    /// A question about the root, for `A` records.
    pub fn new() -> (r: DNSQueryInfo)
        ensures
            r@.name.len() == 0,
            r.type_of_value == QueryType::A,
    {
        DNSQueryInfo { name: Domain::new_empty(), type_of_value: QueryType::A }
    }

    /// The text form of the question.
    pub fn get_string(&self) -> (r: String)
        ensures
            r@ == query_text(self@),
    {
        let mut r = self.name.to_string();
        r.append(comma_str());
        r.append(self.type_of_value.get_str());
        r.append(semicolon_str());
        r
    }
}

/// Appends the text form of a record section to `out`.
fn append_section(out: &mut String, o: &Option<Vec<DNSEntry>>)
    ensures
        final(out)@ == old(out)@ + section_text(opt_records_view(*o)),
{
    match o {
        Some(v) => {
            if v.len() == 0 {
                assert(section_text(opt_records_view(*o)) =~= Seq::<char>::empty());
                return;
            }
            let ghost start = out@;
            let first = v[0].get_string();
            out.append(first.as_str());
            let mut i: usize = 1;
            proof {
                assert(records_view(v@).subrange(0, 1) =~= seq![v@[0]@]);
            }
            while i < v.len()
                invariant
                    1 <= i <= v@.len(),
                    out@ == start + records_text(records_view(v@).subrange(0, i as int)),
                decreases v@.len() - i,
            {
                out.append(comma_str());
                let t = v[i].get_string();
                out.append(t.as_str());
                proof {
                    let l = records_view(v@).subrange(0, i + 1);
                    assert(l.drop_last() =~= records_view(v@).subrange(0, i as int));
                    assert(l.last() == v@[i as int]@);
                }
                i = i + 1;
            }
            out.append(semicolon_str());
            assert(records_view(v@).subrange(0, v@.len() as int) =~= records_view(v@));
        },
        None => {
            assert(section_text(opt_records_view(*o)) =~= Seq::<char>::empty());
        },
    }
}

impl DNSMessageData {
    /// A body with a default question and no sections.
    pub fn new() -> (r: DNSMessageData)
        ensures
            r@.query.name.len() == 0,
            r@.query.qtype == QueryType::A,
            r.response_values is None,
            r.authorities_values is None,
            r.extra_values is None,
    {
        DNSMessageData {
            query_info: DNSQueryInfo::new(),
            response_values: None,
            authorities_values: None,
            extra_values: None,
        }
    }

    /// The text form of the body.
    pub fn get_string(&self) -> (r: String)
        ensures
            r@ == data_text(self@),
    {
        let mut r = self.query_info.get_string();
        append_section(&mut r, &self.response_values);
        append_section(&mut r, &self.authorities_values);
        append_section(&mut r, &self.extra_values);
        r
    }
}

impl DNSMessageHeaders {
    /// A header with a random id, no flags, no code and no counts.
    pub fn new() -> (r: DNSMessageHeaders)
        ensures
            r.flags == 0,
            r.response_code is None,
            r.number_of_values is None,
            r.number_of_authorities is None,
            r.number_of_extra_values is None,
    {
        let id: u16 = rand::random();
        DNSMessageHeaders {
            message_id: id,
            flags: 0,
            response_code: None,
            number_of_values: None,
            number_of_authorities: None,
            number_of_extra_values: None,
        }
    }

    /// The name of the flag combination, or an error for a combination that has none.
    pub fn decode_flags(&self) -> (r: Result<&'static str, &'static str>)
        ensures
            r is Ok <==> flags_text(self.flags) is Some,
            r is Ok ==> r->Ok_0@ == flags_text(self.flags).unwrap(),
    {
        proof {
            reveal_strlit("");
            reveal_strlit("A");
            reveal_strlit("R");
            reveal_strlit("Q");
            reveal_strlit("R+A");
            reveal_strlit("Q+R");
        }
        let r = match self.flags {
            0 => Ok(""),
            1 => Ok("A"),
            2 => Ok("R"),
            4 => Ok("Q"),
            3 => Ok("R+A"),
            6 => Ok("Q+R"),
            _ => Err("Flag value does not match any combination of flags"),
        };
        proof {
            if r is Ok {
                assert(r->Ok_0@ =~= flags_text(self.flags).unwrap());
            }
        }
        r
    }

    /// The text form of the header.
    pub fn get_string(&self) -> (r: String)
        requires
            flags_text(self.flags) is Some,
        ensures
            r@ == header_text(*self),
    {
        let mut r = decimal_string(self.message_id as u64);
        r.append(comma_str());
        match self.decode_flags() {
            Ok(f) => r.append(f),
            Err(_) => {},
        }
        r.append(comma_str());
        let rc = decimal_string(optional_or_zero(self.response_code) as u64);
        r.append(rc.as_str());
        r.append(comma_str());
        let nov = decimal_string(optional_or_zero(self.number_of_values) as u64);
        r.append(nov.as_str());
        r.append(comma_str());
        let noa = decimal_string(optional_or_zero(self.number_of_authorities) as u64);
        r.append(noa.as_str());
        r.append(comma_str());
        let noev = decimal_string(optional_or_zero(self.number_of_extra_values) as u64);
        r.append(noev.as_str());
        r.append(semicolon_str());
        r
    }
}

fn optional_or_zero(o: Option<u8>) -> (r: u8)
    ensures
        r as nat == or_zero(o),
{
    match o {
        Some(v) => v,
        None => 0,
    }
}

impl DNSMessage {
    /// A message with a fresh header and a default body.
    pub fn new() -> (r: DNSMessage)
        ensures
            r.header.flags == 0,
            r.header.response_code is None,
            r.header.number_of_values is None,
            r.header.number_of_authorities is None,
            r.header.number_of_extra_values is None,
            r@.data.query.name.len() == 0,
            r@.data.query.qtype == QueryType::A,
            r@.data.answers is None,
            r@.data.authorities is None,
            r@.data.extras is None,
    {
        DNSMessage { header: DNSMessageHeaders::new(), data: DNSMessageData::new() }
    }

    /// The id of the message.
    pub fn get_message_id(&self) -> (r: u16)
        ensures
            r == self.header.message_id,
    {
        self.header.message_id
    }

    /// The text form of the message.
    pub fn get_string(&self) -> (r: String)
        requires
            flags_text(self.header.flags) is Some,
        ensures
            r@ == message_text(self@),
    {
        let mut r = self.header.get_string();
        let d = self.data.get_string();
        r.append(d.as_str());
        r
    }
}

/// A query for records of type `query_type` owned by `domain_name`, with the given flags and
/// a random id.
pub fn query_builder(domain_name: Domain, query_type: QueryType, flag: u8) -> (r: DNSMessage)
    ensures
        r.header.flags == flag,
        r.header.response_code is None,
        r.header.number_of_values is None,
        r.header.number_of_authorities is None,
        r.header.number_of_extra_values is None,
        r@.data.query == (QueryView { name: domain_name@, qtype: query_type }),
        r@.data.answers is None,
        r@.data.authorities is None,
        r@.data.extras is None,
{
    let id: u16 = rand::random();
    DNSMessage {
        header: DNSMessageHeaders {
            message_id: id,
            flags: flag,
            response_code: None,
            number_of_values: None,
            number_of_authorities: None,
            number_of_extra_values: None,
        },
        data: DNSMessageData {
            query_info: DNSQueryInfo { name: domain_name, type_of_value: query_type },
            response_values: None,
            authorities_values: None,
            extra_values: None,
        },
    }
}

} // verus!
