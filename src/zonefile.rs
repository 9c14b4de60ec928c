use vstd::prelude::*;

use crate::database::{
    add_delegation, empty_zone, parse_u64, parsed_u64, DatabaseView, DomainDatabase, SoaView,
};
use crate::domain::{parse_labels, Domain};
use crate::message::{query_type_text, DNSEntry, QueryType, RecordView};
use crate::text::{ends_with_dot, replace_all, replace_all_text, text_is};
use crate::zones::pushed;

verus! {

/// Lines `NAME DEFAULT VALUE`: a substitution variable and its value.
pub const VARIABLE_PATTERN: &'static str = "(?m)^([@A-Za-z.0-9-]+) +DEFAULT +([A-Za-z.0-9\\\\.-]+)";

/// Lines `NAME SOA... VALUE TTL [PRIORITY]`: the start-of-authority pseudo-records.
pub const SOA_PATTERN: &'static str =
    "(?m)^([@A-Za-z.0-9-]+) +(SOA[A-Z]+) +([A-Za-z.0-9\\\\.-]+) +([A-Z0-9]+) *([A-Z0-9]+)?";

/// Lines `NAME TYPE VALUE TTL [PRIORITY]` for the record types a zone holds.
pub const ENTRY_PATTERN: &'static str =
    "(?m)^([@A-Za-z.0-9-]+) +(NS|A|CNAME|MX|PTR) +([A-Za-z.0-9\\\\.-]+) +([A-Z0-9]+) *([A-Z0-9]+)?";

/// Every match of the regular expression `pattern` in `text`, in order; for each match,
/// the text of each capture group (group zero is the whole match), none for a group that
/// took no part in the match.
pub uninterp spec fn regex_captures(pattern: Seq<char>, text: Seq<char>) -> Seq<
    Seq<Option<Seq<char>>>,
>;

/// One match as plain text.
pub open spec fn row_view(row: Vec<Option<String>>) -> Seq<Option<Seq<char>>> {
    row@.map_values(
        |g: Option<String>|
            match g {
                Some(s) => Some(s@),
                None => None,
            },
    )
}

/// The captures as plain text.
pub open spec fn captures_view(v: Seq<Vec<Option<String>>>) -> Seq<Seq<Option<Seq<char>>>> {
    v.map_values(|row: Vec<Option<String>>| row_view(row))
}

/// The variables as plain text.
pub open spec fn variables_view(v: Seq<(String, String)>) -> Variables {
    v.map_values(|p: (String, String)| (p.0@, p.1@))
}

/// Relies on regex's `Regex::new` and `Regex::captures_iter`: the matches of the pattern in
/// the text, each with the text of every capture group; none when the pattern is not a
/// valid regular expression, which the grammar patterns of this library all are.
#[verifier::external_body]
pub(crate) fn captures_all(pattern: &str, text: &str) -> (r: Option<Vec<Vec<Option<String>>>>)
    ensures
        r matches Some(v) ==> captures_view(v@) == regex_captures(pattern@, text@),
        pattern@ == VARIABLE_PATTERN@ || pattern@ == SOA_PATTERN@ || pattern@ == ENTRY_PATTERN@
            || pattern@ == crate::config::CONFIG_PATTERN@ ==> r is Some,
{
    match regex::Regex::new(pattern) {
        Ok(re) => Some(
            re.captures_iter(text).map(
                |c| c.iter().map(|m| m.map(|m| m.as_str().to_string())).collect(),
            ).collect(),
        ),
        Err(_) => None,
    }
}

/// Why zone text could not be read.
#[derive(Debug, Clone, Copy, PartialEq, Eq, Structural)]
pub enum ZoneParseError {
    /// A matched line lacks a field the grammar requires.
    MissingField,
    /// A time to live is not a number that fits in 32 bits.
    BadTtl,
    /// A priority is not a number that fits in 16 bits.
    BadPriority,
    /// A start-of-authority line names a field that does not exist.
    UnknownSoaField,
    /// A name is relative but no `@` variable gives the origin.
    NoOrigin,
}

/// The substitution variables, in the order they were first defined.
pub type Variables = Seq<(Seq<char>, Seq<char>)>;

/// The text of group `k` of a match, if it took part.
pub open spec fn group(row: Seq<Option<Seq<char>>>, k: int) -> Option<Seq<char>> {
    if 0 <= k < row.len() {
        row[k]
    } else {
        None
    }
}

/// Where the variable `k` stands, if it is defined.
pub open spec fn variable_index(vars: Variables, k: Seq<char>) -> Option<int> {
    if exists|i: int| 0 <= i < vars.len() && vars[i].0 == k {
        Some(choose|i: int| 0 <= i < vars.len() && vars[i].0 == k)
    } else {
        None
    }
}

/// No variable is defined twice.
pub open spec fn variables_unique(vars: Variables) -> bool {
    forall|i: int, j: int| 0 <= i < j < vars.len() ==> #[trigger] vars[i].0 != #[trigger] vars[j].0
}

/// The variables after defining `k` as `v`: a new definition replaces an earlier one.
pub open spec fn define_variable(vars: Variables, k: Seq<char>, v: Seq<char>) -> Variables {
    match variable_index(vars, k) {
        Some(i) => vars.update(i, (k, v)),
        None => vars.push((k, v)),
    }
}

/// The variables that the `DEFAULT` lines define.
pub open spec fn collect_variables(rows: Seq<Seq<Option<Seq<char>>>>) -> Result<
    Variables,
    ZoneParseError,
>
    decreases rows.len(),
{
    if rows.len() == 0 {
        Ok(Seq::empty())
    } else {
        match collect_variables(rows.drop_last()) {
            Err(e) => Err(e),
            Ok(vars) => match (group(rows.last(), 1), group(rows.last(), 2)) {
                (Some(k), Some(v)) => Ok(define_variable(vars, k, v)),
                _ => Err(ZoneParseError::MissingField),
            },
        }
    }
}

/// `s` with every variable replaced by its value, variable by variable.
pub open spec fn substitute(s: Seq<char>, vars: Variables) -> Seq<char>
    decreases vars.len(),
{
    if vars.len() == 0 {
        s
    } else {
        replace_all(substitute(s, vars.drop_last()), vars.last().0, vars.last().1)
    }
}

/// The fields of a matched record line, as mathematical values.
pub ghost struct LineFields {
    pub name: Seq<char>,
    pub rtype: Seq<char>,
    pub value: Seq<char>,
    pub ttl: u32,
    pub priority: Option<u16>,
}

/// The fields of a matched record line: the name and time to live have the variables
/// replaced; the time to live must fit in 32 bits and the priority, if any, in 16.
pub open spec fn line_fields(row: Seq<Option<Seq<char>>>, vars: Variables) -> Result<
    LineFields,
    ZoneParseError,
> {
    match (group(row, 1), group(row, 2), group(row, 3), group(row, 4)) {
        (Some(n), Some(t), Some(v), Some(ttl_text)) => {
            let priority: Result<Option<u16>, ZoneParseError> = match group(row, 5) {
                None => Ok(None),
                Some(p) => match parsed_u64(p) {
                    Some(x) => if x <= 65535 {
                        Ok(Some(x as u16))
                    } else {
                        Err(ZoneParseError::BadPriority)
                    },
                    None => Err(ZoneParseError::BadPriority),
                },
            };
            match priority {
                Err(e) => Err(e),
                Ok(prio) => match parsed_u64(substitute(ttl_text, vars)) {
                    Some(x) => if x <= 0xffff_ffff {
                        Ok(
                            LineFields {
                                name: substitute(n, vars),
                                rtype: t,
                                value: v,
                                ttl: x as u32,
                                priority: prio,
                            },
                        )
                    } else {
                        Err(ZoneParseError::BadTtl)
                    },
                    None => Err(ZoneParseError::BadTtl),
                },
            }
        },
        _ => Err(ZoneParseError::MissingField),
    }
}

/// The record that line fields make, owned by the domain `name` writes.
pub open spec fn line_record(f: LineFields, name: Seq<char>) -> RecordView {
    RecordView {
        owner: parse_labels(name),
        rtype: f.rtype,
        value: f.value,
        ttl: f.ttl,
        priority: f.priority,
    }
}

/// The start-of-authority data with the field named `t` set to `r`.
pub open spec fn set_soa_field(soa: SoaView, t: Seq<char>, r: RecordView) -> Option<SoaView> {
    if t == "SOASP"@ {
        Some(SoaView { primary_ns: r, ..soa })
    } else if t == "SOAADMIN"@ {
        Some(SoaView { contact_email: r, ..soa })
    } else if t == "SOASERIAL"@ {
        Some(SoaView { serial: r, ..soa })
    } else if t == "SOAREFRESH"@ {
        Some(SoaView { refresh: r, ..soa })
    } else if t == "SOARETRY"@ {
        Some(SoaView { retry: r, ..soa })
    } else if t == "SOAEXPIRE"@ {
        Some(SoaView { expire: r, ..soa })
    } else {
        None
    }
}

/// The zone after reading one start-of-authority line.
pub open spec fn apply_soa(db: DatabaseView, row: Seq<Option<Seq<char>>>, vars: Variables) -> Result<
    DatabaseView,
    ZoneParseError,
> {
    match line_fields(row, vars) {
        Err(e) => Err(e),
        Ok(f) => match set_soa_field(db.soa, f.rtype, line_record(f, f.name)) {
            Some(soa) => Ok(DatabaseView { soa, ..db }),
            None => Err(ZoneParseError::UnknownSoaField),
        },
    }
}

/// The zone after reading start-of-authority lines in order; the first failure, if any.
pub open spec fn apply_soas(
    db: DatabaseView,
    rows: Seq<Seq<Option<Seq<char>>>>,
    vars: Variables,
) -> Result<DatabaseView, ZoneParseError>
    decreases rows.len(),
{
    if rows.len() == 0 {
        Ok(db)
    } else {
        match apply_soas(db, rows.drop_last(), vars) {
            Err(e) => Err(e),
            Ok(d) => apply_soa(d, rows.last(), vars),
        }
    }
}

/// The value of variable `k`, if defined.
pub open spec fn variable_value(vars: Variables, k: Seq<char>) -> Option<Seq<char>> {
    match variable_index(vars, k) {
        Some(i) => Some(vars[i].1),
        None => None,
    }
}

/// A record name made absolute: a name that does not end with `'.'` gets `'.'` and the
/// origin (the `@` variable) appended.
pub open spec fn complete_name(name: Seq<char>, vars: Variables) -> Option<Seq<char>> {
    if name.len() > 0 && name.last() == '.' {
        Some(name)
    } else {
        match variable_value(vars, seq!['@']) {
            Some(origin) => Some(name + seq!['.'] + origin),
            None => None,
        }
    }
}

/// The zone with record `r` filed by its type; name server records under `apex`.
pub open spec fn file_record(db: DatabaseView, apex: Seq<Seq<char>>, r: RecordView) -> DatabaseView {
    if r.rtype == query_type_text(QueryType::NS) {
        DatabaseView { delegations: add_delegation(db.delegations, apex, r), ..db }
    } else if r.rtype == query_type_text(QueryType::A) {
        DatabaseView { a: pushed(db.a, r), ..db }
    } else if r.rtype == query_type_text(QueryType::CNAME) {
        DatabaseView { cname: pushed(db.cname, r), ..db }
    } else if r.rtype == query_type_text(QueryType::MX) {
        DatabaseView { mx: pushed(db.mx, r), ..db }
    } else if r.rtype == query_type_text(QueryType::PTR) {
        DatabaseView { ptr: pushed(db.ptr, r), ..db }
    } else {
        db
    }
}

/// The zone after reading one record line.
pub open spec fn apply_entry(db: DatabaseView, row: Seq<Option<Seq<char>>>, vars: Variables) -> Result<
    DatabaseView,
    ZoneParseError,
> {
    match line_fields(row, vars) {
        Err(e) => Err(e),
        Ok(f) => match complete_name(f.name, vars) {
            None => Err(ZoneParseError::NoOrigin),
            Some(name) => Ok(file_record(db, parse_labels(name), line_record(f, name))),
        },
    }
}

/// The zone after reading record lines in order; the first failure, if any.
pub open spec fn apply_entries(
    db: DatabaseView,
    rows: Seq<Seq<Option<Seq<char>>>>,
    vars: Variables,
) -> Result<DatabaseView, ZoneParseError>
    decreases rows.len(),
{
    if rows.len() == 0 {
        Ok(db)
    } else {
        match apply_entries(db, rows.drop_last(), vars) {
            Err(e) => Err(e),
            Ok(d) => apply_entry(d, rows.last(), vars),
        }
    }
}

/// The authoritative zone that the matched lines describe: variables first, then the
/// start-of-authority lines, then the record lines.
pub open spec fn zone_from_rows(
    var_rows: Seq<Seq<Option<Seq<char>>>>,
    soa_rows: Seq<Seq<Option<Seq<char>>>>,
    entry_rows: Seq<Seq<Option<Seq<char>>>>,
) -> Result<DatabaseView, ZoneParseError> {
    match collect_variables(var_rows) {
        Err(e) => Err(e),
        Ok(vars) => match apply_soas(empty_zone(true), soa_rows, vars) {
            Err(e) => Err(e),
            Ok(d) => apply_entries(d, entry_rows, vars),
        },
    }
}

proof fn lemma_variables_failure_stays(rows: Seq<Seq<Option<Seq<char>>>>, i: int)
    requires
        0 <= i <= rows.len(),
        collect_variables(rows.subrange(0, i)) is Err,
    ensures
        collect_variables(rows) == collect_variables(rows.subrange(0, i)),
    decreases rows.len() - i,
{
    if i < rows.len() {
        assert(rows.subrange(0, i + 1).drop_last() =~= rows.subrange(0, i));
        lemma_variables_failure_stays(rows, i + 1);
    } else {
        assert(rows.subrange(0, i) =~= rows);
    }
}

proof fn lemma_soas_failure_stays(
    db: DatabaseView,
    rows: Seq<Seq<Option<Seq<char>>>>,
    vars: Variables,
    i: int,
)
    requires
        0 <= i <= rows.len(),
        apply_soas(db, rows.subrange(0, i), vars) is Err,
    ensures
        apply_soas(db, rows, vars) == apply_soas(db, rows.subrange(0, i), vars),
    decreases rows.len() - i,
{
    if i < rows.len() {
        assert(rows.subrange(0, i + 1).drop_last() =~= rows.subrange(0, i));
        lemma_soas_failure_stays(db, rows, vars, i + 1);
    } else {
        assert(rows.subrange(0, i) =~= rows);
    }
}

proof fn lemma_entries_failure_stays(
    db: DatabaseView,
    rows: Seq<Seq<Option<Seq<char>>>>,
    vars: Variables,
    i: int,
)
    requires
        0 <= i <= rows.len(),
        apply_entries(db, rows.subrange(0, i), vars) is Err,
    ensures
        apply_entries(db, rows, vars) == apply_entries(db, rows.subrange(0, i), vars),
    decreases rows.len() - i,
{
    if i < rows.len() {
        assert(rows.subrange(0, i + 1).drop_last() =~= rows.subrange(0, i));
        lemma_entries_failure_stays(db, rows, vars, i + 1);
    } else {
        assert(rows.subrange(0, i) =~= rows);
    }
}

/// The text of group `k` of a match, if it took part.
pub(crate) fn group_text(row: &Vec<Option<String>>, k: usize) -> (r: Option<&String>)
    ensures
        match r {
            Some(t) => group(row_view(*row), k as int) == Some(t@),
            None => group(row_view(*row), k as int) is None,
        },
{
    if k < row.len() {
        match &row[k] {
            Some(t) => Some(t),
            None => None,
        }
    } else {
        None
    }
}

/// Defines variable `k` as `v`, replacing an earlier definition.
fn define(vars: &mut Vec<(String, String)>, k: &String, v: &String)
    requires
        variables_unique(variables_view(old(vars)@)),
    ensures
        variables_unique(variables_view(final(vars)@)),
        variables_view(final(vars)@) == define_variable(variables_view(old(vars)@), k@, v@),
{
    let ghost s = variables_view(vars@);
    let mut i: usize = 0;
    while i < vars.len()
        invariant
            i <= vars@.len(),
            s == variables_view(vars@),
            *vars == *old(vars),
            variables_unique(s),
            forall|j: int| 0 <= j < i ==> s[j].0 != k@,
        decreases vars@.len() - i,
    {
        proof {
            assert(s[i as int] == (vars@[i as int].0@, vars@[i as int].1@));
        }
        if vars[i].0 == *k {
            proof {
                assert(variable_index(s, k@) == Some(i as int)) by {
                    let c = choose|c: int| 0 <= c < s.len() && s[c].0 == k@;
                    assert(0 <= c < s.len() && s[c].0 == k@);
                    if c != i {
                        if c < i {
                            assert(s[c].0 != k@);
                        } else {
                            assert(s[i as int].0 != s[c].0);
                        }
                    }
                }
            }
            vars.set(i, (k.clone(), v.clone()));
            proof {
                assert(variables_view(vars@) =~= s.update(i as int, (k@, v@)));
            }
            return;
        }
        i = i + 1;
    }
    proof {
        assert(variable_index(s, k@) is None);
    }
    vars.push((k.clone(), v.clone()));
    proof {
        let t = s.push((k@, v@));
        assert(variables_view(vars@) =~= t);
        assert forall|a: int, b: int| 0 <= a < b < t.len() implies #[trigger] t[a].0
            != #[trigger] t[b].0 by {
            if b == s.len() {
                assert(s[a].0 != k@);
            } else {
                assert(s[a].0 != s[b].0);
            }
        }
    }
}

/// The variables that the matched `DEFAULT` lines define.
pub fn variables_from_captures(rows: &Vec<Vec<Option<String>>>) -> (r: Result<
    Vec<(String, String)>,
    ZoneParseError,
>)
    ensures
        match r {
            Ok(v) => collect_variables(captures_view(rows@)) == Ok::<Variables, ZoneParseError>(
                variables_view(v@),
            ) && variables_unique(variables_view(v@)),
            Err(e) => collect_variables(captures_view(rows@)) == Err::<Variables, ZoneParseError>(e),
        },
{
    let ghost cv = captures_view(rows@);
    let mut vars: Vec<(String, String)> = Vec::new();
    let mut i: usize = 0;
    assert(cv.subrange(0, 0) =~= Seq::<Seq<Option<Seq<char>>>>::empty());
    assert(variables_view(vars@) =~= Seq::<(Seq<char>, Seq<char>)>::empty());
    while i < rows.len()
        invariant
            i <= rows@.len(),
            cv == captures_view(rows@),
            variables_unique(variables_view(vars@)),
            collect_variables(cv.subrange(0, i as int)) == Ok::<Variables, ZoneParseError>(
                variables_view(vars@),
            ),
        decreases rows@.len() - i,
    {
        proof {
            let t = cv.subrange(0, i + 1);
            assert(t.drop_last() =~= cv.subrange(0, i as int));
            assert(t.last() == row_view(rows@[i as int]));
        }
        let row = &rows[i];
        match (group_text(row, 1), group_text(row, 2)) {
            (Some(k), Some(v)) => {
                define(&mut vars, k, v);
            },
            _ => {
                proof {
                    lemma_variables_failure_stays(cv, i + 1);
                }
                return Err(ZoneParseError::MissingField);
            },
        }
        i = i + 1;
    }
    assert(cv.subrange(0, cv.len() as int) =~= cv);
    Ok(vars)
}

/// `s` with every variable replaced by its value.
fn substitute_text(s: &str, vars: &Vec<(String, String)>) -> (r: String)
    ensures
        r@ == substitute(s@, variables_view(vars@)),
{
    let ghost vv = variables_view(vars@);
    let mut out = String::from_str(s);
    let mut i: usize = 0;
    assert(vv.subrange(0, 0) =~= Seq::<(Seq<char>, Seq<char>)>::empty());
    while i < vars.len()
        invariant
            i <= vars@.len(),
            vv == variables_view(vars@),
            out@ == substitute(s@, vv.subrange(0, i as int)),
        decreases vars@.len() - i,
    {
        proof {
            let t = vv.subrange(0, i + 1);
            assert(t.drop_last() =~= vv.subrange(0, i as int));
            assert(t.last() == (vars@[i as int].0@, vars@[i as int].1@));
        }
        out = replace_all_text(out.as_str(), vars[i].0.as_str(), vars[i].1.as_str());
        i = i + 1;
    }
    assert(vv.subrange(0, vv.len() as int) =~= vv);
    out
}

/// The fields of a matched record line.
fn read_line(row: &Vec<Option<String>>, vars: &Vec<(String, String)>) -> (r: Result<
    (String, String, String, u32, Option<u16>),
    ZoneParseError,
>)
    ensures
        match r {
            Ok(f) => line_fields(row_view(*row), variables_view(vars@)) == Ok::<
                LineFields,
                ZoneParseError,
            >(LineFields { name: f.0@, rtype: f.1@, value: f.2@, ttl: f.3, priority: f.4 }),
            Err(e) => line_fields(row_view(*row), variables_view(vars@)) == Err::<
                LineFields,
                ZoneParseError,
            >(e),
        },
{
    let n = group_text(row, 1);
    let t = group_text(row, 2);
    let v = group_text(row, 3);
    let ttl_text = group_text(row, 4);
    match (n, t, v, ttl_text) {
        (Some(n), Some(t), Some(v), Some(ttl_text)) => {
            let priority = match group_text(row, 5) {
                None => None,
                Some(p) => match parse_u64(p.as_str()) {
                    Some(x) => if x <= 65535 {
                        Some(x as u16)
                    } else {
                        return Err(ZoneParseError::BadPriority);
                    },
                    None => {
                        return Err(ZoneParseError::BadPriority);
                    },
                },
            };
            let ttl_full = substitute_text(ttl_text.as_str(), vars);
            let ttl = match parse_u64(ttl_full.as_str()) {
                Some(x) => if x <= 0xffff_ffff {
                    x as u32
                } else {
                    return Err(ZoneParseError::BadTtl);
                },
                None => {
                    return Err(ZoneParseError::BadTtl);
                },
            };
            let name = substitute_text(n.as_str(), vars);
            Ok((name, t.clone(), v.clone(), ttl, priority))
        },
        _ => Err(ZoneParseError::MissingField),
    }
}

/// The record that line fields make, owned by the domain `name` writes.
fn make_record(name: &String, f: &(String, String, String, u32, Option<u16>)) -> (r: DNSEntry)
    ensures
        r@ == line_record(
            LineFields { name: f.0@, rtype: f.1@, value: f.2@, ttl: f.3, priority: f.4 },
            name@,
        ),
{
    DNSEntry {
        domain_name: Domain::new(name.clone()),
        type_of_value: f.1.clone(),
        value: f.2.clone(),
        ttl: f.3,
        priority: f.4,
    }
}

/// Reads one start-of-authority line into `db`.
fn read_soa_line(db: &mut DomainDatabase, row: &Vec<Option<String>>, vars: &Vec<(String, String)>) -> (r:
    Result<(), ZoneParseError>)
    requires
        old(db).wf(),
    ensures
        final(db).wf(),
        match r {
            Ok(_) => apply_soa(old(db)@, row_view(*row), variables_view(vars@)) == Ok::<
                DatabaseView,
                ZoneParseError,
            >(final(db)@),
            Err(e) => apply_soa(old(db)@, row_view(*row), variables_view(vars@)) == Err::<
                DatabaseView,
                ZoneParseError,
            >(e),
        },
{
    let f = match read_line(row, vars) {
        Ok(f) => f,
        Err(e) => {
            return Err(e);
        },
    };
    let e = make_record(&f.0, &f);
    let t = f.1.as_str();
    if text_is(t, "SOASP") {
        db.soa_entries.primary_ns = e;
    } else if text_is(t, "SOAADMIN") {
        db.soa_entries.contact_email = e;
    } else if text_is(t, "SOASERIAL") {
        db.soa_entries.serial = e;
    } else if text_is(t, "SOAREFRESH") {
        db.soa_entries.refresh = e;
    } else if text_is(t, "SOARETRY") {
        db.soa_entries.retry = e;
    } else if text_is(t, "SOAEXPIRE") {
        db.soa_entries.expire = e;
    } else {
        return Err(ZoneParseError::UnknownSoaField);
    }
    Ok(())
}

/// Reads one record line into `db`.
fn read_entry_line(db: &mut DomainDatabase, row: &Vec<Option<String>>, vars: &Vec<(String, String)>) -> (r:
    Result<(), ZoneParseError>)
    requires
        old(db).wf(),
        variables_unique(variables_view(vars@)),
    ensures
        final(db).wf(),
        match r {
            Ok(_) => apply_entry(old(db)@, row_view(*row), variables_view(vars@)) == Ok::<
                DatabaseView,
                ZoneParseError,
            >(final(db)@),
            Err(e) => apply_entry(old(db)@, row_view(*row), variables_view(vars@)) == Err::<
                DatabaseView,
                ZoneParseError,
            >(e),
        },
{
    let f = match read_line(row, vars) {
        Ok(f) => f,
        Err(e) => {
            return Err(e);
        },
    };
    let name = if ends_with_dot(f.0.as_str()) {
        f.0.clone()
    } else {
        match origin(vars) {
            Some(o) => {
                proof {
                    reveal_strlit(".");
                    assert("."@ =~= seq!['.']);
                }
                let mut full = f.0.clone();
                full.append(".");
                full.append(o.as_str());
                full
            },
            None => {
                return Err(ZoneParseError::NoOrigin);
            },
        }
    };
    let e = make_record(&name, &f);
    let apex = Domain::new(name.clone());
    let t = f.1.as_str();
    if text_is(t, QueryType::NS.get_str()) {
        db.add_ns_record(apex, e);
    } else if text_is(t, QueryType::A.get_str()) {
        db.add_a_record(e);
    } else if text_is(t, QueryType::CNAME.get_str()) {
        db.add_cname_record(e);
    } else if text_is(t, QueryType::MX.get_str()) {
        db.add_mx_record(e);
    } else if text_is(t, QueryType::PTR.get_str()) {
        db.add_ptr_record(e);
    }
    Ok(())
}

/// The value of the `@` variable, the origin of relative names.
fn origin(vars: &Vec<(String, String)>) -> (r: Option<String>)
    requires
        variables_unique(variables_view(vars@)),
    ensures
        match r {
            Some(o) => variable_value(variables_view(vars@), seq!['@']) == Some(o@),
            None => variable_value(variables_view(vars@), seq!['@']) is None,
        },
{
    let ghost s = variables_view(vars@);
    proof {
        reveal_strlit("@");
        assert("@"@ =~= seq!['@']);
    }
    let mut i: usize = 0;
    while i < vars.len()
        invariant
            i <= vars@.len(),
            s == variables_view(vars@),
            variables_unique(s),
            "@"@ == seq!['@'],
            forall|j: int| 0 <= j < i ==> s[j].0 != seq!['@'],
        decreases vars@.len() - i,
    {
        proof {
            assert(s[i as int] == (vars@[i as int].0@, vars@[i as int].1@));
        }
        if text_is(vars[i].0.as_str(), "@") {
            proof {
                let k = seq!['@'];
                assert(variable_index(s, k) == Some(i as int)) by {
                    let c = choose|c: int| 0 <= c < s.len() && s[c].0 == k;
                    assert(0 <= c < s.len() && s[c].0 == k);
                    if c != i {
                        if c < i {
                            assert(s[c].0 != k);
                        } else {
                            assert(s[i as int].0 != s[c].0);
                        }
                    }
                }
            }
            return Some(vars[i].1.clone());
        }
        i = i + 1;
    }
    None
}

/// The authoritative zone that matched zone file lines describe: the `DEFAULT` lines
/// define variables, the start-of-authority lines fill its start of authority, and the
/// record lines add records, names completed with the origin.
pub fn zone_from_captures(
    var_rows: &Vec<Vec<Option<String>>>,
    soa_rows: &Vec<Vec<Option<String>>>,
    entry_rows: &Vec<Vec<Option<String>>>,
) -> (r: Result<DomainDatabase, ZoneParseError>)
    ensures
        match r {
            Ok(db) => db.wf() && zone_from_rows(
                captures_view(var_rows@),
                captures_view(soa_rows@),
                captures_view(entry_rows@),
            ) == Ok::<DatabaseView, ZoneParseError>(db@),
            Err(e) => zone_from_rows(
                captures_view(var_rows@),
                captures_view(soa_rows@),
                captures_view(entry_rows@),
            ) == Err::<DatabaseView, ZoneParseError>(e),
        },
{
    let vars = match variables_from_captures(var_rows) {
        Ok(v) => v,
        Err(e) => {
            return Err(e);
        },
    };
    let ghost vv = variables_view(vars@);
    let mut db = DomainDatabase::new();
    db.authority = true;
    let ghost start = db@;
    proof {
        assert(start == empty_zone(true));
    }
    let ghost sv = captures_view(soa_rows@);
    let mut i: usize = 0;
    assert(sv.subrange(0, 0) =~= Seq::<Seq<Option<Seq<char>>>>::empty());
    while i < soa_rows.len()
        invariant
            i <= soa_rows@.len(),
            sv == captures_view(soa_rows@),
            vv == variables_view(vars@),
            start == empty_zone(true),
            collect_variables(captures_view(var_rows@)) == Ok::<Variables, ZoneParseError>(vv),
            variables_unique(vv),
            db.wf(),
            apply_soas(start, sv.subrange(0, i as int), vv) == Ok::<DatabaseView, ZoneParseError>(
                db@,
            ),
        decreases soa_rows@.len() - i,
    {
        proof {
            let t = sv.subrange(0, i + 1);
            assert(t.drop_last() =~= sv.subrange(0, i as int));
            assert(t.last() == row_view(soa_rows@[i as int]));
        }
        match read_soa_line(&mut db, &soa_rows[i], &vars) {
            Ok(_) => {},
            Err(e) => {
                proof {
                    lemma_soas_failure_stays(start, sv, vv, i + 1);
                }
                return Err(e);
            },
        }
        i = i + 1;
    }
    assert(sv.subrange(0, sv.len() as int) =~= sv);
    let ghost mid = db@;
    let ghost ev = captures_view(entry_rows@);
    let mut j: usize = 0;
    assert(ev.subrange(0, 0) =~= Seq::<Seq<Option<Seq<char>>>>::empty());
    while j < entry_rows.len()
        invariant
            j <= entry_rows@.len(),
            ev == captures_view(entry_rows@),
            vv == variables_view(vars@),
            variables_unique(vv),
            collect_variables(captures_view(var_rows@)) == Ok::<Variables, ZoneParseError>(vv),
            apply_soas(empty_zone(true), captures_view(soa_rows@), vv) == Ok::<
                DatabaseView,
                ZoneParseError,
            >(mid),
            db.wf(),
            apply_entries(mid, ev.subrange(0, j as int), vv) == Ok::<DatabaseView, ZoneParseError>(
                db@,
            ),
        decreases entry_rows@.len() - j,
    {
        proof {
            let t = ev.subrange(0, j + 1);
            assert(t.drop_last() =~= ev.subrange(0, j as int));
            assert(t.last() == row_view(entry_rows@[j as int]));
        }
        match read_entry_line(&mut db, &entry_rows[j], &vars) {
            Ok(_) => {},
            Err(e) => {
                proof {
                    lemma_entries_failure_stays(mid, ev, vv, j + 1);
                }
                return Err(e);
            },
        }
        j = j + 1;
    }
    assert(ev.subrange(0, ev.len() as int) =~= ev);
    Ok(db)
}

/// Reads zone file text: the lines the zone grammar matches make the authoritative zone
/// that `zone_from_captures` gives; other lines (comments among them) are ignored.
pub fn parse_from_str(read: String) -> (r: Result<DomainDatabase, ZoneParseError>)
    ensures
        match r {
            Ok(db) => db.wf() && zone_from_rows(
                regex_captures(VARIABLE_PATTERN@, read@),
                regex_captures(SOA_PATTERN@, read@),
                regex_captures(ENTRY_PATTERN@, read@),
            ) == Ok::<DatabaseView, ZoneParseError>(db@),
            Err(e) => zone_from_rows(
                regex_captures(VARIABLE_PATTERN@, read@),
                regex_captures(SOA_PATTERN@, read@),
                regex_captures(ENTRY_PATTERN@, read@),
            ) == Err::<DatabaseView, ZoneParseError>(e),
        },
{
    let var_rows = match captures_all(VARIABLE_PATTERN, read.as_str()) {
        Some(rows) => rows,
        None => {
            proof {
                assert(false);
            }
            return Err(ZoneParseError::MissingField);
        },
    };
    let soa_rows = match captures_all(SOA_PATTERN, read.as_str()) {
        Some(rows) => rows,
        None => {
            proof {
                assert(false);
            }
            return Err(ZoneParseError::MissingField);
        },
    };
    let entry_rows = match captures_all(ENTRY_PATTERN, read.as_str()) {
        Some(rows) => rows,
        None => {
            proof {
                assert(false);
            }
            return Err(ZoneParseError::MissingField);
        },
    };
    zone_from_captures(&var_rows, &soa_rows, &entry_rows)
}

} // verus!
