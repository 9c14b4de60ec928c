use vstd::prelude::*;
use vstd::string::*;

use crate::database::{find_first_owned, first_owned};
use crate::domain::{parse_labels, Domain};
use crate::message::{
    opt_records_view, records_view, DNSEntry, DNSMessage, MessageView, RecordView,
    CODE_ANSWER, CODE_DELEGATED, CODE_MALFORMED, CODE_NAME_NOT_FOUND, FLAG_RECURSION_DESIRED,
};

verus! {

/// Why a resolution ended without an answer.
#[derive(Debug, Clone, Copy, PartialEq, Eq, Structural)]
pub enum ResolveError {
    /// No server was given to ask.
    EmptyServerList,
    /// A server reported the query as malformed.
    MalformedUpstream,
    /// A server replied with a response code that has no meaning here.
    InvalidResponseCode,
    /// A server delegated without naming any authority.
    MissingAuthorities,
    /// An authority is named by a domain for which the reply carries no address.
    NoGlueForAuthority,
    /// An authority's address has more than one port separator.
    MalformedAddress,
    /// Sending the query failed.
    SendFailed,
    /// A reply could not be decoded.
    UndecodableReply,
    /// Every server was asked and none replied.
    NoServerAnswered,
}

/// The port assumed for an authority address that names none.
pub open spec fn default_port_text() -> Seq<char> {
    seq!['5', '3', '5', '3']
}

/// Whether `v` is written as an address (digits, `'.'` and `':'` only) rather than a name.
pub open spec fn is_literal_address(v: Seq<char>) -> bool {
    forall|i: int| 0 <= i < v.len() ==> is_address_char(#[trigger] v[i])
}

/// The characters of a literal address.
pub open spec fn is_address_char(c: char) -> bool {
    ('0' <= c <= '9') || c == '.' || c == ':'
}

/// How many times `c` occurs in `s`.
pub open spec fn count_char(s: Seq<char>, c: char) -> nat
    decreases s.len(),
{
    if s.len() == 0 {
        0
    } else {
        count_char(s.drop_last(), c) + if s.last() == c {
            1nat
        } else {
            0nat
        }
    }
}

/// An address with its port: given as is when it has one, with the default port when it
/// has none; nothing when it has more than one port separator.
pub open spec fn with_port(a: Seq<char>) -> Option<Seq<char>> {
    if count_char(a, ':') == 0 {
        Some(a + seq![':'] + default_port_text())
    } else if count_char(a, ':') == 1 {
        Some(a)
    } else {
        None
    }
}

/// The address at which the authority named by record `r` is asked.
pub open spec fn authority_address(extras: Option<Seq<RecordView>>, r: RecordView) -> Result<
    Seq<char>,
    ResolveError,
> {
    let found = if is_literal_address(r.value) {
        Some(r.value)
    } else {
        match extras {
            Some(s) => match first_owned(s, parse_labels(r.value)) {
                Some(g) => Some(g.value),
                None => None,
            },
            None => None,
        }
    };
    match found {
        None => Err(ResolveError::NoGlueForAuthority),
        Some(a) => match with_port(a) {
            Some(p) => Ok(p),
            None => Err(ResolveError::MalformedAddress),
        },
    }
}

/// The addresses of all authorities, in order; the first failure when one fails.
pub open spec fn authority_addresses(
    extras: Option<Seq<RecordView>>,
    auths: Seq<RecordView>,
) -> Result<Seq<Seq<char>>, ResolveError>
    decreases auths.len(),
{
    if auths.len() == 0 {
        Ok(Seq::empty())
    } else {
        match authority_addresses(extras, auths.drop_last()) {
            Err(e) => Err(e),
            Ok(prev) => match authority_address(extras, auths.last()) {
                Err(e) => Err(e),
                Ok(a) => Ok(prev.push(a)),
            },
        }
    }
}

proof fn lemma_first_failure_stays(extras: Option<Seq<RecordView>>, auths: Seq<RecordView>, i: int)
    requires
        0 <= i <= auths.len(),
        authority_addresses(extras, auths.subrange(0, i)) is Err,
    ensures
        authority_addresses(extras, auths) == authority_addresses(extras, auths.subrange(0, i)),
    decreases auths.len() - i,
{
    if i < auths.len() {
        let t = auths.subrange(0, i + 1);
        assert(t.drop_last() =~= auths.subrange(0, i));
        lemma_first_failure_stays(extras, auths, i + 1);
    } else {
        assert(auths.subrange(0, i) =~= auths);
    }
}

/// Whether the text is written as a literal address.
pub fn literal_address(v: &str) -> (r: bool)
    ensures
        r == is_literal_address(v@),
{
    let n = v.unicode_len();
    let mut i: usize = 0;
    while i < n
        invariant
            n == v@.len(),
            i <= n,
            forall|k: int| 0 <= k < i ==> is_address_char(#[trigger] v@[k]),
        decreases n - i,
    {
        let c = v.get_char(i);
        if !(('0' <= c && c <= '9') || c == '.' || c == ':') {
            return false;
        }
        i = i + 1;
    }
    true
}

/// How many `':'` the text holds.
pub(crate) fn count_colons(v: &str) -> (r: usize)
    ensures
        r == count_char(v@, ':'),
{
    let n = v.unicode_len();
    let mut i: usize = 0;
    let mut count: usize = 0;
    while i < n
        invariant
            n == v@.len(),
            i <= n,
            count == count_char(v@.subrange(0, i as int), ':'),
            count <= i,
        decreases n - i,
    {
        proof {
            let t = v@.subrange(0, i + 1);
            assert(t.drop_last() =~= v@.subrange(0, i as int));
        }
        if v.get_char(i) == ':' {
            count = count + 1;
        }
        i = i + 1;
    }
    assert(v@.subrange(0, n as int) =~= v@);
    count
}

/// The address with its port, as `with_port` states it.
fn address_with_port(a: String) -> (r: Option<String>)
    ensures
        match r {
            Some(v) => with_port(a@) == Some(v@),
            None => with_port(a@) is None,
        },
{
    proof {
        reveal_strlit(":");
        reveal_strlit("5353");
        assert(":"@ =~= seq![':']);
        assert("5353"@ =~= default_port_text());
    }
    let colons = count_colons(a.as_str());
    if colons == 0 {
        let mut r = a;
        r.append(":");
        r.append("5353");
        Some(r)
    } else if colons == 1 {
        Some(a)
    } else {
        None
    }
}

impl DNSMessage {
    /// The addresses at which the authorities of a delegation are asked: a literal address is
    /// used as is, a name is looked up among the extra records; each gets the default port when
    /// it names none.
    pub fn get_authorities_ip(entries: &Option<Vec<DNSEntry>>, list_of_authorities: &Vec<DNSEntry>) -> (r:
        Result<Vec<String>, ResolveError>)
        ensures
            match r {
                Ok(v) => authority_addresses(opt_records_view(*entries), records_view(
                    list_of_authorities@,
                )) == Ok::<Seq<Seq<char>>, ResolveError>(crate::domain::string_views(v@)),
                Err(e) => authority_addresses(opt_records_view(*entries), records_view(
                    list_of_authorities@,
                )) == Err::<Seq<Seq<char>>, ResolveError>(e),
            },
    {
        let ghost extras = opt_records_view(*entries);
        let ghost auths = records_view(list_of_authorities@);
        let mut out: Vec<String> = Vec::new();
        let mut i: usize = 0;
        assert(auths.subrange(0, 0) =~= Seq::<RecordView>::empty());
        assert(crate::domain::string_views(out@) =~= Seq::<Seq<char>>::empty());
        while i < list_of_authorities.len()
            invariant
                i <= list_of_authorities@.len(),
                extras == opt_records_view(*entries),
                auths == records_view(list_of_authorities@),
                authority_addresses(extras, auths.subrange(0, i as int)) == Ok::<
                    Seq<Seq<char>>,
                    ResolveError,
                >(crate::domain::string_views(out@)),
            decreases list_of_authorities@.len() - i,
        {
            let entry = &list_of_authorities[i];
            proof {
                let t = auths.subrange(0, i + 1);
                assert(t.drop_last() =~= auths.subrange(0, i as int));
                assert(t.last() == entry@);
            }
            let found = if literal_address(entry.value.as_str()) {
                Some(entry.value.clone())
            } else {
                match entries {
                    Some(extra) => {
                        let name = Domain::new(entry.value.clone());
                        match find_first_owned(extra, &name) {
                            Some(g) => Some(g.value),
                            None => None,
                        }
                    },
                    None => None,
                }
            };
            proof {
                if !is_literal_address(entry@.value) && entries is Some {
                    assert(extras == Some(records_view(entries->Some_0@)));
                }
            }
            let addr = match found {
                None => {
                    proof {
                        lemma_first_failure_stays(extras, auths, i + 1);
                    }
                    return Err(ResolveError::NoGlueForAuthority);
                },
                Some(a) => a,
            };
            let full = match address_with_port(addr) {
                None => {
                    proof {
                        lemma_first_failure_stays(extras, auths, i + 1);
                    }
                    return Err(ResolveError::MalformedAddress);
                },
                Some(p) => p,
            };
            let ghost before = out@;
            out.push(full);
            proof {
                assert(crate::domain::string_views(out@) =~= crate::domain::string_views(before).push(
                    full@,
                ));
            }
            i = i + 1;
        }
        assert(auths.subrange(0, auths.len() as int) =~= auths);
        Ok(out)
    }
}

/// What a resolution in progress holds: the query, the servers to ask, which one is asked
/// now, and whether the asker allows recursion.
pub struct Resolution {
    query: DNSMessage,
    servers: Vec<String>,
    next: usize,
    recursion_desired: bool,
}

/// A resolution in progress, as mathematical values.
pub ghost struct ResolutionView {
    pub query: MessageView,
    pub servers: Seq<Seq<char>>,
    pub next: nat,
    pub recursion_desired: bool,
}

impl View for Resolution {
    type V = ResolutionView;

    closed spec fn view(&self) -> ResolutionView {
        ResolutionView {
            query: self.query@,
            servers: crate::domain::string_views(self.servers@),
            next: self.next as nat,
            recursion_desired: self.recursion_desired,
        }
    }
}

/// What came of asking the current server.
pub enum ServerEvent {
    /// The server did not reply in time.
    NoReply,
    /// The query could not be sent.
    SendFailed,
    /// A reply came that could not be decoded.
    Undecodable,
    /// A reply came.
    Reply(DNSMessage),
}

/// The outcome of a resolution, as mathematical values.
pub open spec fn outcome_view(r: Option<Result<DNSMessage, ResolveError>>) -> Option<
    Result<MessageView, ResolveError>,
> {
    match r {
        Some(Ok(m)) => Some(Ok(m@)),
        Some(Err(e)) => Some(Err(e)),
        None => None,
    }
}

/// How a resolution goes on after `ev`: its next state, and its outcome when it ends.
pub open spec fn resolution_step(s: ResolutionView, ev: ServerEvent) -> (
    ResolutionView,
    Option<Result<MessageView, ResolveError>>,
) {
    match ev {
        ServerEvent::NoReply => if s.next + 1 < s.servers.len() {
            (ResolutionView { next: s.next + 1, ..s }, None)
        } else {
            (s, Some(Err(ResolveError::NoServerAnswered)))
        },
        ServerEvent::SendFailed => (s, Some(Err(ResolveError::SendFailed))),
        ServerEvent::Undecodable => (s, Some(Err(ResolveError::UndecodableReply))),
        ServerEvent::Reply(m) => reply_step(s, m@),
    }
}

/// How a resolution goes on after the reply `m`.
pub open spec fn reply_step(s: ResolutionView, m: MessageView) -> (
    ResolutionView,
    Option<Result<MessageView, ResolveError>>,
) {
    match m.header.response_code {
        Some(code) => if code == CODE_ANSWER || code == CODE_NAME_NOT_FOUND {
            (s, Some(Ok(m)))
        } else if code == CODE_MALFORMED {
            (s, Some(Err(ResolveError::MalformedUpstream)))
        } else if code == CODE_DELEGATED {
            match m.data.authorities {
                None => (s, Some(Err(ResolveError::MissingAuthorities))),
                Some(auths) => match authority_addresses(m.data.extras, auths) {
                    Err(e) => (s, Some(Err(e))),
                    Ok(addrs) => if addrs.len() == 0 {
                        (s, Some(Err(ResolveError::EmptyServerList)))
                    } else {
                        (ResolutionView { servers: addrs, next: 0, ..s }, None)
                    },
                },
            }
        } else {
            (s, Some(Err(ResolveError::InvalidResponseCode)))
        },
        None => (s, Some(Err(ResolveError::InvalidResponseCode))),
    }
}

/// The flags of a query sent on behalf of an asker: unchanged when the asker allows
/// recursion, else without the recursion-desired bit.
pub open spec fn forwarded_flags(flags: u8, recursion_desired: bool) -> u8 {
    if recursion_desired {
        flags
    } else {
        flags & !FLAG_RECURSION_DESIRED
    }
}

impl Resolution {
    /// Whether the server being asked is one of the list.
    pub closed spec fn wf(&self) -> bool {
        self.next < self.servers@.len()
    }

    /// Starts resolving `query` against `servers`, in order; fails when there is none.
    pub fn start(query: DNSMessage, servers: Vec<String>, recursion_desired: bool) -> (r: Result<
        Resolution,
        ResolveError,
    >)
        ensures
            r is Err <==> servers@.len() == 0,
            r is Err ==> r->Err_0 == ResolveError::EmptyServerList,
            r is Ok ==> r->Ok_0.wf() && r->Ok_0@ == (ResolutionView {
                query: MessageView {
                    header: crate::message::DNSMessageHeaders {
                        flags: forwarded_flags(query.header.flags, recursion_desired),
                        ..query.header
                    },
                    ..query@
                },
                servers: crate::domain::string_views(servers@),
                next: 0,
                recursion_desired,
            }),
    {
        if servers.len() == 0 {
            return Err(ResolveError::EmptyServerList);
        }
        let mut query = query;
        if !recursion_desired {
            query.header.flags = query.header.flags & !FLAG_RECURSION_DESIRED;
        }
        Ok(Resolution { query, servers, next: 0, recursion_desired })
    }

    /// The query to send.
    pub fn query(&self) -> (r: &DNSMessage)
        ensures
            r@ == self@.query,
    {
        &self.query
    }

    /// The server to ask now.
    pub fn current_server(&self) -> (r: &String)
        requires
            self.wf(),
        ensures
            self@.next < self@.servers.len(),
            r@ == self@.servers[self@.next as int],
    {
        &self.servers[self.next]
    }

    /// Takes in what came of asking the current server. Gives the outcome when the
    /// resolution ends; otherwise the resolution asks its (possibly new) current server.
    pub fn on_event(&mut self, event: ServerEvent) -> (r: Option<Result<DNSMessage, ResolveError>>)
        requires
            old(self).wf(),
        ensures
            final(self).wf(),
            (final(self)@, outcome_view(r)) == resolution_step(old(self)@, event),
    {
        match event {
            ServerEvent::NoReply => {
                assert(self.next < self.servers@.len());
                if self.next < self.servers.len() - 1 {
                    self.next = self.next + 1;
                    None
                } else {
                    Some(Err(ResolveError::NoServerAnswered))
                }
            },
            ServerEvent::SendFailed => Some(Err(ResolveError::SendFailed)),
            ServerEvent::Undecodable => Some(Err(ResolveError::UndecodableReply)),
            ServerEvent::Reply(m) => self.eval_and_respond(m),
        }
    }

    /// Takes in a reply of the current server, as `on_event` does.
    fn eval_and_respond(&mut self, m: DNSMessage) -> (r: Option<Result<DNSMessage, ResolveError>>)
        requires
            old(self).wf(),
        ensures
            final(self).wf(),
            (final(self)@, outcome_view(r)) == reply_step(old(self)@, m@),
    {
        match m.header.response_code {
            Some(code) => {
                if code == CODE_ANSWER || code == CODE_NAME_NOT_FOUND {
                    Some(Ok(m))
                } else if code == CODE_MALFORMED {
                    Some(Err(ResolveError::MalformedUpstream))
                } else if code == CODE_DELEGATED {
                    match &m.data.authorities_values {
                        None => Some(Err(ResolveError::MissingAuthorities)),
                        Some(auths) => match DNSMessage::get_authorities_ip(&m.data.extra_values, auths) {
                            Err(e) => Some(Err(e)),
                            Ok(addrs) => {
                                if addrs.len() == 0 {
                                    Some(Err(ResolveError::EmptyServerList))
                                } else {
                                    self.servers = addrs;
                                    self.next = 0;
                                    None
                                }
                            },
                        },
                    }
                } else {
                    Some(Err(ResolveError::InvalidResponseCode))
                }
            },
            None => Some(Err(ResolveError::InvalidResponseCode)),
        }
    }
}

} // verus!
