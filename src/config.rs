use vstd::prelude::*;

use crate::domain::{parse_labels, Domain};
use crate::resolver::{count_char, count_colons};
use crate::text::{ends_with_dot, split_on, split_text, text_is, trim_blanks, trim_text};
use crate::zonefile::{captures_all, captures_view, group, group_text, regex_captures, row_view};

verus! {

/// Why a server configuration could not be read.
#[derive(Debug, Clone, Copy, PartialEq, Eq, Structural)]
pub enum ConfigError {
    /// An address has more than one port separator.
    MalformedAddress,
    /// A matched line lacks a field the grammar requires.
    MissingField,
}

/// The port of a primary's zone-transfer service, when its address names none.
pub open spec fn transfer_port_text() -> Seq<char> {
    seq!['8', '0', '0', '0']
}

/// The port of a name server, when its address names none.
pub open spec fn dns_port_text() -> Seq<char> {
    seq!['5', '3', '5', '3']
}

/// An address with its port: as is when it names one, with `port` when it names none;
/// nothing when it has more than one port separator.
pub open spec fn address_with(a: Seq<char>, port: Seq<char>) -> Option<Seq<char>> {
    if count_char(a, ':') == 0 {
        Some(a + seq![':'] + port)
    } else if count_char(a, ':') == 1 {
        Some(a)
    } else {
        None
    }
}

/// The address text with its port completed.
fn complete_address(a: String, port: &str) -> (r: Result<String, ConfigError>)
    ensures
        match r {
            Ok(v) => address_with(a@, port@) == Some(v@),
            Err(e) => address_with(a@, port@) is None && e == ConfigError::MalformedAddress,
        },
{
    proof {
        reveal_strlit(":");
        assert(":"@ =~= seq![':']);
    }
    let colons = count_colons(a.as_str());
    if colons == 0 {
        let mut r = a;
        r.append(":");
        r.append(port);
        Ok(r)
    } else if colons == 1 {
        Ok(a)
    } else {
        Err(ConfigError::MalformedAddress)
    }
}

/// A name server's address with its port: the default name server port when it names none.
pub fn name_server_address(a: String) -> (r: Result<String, ConfigError>)
    ensures
        match r {
            Ok(v) => address_with(a@, dns_port_text()) == Some(v@),
            Err(e) => address_with(a@, dns_port_text()) is None && e == ConfigError::MalformedAddress,
        },
{
    complete_address(a, dns_port())
}

fn transfer_port() -> (r: &'static str)
    ensures
        r@ == transfer_port_text(),
{
    proof {
        reveal_strlit("8000");
        assert("8000"@ =~= transfer_port_text());
    }
    "8000"
}

fn dns_port() -> (r: &'static str)
    ensures
        r@ == dns_port_text(),
{
    proof {
        reveal_strlit("5353");
        assert("5353"@ =~= dns_port_text());
    }
    "5353"
}

/// What the server holds for one domain: its zone file, its primary's address (when this
/// server is a secondary), its secondaries' addresses, and its log file.
pub struct DomainConfig {
    domain_db: Option<String>,
    domain_sp: Option<String>,
    domain_ss: Option<Vec<String>>,
    domain_log: String,
}

/// What the server holds for one domain, as mathematical values.
pub ghost struct DomainConfigView {
    pub db: Option<Seq<char>>,
    pub sp: Option<Seq<char>>,
    pub ss: Option<Seq<Seq<char>>>,
    pub log: Seq<char>,
}

/// The view of optional text.
pub open spec fn opt_text(o: Option<String>) -> Option<Seq<char>> {
    match o {
        Some(s) => Some(s@),
        None => None,
    }
}

impl View for DomainConfig {
    type V = DomainConfigView;

    closed spec fn view(&self) -> DomainConfigView {
        DomainConfigView {
            db: opt_text(self.domain_db),
            sp: opt_text(self.domain_sp),
            ss: match self.domain_ss {
                Some(v) => Some(crate::domain::string_views(v@)),
                None => None,
            },
            log: self.domain_log@,
        }
    }
}

/// A domain with nothing configured.
pub open spec fn blank_domain_config() -> DomainConfigView {
    DomainConfigView { db: None, sp: None, ss: None, log: Seq::empty() }
}

fn clone_opt_string(o: &Option<String>) -> (r: Option<String>)
    ensures
        opt_text(r) == opt_text(*o),
{
    match o {
        Some(s) => Some(s.clone()),
        None => None,
    }
}

impl Clone for DomainConfig {
    fn clone(&self) -> (r: DomainConfig)
        ensures
            r@ == self@,
    {
        DomainConfig {
            domain_db: clone_opt_string(&self.domain_db),
            domain_sp: clone_opt_string(&self.domain_sp),
            domain_ss: match &self.domain_ss {
                Some(v) => Some(crate::domain::clone_strings(v)),
                None => None,
            },
            domain_log: self.domain_log.clone(),
        }
    }
}

impl DomainConfig {
    /// A domain with nothing configured.
    pub fn new() -> (r: DomainConfig)
        ensures
            r@ == blank_domain_config(),
    {
        let r = DomainConfig {
            domain_db: None,
            domain_sp: None,
            domain_ss: None,
            domain_log: String::new(),
        };
        r
    }

    /// The zone file, if this server is the domain's primary.
    pub fn get_domain_db(&self) -> (r: Option<String>)
        ensures
            opt_text(r) == self@.db,
    {
        clone_opt_string(&self.domain_db)
    }

    /// The primary's address, if this server is a secondary of the domain.
    pub fn get_domain_sp(&self) -> (r: Option<String>)
        ensures
            opt_text(r) == self@.sp,
    {
        clone_opt_string(&self.domain_sp)
    }

    /// The secondaries' addresses.
    pub fn get_domain_ss(&self) -> (r: Option<Vec<String>>)
        ensures
            match r {
                Some(v) => self@.ss == Some(crate::domain::string_views(v@)),
                None => self@.ss is None,
            },
    {
        match &self.domain_ss {
            Some(v) => Some(crate::domain::clone_strings(v)),
            None => None,
        }
    }

    /// The domain's log file.
    pub fn get_domain_log(&self) -> (r: String)
        ensures
            r@ == self@.log,
    {
        self.domain_log.clone()
    }

    /// Sets the zone file.
    pub fn set_domain_db(&mut self, db_path: String)
        ensures
            final(self)@ == (DomainConfigView { db: Some(db_path@), ..old(self)@ }),
    {
        self.domain_db = Some(db_path);
    }

    /// Sets the primary's address.
    pub fn set_domain_sp(&mut self, sp_addr: String)
        ensures
            final(self)@ == (DomainConfigView { sp: Some(sp_addr@), ..old(self)@ }),
    {
        self.domain_sp = Some(sp_addr);
    }

    /// Adds a secondary's address.
    pub fn add_domain_ss(&mut self, ss_addr: String)
        ensures
            final(self)@ == (DomainConfigView {
                ss: Some(
                    match old(self)@.ss {
                        Some(s) => s.push(ss_addr@),
                        None => seq![ss_addr@],
                    },
                ),
                ..old(self)@
            }),
    {
        let ghost a = ss_addr@;
        match &mut self.domain_ss {
            Some(servers) => {
                let ghost before = servers@;
                servers.push(ss_addr);
                proof {
                    assert(crate::domain::string_views(servers@) =~= crate::domain::string_views(
                        before,
                    ).push(a));
                }
            },
            None => {
                let v = vec![ss_addr];
                proof {
                    assert(crate::domain::string_views(v@) =~= seq![a]);
                }
                self.domain_ss = Some(v);
            },
        }
    }

    /// Sets the domain's log file.
    pub fn set_domain_log(&mut self, log_path: String)
        ensures
            final(self)@ == (DomainConfigView { log: log_path@, ..old(self)@ }),
    {
        self.domain_log = log_path;
    }
}

/// The configuration of a server, as mathematical values.
pub ghost struct ServerConfigView {
    pub domains: Seq<(Seq<Seq<char>>, DomainConfigView)>,
    pub dds: Option<Seq<(Seq<Seq<char>>, Seq<char>)>>,
    pub all_log: Seq<char>,
    pub st_db: Seq<char>,
}

/// The configuration of a server: what it holds per domain, the servers it forwards to per
/// domain, its general log file and its list of root servers.
pub struct ServerConfig {
    domain_configs: Vec<(Domain, DomainConfig)>,
    server_dds: Option<Vec<(Domain, String)>>,
    all_log: String,
    st_db: String,
}

/// The views of the per-domain configurations.
pub open spec fn domains_view(v: Seq<(Domain, DomainConfig)>) -> Seq<(Seq<Seq<char>>, DomainConfigView)> {
    v.map_values(|p: (Domain, DomainConfig)| (p.0@, p.1@))
}

/// The views of the forwarding servers.
pub open spec fn dds_view(v: Seq<(Domain, String)>) -> Seq<(Seq<Seq<char>>, Seq<char>)> {
    v.map_values(|p: (Domain, String)| (p.0@, p.1@))
}

impl View for ServerConfig {
    type V = ServerConfigView;

    closed spec fn view(&self) -> ServerConfigView {
        ServerConfigView {
            domains: domains_view(self.domain_configs@),
            dds: match self.server_dds {
                Some(v) => Some(dds_view(v@)),
                None => None,
            },
            all_log: self.all_log@,
            st_db: self.st_db@,
        }
    }
}

/// The position of the first entry of `s` keyed by `k`.
pub open spec fn first_key<V>(s: Seq<(Seq<Seq<char>>, V)>, k: Seq<Seq<char>>) -> Option<int>
    decreases s.len(),
{
    if s.len() == 0 {
        None
    } else {
        match first_key(s.drop_last(), k) {
            Some(i) => Some(i),
            None => if s.last().0 == k {
                Some(s.len() - 1)
            } else {
                None
            },
        }
    }
}

proof fn lemma_first_key_bounds<V>(s: Seq<(Seq<Seq<char>>, V)>, k: Seq<Seq<char>>)
    ensures
        first_key(s, k) matches Some(i) ==> 0 <= i < s.len() && s[i].0 == k,
        first_key(s, k) is None ==> forall|j: int| 0 <= j < s.len() ==> s[j].0 != k,
    decreases s.len(),
{
    if s.len() > 0 {
        lemma_first_key_bounds(s.drop_last(), k);
        assert forall|j: int| 0 <= j < s.len() - 1 implies s[j] == s.drop_last()[j] by {}
    }
}

proof fn lemma_first_key_prefix<V>(s: Seq<(Seq<Seq<char>>, V)>, k: Seq<Seq<char>>, i: int)
    requires
        0 <= i <= s.len(),
        first_key(s.subrange(0, i), k) is Some,
    ensures
        first_key(s, k) == first_key(s.subrange(0, i), k),
    decreases s.len() - i,
{
    if i < s.len() {
        assert(s.subrange(0, i + 1).drop_last() =~= s.subrange(0, i));
        lemma_first_key_prefix(s, k, i + 1);
    } else {
        assert(s.subrange(0, i) =~= s);
    }
}

/// The configurations with `k` given a blank configuration when it has none.
pub open spec fn with_domain(
    s: Seq<(Seq<Seq<char>>, DomainConfigView)>,
    k: Seq<Seq<char>>,
) -> Seq<(Seq<Seq<char>>, DomainConfigView)> {
    match first_key(s, k) {
        Some(_) => s,
        None => s.push((k, blank_domain_config())),
    }
}

/// Where the configuration of `k` stands once it has one.
pub open spec fn domain_slot(s: Seq<(Seq<Seq<char>>, DomainConfigView)>, k: Seq<Seq<char>>) -> int {
    match first_key(s, k) {
        Some(i) => i,
        None => s.len() as int,
    }
}

/// The configurations after changing that of `k` by `f`.
pub open spec fn change_domain(
    s: Seq<(Seq<Seq<char>>, DomainConfigView)>,
    k: Seq<Seq<char>>,
    f: spec_fn(DomainConfigView) -> DomainConfigView,
) -> Seq<(Seq<Seq<char>>, DomainConfigView)> {
    let t = with_domain(s, k);
    let i = domain_slot(s, k);
    t.update(i, (k, f(t[i].1)))
}

/// The forwarding servers after setting that of `k` to `a`.
pub open spec fn set_dd(
    o: Option<Seq<(Seq<Seq<char>>, Seq<char>)>>,
    k: Seq<Seq<char>>,
    a: Seq<char>,
) -> Option<Seq<(Seq<Seq<char>>, Seq<char>)>> {
    let s = match o {
        Some(s) => s,
        None => Seq::empty(),
    };
    Some(
        match first_key(s, k) {
            Some(i) => s.update(i, (k, a)),
            None => s.push((k, a)),
        },
    )
}

impl ServerConfig {
    /// A configuration with nothing in it.
    pub fn new() -> (r: ServerConfig)
        ensures
            r@ == (ServerConfigView {
                domains: Seq::empty(),
                dds: None,
                all_log: Seq::empty(),
                st_db: Seq::empty(),
            }),
    {
        let r = ServerConfig {
            domain_configs: Vec::new(),
            server_dds: None,
            all_log: String::new(),
            st_db: String::new(),
        };
        assert(r@.domains =~= Seq::<(Seq<Seq<char>>, DomainConfigView)>::empty());
        r
    }

    /// The position of the configuration of `domain`, made blank when it has none.
    fn slot(&mut self, domain: &Domain) -> (i: usize)
        ensures
            final(self)@ == (ServerConfigView {
                domains: with_domain(old(self)@.domains, domain@),
                ..old(self)@
            }),
            i == domain_slot(old(self)@.domains, domain@),
            i < final(self)@.domains.len(),
            final(self)@.domains[i as int].0 == domain@,
    {
        let ghost s = self@.domains;
        proof {
            lemma_first_key_bounds(s, domain@);
        }
        let mut i: usize = 0;
        assert(s.subrange(0, 0) =~= Seq::<(Seq<Seq<char>>, DomainConfigView)>::empty());
        while i < self.domain_configs.len()
            invariant
                i <= self.domain_configs@.len(),
                s == domains_view(self.domain_configs@),
                *self == *old(self),
                s == old(self)@.domains,
                first_key(s.subrange(0, i as int), domain@) is None,
            decreases self.domain_configs@.len() - i,
        {
            proof {
                let t = s.subrange(0, i + 1);
                assert(t.drop_last() =~= s.subrange(0, i as int));
                assert(t.last() == s[i as int]);
                assert(s[i as int] == (self.domain_configs@[i as int].0@, self.domain_configs@[i as int].1@));
            }
            if self.domain_configs[i].0.same_labels(domain) {
                proof {
                    lemma_first_key_prefix(s, domain@, i + 1);
                }
                return i;
            }
            i = i + 1;
        }
        proof {
            assert(s.subrange(0, s.len() as int) =~= s);
        }
        self.domain_configs.push((domain.clone(), DomainConfig::new()));
        proof {
            assert(domains_view(self.domain_configs@) =~= s.push((domain@, blank_domain_config())));
        }
        i
    }

    /// Sets the zone file of `domain`.
    pub fn add_domain_db(&mut self, domain: Domain, db_path: String)
        ensures
            final(self)@ == (ServerConfigView {
                domains: change_domain(
                    old(self)@.domains,
                    domain@,
                    |c: DomainConfigView| DomainConfigView { db: Some(db_path@), ..c },
                ),
                ..old(self)@
            }),
    {
        let i = self.slot(&domain);
        let ghost mid = self@.domains;
        let (d, mut c) = self.domain_configs.remove(i);
        c.set_domain_db(db_path);
        self.domain_configs.insert(i, (d, c));
        proof {
            assert(domains_view(self.domain_configs@) =~= mid.update(i as int, (domain@, c@)));
        }
    }

    /// Sets the primary of `domain`; an address without a port gets the transfer port.
    pub fn set_domain_sp(&mut self, domain: Domain, addr_string: String) -> (r: Result<
        (),
        ConfigError,
    >)
        ensures
            match address_with(addr_string@, transfer_port_text()) {
                Some(a) => r is Ok && final(self)@ == (ServerConfigView {
                    domains: change_domain(
                        old(self)@.domains,
                        domain@,
                        |c: DomainConfigView| DomainConfigView { sp: Some(a), ..c },
                    ),
                    ..old(self)@
                }),
                None => r == Err::<(), ConfigError>(ConfigError::MalformedAddress) && final(self)@ == old(self)@,
            },
    {
        let addr = match complete_address(addr_string, transfer_port()) {
            Ok(a) => a,
            Err(e) => {
                return Err(e);
            },
        };
        let i = self.slot(&domain);
        let ghost mid = self@.domains;
        let (d, mut c) = self.domain_configs.remove(i);
        c.set_domain_sp(addr);
        self.domain_configs.insert(i, (d, c));
        proof {
            assert(domains_view(self.domain_configs@) =~= mid.update(i as int, (domain@, c@)));
        }
        Ok(())
    }

    /// Adds a secondary of `domain`; an address without a port gets the name server port.
    pub fn add_domain_ss(&mut self, domain: Domain, addr_string: String) -> (r: Result<
        (),
        ConfigError,
    >)
        ensures
            match address_with(addr_string@, dns_port_text()) {
                Some(a) => r is Ok && final(self)@ == (ServerConfigView {
                    domains: change_domain(
                        old(self)@.domains,
                        domain@,
                        |c: DomainConfigView|
                            DomainConfigView {
                                ss: Some(
                                    match c.ss {
                                        Some(s) => s.push(a),
                                        None => seq![a],
                                    },
                                ),
                                ..c
                            },
                    ),
                    ..old(self)@
                }),
                None => r == Err::<(), ConfigError>(ConfigError::MalformedAddress) && final(self)@ == old(self)@,
            },
    {
        let addr = match complete_address(addr_string, dns_port()) {
            Ok(a) => a,
            Err(e) => {
                return Err(e);
            },
        };
        let i = self.slot(&domain);
        let ghost mid = self@.domains;
        let (d, mut c) = self.domain_configs.remove(i);
        c.add_domain_ss(addr);
        self.domain_configs.insert(i, (d, c));
        proof {
            assert(domains_view(self.domain_configs@) =~= mid.update(i as int, (domain@, c@)));
        }
        Ok(())
    }

    /// Sets the log file of `domain`.
    pub fn set_domain_log(&mut self, domain: Domain, domain_log: String)
        ensures
            final(self)@ == (ServerConfigView {
                domains: change_domain(
                    old(self)@.domains,
                    domain@,
                    |c: DomainConfigView| DomainConfigView { log: domain_log@, ..c },
                ),
                ..old(self)@
            }),
    {
        let i = self.slot(&domain);
        let ghost mid = self@.domains;
        let (d, mut c) = self.domain_configs.remove(i);
        c.set_domain_log(domain_log);
        self.domain_configs.insert(i, (d, c));
        proof {
            assert(domains_view(self.domain_configs@) =~= mid.update(i as int, (domain@, c@)));
        }
    }

    /// Sets the server that queries for `domain` are forwarded to; an address without a
    /// port gets the name server port.
    pub fn add_server_dd(&mut self, domain: Domain, addr_string: String) -> (r: Result<
        (),
        ConfigError,
    >)
        ensures
            match address_with(addr_string@, dns_port_text()) {
                Some(a) => r is Ok && final(self)@ == (ServerConfigView {
                    dds: set_dd(old(self)@.dds, domain@, a),
                    ..old(self)@
                }),
                None => r == Err::<(), ConfigError>(ConfigError::MalformedAddress) && final(self)@ == old(self)@,
            },
    {
        let addr = match complete_address(addr_string, dns_port()) {
            Ok(a) => a,
            Err(e) => {
                return Err(e);
            },
        };
        let list = match self.server_dds.take() {
            Some(l) => l,
            None => Vec::new(),
        };
        proof {
            if old(self).server_dds is None {
                assert(dds_view(list@) =~= Seq::<(Seq<Seq<char>>, Seq<char>)>::empty());
            }
        }
        let updated = set_forward(list, domain, addr);
        self.server_dds = Some(updated);
        Ok(())
    }

    /// Sets the general log file.
    pub fn set_all_log(&mut self, all_log: String)
        ensures
            final(self)@ == (ServerConfigView { all_log: all_log@, ..old(self)@ }),
    {
        self.all_log = all_log;
    }

    /// Sets the file listing the root servers.
    pub fn set_st_db(&mut self, path: String)
        ensures
            final(self)@ == (ServerConfigView { st_db: path@, ..old(self)@ }),
    {
        self.st_db = path;
    }

    /// A copy of the per-domain configurations.
    pub fn get_domain_configs(&self) -> (r: Vec<(Domain, DomainConfig)>)
        ensures
            domains_view(r@) == self@.domains,
    {
        let mut out: Vec<(Domain, DomainConfig)> = Vec::new();
        let mut i: usize = 0;
        while i < self.domain_configs.len()
            invariant
                i <= self.domain_configs@.len(),
                domains_view(out@) == domains_view(self.domain_configs@).subrange(0, i as int),
            decreases self.domain_configs@.len() - i,
        {
            let ghost before = domains_view(out@);
            out.push((self.domain_configs[i].0.clone(), self.domain_configs[i].1.clone()));
            proof {
                let all = domains_view(self.domain_configs@);
                assert(domains_view(out@) =~= before.push(all[i as int]));
                assert(all.subrange(0, i + 1) =~= all.subrange(0, i as int).push(all[i as int]));
            }
            i = i + 1;
        }
        assert(domains_view(self.domain_configs@).subrange(0, i as int) =~= domains_view(
            self.domain_configs@,
        ));
        out
    }

    /// The addresses of every secondary of every domain, domain by domain.
    pub fn get_all_ss(&self) -> (r: Vec<String>)
        ensures
            crate::domain::string_views(r@) == all_secondaries(self@.domains),
    {
        let ghost s = self@.domains;
        let mut out: Vec<String> = Vec::new();
        let mut i: usize = 0;
        assert(s.subrange(0, 0) =~= Seq::<(Seq<Seq<char>>, DomainConfigView)>::empty());
        while i < self.domain_configs.len()
            invariant
                i <= self.domain_configs@.len(),
                s == domains_view(self.domain_configs@),
                crate::domain::string_views(out@) == all_secondaries(s.subrange(0, i as int)),
            decreases self.domain_configs@.len() - i,
        {
            proof {
                let t = s.subrange(0, i + 1);
                assert(t.drop_last() =~= s.subrange(0, i as int));
                assert(t.last() == s[i as int]);
                assert(s[i as int] == (self.domain_configs@[i as int].0@, self.domain_configs@[i as int].1@));
            }
            match self.domain_configs[i].1.get_domain_ss() {
                Some(list) => {
                    let mut j: usize = 0;
                    let ghost before = crate::domain::string_views(out@);
                    while j < list.len()
                        invariant
                            j <= list@.len(),
                            crate::domain::string_views(out@) == before + crate::domain::string_views(
                                list@,
                            ).subrange(0, j as int),
                        decreases list@.len() - j,
                    {
                        let ghost mid = crate::domain::string_views(out@);
                        out.push(list[j].clone());
                        proof {
                            assert(crate::domain::string_views(out@) =~= mid.push(list@[j as int]@));
                            assert(crate::domain::string_views(list@).subrange(0, j + 1)
                                =~= crate::domain::string_views(list@).subrange(0, j as int).push(
                                list@[j as int]@,
                            ));
                        }
                        j = j + 1;
                    }
                    assert(crate::domain::string_views(list@).subrange(0, list@.len() as int)
                        =~= crate::domain::string_views(list@));
                },
                None => {
                    assert(crate::domain::string_views(out@) + Seq::<Seq<char>>::empty()
                        =~= crate::domain::string_views(out@));
                },
            }
            i = i + 1;
        }
        assert(s.subrange(0, s.len() as int) =~= s);
        out
    }

    /// A copy of the servers queries are forwarded to, per domain.
    pub fn get_forward_servers(&self) -> (r: Option<Vec<(Domain, String)>>)
        ensures
            match r {
                Some(v) => self@.dds == Some(dds_view(v@)),
                None => self@.dds is None,
            },
    {
        match &self.server_dds {
            Some(list) => {
                let mut out: Vec<(Domain, String)> = Vec::new();
                let mut i: usize = 0;
                while i < list.len()
                    invariant
                        i <= list@.len(),
                        dds_view(out@) == dds_view(list@).subrange(0, i as int),
                    decreases list@.len() - i,
                {
                    let ghost before = dds_view(out@);
                    out.push((list[i].0.clone(), list[i].1.clone()));
                    proof {
                        let all = dds_view(list@);
                        assert(dds_view(out@) =~= before.push(all[i as int]));
                        assert(all.subrange(0, i + 1) =~= all.subrange(0, i as int).push(all[i as int]));
                    }
                    i = i + 1;
                }
                assert(dds_view(list@).subrange(0, list@.len() as int) =~= dds_view(list@));
                Some(out)
            },
            None => None,
        }
    }

    /// The general log file.
    pub fn get_all_log(&self) -> (r: String)
        ensures
            r@ == self@.all_log,
    {
        self.all_log.clone()
    }

    /// The file listing the root servers.
    pub fn get_st_db(&self) -> (r: String)
        ensures
            r@ == self@.st_db,
    {
        self.st_db.clone()
    }
}

/// The forwarding list with the server of `domain` set to `addr`.
fn set_forward(entries: Vec<(Domain, String)>, domain: Domain, addr: String) -> (r: Vec<
    (Domain, String),
>)
    ensures
        Some(dds_view(r@)) == set_dd(Some(dds_view(entries@)), domain@, addr@),
{
    let mut list = entries;
    let ghost s = dds_view(list@);
    let mut i: usize = 0;
    assert(s.subrange(0, 0) =~= Seq::<(Seq<Seq<char>>, Seq<char>)>::empty());
    while i < list.len()
        invariant
            i <= list@.len(),
            s == dds_view(list@),
            s == dds_view(entries@),
            first_key(s.subrange(0, i as int), domain@) is None,
        decreases list@.len() - i,
    {
        proof {
            let t = s.subrange(0, i + 1);
            assert(t.drop_last() =~= s.subrange(0, i as int));
            assert(t.last() == s[i as int]);
            assert(s[i as int] == (list@[i as int].0@, list@[i as int].1@));
        }
        if list[i].0.same_labels(&domain) {
            proof {
                lemma_first_key_prefix(s, domain@, i + 1);
            }
            let ghost k = domain@;
            let ghost a = addr@;
            list.set(i, (domain, addr));
            proof {
                assert(dds_view(list@) =~= s.update(i as int, (k, a)));
                assert(first_key(s.subrange(0, i + 1), k) == Some(i as int));
                assert(first_key(s, k) == Some(i as int));
                assert(set_dd(Some(s), k, a) == Some(s.update(i as int, (k, a))));
            }
            return list;
        }
        i = i + 1;
    }
    proof {
        assert(s.subrange(0, s.len() as int) =~= s);
    }
    let ghost k = domain@;
    let ghost a = addr@;
    list.push((domain, addr));
    proof {
        assert(dds_view(list@) =~= s.push((k, a)));
    }
    list
}

/// The addresses of every secondary of every domain, domain by domain.
pub open spec fn all_secondaries(s: Seq<(Seq<Seq<char>>, DomainConfigView)>) -> Seq<Seq<char>>
    decreases s.len(),
{
    if s.len() == 0 {
        Seq::empty()
    } else {
        all_secondaries(s.drop_last()) + match s.last().1.ss {
            Some(l) => l,
            None => Seq::empty(),
        }
    }
}

/// Lines `NAME KIND VALUE` of a server configuration.
pub const CONFIG_PATTERN: &'static str = "(?m)^([a-z.0-9-]+) +(DB|SS|DD|LG|ST|SP) +(.*)";

/// The domain a configuration line names: made absolute with a final `'.'`, except the
/// words `all` and `root`.
pub open spec fn config_name(n: Seq<char>) -> Seq<char> {
    if (n.len() > 0 && n.last() == '.') || n == "all"@ || n == "root"@ {
        n
    } else {
        n + seq!['.']
    }
}

/// The configuration after reading one line.
pub open spec fn apply_config_line(c: ServerConfigView, row: Seq<Option<Seq<char>>>) -> Result<
    ServerConfigView,
    ConfigError,
> {
    match (group(row, 1), group(row, 2), group(row, 3)) {
        (Some(n), Some(kind), Some(v)) => {
            let name = parse_labels(config_name(n));
            if kind == "DB"@ {
                Ok(
                    ServerConfigView {
                        domains: change_domain(
                            c.domains,
                            name,
                            |d: DomainConfigView| DomainConfigView { db: Some(v), ..d },
                        ),
                        ..c
                    },
                )
            } else if kind == "SS"@ {
                match address_with(v, dns_port_text()) {
                    Some(a) => Ok(
                        ServerConfigView {
                            domains: change_domain(
                                c.domains,
                                name,
                                |d: DomainConfigView|
                                    DomainConfigView {
                                        ss: Some(
                                            match d.ss {
                                                Some(s) => s.push(a),
                                                None => seq![a],
                                            },
                                        ),
                                        ..d
                                    },
                            ),
                            ..c
                        },
                    ),
                    None => Err(ConfigError::MalformedAddress),
                }
            } else if kind == "SP"@ {
                match address_with(v, transfer_port_text()) {
                    Some(a) => Ok(
                        ServerConfigView {
                            domains: change_domain(
                                c.domains,
                                name,
                                |d: DomainConfigView| DomainConfigView { sp: Some(a), ..d },
                            ),
                            ..c
                        },
                    ),
                    None => Err(ConfigError::MalformedAddress),
                }
            } else if kind == "DD"@ {
                match address_with(v, dns_port_text()) {
                    Some(a) => Ok(ServerConfigView { dds: set_dd(c.dds, name, a), ..c }),
                    None => Err(ConfigError::MalformedAddress),
                }
            } else if kind == "LG"@ {
                if n == "all"@ {
                    Ok(ServerConfigView { all_log: v, ..c })
                } else {
                    Ok(
                        ServerConfigView {
                            domains: change_domain(
                                c.domains,
                                name,
                                |d: DomainConfigView| DomainConfigView { log: v, ..d },
                            ),
                            ..c
                        },
                    )
                }
            } else if kind == "ST"@ {
                Ok(ServerConfigView { st_db: v, ..c })
            } else {
                Ok(c)
            }
        },
        _ => Err(ConfigError::MissingField),
    }
}

/// The configuration after reading lines in order; the first failure, if any.
pub open spec fn apply_config_lines(c: ServerConfigView, rows: Seq<Seq<Option<Seq<char>>>>) -> Result<
    ServerConfigView,
    ConfigError,
>
    decreases rows.len(),
{
    if rows.len() == 0 {
        Ok(c)
    } else {
        match apply_config_lines(c, rows.drop_last()) {
            Err(e) => Err(e),
            Ok(d) => apply_config_line(d, rows.last()),
        }
    }
}

/// An empty configuration.
pub open spec fn empty_config() -> ServerConfigView {
    ServerConfigView { domains: Seq::empty(), dds: None, all_log: Seq::empty(), st_db: Seq::empty() }
}

proof fn lemma_config_failure_stays(c: ServerConfigView, rows: Seq<Seq<Option<Seq<char>>>>, i: int)
    requires
        0 <= i <= rows.len(),
        apply_config_lines(c, rows.subrange(0, i)) is Err,
    ensures
        apply_config_lines(c, rows) == apply_config_lines(c, rows.subrange(0, i)),
    decreases rows.len() - i,
{
    if i < rows.len() {
        assert(rows.subrange(0, i + 1).drop_last() =~= rows.subrange(0, i));
        lemma_config_failure_stays(c, rows, i + 1);
    } else {
        assert(rows.subrange(0, i) =~= rows);
    }
}

/// The domain name a configuration line names, as text.
fn line_name(n: &String) -> (r: String)
    ensures
        r@ == config_name(n@),
{
    proof {
        reveal_strlit(".");
        assert("."@ =~= seq!['.']);
    }
    if ends_with_dot(n.as_str()) || text_is(n.as_str(), "all") || text_is(n.as_str(), "root") {
        n.clone()
    } else {
        let mut r = n.clone();
        r.append(".");
        r
    }
}

/// Reads one matched configuration line into `config`.
fn read_config_line(config: &mut ServerConfig, row: &Vec<Option<String>>) -> (r: Result<
    (),
    ConfigError,
>)
    ensures
        match r {
            Ok(_) => apply_config_line(old(config)@, row_view(*row)) == Ok::<
                ServerConfigView,
                ConfigError,
            >(final(config)@),
            Err(e) => apply_config_line(old(config)@, row_view(*row)) == Err::<
                ServerConfigView,
                ConfigError,
            >(e),
        },
{
    match (group_text(row, 1), group_text(row, 2), group_text(row, 3)) {
        (Some(n), Some(kind), Some(v)) => {
            let name = Domain::new(line_name(n));
            let k = kind.as_str();
            if text_is(k, "DB") {
                config.add_domain_db(name, v.clone());
                Ok(())
            } else if text_is(k, "SS") {
                config.add_domain_ss(name, v.clone())
            } else if text_is(k, "SP") {
                config.set_domain_sp(name, v.clone())
            } else if text_is(k, "DD") {
                config.add_server_dd(name, v.clone())
            } else if text_is(k, "LG") {
                if text_is(n.as_str(), "all") {
                    config.set_all_log(v.clone());
                } else {
                    config.set_domain_log(name, v.clone());
                }
                Ok(())
            } else if text_is(k, "ST") {
                config.set_st_db(v.clone());
                Ok(())
            } else {
                Ok(())
            }
        },
        _ => Err(ConfigError::MissingField),
    }
}

/// The configuration that matched configuration lines describe, read in order.
pub fn config_from_captures(rows: &Vec<Vec<Option<String>>>) -> (r: Result<ServerConfig, ConfigError>)
    ensures
        match r {
            Ok(c) => apply_config_lines(empty_config(), captures_view(rows@)) == Ok::<
                ServerConfigView,
                ConfigError,
            >(c@),
            Err(e) => apply_config_lines(empty_config(), captures_view(rows@)) == Err::<
                ServerConfigView,
                ConfigError,
            >(e),
        },
{
    let ghost cv = captures_view(rows@);
    let mut config = ServerConfig::new();
    let mut i: usize = 0;
    assert(cv.subrange(0, 0) =~= Seq::<Seq<Option<Seq<char>>>>::empty());
    while i < rows.len()
        invariant
            i <= rows@.len(),
            cv == captures_view(rows@),
            apply_config_lines(empty_config(), cv.subrange(0, i as int)) == Ok::<
                ServerConfigView,
                ConfigError,
            >(config@),
        decreases rows@.len() - i,
    {
        proof {
            let t = cv.subrange(0, i + 1);
            assert(t.drop_last() =~= cv.subrange(0, i as int));
            assert(t.last() == row_view(rows@[i as int]));
        }
        match read_config_line(&mut config, &rows[i]) {
            Ok(_) => {},
            Err(e) => {
                proof {
                    lemma_config_failure_stays(empty_config(), cv, i + 1);
                }
                return Err(e);
            },
        }
        i = i + 1;
    }
    assert(cv.subrange(0, cv.len() as int) =~= cv);
    Ok(config)
}

/// Reads server configuration text: the lines the configuration grammar matches make the
/// configuration that `config_from_captures` gives; other lines are ignored.
pub fn parse_config(text: &str) -> (r: Result<ServerConfig, ConfigError>)
    ensures
        match r {
            Ok(c) => apply_config_lines(
                empty_config(),
                regex_captures(CONFIG_PATTERN@, text@),
            ) == Ok::<ServerConfigView, ConfigError>(c@),
            Err(e) => apply_config_lines(
                empty_config(),
                regex_captures(CONFIG_PATTERN@, text@),
            ) == Err::<ServerConfigView, ConfigError>(e),
        },
{
    match captures_all(CONFIG_PATTERN, text) {
        Some(rows) => config_from_captures(&rows),
        None => {
            proof {
                assert(false);
            }
            Err(ConfigError::MissingField)
        },
    }
}

/// The root server addresses a listing gives, one per line: blanks around an address are
/// ignored, empty lines and lines starting with `#` are skipped, an address without a port
/// gets the name server port, and one with more than one port separator is left out.
pub open spec fn root_entries(lines: Seq<Seq<char>>) -> Seq<Seq<char>>
    decreases lines.len(),
{
    if lines.len() == 0 {
        Seq::empty()
    } else {
        let prev = root_entries(lines.drop_last());
        let t = trim_blanks(lines.last());
        if t.len() == 0 || t[0] == '#' {
            prev
        } else {
            match address_with(t, dns_port_text()) {
                Some(a) => prev.push(a),
                None => prev,
            }
        }
    }
}

/// The root server addresses that the listing `text` gives.
pub fn root_server_list(text: &str) -> (r: Vec<String>)
    ensures
        crate::domain::string_views(r@) == root_entries(split_on(text@, '\n')),
{
    let lines = split_text(text, '\n');
    let ghost lv = crate::domain::string_views(lines@);
    let mut out: Vec<String> = Vec::new();
    let mut i: usize = 0;
    assert(lv.subrange(0, 0) =~= Seq::<Seq<char>>::empty());
    assert(crate::domain::string_views(out@) =~= Seq::<Seq<char>>::empty());
    while i < lines.len()
        invariant
            i <= lines@.len(),
            lv == crate::domain::string_views(lines@),
            crate::domain::string_views(out@) == root_entries(lv.subrange(0, i as int)),
        decreases lines@.len() - i,
    {
        proof {
            let t = lv.subrange(0, i + 1);
            assert(t.drop_last() =~= lv.subrange(0, i as int));
            assert(t.last() == lines@[i as int]@);
        }
        let t = trim_text(lines[i].as_str());
        let skip = t.as_str().unicode_len() == 0 || t.as_str().get_char(0) == '#';
        if !skip {
            match name_server_address(t) {
                Ok(a) => {
                    let ghost before = out@;
                    out.push(a);
                    proof {
                        assert(crate::domain::string_views(out@) =~= crate::domain::string_views(
                            before,
                        ).push(a@));
                    }
                },
                Err(_) => {},
            }
        }
        i = i + 1;
    }
    assert(lv.subrange(0, lv.len() as int) =~= lv);
    out
}

} // verus!
