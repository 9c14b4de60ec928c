use vstd::prelude::*;
use vstd::string::*;

verus! {

/// Removes every trailing `'.'` of `s`.
pub open spec fn trim_trailing_dots(s: Seq<char>) -> Seq<char>
    decreases s.len(),
{
    if s.len() > 0 && s.last() == '.' {
        trim_trailing_dots(s.drop_last())
    } else {
        s
    }
}

/// The pieces of `s` between its `'.'` separators, read left to right
/// (always at least one piece; empty pieces are kept).
pub open spec fn split_dots(s: Seq<char>) -> Seq<Seq<char>>
    decreases s.len(),
{
    if s.len() == 0 {
        seq![Seq::<char>::empty()]
    } else {
        let init = split_dots(s.drop_last());
        if s.last() == '.' {
            init.push(Seq::<char>::empty())
        } else {
            init.update(init.len() - 1, init.last().push(s.last()))
        }
    }
}

/// The labels of a domain written as text: trailing separators are dropped,
/// and text that is empty after that denotes the root (no labels).
pub open spec fn parse_labels(s: Seq<char>) -> Seq<Seq<char>> {
    let t = trim_trailing_dots(s);
    if t.len() == 0 {
        Seq::empty()
    } else {
        split_dots(t)
    }
}

/// `a` lies at or below `b`: `b` is the root, or `b`'s labels are a suffix of `a`'s.
pub open spec fn is_subdomain(a: Seq<Seq<char>>, b: Seq<Seq<char>>) -> bool {
    b.len() == 0 || (b.len() <= a.len() && a.subrange(a.len() - b.len(), a.len() as int) == b)
}

/// The labels joined by single `'.'` separators.
pub open spec fn join_dots(labels: Seq<Seq<char>>) -> Seq<char>
    decreases labels.len(),
{
    if labels.len() == 0 {
        Seq::empty()
    } else if labels.len() == 1 {
        labels[0]
    } else {
        join_dots(labels.drop_last()) + seq!['.'] + labels.last()
    }
}

/// Text form of a domain: the root is a single `'.'`, any other domain its joined labels.
pub open spec fn render_labels(labels: Seq<Seq<char>>) -> Seq<char> {
    if labels.len() == 0 {
        seq!['.']
    } else {
        join_dots(labels)
    }
}

/// Fully qualified text form: every label followed by a `'.'`; the root is a single `'.'`.
pub open spec fn render_qualified(labels: Seq<Seq<char>>) -> Seq<char> {
    if labels.len() == 0 {
        seq!['.']
    } else {
        join_dots(labels) + seq!['.']
    }
}

/// The views of a sequence of strings.
pub open spec fn string_views(v: Seq<String>) -> Seq<Seq<char>> {
    v.map_values(|s: String| s@)
}

/// A domain name: its labels, most significant last; no labels is the root.
#[derive(Debug, Hash)]
pub struct Domain {
    parts: Vec<String>,
}

impl View for Domain {
    type V = Seq<Seq<char>>;

    closed spec fn view(&self) -> Seq<Seq<char>> {
        string_views(self.parts@)
    }
}

impl PartialEq for Domain {
    fn eq(&self, other: &Domain) -> (r: bool) {
        self.same_labels(other)
    }
}

impl vstd::std_specs::cmp::PartialEqSpecImpl for Domain {
    open spec fn obeys_eq_spec() -> bool {
        true
    }

    open spec fn eq_spec(&self, other: &Domain) -> bool {
        self@ == other@
    }
}

impl Eq for Domain {
}

impl Clone for Domain {
    fn clone(&self) -> (r: Domain)
        ensures
            r@ == self@,
    {
        Domain { parts: clone_strings(&self.parts) }
    }
}

/// A copy of a vector of strings, string by string.
pub fn clone_strings(v: &Vec<String>) -> (r: Vec<String>)
    ensures
        string_views(r@) == string_views(v@),
{
    let mut r: Vec<String> = Vec::new();
    let mut i: usize = 0;
    while i < v.len()
        invariant
            i <= v@.len(),
            string_views(r@) == string_views(v@.subrange(0, i as int)),
        decreases v@.len() - i,
    {
        let ghost old_r = r@;
        r.push(v[i].clone());
        proof {
            assert(r@ == old_r.push(v@[i as int]));
            assert(string_views(r@) =~= string_views(old_r).push(v@[i as int]@));
            assert(v@.subrange(0, i + 1) == v@.subrange(0, i as int).push(v@[i as int]));
            assert(string_views(r@) =~= string_views(v@.subrange(0, i + 1)));
        }
        i = i + 1;
    }
    proof {
        assert(v@.subrange(0, v@.len() as int) == v@);
    }
    r
}

impl Domain {
    /// The root domain.
    pub fn new_empty() -> (r: Domain)
        ensures
            r@ == Seq::<Seq<char>>::empty(),
    {
        let r = Domain { parts: Vec::new() };
        assert(r@ =~= Seq::<Seq<char>>::empty());
        r
    }

    /// Parses a domain from its text: trailing separators are dropped; empty or
    /// separator-only text yields the root.
    pub fn new(input: String) -> (r: Domain)
        ensures
            r@ == parse_labels(input@),
    {
        let s = input.as_str();
        let n = s.unicode_len();
        // drop the trailing separators
        let mut end: usize = n;
        assert(s@.subrange(0, n as int) =~= s@);
        while end > 0 && s.get_char(end - 1) == '.'
            invariant
                end <= n,
                n == s@.len(),
                trim_trailing_dots(s@) == trim_trailing_dots(s@.subrange(0, end as int)),
            decreases end,
        {
            proof {
                let t = s@.subrange(0, end as int);
                assert(t.drop_last() =~= s@.subrange(0, end - 1));
            }
            end = end - 1;
        }
        let ghost t = s@.subrange(0, end as int);
        proof {
            assert(trim_trailing_dots(t) == t);
        }
        let mut parts: Vec<String> = Vec::new();
        if end == 0 {
            let r = Domain { parts };
            assert(r@ =~= parse_labels(input@));
            return r;
        }
        let mut start: usize = 0;
        let mut i: usize = 0;
        assert(t.subrange(0, 0) =~= Seq::<char>::empty());
        assert(string_views(parts@) =~= Seq::<Seq<char>>::empty());
        while i < end
            invariant
                start <= i <= end,
                end <= n,
                n == s@.len(),
                t == s@.subrange(0, end as int),
                split_dots(t.subrange(0, i as int)) == string_views(parts@).push(
                    t.subrange(start as int, i as int),
                ),
            decreases end - i,
        {
            let c = s.get_char(i);
            proof {
                assert(t.subrange(0, i + 1).drop_last() =~= t.subrange(0, i as int));
                assert(t.subrange(0, i + 1).last() == c);
                assert(t.subrange(0, i + 1).len() > 0);
            }
            if c == '.' {
                let ghost old_parts = parts@;
                let piece = String::from_str(s.substring_char(start, i));
                parts.push(piece);
                proof {
                    assert(piece@ =~= t.subrange(start as int, i as int));
                    assert(string_views(parts@) =~= string_views(old_parts).push(piece@));
                    assert(t.subrange((i + 1) as int, (i + 1) as int) =~= Seq::<char>::empty());
                }
                start = i + 1;
            } else {
                proof {
                    assert(t.subrange(start as int, i + 1) =~= t.subrange(start as int, i as int).push(c));
                    assert(string_views(parts@).push(t.subrange(start as int, i as int)).update(
                        string_views(parts@).len() as int,
                        t.subrange(start as int, i + 1),
                    ) =~= string_views(parts@).push(t.subrange(start as int, i + 1)));
                }
            }
            i = i + 1;
        }
        let last = String::from_str(s.substring_char(start, end));
        let ghost old_parts = parts@;
        assert(last@ =~= t.subrange(start as int, end as int));
        parts.push(last);
        let r = Domain { parts };
        proof {
            assert(t.subrange(0, end as int) =~= t);
            assert(string_views(parts@) =~= string_views(old_parts).push(last@));
        }
        r
    }

    /// Whether both domains have the same labels.
    pub fn same_labels(&self, other: &Domain) -> (r: bool)
        ensures
            r == (self@ == other@),
    {
        if self.parts.len() != other.parts.len() {
            assert(self@.len() != other@.len());
            return false;
        }
        let mut i: usize = 0;
        while i < self.parts.len()
            invariant
                self.parts@.len() == other.parts@.len(),
                i <= self.parts@.len(),
                forall|k: int| 0 <= k < i ==> self@[k] == other@[k],
            decreases self.parts@.len() - i,
        {
            if self.parts[i] != other.parts[i] {
                assert(self@[i as int] != other@[i as int]);
                return false;
            }
            i = i + 1;
        }
        assert(self@ =~= other@);
        true
    }

    /// Whether this domain lies at or below `other` (every domain lies below the root).
    pub fn is_subdomain_of(&self, other: &Domain) -> (r: bool)
        ensures
            r == is_subdomain(self@, other@),
    {
        let ol = other.parts.len();
        let sl = self.parts.len();
        if ol == 0 {
            return true;
        }
        if sl < ol {
            return false;
        }
        let ghost suffix = self@.subrange(sl - ol, sl as int);
        let mut j: usize = 0;
        while j < ol
            invariant
                ol == other@.len(),
                sl == self@.len(),
                ol <= sl,
                j <= ol,
                suffix == self@.subrange(sl - ol, sl as int),
                forall|k: int| 0 <= k < j ==> suffix[k] == other@[k],
            decreases ol - j,
        {
            if self.parts[sl - ol + j] != other.parts[j] {
                assert(suffix[j as int] != other@[j as int]);
                return false;
            }
            j = j + 1;
        }
        assert(suffix =~= other@);
        true
    }

    /// The number of labels.
    pub fn label_count(&self) -> (r: usize)
        ensures
            r == self@.len(),
    {
        self.parts.len()
    }

    /// Whether this is the root domain.
    pub fn is_root(&self) -> (r: bool)
        ensures
            r == (self@.len() == 0),
    {
        self.parts.len() == 0
    }

    /// The text form: the labels joined by `'.'`, or `"."` for the root.
    pub fn to_string(&self) -> (r: String)
        ensures
            r@ == render_labels(self@),
    {
        proof {
            reveal_strlit(".");
        }
        if self.parts.len() == 0 {
            return String::from_str(".");
        }
        let r = self.joined();
        r
    }

    /// The fully qualified text form: each label followed by `'.'`, or `"."` for the root.
    pub fn to_qualified_string(&self) -> (r: String)
        ensures
            r@ == render_qualified(self@),
    {
        proof {
            reveal_strlit(".");
        }
        if self.parts.len() == 0 {
            return String::from_str(".");
        }
        let mut r = self.joined();
        r.append(".");
        r
    }

    fn joined(&self) -> (r: String)
        requires
            self@.len() > 0,
        ensures
            r@ == join_dots(self@),
    {
        proof {
            reveal_strlit(".");
        }
        let mut r = self.parts[0].clone();
        let mut i: usize = 1;
        proof {
            assert(join_dots(self@.subrange(0, 1)) == self@[0]);
        }
        while i < self.parts.len()
            invariant
                1 <= i <= self@.len(),
                self@.len() == self.parts@.len(),
                r@ == join_dots(self@.subrange(0, i as int)),
            decreases self@.len() - i,
        {
            let ghost old_r = r@;
            r.append(".");
            proof {
                reveal_strlit(".");
                assert("."@.len() == 1);
                assert("."@[0] == '.');
                assert("."@ =~= seq!['.']);
            }
            r.append(self.parts[i].as_str());
            proof {
                assert(r@ == old_r + seq!['.'] + self@[i as int]);
                assert(self@[i as int] == self.parts@[i as int]@);
                let l = self@.subrange(0, i + 1);
                assert(l.drop_last() =~= self@.subrange(0, i as int));
                assert(l.last() == self@[i as int]);
            }
            i = i + 1;
        }
        assert(self@.subrange(0, self@.len() as int) =~= self@);
        r
    }

    /// The labels, most significant last.
    pub fn getparts(&self) -> (r: &Vec<String>)
        ensures
            string_views(r@) == self@,
    {
        &self.parts
    }

    /// Replaces the labels.
    pub fn set_parts(&mut self, new_parts: Vec<String>)
        ensures
            final(self)@ == string_views(new_parts@),
    {
        self.parts = new_parts;
    }
}

/// Every domain lies at or below itself; in particular a domain parsed from
/// any text is a subdomain of the same domain parsed again.
pub proof fn lemma_subdomain_reflexive(x: Seq<char>)
    ensures
        is_subdomain(parse_labels(x), parse_labels(x)),
{
    let d = parse_labels(x);
    assert(d.subrange(0, d.len() as int) =~= d);
}

/// Every domain lies below the root.
pub proof fn lemma_subdomain_of_root(a: Seq<Seq<char>>)
    ensures
        is_subdomain(a, Seq::empty()),
{
}

} // verus!
