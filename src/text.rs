use vstd::prelude::*;
use vstd::string::*;

verus! {

/// The decimal digits, indexed by value.
pub open spec fn digit_chars() -> Seq<char> {
    seq!['0', '1', '2', '3', '4', '5', '6', '7', '8', '9']
}

/// The decimal form of `n`: no sign, no leading zeros (zero is `"0"`).
pub open spec fn decimal(n: nat) -> Seq<char>
    decreases n,
{
    if n < 10 {
        seq![digit_chars()[n as int]]
    } else {
        decimal(n / 10).push(digit_chars()[(n % 10) as int])
    }
}

/// Relies on the standard library's `Display` for integers (through `to_string`):
/// it writes the decimal digits of the value, with no sign, padding or leading zeros.
#[verifier::external_body]
pub(crate) fn decimal_string(n: u64) -> (r: String)
    ensures
        r@ == decimal(n as nat),
{
    n.to_string()
}

/// Whether the text `s` is exactly `t`, compared character by character.
pub fn text_is(s: &str, t: &str) -> (r: bool)
    ensures
        r == (s@ == t@),
{
    let n = s.unicode_len();
    if n != t.unicode_len() {
        return false;
    }
    let mut i: usize = 0;
    while i < n
        invariant
            n == s@.len(),
            n == t@.len(),
            i <= n,
            forall|k: int| 0 <= k < i ==> s@[k] == t@[k],
        decreases n - i,
    {
        if s.get_char(i) != t.get_char(i) {
            return false;
        }
        i = i + 1;
    }
    assert(s@ =~= t@);
    true
}

/// The text `","`.
pub fn comma_str() -> (r: &'static str)
    ensures
        r@ == seq![','],
{
    proof {
        reveal_strlit(",");
        assert(","@.len() == 1);
        assert(","@[0] == ',');
        assert(","@ =~= seq![',']);
    }
    ","
}

/// The text `";"`.
pub fn semicolon_str() -> (r: &'static str)
    ensures
        r@ == seq![';'],
{
    proof {
        reveal_strlit(";");
        assert(";"@.len() == 1);
        assert(";"@[0] == ';');
        assert(";"@ =~= seq![';']);
    }
    ";"
}

/// The text `" "`.
pub fn space_str() -> (r: &'static str)
    ensures
        r@ == seq![' '],
{
    proof {
        reveal_strlit(" ");
        assert(" "@.len() == 1);
        assert(" "@[0] == ' ');
        assert(" "@ =~= seq![' ']);
    }
    " "
}

/// `s` with every occurrence of `from` replaced by `to`, scanning left to right without
/// overlaps; an empty `from` leaves `s` as it is.
pub open spec fn replace_all(s: Seq<char>, from: Seq<char>, to: Seq<char>) -> Seq<char>
    decreases s.len(),
{
    if from.len() == 0 || s.len() < from.len() {
        s
    } else if s.subrange(0, from.len() as int) == from {
        to + replace_all(s.subrange(from.len() as int, s.len() as int), from, to)
    } else {
        seq![s[0]] + replace_all(s.drop_first(), from, to)
    }
}

/// The text `s` with every occurrence of `from` replaced by `to`.
pub fn replace_all_text(s: &str, from: &str, to: &str) -> (r: String)
    ensures
        r@ == replace_all(s@, from@, to@),
{
    let n = s.unicode_len();
    let m = from.unicode_len();
    if m == 0 {
        return String::from_str(s);
    }
    let mut out = String::new();
    let mut i: usize = 0;
    assert(s@.subrange(0, n as int) =~= s@);
    while i < n
        invariant
            n == s@.len(),
            m == from@.len(),
            m > 0,
            i <= n,
            out@ + replace_all(s@.subrange(i as int, n as int), from@, to@) == replace_all(
                s@,
                from@,
                to@,
            ),
        decreases n - i,
    {
        let ghost t = s@.subrange(i as int, n as int);
        let ghost before = out@;
        if m <= n - i && text_is(s.substring_char(i, i + m), from) {
            proof {
                assert(t.subrange(0, m as int) =~= s@.subrange(i as int, (i + m) as int));
                assert(t.subrange(m as int, t.len() as int) =~= s@.subrange((i + m) as int, n as int));
            }
            out.append(to);
            proof {
                assert(out@ + replace_all(s@.subrange((i + m) as int, n as int), from@, to@)
                    =~= before + (to@ + replace_all(t.subrange(m as int, t.len() as int), from@, to@)));
            }
            i = i + m;
        } else {
            let c = s.substring_char(i, i + 1);
            proof {
                assert(c@ =~= seq![t[0]]);
                assert(t.drop_first() =~= s@.subrange((i + 1) as int, n as int));
                if t.len() < m {
                    assert(t =~= seq![t[0]] + t.drop_first());
                } else {
                    assert(t.subrange(0, m as int) =~= s@.subrange(i as int, (i + m) as int));
                }
            }
            out.append(c);
            proof {
                assert(out@ + replace_all(s@.subrange((i + 1) as int, n as int), from@, to@)
                    =~= before + (seq![t[0]] + replace_all(t.drop_first(), from@, to@)));
            }
            i = i + 1;
        }
    }
    proof {
        assert(s@.subrange(n as int, n as int) =~= Seq::<char>::empty());
        assert(out@ + Seq::<char>::empty() =~= out@);
    }
    out
}

/// Whether the text ends with `'.'`.
pub fn ends_with_dot(s: &str) -> (r: bool)
    ensures
        r == (s@.len() > 0 && s@.last() == '.'),
{
    let n = s.unicode_len();
    n > 0 && s.get_char(n - 1) == '.'
}

/// The pieces of `s` between its `sep` separators, read left to right (always at least one
/// piece; empty pieces are kept).
pub open spec fn split_on(s: Seq<char>, sep: char) -> Seq<Seq<char>>
    decreases s.len(),
{
    if s.len() == 0 {
        seq![Seq::<char>::empty()]
    } else {
        let init = split_on(s.drop_last(), sep);
        if s.last() == sep {
            init.push(Seq::<char>::empty())
        } else {
            init.update(init.len() - 1, init.last().push(s.last()))
        }
    }
}

/// The pieces of `s` between its `sep` separators.
pub fn split_text(s: &str, sep: char) -> (r: Vec<String>)
    ensures
        crate::domain::string_views(r@) == split_on(s@, sep),
{
    let n = s.unicode_len();
    let mut parts: Vec<String> = Vec::new();
    let mut start: usize = 0;
    let mut i: usize = 0;
    assert(s@.subrange(0, 0) =~= Seq::<char>::empty());
    assert(crate::domain::string_views(parts@) =~= Seq::<Seq<char>>::empty());
    while i < n
        invariant
            start <= i <= n,
            n == s@.len(),
            split_on(s@.subrange(0, i as int), sep) == crate::domain::string_views(parts@).push(
                s@.subrange(start as int, i as int),
            ),
        decreases n - i,
    {
        let c = s.get_char(i);
        proof {
            assert(s@.subrange(0, i + 1).drop_last() =~= s@.subrange(0, i as int));
            assert(s@.subrange(0, i + 1).last() == c);
            assert(s@.subrange(0, i + 1).len() > 0);
        }
        if c == sep {
            let ghost old_parts = parts@;
            let piece = String::from_str(s.substring_char(start, i));
            parts.push(piece);
            proof {
                assert(crate::domain::string_views(parts@) =~= crate::domain::string_views(
                    old_parts,
                ).push(piece@));
                assert(s@.subrange((i + 1) as int, (i + 1) as int) =~= Seq::<char>::empty());
            }
            start = i + 1;
        } else {
            proof {
                assert(s@.subrange(start as int, i + 1) =~= s@.subrange(start as int, i as int).push(c));
                assert(crate::domain::string_views(parts@).push(s@.subrange(start as int, i as int)).update(
                    crate::domain::string_views(parts@).len() as int,
                    s@.subrange(start as int, i + 1),
                ) =~= crate::domain::string_views(parts@).push(s@.subrange(start as int, i + 1)));
            }
        }
        i = i + 1;
    }
    let last = String::from_str(s.substring_char(start, n));
    let ghost old_parts = parts@;
    parts.push(last);
    proof {
        assert(s@.subrange(0, n as int) =~= s@);
        assert(crate::domain::string_views(parts@) =~= crate::domain::string_views(old_parts).push(
            last@,
        ));
    }
    parts
}

/// The characters trimmed from the ends of a line.
pub open spec fn is_blank(c: char) -> bool {
    c == ' ' || c == '\t' || c == '\r'
}

/// `s` without its leading blanks.
pub open spec fn trim_start(s: Seq<char>) -> Seq<char>
    decreases s.len(),
{
    if s.len() > 0 && is_blank(s[0]) {
        trim_start(s.drop_first())
    } else {
        s
    }
}

/// `s` without its trailing blanks.
pub open spec fn trim_end(s: Seq<char>) -> Seq<char>
    decreases s.len(),
{
    if s.len() > 0 && is_blank(s.last()) {
        trim_end(s.drop_last())
    } else {
        s
    }
}

/// `s` without its leading and trailing blanks.
pub open spec fn trim_blanks(s: Seq<char>) -> Seq<char> {
    trim_end(trim_start(s))
}

/// Whether the character at `i` is blank.
fn blank_at(s: &str, i: usize) -> (r: bool)
    requires
        i < s@.len(),
    ensures
        r == is_blank(s@[i as int]),
{
    let c = s.get_char(i);
    c == ' ' || c == '\t' || c == '\r'
}

/// The text without its leading and trailing blanks.
pub fn trim_text(s: &str) -> (r: String)
    ensures
        r@ == trim_blanks(s@),
{
    let n = s.unicode_len();
    let mut start: usize = 0;
    assert(s@.subrange(0, n as int) =~= s@);
    while start < n && blank_at(s, start)
        invariant
            start <= n,
            n == s@.len(),
            trim_start(s@) == trim_start(s@.subrange(start as int, n as int)),
        decreases n - start,
    {
        proof {
            assert(s@.subrange(start as int, n as int).drop_first() =~= s@.subrange(
                start + 1,
                n as int,
            ));
        }
        start = start + 1;
    }
    let ghost t = s@.subrange(start as int, n as int);
    let mut end: usize = n;
    assert(t.subrange(0, t.len() as int) =~= t);
    while end > start && blank_at(s, end - 1)
        invariant
            start <= end <= n,
            n == s@.len(),
            t == s@.subrange(start as int, n as int),
            trim_end(t) == trim_end(s@.subrange(start as int, end as int)),
        decreases end,
    {
        proof {
            assert(s@.subrange(start as int, end as int).drop_last() =~= s@.subrange(
                start as int,
                end - 1,
            ));
        }
        end = end - 1;
    }
    String::from_str(s.substring_char(start, end))
}

} // verus!
