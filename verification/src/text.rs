//! Character-level text operations: whitespace trimming, line splitting,
//! prefix tests, and the line-dropping filter used to hide boilerplate.

use vstd::prelude::*;

verus! {

/// The Unicode `White_Space` characters, the set `str::trim` removes.
pub open spec fn is_ws_char(c: char) -> bool {
    let u = c as u32;
    u == 0x20 || (0x09 <= u && u <= 0x0D) || u == 0x85 || u == 0xA0 || u == 0x1680 || (0x2000
        <= u && u <= 0x200A) || u == 0x2028 || u == 0x2029 || u == 0x202F || u == 0x205F || u
        == 0x3000
}

/// Decides [`is_ws_char`].
pub fn is_ws(c: char) -> (r: bool)
    ensures
        r == is_ws_char(c),
{
    let u = c as u32;
    u == 0x20 || (0x09 <= u && u <= 0x0D) || u == 0x85 || u == 0xA0 || u == 0x1680 || (0x2000
        <= u && u <= 0x200A) || u == 0x2028 || u == 0x2029 || u == 0x202F || u == 0x205F || u
        == 0x3000
}

/// How many whitespace characters the sequence begins with.
pub open spec fn leading_ws(s: Seq<char>) -> int
    decreases s.len(),
{
    if s.len() > 0 && is_ws_char(s[0]) {
        1 + leading_ws(s.drop_first())
    } else {
        0
    }
}

/// How many whitespace characters the sequence ends with.
pub open spec fn trailing_ws(s: Seq<char>) -> int
    decreases s.len(),
{
    if s.len() > 0 && is_ws_char(s[s.len() - 1]) {
        1 + trailing_ws(s.drop_last())
    } else {
        0
    }
}

/// The sequence with leading and trailing whitespace removed, as
/// `str::trim` leaves it.
pub open spec fn trim_spec(s: Seq<char>) -> Seq<char> {
    if leading_ws(s) == s.len() {
        Seq::empty()
    } else {
        s.subrange(leading_ws(s), s.len() - trailing_ws(s))
    }
}

pub proof fn lemma_leading_ws_at(s: Seq<char>, i: int)
    requires
        0 <= i <= s.len(),
        forall|k: int| 0 <= k < i ==> is_ws_char(s[k]),
        i < s.len() ==> !is_ws_char(s[i]),
    ensures
        leading_ws(s) == i,
    decreases i,
{
    if i == 0 {
    } else {
        assert(is_ws_char(s[0]));
        lemma_leading_ws_at(s.drop_first(), i - 1);
    }
}

pub proof fn lemma_trailing_ws_at(s: Seq<char>, j: int)
    requires
        0 <= j <= s.len(),
        forall|k: int| j <= k < s.len() ==> is_ws_char(s[k]),
        j > 0 ==> !is_ws_char(s[j - 1]),
    ensures
        trailing_ws(s) == s.len() - j,
    decreases s.len() - j,
{
    if j == s.len() {
    } else {
        assert(is_ws_char(s[s.len() - 1]));
        lemma_trailing_ws_at(s.drop_last(), j);
    }
}

/// Narrows `[from, to)` to the bounds of its whitespace-trimmed interior.
pub fn trim_range(s: &str, from: usize, to: usize) -> (r: (usize, usize))
    requires
        from <= to <= s@.len(),
    ensures
        from <= r.0 <= r.1 <= to,
        trim_spec(s@.subrange(from as int, to as int)) == s@.subrange(r.0 as int, r.1 as int),
{
    let ghost sub = s@.subrange(from as int, to as int);
    let mut i: usize = from;
    while i < to && is_ws(s.get_char(i))
        invariant
            from <= i <= to <= s@.len(),
            forall|k: int| from <= k < i ==> is_ws_char(s@[k]),
        decreases to - i,
    {
        i += 1;
    }
    let mut j: usize = to;
    while j > i && is_ws(s.get_char(j - 1))
        invariant
            from <= i <= j <= to <= s@.len(),
            forall|k: int| from <= k < i ==> is_ws_char(s@[k]),
            i < to ==> !is_ws_char(s@[i as int]),
            forall|k: int| j <= k < to ==> is_ws_char(s@[k]),
        decreases j,
    {
        j -= 1;
    }
    proof {
        if i == to {
            lemma_leading_ws_at(sub, sub.len() as int);
            assert(s@.subrange(i as int, j as int) =~= Seq::<char>::empty());
        } else {
            assert(forall|k: int| 0 <= k < i - from ==> is_ws_char(#[trigger] sub[k]));
            assert(sub[i - from] == s@[i as int]);
            lemma_leading_ws_at(sub, i - from);
            assert(j > i) by {
                if j == i {
                    assert(is_ws_char(s@[i as int]));
                }
            }
            assert(forall|k: int| j - from <= k < sub.len() ==> is_ws_char(#[trigger] sub[k]));
            assert(sub[j - from - 1] == s@[j - 1]);
            lemma_trailing_ws_at(sub, j - from);
            assert(trim_spec(sub) =~= s@.subrange(i as int, j as int));
        }
    }
    (i, j)
}

/// The index of the first line feed, or the length if there is none.
pub open spec fn first_nl(s: Seq<char>) -> nat
    decreases s.len(),
{
    if s.len() == 0 {
        0
    } else if s[0] == '\n' {
        0
    } else {
        1 + first_nl(s.drop_first())
    }
}

pub proof fn lemma_first_nl_at(s: Seq<char>, i: int)
    requires
        0 <= i <= s.len(),
        forall|k: int| 0 <= k < i ==> s[k] != '\n',
        i < s.len() ==> s[i] == '\n',
    ensures
        first_nl(s) == i,
    decreases i,
{
    if i == 0 {
    } else {
        assert(s[0] != '\n');
        lemma_first_nl_at(s.drop_first(), i - 1);
    }
}

/// The index of the first line feed at or after `from`, or the length.
pub fn find_nl(s: &str, from: usize) -> (r: usize)
    requires
        from <= s@.len(),
    ensures
        from <= r <= s@.len(),
        forall|k: int| from <= k < r ==> s@[k] != '\n',
        r < s@.len() ==> s@[r as int] == '\n',
{
    let n = s.unicode_len();
    let mut i: usize = from;
    while i < n && s.get_char(i) != '\n'
        invariant
            from <= i <= n == s@.len(),
            forall|k: int| from <= k < i ==> s@[k] != '\n',
        decreases n - i,
    {
        i += 1;
    }
    i
}

/// Whether `s` begins with `p`.
pub open spec fn starts_with_spec(s: Seq<char>, p: Seq<char>) -> bool {
    p.len() <= s.len() && s.subrange(0, p.len() as int) == p
}

/// Decides whether the range `[a, b)` of `s` begins with `p`.
pub fn range_starts_with(s: &str, a: usize, b: usize, p: &str) -> (r: bool)
    requires
        a <= b <= s@.len(),
    ensures
        r == starts_with_spec(s@.subrange(a as int, b as int), p@),
{
    let ghost sub = s@.subrange(a as int, b as int);
    let plen = p.unicode_len();
    if plen > b - a {
        return false;
    }
    let mut k: usize = 0;
    while k < plen
        invariant
            0 <= k <= plen <= b - a,
            a <= b <= s@.len(),
            plen == p@.len(),
            forall|t: int| 0 <= t < k ==> s@.subrange(a as int, b as int)[t] == p@[t],
        decreases plen - k,
    {
        if s.get_char(a + k) != p.get_char(k) {
            proof {
                let sub2 = s@.subrange(a as int, b as int);
                assert(sub2.subrange(0, plen as int)[k as int] == sub2[k as int]);
                assert(sub2[k as int] == s@[a as int + k as int]);
            }
            return false;
        }
        k += 1;
    }
    proof {
        assert(sub.subrange(0, plen as int) =~= p@);
    }
    true
}

/// Decides whether two strings hold the same characters.
pub fn str_eq(a: &str, b: &str) -> (r: bool)
    ensures
        r == (a@ == b@),
{
    let n = a.unicode_len();
    if n != b.unicode_len() {
        return false;
    }
    let mut k: usize = 0;
    while k < n
        invariant
            0 <= k <= n,
            n == a@.len() == b@.len(),
            forall|t: int| 0 <= t < k ==> a@[t] == b@[t],
        decreases n - k,
    {
        if a.get_char(k) != b.get_char(k) {
            return false;
        }
        k += 1;
    }
    proof {
        assert(a@ =~= b@);
    }
    true
}

/// A line is hidden when its trimmed content begins with the prefix.
pub open spec fn hidden_line(line: Seq<char>, p: Seq<char>) -> bool {
    starts_with_spec(trim_spec(line), p)
}

/// The text with every hidden line deleted together with its line-feed
/// terminator; all other bytes, terminators included, are carried over
/// unchanged. A final line without a terminator is deleted alone.
pub open spec fn filter_lines_spec(s: Seq<char>, p: Seq<char>) -> Seq<char>
    decreases s.len(),
{
    if s.len() == 0 {
        Seq::empty()
    } else {
        let k = first_nl(s);
        if k >= s.len() {
            if hidden_line(s, p) {
                Seq::empty()
            } else {
                s
            }
        } else {
            let rest = filter_lines_spec(s.subrange(k as int + 1, s.len() as int), p);
            if hidden_line(s.subrange(0, k as int), p) {
                rest
            } else {
                s.subrange(0, k as int + 1) + rest
            }
        }
    }
}

/// Deletes every hidden line of `s`, terminator included; everything
/// else is returned byte-identical.
pub fn filter_lines(s: &str, p: &str) -> (r: String)
    ensures
        r@ == filter_lines_spec(s@, p@),
    decreases s@.len(),
{
    let n = s.unicode_len();
    if n == 0 {
        return String::new();
    }
    let k = find_nl(s, 0);
    proof {
        lemma_first_nl_at(s@, k as int);
    }
    let bounds = trim_range(s, 0, k);
    let hid = range_starts_with(s, bounds.0, bounds.1, p);
    if k == n {
        proof {
            assert(s@.subrange(0, n as int) =~= s@);
        }
        if hid {
            String::new()
        } else {
            String::from_str(s)
        }
    } else {
        let tail = s.substring_char(k + 1, n);
        let rest = filter_lines(tail, p);
        if hid {
            rest
        } else {
            let mut out = String::from_str(s.substring_char(0, k + 1));
            out.append(rest.as_str());
            out
        }
    }
}

/// No line of `s` is hidden under prefix `p`.
pub open spec fn all_kept(s: Seq<char>, p: Seq<char>) -> bool
    decreases s.len(),
{
    if s.len() == 0 {
        true
    } else {
        let k = first_nl(s);
        if k >= s.len() {
            !hidden_line(s, p)
        } else {
            !hidden_line(s.subrange(0, k as int), p) && all_kept(
                s.subrange(k as int + 1, s.len() as int),
                p,
            )
        }
    }
}

/// Filtering text that holds no hidden line returns it unchanged,
/// byte-identical.
pub proof fn lemma_filter_all_kept(s: Seq<char>, p: Seq<char>)
    requires
        all_kept(s, p),
    ensures
        filter_lines_spec(s, p) == s,
    decreases s.len(),
{
    if s.len() == 0 {
        assert(filter_lines_spec(s, p) =~= s);
    } else {
        let k = first_nl(s);
        if k < s.len() {
            lemma_filter_all_kept(s.subrange(k as int + 1, s.len() as int), p);
            assert(s.subrange(0, k as int + 1) + s.subrange(k as int + 1, s.len() as int)
                =~= s);
        }
    }
}

/// Filtering is idempotent: every line of the output was kept unchanged
/// by the first pass, so a second pass with the same prefix removes
/// nothing.
pub proof fn lemma_filter_idempotent(s: Seq<char>, p: Seq<char>)
    ensures
        filter_lines_spec(filter_lines_spec(s, p), p) == filter_lines_spec(s, p),
    decreases s.len(),
{
    if s.len() == 0 {
    } else {
        let k = first_nl(s);
        lemma_first_nl_in_range(s);
        if k < s.len() {
            let tail = s.subrange(k as int + 1, s.len() as int);
            lemma_filter_idempotent(tail, p);
            let rest = filter_lines_spec(tail, p);
            if !hidden_line(s.subrange(0, k as int), p) {
                let out = s.subrange(0, k as int + 1) + rest;
                assert(out[k as int] == s[k as int]);
                assert forall|t: int| 0 <= t < k implies out[t] != '\n' by {
                    assert(out[t] == s[t]);
                }
                lemma_first_nl_at(out, k as int);
                assert(out.subrange(0, k as int) =~= s.subrange(0, k as int));
                assert(out.subrange(0, k as int + 1) =~= s.subrange(0, k as int + 1));
                assert(out.subrange(k as int + 1, out.len() as int) =~= rest);
                assert(filter_lines_spec(out, p) == s.subrange(0, k as int + 1)
                    + filter_lines_spec(rest, p));
                assert(filter_lines_spec(out, p) == out);
            }
        }
    }
}

/// The first line feed lies within the sequence.
pub proof fn lemma_first_nl_in_range(s: Seq<char>)
    ensures
        first_nl(s) <= s.len(),
        first_nl(s) < s.len() ==> s[first_nl(s) as int] == '\n',
        forall|k: int| 0 <= k < first_nl(s) ==> s[k] != '\n',
    decreases s.len(),
{
    if s.len() == 0 {
    } else if s[0] == '\n' {
    } else {
        lemma_first_nl_in_range(s.drop_first());
        assert forall|k: int| 0 <= k < first_nl(s) implies s[k] != '\n' by {
            if k >= 1 {
                assert(s[k] == s.drop_first()[k - 1]);
            }
        }
    }
}

} // verus!
