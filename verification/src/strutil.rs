//! String helpers for module paths: splitting on a delimiter and
//! ASCII-case-insensitive comparison of path segments.

use vstd::prelude::*;

verus! {

/// The numeric value of `c` with an ASCII upper-case letter folded to lower
/// case; other characters are left alone.
pub open spec fn lower_int(c: char) -> int {
    if 65 <= c as int && c as int <= 90 {
        c as int + 32
    } else {
        c as int
    }
}

/// ASCII-case-insensitive equality of two character sequences.
pub open spec fn seg_eq_ci(a: Seq<char>, b: Seq<char>) -> bool {
    a.len() == b.len() && forall|i: int| 0 <= i < a.len() ==> lower_int(a[i]) == lower_int(b[i])
}

/// Splitting `s` on the delimiter `d`, with `cur` the segment accumulated so
/// far: the leftmost occurrence of `d` ends the current segment, exactly as
/// `str::split` does.
pub open spec fn split_rec(s: Seq<char>, d: Seq<char>, cur: Seq<char>) -> Seq<Seq<char>>
    recommends
        d.len() >= 1,
    decreases s.len(),
{
    if d.len() >= 1 && s.len() >= d.len() && s.subrange(0, d.len() as int) == d {
        seq![cur] + split_rec(s.skip(d.len() as int), d, Seq::empty())
    } else if s.len() == 0 {
        seq![cur]
    } else {
        split_rec(s.skip(1), d, cur.push(s[0]))
    }
}

/// The segments of `s` split on the delimiter `d`.
pub open spec fn split_spec(s: Seq<char>, d: Seq<char>) -> Seq<Seq<char>> {
    split_rec(s, d, Seq::empty())
}

/// Splitting always yields at least one segment: even the empty string
/// splits into one empty segment.
pub proof fn lemma_split_len(s: Seq<char>, d: Seq<char>, cur: Seq<char>)
    ensures
        split_rec(s, d, cur).len() >= 1,
    decreases s.len(),
{
    if d.len() >= 1 && s.len() >= d.len() && s.subrange(0, d.len() as int) == d {
    } else if s.len() == 0 {
    } else {
        lemma_split_len(s.skip(1), d, cur.push(s[0]));
    }
}

/// True when `s` has an occurrence of `d` starting at position `i`.
pub open spec fn delim_at(s: Seq<char>, d: Seq<char>, i: int) -> bool {
    0 <= i && i + d.len() <= s.len() && s.subrange(i, i + d.len() as int) == d
}

/// Compares `a` and `b` ASCII-case-insensitively, like
/// `str::eq_ignore_ascii_case`.
pub fn eq_ignore_case(a: &str, b: &str) -> (r: bool)
    ensures
        r == seg_eq_ci(a@, b@),
{
    let na = a.unicode_len();
    let nb = b.unicode_len();
    if na != nb {
        return false;
    }
    let mut i: usize = 0;
    while i < na
        invariant
            na == a@.len(),
            nb == b@.len(),
            na == nb,
            i <= na,
            forall|j: int| 0 <= j < i ==> lower_int(a@[j]) == lower_int(b@[j]),
        decreases na - i,
    {
        let ca = a.get_char(i) as u32;
        let cb = b.get_char(i) as u32;
        let la = if 65 <= ca && ca <= 90 {
            ca + 32
        } else {
            ca
        };
        let lb = if 65 <= cb && cb <= 90 {
            cb + 32
        } else {
            cb
        };
        if la != lb {
            assert(lower_int(a@[i as int]) != lower_int(b@[i as int]));
            return false;
        }
        assert(lower_int(a@[i as int]) == lower_int(b@[i as int]));
        i = i + 1;
    }
    true
}

/// True when the characters of `s` starting at `i` begin with `d`.
fn starts_with_at(s: &str, n: usize, d: &str, m: usize, i: usize) -> (r: bool)
    requires
        n == s@.len(),
        m == d@.len(),
        i + m <= n,
    ensures
        r == delim_at(s@, d@, i as int),
{
    let mut j: usize = 0;
    while j < m
        invariant
            n == s@.len(),
            m == d@.len(),
            i + m <= n,
            j <= m,
            forall|k: int| 0 <= k < j ==> s@[i + k] == d@[k],
        decreases m - j,
    {
        if s.get_char(i + j) != d.get_char(j) {
            assert(s@.subrange(i as int, i + m) != d@) by {
                assert(s@.subrange(i as int, i + m)[j as int] == s@[i + j]);
            }
            return false;
        }
        j = j + 1;
    }
    assert(s@.subrange(i as int, i + m) =~= d@);
    true
}

/// Splits `s` on the delimiter `d`, as `str::split` does: leftmost
/// occurrences first, empty segments kept.
pub fn split_delim(s: &str, d: &str) -> (r: Vec<String>)
    requires
        d@.len() >= 1,
    ensures
        r@.map_values(|t: String| t@) == split_spec(s@, d@),
{
    let n = s.unicode_len();
    let m = d.unicode_len();
    let mut r: Vec<String> = Vec::new();
    let mut start: usize = 0;
    let mut i: usize = 0;
    proof {
        assert(s@.skip(0) =~= s@);
        assert(s@.subrange(0, 0) =~= Seq::<char>::empty());
        assert(r@.map_values(|t: String| t@) =~= Seq::<Seq<char>>::empty());
    }
    while i <= n
        invariant
            n == s@.len(),
            m == d@.len(),
            m >= 1,
            start <= i <= n,
            split_spec(s@, d@) == r@.map_values(|t: String| t@) + split_rec(
                s@.skip(i as int),
                d@,
                s@.subrange(start as int, i as int),
            ),
        decreases n - i,
    {
        if m <= n - i && starts_with_at(s, n, d, m, i) {
            let seg = s.substring_char(start, i).to_owned();
            proof {
                assert(s@.skip(i as int).subrange(0, m as int) =~= s@.subrange(
                    i as int,
                    i + m,
                ));
                assert(s@.skip(i as int).skip(m as int) =~= s@.skip(i + m));
                assert((r@.push(seg)).map_values(|t: String| t@) =~= r@.map_values(
                    |t: String| t@,
                ).push(seg@));
                assert(s@.subrange(i + m, i + m) =~= Seq::<char>::empty());
                assert(r@.map_values(|t: String| t@) + (seq![seg@] + split_rec(
                    s@.skip(i + m),
                    d@,
                    Seq::empty(),
                )) =~= r@.map_values(|t: String| t@).push(seg@) + split_rec(
                    s@.skip(i + m),
                    d@,
                    Seq::empty(),
                ));
            }
            r.push(seg);
            i = i + m;
            start = i;
        } else if i < n {
            proof {
                assert(s@.skip(i as int).len() >= 1);
                if s@.skip(i as int).len() >= m {
                    assert(s@.skip(i as int).subrange(0, m as int) =~= s@.subrange(
                        i as int,
                        i + m,
                    ));
                }
                assert(s@.skip(i as int).skip(1) =~= s@.skip(i + 1));
                assert(s@.subrange(start as int, i as int).push(s@[i as int]) =~= s@.subrange(
                    start as int,
                    i + 1,
                ));
                assert(s@.skip(i as int)[0] == s@[i as int]);
            }
            i = i + 1;
        } else {
            let seg = s.substring_char(start, n).to_owned();
            proof {
                assert(s@.skip(n as int).len() == 0);
                assert((r@.push(seg)).map_values(|t: String| t@) =~= r@.map_values(
                    |t: String| t@,
                ).push(seg@));
                assert(r@.map_values(|t: String| t@) + seq![seg@] =~= r@.map_values(
                    |t: String| t@,
                ).push(seg@));
            }
            r.push(seg);
            return r;
        }
    }
    r
}

} // verus!
