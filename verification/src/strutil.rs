//! Verified string utilities: splitting on separator characters, substring
//! search, decimal parsing and formatting. These carry the exact character
//! level specifications that the effects grammar is stated over.

use vstd::prelude::*;

verus! {

/// Relies on `String::push`: appends exactly the one character to the end of
/// the string.
#[verifier::external_body]
pub fn push_char(s: &mut String, c: char)
    ensures
        final (s)@ == old(s)@ + seq![c],
{
    s.push(c);
}

/// Splitting a character sequence on a set of separator characters, keeping
/// empty segments, as `str::split` does: the empty input gives one empty
/// segment, and every separator ends the current segment and opens a new one.
pub open spec fn spec_split(s: Seq<char>, seps: Set<char>) -> Seq<Seq<char>>
    decreases s.len(),
{
    if s.len() == 0 {
        seq![Seq::<char>::empty()]
    } else {
        let rest = spec_split(s.drop_last(), seps);
        if seps.contains(s.last()) {
            rest + seq![Seq::<char>::empty()]
        } else {
            rest.update(rest.len() - 1, rest.last().push(s.last()))
        }
    }
}

/// A split always yields at least one segment.
pub proof fn lemma_split_len(s: Seq<char>, seps: Set<char>)
    ensures
        spec_split(s, seps).len() >= 1,
    decreases s.len(),
{
    if s.len() > 0 {
        lemma_split_len(s.drop_last(), seps);
    }
}

fn char_in(c: char, seps: &Vec<char>) -> (r: bool)
    ensures
        r == seps@.to_set().contains(c),
{
    let mut i: usize = 0;
    while i < seps.len()
        invariant
            i <= seps.len(),
            forall|j: int| 0 <= j < i ==> seps@[j] != c,
        decreases seps.len() - i,
    {
        if seps[i] == c {
            return true;
        }
        i = i + 1;
    }
    false
}

/// Splits `s` on any of the characters in `seps`, keeping empty segments.
pub fn split_on(s: &str, seps: &Vec<char>) -> (r: Vec<String>)
    ensures
        r.deep_view() == spec_split(s@, seps@.to_set()),
        r.len() >= 1,
{
    let ghost gseps = seps@.to_set();
    let n = s.unicode_len();
    let mut out: Vec<String> = Vec::new();
    let mut cur: String = String::new();
    let mut i: usize = 0;
    while i < n
        invariant
            i <= n,
            n == s@.len(),
            out.deep_view().push(cur@) == spec_split(s@.take(i as int), gseps),
            gseps == seps@.to_set(),
        decreases n - i,
    {
        let c = s.get_char(i);
        proof {
            let t = s@.take(i + 1 as int);
            assert(t.drop_last() =~= s@.take(i as int));
            assert(t.last() == s@[i as int]);
        }
        let ghost prev = spec_split(s@.take(i as int), gseps);
        proof {
            lemma_split_len(s@.take(i as int), gseps);
            assert(prev.last() == cur@);
        }
        if char_in(c, seps) {
            out.push(cur);
            cur = String::new();
            proof {
                assert(spec_split(s@.take(i + 1 as int), gseps) == prev + seq![
                    Seq::<char>::empty(),
                ]);
                assert(out.deep_view() =~= prev);
                assert(out.deep_view().push(cur@) =~= prev + seq![Seq::<char>::empty()]);
            }
        } else {
            push_char(&mut cur, c);
            proof {
                assert(cur@ =~= prev.last().push(c));
                assert(spec_split(s@.take(i + 1 as int), gseps) == prev.update(
                    prev.len() - 1,
                    prev.last().push(c),
                ));
                assert(out.deep_view().push(cur@) =~= prev.update(
                    prev.len() - 1,
                    prev.last().push(c),
                ));
            }
        }
        i = i + 1;
    }
    proof {
        assert(s@.take(n as int) =~= s@);
    }
    out.push(cur);
    proof {
        assert(out.deep_view() =~= spec_split(s@, gseps));
    }
    out
}

/// Whether `p` occurs in `s` as a contiguous subsequence.
pub open spec fn has_substring(s: Seq<char>, p: Seq<char>) -> bool {
    exists|i: int| 0 <= i && i + p.len() <= s.len() && #[trigger] s.subrange(i, i + p.len()) == p
}

fn matches_at(s: &str, n: usize, p: &str, m: usize, at: usize) -> (r: bool)
    requires
        n == s@.len(),
        m == p@.len(),
        at + m <= n,
    ensures
        r == (s@.subrange(at as int, at + m) == p@),
{
    let mut j: usize = 0;
    while j < m
        invariant
            j <= m,
            at + m <= n,
            n == s@.len(),
            m == p@.len(),
            forall|k: int| 0 <= k < j ==> s@[at + k] == p@[k],
        decreases m - j,
    {
        if s.get_char(at + j) != p.get_char(j) {
            proof {
                assert(s@.subrange(at as int, at + m)[j as int] != p@[j as int]);
            }
            return false;
        }
        j = j + 1;
    }
    proof {
        assert(s@.subrange(at as int, at + m) =~= p@);
    }
    true
}

/// Whether the pattern occurs anywhere in the string.
pub fn contains_sub(s: &str, p: &str) -> (r: bool)
    ensures
        r == has_substring(s@, p@),
{
    let n = s.unicode_len();
    let m = p.unicode_len();
    if m > n {
        return false;
    }
    let limit = n - m;
    let mut i: usize = 0;
    while i <= limit
        invariant
            limit == n - m,
            m <= n,
            i <= limit + 1,
            n == s@.len(),
            m == p@.len(),
            forall|k: int| 0 <= k < i ==> #[trigger] s@.subrange(k, k + m as int) != p@,
        decreases limit - i,
    {
        if matches_at(s, n, p, m, i) {
            proof {
                assert(s@.subrange(i as int, i as int + p@.len()) == p@);
            }
            return true;
        }
        if i == limit {
            return false;
        }
        i = i + 1;
    }
    false
}

/// A nonempty run of decimal digits.
pub open spec fn is_dec_digits(s: Seq<char>) -> bool {
    s.len() > 0 && forall|i: int| 0 <= i < s.len() ==> '0' <= #[trigger] s[i] <= '9'
}

/// The value of one decimal digit character; other characters count as zero.
pub open spec fn digit_val(c: char) -> nat {
    if '0' <= c && c <= '9' {
        (c as int - '0' as int) as nat
    } else {
        0
    }
}

/// The numeric value of a run of decimal digits, most significant first.
pub open spec fn dec_val(s: Seq<char>) -> nat
    decreases s.len(),
{
    if s.len() == 0 {
        0
    } else {
        dec_val(s.drop_last()) * 10 + digit_val(s.last())
    }
}

/// Parses a nonempty all-digit string as a `usize`; `None` on any other
/// shape, and on a value that does not fit.
pub fn parse_usize(s: &str) -> (r: Option<usize>)
    ensures
        r is Some <==> is_dec_digits(s@) && dec_val(s@) <= usize::MAX,
        r matches Some(v) ==> v == dec_val(s@),
{
    let n = s.unicode_len();
    if n == 0 {
        return None;
    }
    let mut acc: usize = 0;
    let mut i: usize = 0;
    while i < n
        invariant
            i <= n,
            n == s@.len(),
            n > 0,
            forall|k: int| 0 <= k < i ==> '0' <= #[trigger] s@[k] <= '9',
            acc == dec_val(s@.take(i as int)),
        decreases n - i,
    {
        let c = s.get_char(i);
        if c < '0' || c > '9' {
            return None;
        }
        let d: usize = (c as u32 as usize) - ('0' as u32 as usize);
        proof {
            assert(s@.take(i + 1 as int).drop_last() =~= s@.take(i as int));
        }
        acc = match acc.checked_mul(10) {
            Some(t) => match t.checked_add(d) {
                Some(t2) => t2,
                None => {
                    proof {
                        lemma_dec_val_monotonic(s@, i + 1 as int);
                    }
                    return None;
                },
            },
            None => {
                proof {
                    lemma_dec_val_monotonic(s@, i + 1 as int);
                }
                return None;
            },
        };
        i = i + 1;
    }
    proof {
        assert(s@.take(n as int) =~= s@);
    }
    Some(acc)
}

/// The value of a digit prefix never exceeds the value of the whole run.
proof fn lemma_dec_val_monotonic(s: Seq<char>, i: int)
    requires
        0 <= i <= s.len(),
    ensures
        dec_val(s.take(i)) <= dec_val(s),
    decreases s.len() - i,
{
    if i < s.len() {
        lemma_dec_val_monotonic(s, i + 1);
        assert(s.take(i + 1).drop_last() =~= s.take(i));
        assert(dec_val(s.take(i)) <= dec_val(s.take(i + 1)));
    } else {
        assert(s.take(i) =~= s);
    }
}

/// The digit character for a value below ten.
pub open spec fn digit_char(n: nat) -> char
    recommends
        n < 10,
{
    if n == 0 {
        '0'
    } else if n == 1 {
        '1'
    } else if n == 2 {
        '2'
    } else if n == 3 {
        '3'
    } else if n == 4 {
        '4'
    } else if n == 5 {
        '5'
    } else if n == 6 {
        '6'
    } else if n == 7 {
        '7'
    } else if n == 8 {
        '8'
    } else {
        '9'
    }
}

/// The usual decimal rendering of a natural number, no sign, no leading
/// zeros (except for zero itself).
pub open spec fn dec_string(n: nat) -> Seq<char>
    decreases n,
{
    if n < 10 {
        seq![digit_char(n)]
    } else {
        dec_string(n / 10) + seq![digit_char(n % 10)]
    }
}

fn digit_char_of(n: u64) -> (c: char)
    requires
        n < 10,
    ensures
        c == digit_char(n as nat),
{
    match n {
        0 => '0',
        1 => '1',
        2 => '2',
        3 => '3',
        4 => '4',
        5 => '5',
        6 => '6',
        7 => '7',
        8 => '8',
        _ => '9',
    }
}

/// Renders a number in decimal.
pub fn u64_to_string(n: u64) -> (r: String)
    ensures
        r@ == dec_string(n as nat),
    decreases n,
{
    if n < 10 {
        let mut s = String::new();
        push_char(&mut s, digit_char_of(n));
        proof {
            assert(s@ =~= dec_string(n as nat));
        }
        s
    } else {
        let mut s = u64_to_string(n / 10);
        push_char(&mut s, digit_char_of(n % 10));
        proof {
            assert(s@ =~= dec_string(n as nat));
        }
        s
    }
}

/// The characters of `s` with every occurrence of `c` removed.
pub open spec fn remove_char(s: Seq<char>, c: char) -> Seq<char> {
    s.filter(|x: char| x != c)
}

/// Copies the string, dropping every occurrence of `c`.
pub fn strip_char(s: &str, c: char) -> (r: String)
    ensures
        r@ == remove_char(s@, c),
{
    let n = s.unicode_len();
    let mut out = String::new();
    let mut i: usize = 0;
    while i < n
        invariant
            i <= n,
            n == s@.len(),
            out@ == remove_char(s@.take(i as int), c),
        decreases n - i,
    {
        let x = s.get_char(i);
        proof {
            assert(s@.take(i + 1 as int).drop_last() =~= s@.take(i as int));
            reveal(Seq::filter);
        }
        if x != c {
            push_char(&mut out, x);
        }
        i = i + 1;
    }
    proof {
        assert(s@.take(n as int) =~= s@);
    }
    out
}

/// Appends `suffix` to `base`.
pub fn append_str(base: &mut String, suffix: &str)
    ensures
        final (base)@ == old(base)@ + suffix@,
{
    base.append(suffix);
}

/// A fresh copy of a string slice.
pub fn str_to_string(s: &str) -> (r: String)
    ensures
        r@ == s@,
{
    s.to_owned()
}

/// Whether two strings hold the same characters.
pub fn str_eq(a: &str, b: &str) -> (r: bool)
    ensures
        r == (a@ == b@),
{
    let n = a.unicode_len();
    let m = b.unicode_len();
    if n != m {
        proof {
            assert(a@ != b@);
        }
        return false;
    }
    let r = matches_at(a, n, b, m, 0);
    proof {
        assert(a@.subrange(0, 0 + m as int) =~= a@);
    }
    r
}

/// The one-element sequence seen as a set.
pub proof fn lemma_set_of_one(c: char)
    ensures
        seq![c].to_set() == set![c],
{
    assert forall|x: char| seq![c].to_set().contains(x) <==> set![c].contains(x) by {
        assert(seq![c][0] == c);
        if seq![c].contains(x) {
            let i = choose|i: int| 0 <= i < seq![c].len() && seq![c][i] == x;
            assert(i == 0);
        }
    }
    assert(seq![c].to_set() =~= set![c]);
}

/// The two-element sequence seen as a set.
pub proof fn lemma_set_of_two(c: char, d: char)
    ensures
        seq![c, d].to_set() == set![c, d],
{
    assert forall|x: char| seq![c, d].to_set().contains(x) <==> set![c, d].contains(x) by {
        assert(seq![c, d][0] == c);
        assert(seq![c, d][1] == d);
        if seq![c, d].contains(x) {
            let i = choose|i: int| 0 <= i < seq![c, d].len() && seq![c, d][i] == x;
            assert(i == 0 || i == 1);
        }
    }
    assert(seq![c, d].to_set() =~= set![c, d]);
}

/// Whether `p` occurs in `s` starting exactly at `i`.
pub open spec fn match_at(s: Seq<char>, p: Seq<char>, i: int) -> bool {
    0 <= i && i + p.len() <= s.len() && s.subrange(i, i + p.len()) == p
}

/// The last position where the pattern occurs, if it occurs at all.
pub fn rfind_sub(s: &str, p: &str) -> (r: Option<usize>)
    ensures
        r matches Some(i) ==> match_at(s@, p@, i as int) && (forall|j: int|
            j > i ==> !match_at(s@, p@, j)),
        r is None ==> forall|j: int| !match_at(s@, p@, j),
{
    let n = s.unicode_len();
    let m = p.unicode_len();
    if m > n {
        return None;
    }
    let mut i: usize = n - m;
    loop
        invariant
            m <= n,
            i <= n - m,
            n == s@.len(),
            m == p@.len(),
            forall|j: int| j > i ==> !match_at(s@, p@, j),
        decreases i,
    {
        if matches_at(s, n, p, m, i) {
            proof {
                assert(s@.subrange(i as int, i as int + p@.len()) == p@);
            }
            return Some(i);
        }
        proof {
            assert(!match_at(s@, p@, i as int));
        }
        if i == 0 {
            return None;
        }
        i = i - 1;
    }
}

} // verus!
