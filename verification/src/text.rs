use vstd::prelude::*;

verus! {

// ---------------------------------------------------------------------------
// Character-level string primitives
// ---------------------------------------------------------------------------

/// Relies on String::push: appends exactly the given character to the string.
#[verifier::external_body]
pub(crate) fn push_char(s: &mut String, c: char)
    ensures
        final(s)@ == old(s)@.push(c),
{
    s.push(c);
}

/// Character-wise string equality: true exactly when the two views agree.
pub fn str_eq(a: &str, b: &str) -> (r: bool)
    ensures
        r == (a@ == b@),
{
    let n = a.unicode_len();
    if n != b.unicode_len() {
        return false;
    }
    let mut i: usize = 0;
    while i < n
        invariant
            i <= n,
            n == a@.len(),
            n == b@.len(),
            forall|j: int| 0 <= j < i ==> a@[j] == b@[j],
        decreases n - i,
    {
        if a.get_char(i) != b.get_char(i) {
            return false;
        }
        i += 1;
    }
    proof {
        assert(a@ =~= b@);
    }
    true
}

/// The characters of a string, in order, as a vector.
pub fn str_chars(s: &str) -> (r: Vec<char>)
    ensures
        r@ == s@,
{
    let n = s.unicode_len();
    let mut r: Vec<char> = Vec::new();
    let mut i: usize = 0;
    while i < n
        invariant
            i <= n,
            n == s@.len(),
            r@ == s@.take(i as int),
        decreases n - i,
    {
        let c = s.get_char(i);
        r.push(c);
        proof {
            assert(s@.take(i + 1 as int) =~= s@.take(i as int).push(s@[i as int]));
        }
        i += 1;
    }
    proof {
        assert(s@.take(n as int) =~= s@);
    }
    r
}

/// The string holding exactly the given characters, in order.
pub fn chars_string(v: &Vec<char>) -> (r: String)
    ensures
        r@ == v@,
{
    let mut r = String::new();
    let mut i: usize = 0;
    while i < v.len()
        invariant
            i <= v.len(),
            r@ == v@.take(i as int),
        decreases v.len() - i,
    {
        push_char(&mut r, v[i]);
        proof {
            assert(v@.take(i + 1 as int) =~= v@.take(i as int).push(v@[i as int]));
        }
        i += 1;
    }
    proof {
        assert(v@.take(v@.len() as int) =~= v@);
    }
    r
}

// ---------------------------------------------------------------------------
// Decimal rendering of integers
// ---------------------------------------------------------------------------

/// The character for one decimal digit.
pub open spec fn spec_digit(d: int) -> char {
    if d == 0 {
        '0'
    } else if d == 1 {
        '1'
    } else if d == 2 {
        '2'
    } else if d == 3 {
        '3'
    } else if d == 4 {
        '4'
    } else if d == 5 {
        '5'
    } else if d == 6 {
        '6'
    } else if d == 7 {
        '7'
    } else if d == 8 {
        '8'
    } else {
        '9'
    }
}

/// The decimal digits of a non-negative integer, most significant first,
/// with no leading zeros (a lone zero for 0).
pub open spec fn dec_digits(n: nat) -> Seq<char>
    decreases n,
{
    if n < 10 {
        seq![spec_digit(n as int)]
    } else {
        dec_digits(n / 10).push(spec_digit((n % 10) as int))
    }
}

/// The canonical decimal text of an integer: a minus sign for negative
/// values, then the digits of its magnitude.
pub open spec fn int_to_dec(i: int) -> Seq<char> {
    if i < 0 {
        seq!['-'] + dec_digits((-i) as nat)
    } else {
        dec_digits(i as nat)
    }
}

fn digit_char(d: u64) -> (c: char)
    requires
        d < 10,
    ensures
        c == spec_digit(d as int),
{
    match d {
        0 => '0',
        1 => '1',
        2 => '2',
        3 => '3',
        4 => '4',
        5 => '5',
        6 => '6',
        7 => '7',
        8 => '8',
        _ => '9',
    }
}

fn push_u64_dec(n: u64, out: &mut String)
    ensures
        final(out)@ == old(out)@ + dec_digits(n as nat),
    decreases n,
{
    if n >= 10 {
        push_u64_dec(n / 10, out);
    }
    push_char(out, digit_char(n % 10));
    proof {
        if n < 10 {
            assert(old(out)@ + dec_digits(n as nat) =~= old(out)@.push(spec_digit(n as int)));
        } else {
            assert(old(out)@ + dec_digits(n as nat) =~= (old(out)@ + dec_digits(
                (n / 10) as nat,
            )).push(spec_digit((n % 10) as int)));
        }
    }
}

/// The canonical decimal text of a signed 64-bit integer.
pub fn int_dec_string(i: i64) -> (r: String)
    ensures
        r@ == int_to_dec(i as int),
{
    let mut out = String::new();
    if i < 0 {
        push_char(&mut out, '-');
        let m: u64 = ((-(i + 1)) as u64) + 1;
        proof {
            assert(m as nat == (-(i as int)) as nat);
            assert(Seq::<char>::empty().push('-') =~= seq!['-']);
        }
        push_u64_dec(m, &mut out);
    } else {
        push_u64_dec(i as u64, &mut out);
        proof {
            assert(Seq::<char>::empty() + dec_digits((i as u64) as nat) =~= dec_digits(
                (i as int) as nat,
            ));
        }
    }
    out
}

// ---------------------------------------------------------------------------
// Pattern occurrence and leftmost, non-overlapping replacement
// ---------------------------------------------------------------------------

/// The pattern occurs in `s` starting at index `i`.
pub open spec fn contains_at(s: Seq<char>, i: int, pat: Seq<char>) -> bool {
    0 <= i && i + pat.len() <= s.len() && s.subrange(i, i + pat.len() as int) == pat
}

/// The pattern occurs somewhere in `s`.
pub open spec fn contains_pat(s: Seq<char>, pat: Seq<char>) -> bool {
    exists|i: int| contains_at(s, i, pat)
}

/// `p` is a prefix of `s`.
pub open spec fn is_prefix(p: Seq<char>, s: Seq<char>) -> bool {
    p.len() <= s.len() && s.subrange(0, p.len() as int) == p
}

/// `s` with every occurrence of `pat` replaced by `repl`, scanning left to
/// right and never rescanning replaced text: the replacement discipline of a
/// single text pass.
pub open spec fn replace_all(s: Seq<char>, pat: Seq<char>, repl: Seq<char>) -> Seq<char>
    recommends
        pat.len() > 0,
    decreases s.len(),
    when pat.len() > 0
{
    if s.len() < pat.len() {
        s
    } else if s.subrange(0, pat.len() as int) == pat {
        repl + replace_all(s.skip(pat.len() as int), pat, repl)
    } else {
        seq![s[0]] + replace_all(s.skip(1), pat, repl)
    }
}

fn match_at(s: &Vec<char>, pat: &Vec<char>, i: usize) -> (r: bool)
    requires
        i + pat@.len() <= s@.len(),
    ensures
        r == (s@.subrange(i as int, i + pat@.len()) == pat@),
{
    let n = s.len();
    let m = pat.len();
    let mut j: usize = 0;
    while j < m
        invariant
            j <= m,
            m == pat@.len(),
            n == s@.len(),
            i + m <= n,
            forall|k: int| 0 <= k < j ==> s@[i + k] == pat@[k],
        decreases m - j,
    {
        if s[i + j] != pat[j] {
            proof {
                assert(s@.subrange(i as int, i + pat@.len())[j as int] == s@[i + j]);
            }
            return false;
        }
        j += 1;
    }
    proof {
        assert(s@.subrange(i as int, i + pat@.len()) =~= pat@);
    }
    true
}

/// Replaces every occurrence of `pat` in `s` by `repl`, leftmost first,
/// never rescanning replaced text.
pub fn replace_chars(s: &Vec<char>, pat: &Vec<char>, repl: &Vec<char>) -> (r: Vec<char>)
    requires
        pat@.len() >= 1,
    ensures
        r@ == replace_all(s@, pat@, repl@),
{
    let mut out: Vec<char> = Vec::new();
    let mut i: usize = 0;
    let n = s.len();
    let m = pat.len();
    proof {
        assert(s@.skip(0) =~= s@);
        assert(Seq::<char>::empty() + replace_all(s@, pat@, repl@) =~= replace_all(
            s@,
            pat@,
            repl@,
        ));
    }
    while m <= n && i <= n - m
        invariant
            pat@.len() >= 1,
            m == pat@.len(),
            n == s@.len(),
            i <= s@.len(),
            replace_all(s@, pat@, repl@) == out@ + replace_all(s@.skip(i as int), pat@, repl@),
        decreases s@.len() - i,
    {
        let ghost prev = s@.skip(i as int);
        if match_at(s, pat, i) {
            proof {
                assert(prev.subrange(0, pat@.len() as int) =~= s@.subrange(
                    i as int,
                    i + pat@.len(),
                ));
                assert(prev.skip(pat@.len() as int) =~= s@.skip(i + pat@.len()));
            }
            let ghost out0 = out@;
            let mut k: usize = 0;
            while k < repl.len()
                invariant
                    k <= repl@.len(),
                    out@ == out0 + repl@.take(k as int),
                decreases repl@.len() - k,
            {
                out.push(repl[k]);
                proof {
                    assert(repl@.take(k + 1 as int) =~= repl@.take(k as int).push(repl@[k as int]));
                    assert(out0 + repl@.take(k as int).push(repl@[k as int]) =~= (out0 + repl@.take(
                        k as int,
                    )).push(repl@[k as int]));
                }
                k += 1;
            }
            proof {
                assert(repl@.take(repl@.len() as int) =~= repl@);
            }
            i += pat.len();
            proof {
                assert((out0 + repl@) + replace_all(s@.skip(i as int), pat@, repl@) =~= out0 + (
                repl@ + replace_all(s@.skip(i as int), pat@, repl@)));
            }
        } else {
            proof {
                assert(prev.subrange(0, pat@.len() as int) =~= s@.subrange(
                    i as int,
                    i + pat@.len(),
                ));
                assert(prev.skip(1) =~= s@.skip(i + 1));
                assert(prev[0] == s@[i as int]);
            }
            let ghost out0 = out@;
            out.push(s[i]);
            i += 1;
            proof {
                assert(out0.push(prev[0]) + replace_all(s@.skip(i as int), pat@, repl@) =~= out0 + (
                seq![prev[0]] + replace_all(s@.skip(i as int), pat@, repl@)));
            }
        }
    }
    let ghost mid = i;
    proof {
        assert(replace_all(s@.skip(mid as int), pat@, repl@) == s@.skip(mid as int));
    }
    while i < s.len()
        invariant
            pat@.len() >= 1,
            mid <= i <= s@.len(),
            replace_all(s@, pat@, repl@) == out@ + s@.skip(i as int),
        decreases s@.len() - i,
    {
        let ghost out0 = out@;
        let ghost prev = s@.skip(i as int);
        out.push(s[i]);
        i += 1;
        proof {
            assert(prev[0] == s@[(i - 1) as int]);
            assert(prev.skip(1) =~= s@.skip(i as int));
            assert(out0.push(prev[0]) + s@.skip(i as int) =~= out0 + prev);
        }
    }
    proof {
        assert(s@.skip(s@.len() as int) =~= Seq::<char>::empty());
        assert(out@ + Seq::<char>::empty() =~= out@);
    }
    out
}

/// A string without the pattern is returned unchanged by replacement:
/// a token whose variable is undefined stays byte-for-byte intact.
pub proof fn lemma_replace_all_absent(s: Seq<char>, pat: Seq<char>, repl: Seq<char>)
    requires
        pat.len() > 0,
        !contains_pat(s, pat),
    ensures
        replace_all(s, pat, repl) == s,
    decreases s.len(),
{
    if s.len() < pat.len() {
    } else {
        assert(!contains_at(s, 0, pat));
        assert forall|j: int| !contains_at(s.skip(1), j, pat) by {
            if contains_at(s.skip(1), j, pat) {
                assert(s.skip(1).subrange(j, j + pat.len() as int) =~= s.subrange(
                    j + 1,
                    j + 1 + pat.len(),
                ));
                assert(contains_at(s, j + 1, pat));
            }
        }
        lemma_replace_all_absent(s.skip(1), pat, repl);
        assert(seq![s[0]] + s.skip(1) =~= s);
    }
}

proof fn lemma_replace_prefix_pull(s: Seq<char>, pat: Seq<char>, repl: Seq<char>, k: int)
    requires
        pat.len() > 0,
        repl.len() > 0,
        forall|j: int| 0 <= j < pat.len() ==> !repl.contains(#[trigger] pat[j]),
        1 <= k < pat.len(),
        is_prefix(pat.skip(k), replace_all(s, pat, repl)),
    ensures
        is_prefix(pat.skip(k), s),
    decreases s.len(),
{
    let r = replace_all(s, pat, repl);
    let tail = pat.skip(k);
    if s.len() < pat.len() {
    } else if s.subrange(0, pat.len() as int) == pat {
        assert(r == repl + replace_all(s.skip(pat.len() as int), pat, repl));
        assert(r.subrange(0, tail.len() as int)[0] == tail[0]);
        assert(r[0] == repl[0]);
        assert(repl[0] == pat[k]);
        assert(repl.contains(pat[k]));
        assert(false);
    } else {
        let t = replace_all(s.skip(1), pat, repl);
        assert(r == seq![s[0]] + t);
        assert(r.subrange(0, tail.len() as int)[0] == tail[0]);
        assert(s[0] == pat[k]);
        if k + 1 == pat.len() {
            assert(s.subrange(0, 1) =~= seq![pat[k]]);
            assert(seq![pat[k]] =~= tail);
        } else {
            let tail1 = pat.skip(k + 1);
            assert forall|j: int| 0 <= j < tail1.len() implies t.subrange(0, tail1.len() as int)[j]
                == tail1[j] by {
                assert(t[j] == r[j + 1]);
                assert(r.subrange(0, tail.len() as int)[j + 1] == tail[j + 1]);
                assert(tail[j + 1] == pat[k + 1 + j]);
            }
            assert(t.subrange(0, tail1.len() as int) =~= tail1);
            lemma_replace_prefix_pull(s.skip(1), pat, repl, k + 1);
            assert forall|j: int| 0 <= j < tail.len() implies s.subrange(0, tail.len() as int)[j]
                == tail[j] by {
                if j > 0 {
                    assert(s.skip(1).subrange(0, tail1.len() as int)[j - 1] == tail1[j - 1]);
                    assert(s[j] == pat[k + j]);
                }
            }
            assert(s.subrange(0, tail.len() as int) =~= tail);
        }
    }
}

/// After replacement, no occurrence of the pattern remains, provided the
/// replacement is non-empty and shares no character with the pattern. (The
/// restriction is needed: a replacement that overlaps the pattern can create
/// a fresh occurrence across a boundary.)
pub proof fn lemma_replace_all_removes(s: Seq<char>, pat: Seq<char>, repl: Seq<char>)
    requires
        pat.len() > 0,
        repl.len() > 0,
        forall|j: int| 0 <= j < pat.len() ==> !repl.contains(#[trigger] pat[j]),
    ensures
        !contains_pat(replace_all(s, pat, repl), pat),
    decreases s.len(),
{
    let r = replace_all(s, pat, repl);
    if s.len() < pat.len() {
        assert forall|q: int| !contains_at(r, q, pat) by {}
    } else if s.subrange(0, pat.len() as int) == pat {
        let t = replace_all(s.skip(pat.len() as int), pat, repl);
        lemma_replace_all_removes(s.skip(pat.len() as int), pat, repl);
        assert forall|q: int| !contains_at(r, q, pat) by {
            if contains_at(r, q, pat) {
                if q < repl.len() {
                    assert(r.subrange(q, q + pat.len() as int)[0] == pat[0]);
                    assert(r[q] == repl[q]);
                    assert(repl.contains(pat[0]));
                } else {
                    let q2 = q - repl.len();
                    assert forall|j: int| 0 <= j < pat.len() implies t.subrange(
                        q2,
                        q2 + pat.len() as int,
                    )[j] == pat[j] by {
                        assert(t[q2 + j] == r[q + j]);
                        assert(r.subrange(q, q + pat.len() as int)[j] == pat[j]);
                    }
                    assert(t.subrange(q2, q2 + pat.len() as int) =~= pat);
                    assert(contains_at(t, q2, pat));
                }
            }
        }
    } else {
        let t = replace_all(s.skip(1), pat, repl);
        lemma_replace_all_removes(s.skip(1), pat, repl);
        assert forall|q: int| !contains_at(r, q, pat) by {
            if contains_at(r, q, pat) {
                if q >= 1 {
                    let q2 = q - 1;
                    assert forall|j: int| 0 <= j < pat.len() implies t.subrange(
                        q2,
                        q2 + pat.len() as int,
                    )[j] == pat[j] by {
                        assert(t[q2 + j] == r[q + j]);
                        assert(r.subrange(q, q + pat.len() as int)[j] == pat[j]);
                    }
                    assert(t.subrange(q2, q2 + pat.len() as int) =~= pat);
                    assert(contains_at(t, q2, pat));
                } else {
                    assert(r.subrange(0, pat.len() as int)[0] == pat[0]);
                    assert(s[0] == pat[0]);
                    if pat.len() == 1 {
                        assert(s.subrange(0, 1) =~= pat);
                    } else {
                        let tail1 = pat.skip(1);
                        assert forall|j: int| 0 <= j < tail1.len() implies t.subrange(
                            0,
                            tail1.len() as int,
                        )[j] == tail1[j] by {
                            assert(t[j] == r[j + 1]);
                            assert(r.subrange(0, pat.len() as int)[j + 1] == pat[j + 1]);
                        }
                        assert(t.subrange(0, tail1.len() as int) =~= tail1);
                        lemma_replace_prefix_pull(s.skip(1), pat, repl, 1);
                        assert forall|j: int| 0 <= j < pat.len() implies s.subrange(
                            0,
                            pat.len() as int,
                        )[j] == pat[j] by {
                            if j > 0 {
                                assert(s.skip(1).subrange(0, tail1.len() as int)[j - 1] == tail1[j
                                    - 1]);
                            }
                        }
                        assert(s.subrange(0, pat.len() as int) =~= pat);
                    }
                    assert(contains_at(s, 0, pat));
                }
            }
        }
    }
}

// ---------------------------------------------------------------------------
// Variable placeholder tokens
// ---------------------------------------------------------------------------

/// The placeholder token for a variable: `$(name)`.
pub open spec fn token_of(name: Seq<char>) -> Seq<char> {
    seq!['$', '('] + name + seq![')']
}

/// Builds the `$(name)` placeholder token for a variable name.
pub fn make_token(name: &str) -> (r: Vec<char>)
    ensures
        r@ == token_of(name@),
        r@.len() >= 3,
{
    let mut r: Vec<char> = Vec::new();
    r.push('$');
    r.push('(');
    let mut cs = str_chars(name);
    r.append(&mut cs);
    r.push(')');
    proof {
        assert(r@ =~= token_of(name@));
    }
    r
}

// ---------------------------------------------------------------------------
// First occurrence of a character
// ---------------------------------------------------------------------------

/// The position of the first occurrence of `c` in `s`, if any.
pub open spec fn index_of_first(s: Seq<char>, c: char) -> Option<int>
    decreases s.len(),
{
    if s.len() == 0 {
        None
    } else if s[0] == c {
        Some(0int)
    } else {
        match index_of_first(s.skip(1), c) {
            Some(j) => Some(j + 1),
            None => None,
        }
    }
}

fn find_char_from(v: &Vec<char>, c: char, i: usize) -> (r: Option<usize>)
    requires
        i <= v@.len(),
    ensures
        match r {
            Some(j) => i <= j < v@.len() && index_of_first(v@.skip(i as int), c) == Some(
                j - i as int,
            ),
            None => index_of_first(v@.skip(i as int), c) is None,
        },
    decreases v@.len() - i,
{
    if i == v.len() {
        proof {
            assert(v@.skip(i as int) =~= Seq::<char>::empty());
        }
        None
    } else if v[i] == c {
        proof {
            assert(v@.skip(i as int)[0] == v@[i as int]);
        }
        Some(i)
    } else {
        let r = find_char_from(v, c, i + 1);
        proof {
            assert(v@.skip(i as int)[0] == v@[i as int]);
            assert(v@.skip(i as int).skip(1) =~= v@.skip(i + 1));
        }
        match r {
            Some(j) => Some(j),
            None => None,
        }
    }
}

/// The position of the first occurrence of `c` in `v`, if any.
pub fn find_char(v: &Vec<char>, c: char) -> (r: Option<usize>)
    ensures
        match r {
            Some(j) => j < v@.len() && index_of_first(v@, c) == Some(j as int),
            None => index_of_first(v@, c) is None,
        },
{
    let r = find_char_from(v, c, 0);
    proof {
        assert(v@.skip(0) =~= v@);
    }
    r
}

// ---------------------------------------------------------------------------
// Splitting on a separator character
// ---------------------------------------------------------------------------

/// The pieces of `s` between occurrences of `sep`, in order. An empty string
/// yields one empty piece; a separator at either end or two adjacent
/// separators yield empty pieces, exactly as a single-character split does.
pub open spec fn split_sep(s: Seq<char>, sep: char) -> Seq<Seq<char>>
    decreases s.len(),
{
    if s.len() == 0 {
        seq![Seq::<char>::empty()]
    } else if s[0] == sep {
        seq![Seq::<char>::empty()] + split_sep(s.skip(1), sep)
    } else {
        let rest = split_sep(s.skip(1), sep);
        seq![seq![s[0]] + rest[0]] + rest.skip(1)
    }
}

pub proof fn lemma_split_sep_nonempty(s: Seq<char>, sep: char)
    ensures
        split_sep(s, sep).len() >= 1,
    decreases s.len(),
{
    if s.len() == 0 {
    } else {
        lemma_split_sep_nonempty(s.skip(1), sep);
    }
}

fn split_chars_from(s: &Vec<char>, sep: char, i: usize) -> (r: Vec<Vec<char>>)
    requires
        i <= s@.len(),
    ensures
        r.deep_view() == split_sep(s@.skip(i as int), sep),
        r@.len() >= 1,
    decreases s@.len() - i,
{
    proof {
        lemma_split_sep_nonempty(s@.skip(i as int), sep);
    }
    if i == s.len() {
        let mut r: Vec<Vec<char>> = Vec::new();
        r.push(Vec::new());
        proof {
            assert(s@.skip(i as int) =~= Seq::<char>::empty());
            assert(r.deep_view() =~~= split_sep(s@.skip(i as int), sep));
        }
        r
    } else if s[i] == sep {
        let mut rest = split_chars_from(s, sep, i + 1);
        let ghost restdv = rest.deep_view();
        rest.insert(0, Vec::new());
        proof {
            assert(s@.skip(i as int)[0] == s@[i as int]);
            assert(s@.skip(i as int).skip(1) =~= s@.skip(i + 1));
            assert(rest.deep_view() =~~= seq![Seq::<char>::empty()] + restdv);
        }
        rest
    } else {
        let mut rest = split_chars_from(s, sep, i + 1);
        let ghost restdv = rest.deep_view();
        let mut first = rest.remove(0);
        let ghost taildv = rest.deep_view();
        proof {
            assert(taildv =~~= restdv.skip(1));
        }
        first.insert(0, s[i]);
        proof {
            assert(first@ =~= seq![s@[i as int]] + restdv[0]);
        }
        rest.insert(0, first);
        proof {
            assert(s@.skip(i as int)[0] == s@[i as int]);
            assert(s@.skip(i as int).skip(1) =~= s@.skip(i + 1));
            assert(rest.deep_view() =~~= seq![seq![s@[i as int]] + restdv[0]] + restdv.skip(1));
        }
        rest
    }
}

/// Splits a string on a separator character, keeping empty pieces.
pub fn split_string(s: &str, sep: char) -> (r: Vec<String>)
    ensures
        r.deep_view() == split_sep(s@, sep),
        r@.len() >= 1,
{
    let chars = str_chars(s);
    let pieces = split_chars_from(&chars, sep, 0);
    proof {
        assert(chars@.skip(0) =~= s@);
    }
    let ghost piecesdv = pieces.deep_view();
    let mut r: Vec<String> = Vec::new();
    let mut i: usize = 0;
    while i < pieces.len()
        invariant
            i <= pieces@.len(),
            piecesdv == pieces.deep_view(),
            piecesdv.len() == pieces@.len(),
            r.deep_view() == piecesdv.take(i as int),
        decreases pieces@.len() - i,
    {
        let t = chars_string(&pieces[i]);
        r.push(t);
        proof {
            assert(piecesdv.take(i + 1 as int) =~= piecesdv.take(i as int).push(piecesdv[i as int]));
            assert(r.deep_view() =~~= piecesdv.take(i as int).push(piecesdv[i as int]));
        }
        i += 1;
    }
    proof {
        assert(piecesdv.take(piecesdv.len() as int) =~= piecesdv);
    }
    r
}

} // verus!
