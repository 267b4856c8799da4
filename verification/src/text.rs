//! Character-level text operations over `Seq<char>`: white space, trimming,
//! prefixes, substrings and ASCII case folding, each with an executable
//! counterpart proved against it.
use vstd::prelude::*;

verus! {

/// Unicode `White_Space`, the property that `char::is_whitespace` tests:
/// U+0009..U+000D, U+0020, U+0085, U+00A0, U+1680, U+2000..U+200A,
/// U+2028, U+2029, U+202F, U+205F and U+3000.
pub open spec fn is_white_space(c: char) -> bool {
    let v = c as u32;
    ||| 0x09 <= v && v <= 0x0d
    ||| v == 0x20
    ||| v == 0x85
    ||| v == 0xa0
    ||| v == 0x1680
    ||| 0x2000 <= v && v <= 0x200a
    ||| v == 0x2028
    ||| v == 0x2029
    ||| v == 0x202f
    ||| v == 0x205f
    ||| v == 0x3000
}

/// Whether `c` is Unicode white space.
pub fn white_space(c: char) -> (r: bool)
    ensures
        r == is_white_space(c),
{
    let v = c as u32;
    (0x09 <= v && v <= 0x0d) || v == 0x20 || v == 0x85 || v == 0xa0 || v == 0x1680 || (0x2000 <= v
        && v <= 0x200a) || v == 0x2028 || v == 0x2029 || v == 0x202f || v == 0x205f || v == 0x3000
}

/// `s` without its leading white space (`str::trim_start`).
pub open spec fn trim_start(s: Seq<char>) -> Seq<char>
    decreases s.len(),
{
    if s.len() > 0 && is_white_space(s[0]) {
        trim_start(s.drop_first())
    } else {
        s
    }
}

/// `s` without its trailing white space (`str::trim_end`).
pub open spec fn trim_end(s: Seq<char>) -> Seq<char>
    decreases s.len(),
{
    if s.len() > 0 && is_white_space(s.last()) {
        trim_end(s.drop_last())
    } else {
        s
    }
}

/// `s` without white space at either end (`str::trim`).
pub open spec fn trim(s: Seq<char>) -> Seq<char> {
    trim_end(trim_start(s))
}

/// `p` is a prefix of `s` (`str::starts_with`).
pub open spec fn starts_with(s: Seq<char>, p: Seq<char>) -> bool {
    p.len() <= s.len() && s.take(p.len() as int) == p
}

/// `p` occurs somewhere in `s` (`str::contains`).
pub open spec fn contains(s: Seq<char>, p: Seq<char>) -> bool {
    exists|i: int| 0 <= i && i + p.len() <= s.len() && #[trigger] s.subrange(i, i + p.len()) == p
}

/// The code of `c` after ASCII lower-casing (`u8::to_ascii_lowercase` on ASCII).
pub open spec fn ascii_fold(c: char) -> u32 {
    if 'A' <= c && c <= 'Z' {
        (c as u32 + 32) as u32
    } else {
        c as u32
    }
}

/// `a` and `b` are equal up to ASCII case (`str::eq_ignore_ascii_case`).
pub open spec fn eq_ignore_ascii_case(a: Seq<char>, b: Seq<char>) -> bool {
    a.len() == b.len() && forall|i: int| 0 <= i < a.len() ==> ascii_fold(#[trigger] a[i]) == ascii_fold(b[i])
}

/// `trim_start(s)` drops exactly the white space run that starts `s`.
pub proof fn lemma_trim_start_skip(s: Seq<char>, k: int)
    requires
        0 <= k <= s.len(),
        forall|j: int| 0 <= j < k ==> is_white_space(#[trigger] s[j]),
        k == s.len() || !is_white_space(s[k]),
    ensures
        trim_start(s) == s.skip(k),
    decreases k,
{
    if k == 0 {
        assert(s.skip(0) =~= s);
    } else {
        let t = s.drop_first();
        assert forall|j: int| 0 <= j < k - 1 implies is_white_space(#[trigger] t[j]) by {
            assert(t[j] == s[j + 1]);
        }
        lemma_trim_start_skip(t, k - 1);
        assert(t.skip(k - 1) =~= s.skip(k));
    }
}

/// `trim_end(s)` drops exactly the white space run that ends `s`.
pub proof fn lemma_trim_end_take(s: Seq<char>, m: int)
    requires
        0 <= m <= s.len(),
        forall|j: int| m <= j < s.len() ==> is_white_space(#[trigger] s[j]),
        m == 0 || !is_white_space(s[m - 1]),
    ensures
        trim_end(s) == s.take(m),
    decreases s.len() - m,
{
    if m == s.len() {
        assert(s.take(m) =~= s);
    } else {
        let t = s.drop_last();
        assert forall|j: int| m <= j < t.len() implies is_white_space(#[trigger] t[j]) by {
            assert(t[j] == s[j]);
        }
        lemma_trim_end_take(t, m);
        assert(t.take(m) =~= s.take(m));
    }
}

/// A trimmed-at-the-start text that is not empty starts with a character
/// that is not white space, and the same holds at the end.
pub proof fn lemma_trim_start_first(s: Seq<char>)
    ensures
        trim_start(s).len() <= s.len(),
        trim_start(s).len() > 0 ==> !is_white_space(trim_start(s)[0]),
        trim_start(s) == s.skip(s.len() - trim_start(s).len()),
        forall|j: int| 0 <= j < s.len() - trim_start(s).len() ==> is_white_space(#[trigger] s[j]),
        s.len() > 0 && !is_white_space(s[0]) ==> trim_start(s) == s,
    decreases s.len(),
{
    if s.len() > 0 && is_white_space(s[0]) {
        lemma_trim_start_first(s.drop_first());
        assert forall|j: int| 0 <= j < s.len() - trim_start(s).len() implies is_white_space(#[trigger] s[j]) by {
            if j > 0 {
                assert(s[j] == s.drop_first()[j - 1]);
            }
        }
        assert(s.drop_first().skip(s.drop_first().len() - trim_start(s.drop_first()).len()) =~= s.skip(
            s.len() - trim_start(s).len(),
        ));
    } else {
        assert(s.skip(0) =~= s);
    }
}

/// Dropping a final white space character from `s` drops at most the last
/// character of `trim_start(s)`, and nothing from its start.
pub proof fn lemma_trim_start_drop_last(s: Seq<char>)
    requires
        s.len() > 0,
        is_white_space(s.last()),
    ensures
        trim_start(s.drop_last()).len() <= trim_start(s).len(),
        trim_start(s.drop_last()) == trim_start(s).take(trim_start(s.drop_last()).len() as int),
{
    lemma_trim_start_first(s);
    let t = trim_start(s);
    let k = s.len() - t.len();
    let d = s.drop_last();
    if k < d.len() {
        assert forall|j: int| 0 <= j < k implies is_white_space(#[trigger] d[j]) by {
            assert(d[j] == s[j]);
        }
        assert(d[k] == s[k]);
        assert(t.len() > 0);
        assert(t[0] == s[k]);
        lemma_trim_start_skip(d, k);
        assert(d.skip(k) =~= t.take(d.len() - k));
    } else {
        assert forall|j: int| 0 <= j < d.len() implies is_white_space(#[trigger] d[j]) by {
            assert(d[j] == s[j]);
            if j >= k {
                assert(j == s.len() - 1 || j < k);
            }
        }
        lemma_trim_start_skip(d, d.len() as int);
        assert(d.skip(d.len() as int) =~= t.take(0));
    }
}

/// Dropping a final white space character does not change the trimmed text.
pub proof fn lemma_trim_drop_last_space(s: Seq<char>)
    requires
        s.len() > 0,
        is_white_space(s.last()),
    ensures
        trim(s.drop_last()) == trim(s),
{
    lemma_trim_start_first(s);
    let t = trim_start(s);
    let k = s.len() - t.len();
    let d = s.drop_last();
    lemma_trim_start_drop_last(s);
    if t.len() == 0 {
        assert(trim_start(d).len() == 0);
        assert(trim_start(d) =~= t);
    } else {
        assert(t.last() == s.last());
        assert(d.len() >= k);
        if k < d.len() {
            assert(trim_start(d) =~= t.drop_last()) by {
                assert(d[k] == s[k]);
                assert forall|j: int| 0 <= j < k implies is_white_space(#[trigger] d[j]) by {
                    assert(d[j] == s[j]);
                }
                lemma_trim_start_skip(d, k);
                assert(d.skip(k) =~= t.drop_last());
            }
        } else {
            assert(t.len() == 1);
            assert forall|j: int| 0 <= j < d.len() implies is_white_space(#[trigger] d[j]) by {
                assert(d[j] == s[j]);
            }
            lemma_trim_start_skip(d, d.len() as int);
            assert(trim_start(d) =~= t.drop_last());
        }
        assert(trim_end(t) == trim_end(t.drop_last()));
    }
}

/// The number of white space characters that start `s`.
pub fn leading_space_len(s: &Vec<char>) -> (k: usize)
    ensures
        k <= s.len(),
        trim_start(s@) == s@.skip(k as int),
{
    let mut k: usize = 0;
    while k < s.len() && white_space(s[k])
        invariant
            k <= s.len(),
            forall|j: int| 0 <= j < k ==> is_white_space(#[trigger] s@[j]),
        decreases s.len() - k,
    {
        k = k + 1;
    }
    proof {
        lemma_trim_start_skip(s@, k as int);
    }
    k
}

/// The bounds `(a, b)` of `trim(s)` inside `s`.
pub fn trimmed_bounds(s: &Vec<char>) -> (r: (usize, usize))
    ensures
        r.0 <= r.1 <= s.len(),
        trim(s@) == s@.subrange(r.0 as int, r.1 as int),
{
    let a = leading_space_len(s);
    let mut b: usize = s.len();
    while b > a && white_space(s[b - 1])
        invariant
            a <= b <= s.len(),
            forall|j: int| b <= j < s.len() ==> is_white_space(#[trigger] s@[j]),
        decreases b,
    {
        b = b - 1;
    }
    proof {
        let t = s@.skip(a as int);
        let m = b - a;
        assert forall|j: int| m <= j < t.len() implies is_white_space(#[trigger] t[j]) by {
            assert(t[j] == s@[j + a]);
        }
        if m > 0 {
            assert(t[m - 1] == s@[b - 1]);
        }
        lemma_trim_end_take(t, m as int);
        assert(t.take(m as int) =~= s@.subrange(a as int, b as int));
    }
    (a, b)
}

/// Whether `s[a..b]` equals `p`.
pub fn range_equals(s: &Vec<char>, a: usize, b: usize, p: &Vec<char>) -> (r: bool)
    requires
        a <= b <= s.len(),
    ensures
        r == (s@.subrange(a as int, b as int) == p@),
{
    if b - a != p.len() {
        return false;
    }
    let mut i: usize = 0;
    while i < p.len()
        invariant
            a <= b <= s.len(),
            b - a == p.len(),
            i <= p.len(),
            forall|j: int| 0 <= j < i ==> s@[a + j] == p@[j],
        decreases p.len() - i,
    {
        if s[a + i] != p[i] {
            assert(s@.subrange(a as int, b as int)[i as int] != p@[i as int]);
            return false;
        }
        i = i + 1;
    }
    assert(s@.subrange(a as int, b as int) =~= p@);
    true
}

/// Whether `a` holds the characters of `lit`.
pub fn equals_literal(a: &Vec<char>, lit: &str) -> (r: bool)
    ensures
        r == (a@ == lit@),
{
    let b = chars_of(lit);
    assert(a@.subrange(0, a.len() as int) =~= a@);
    range_equals(a, 0, a.len(), &b)
}

/// Whether `p` is a prefix of `s[a..]`.
pub fn prefix_at(s: &Vec<char>, a: usize, p: &Vec<char>) -> (r: bool)
    requires
        a <= s.len(),
    ensures
        r == starts_with(s@.skip(a as int), p@),
{
    if s.len() - a < p.len() {
        return false;
    }
    let r = range_equals(s, a, a + p.len(), p);
    assert(s@.skip(a as int).take(p.len() as int) =~= s@.subrange(a as int, (a + p.len()) as int));
    r
}

/// Whether `trim(s)` equals `p`.
pub fn trimmed_equals(s: &Vec<char>, p: &Vec<char>) -> (r: bool)
    ensures
        r == (trim(s@) == p@),
{
    let (a, b) = trimmed_bounds(s);
    range_equals(s, a, b, p)
}

/// Whether `trim_start(s)` starts with `p`.
pub fn trimmed_start_has_prefix(s: &Vec<char>, p: &Vec<char>) -> (r: bool)
    ensures
        r == starts_with(trim_start(s@), p@),
{
    let k = leading_space_len(s);
    prefix_at(s, k, p)
}

/// Whether `p` occurs in `s`.
pub fn contains_chars(s: &Vec<char>, p: &Vec<char>) -> (r: bool)
    ensures
        r == contains(s@, p@),
{
    if p.len() > s.len() {
        return false;
    }
    let last = s.len() - p.len();
    let mut i: usize = 0;
    while i <= last
        invariant
            last == s.len() - p.len(),
            i <= last + 1,
            forall|j: int| 0 <= j < i ==> #[trigger] s@.subrange(j, j + p.len()) != p@,
        decreases last + 1 - i,
    {
        if range_equals(s, i, i + p.len(), p) {
            return true;
        }
        if i == last {
            return false;
        }
        i = i + 1;
    }
    false
}

/// The ASCII lower-case code of `c`.
pub fn fold_ascii(c: char) -> (r: u32)
    ensures
        r == ascii_fold(c),
{
    if 'A' <= c && c <= 'Z' {
        c as u32 + 32
    } else {
        c as u32
    }
}

/// Whether `trim(s)` equals `p` up to ASCII case.
pub fn trimmed_equals_ignore_ascii_case(s: &Vec<char>, p: &Vec<char>) -> (r: bool)
    ensures
        r == eq_ignore_ascii_case(trim(s@), p@),
{
    let (a, b) = trimmed_bounds(s);
    if b - a != p.len() {
        return false;
    }
    let ghost t = s@.subrange(a as int, b as int);
    let mut i: usize = 0;
    while i < p.len()
        invariant
            a <= b <= s.len(),
            b - a == p.len(),
            t == s@.subrange(a as int, b as int),
            trim(s@) == t,
            i <= p.len(),
            forall|j: int| 0 <= j < i ==> ascii_fold(#[trigger] t[j]) == ascii_fold(p@[j]),
        decreases p.len() - i,
    {
        assert(t[i as int] == s@[a + i]);
        if fold_ascii(s[a + i]) != fold_ascii(p[i]) {
            assert(trim(s@)[i as int] == t[i as int]);
            return false;
        }
        i = i + 1;
    }
    true
}

/// The characters of a string slice, in order.
pub fn chars_of(s: &str) -> (v: Vec<char>)
    ensures
        v@ == s@,
{
    let mut v: Vec<char> = Vec::new();
    for c in it: s.chars()
        invariant
            v@ == it.seq().take(it.index() as int),
            it.seq() == s@,
    {
        v.push(c);
    }
    v
}

/// Appends one character to a `String` (`String::push`).
#[verifier::external_body]
pub fn push_char(s: &mut String, c: char)
    ensures
        final(s)@ == old(s)@.push(c),
{
    s.push(c);
}

/// Appends the characters `v[a..b]` to `s`.
pub fn push_range(s: &mut String, v: &Vec<char>, a: usize, b: usize)
    requires
        a <= b <= v.len(),
    ensures
        final(s)@ == old(s)@ + v@.subrange(a as int, b as int),
{
    let mut i = a;
    while i < b
        invariant
            a <= i <= b <= v.len(),
            s@ == old(s)@ + v@.subrange(a as int, i as int),
        decreases b - i,
    {
        push_char(s, v[i]);
        assert(v@.subrange(a as int, i + 1) =~= v@.subrange(a as int, i as int).push(v@[i as int]));
        i = i + 1;
    }
}

/// Appends all of `v` to `s`.
pub fn push_chars(s: &mut String, v: &Vec<char>)
    ensures
        final(s)@ == old(s)@ + v@,
{
    push_range(s, v, 0, v.len());
    assert(v@.subrange(0, v.len() as int) =~= v@);
}

/// A `String` holding `v[a..b]`.
pub fn string_of_range(v: &Vec<char>, a: usize, b: usize) -> (s: String)
    requires
        a <= b <= v.len(),
    ensures
        s@ == v@.subrange(a as int, b as int),
{
    let mut s = String::new();
    push_range(&mut s, v, a, b);
    s
}

} // verus!
