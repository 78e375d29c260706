//! Character and string helpers shared by the parsers and formatters.
//!
//! Everything here works on `Seq<char>` models: a `&str` or `String` is
//! described by its view, the sequence of its characters.

use vstd::prelude::*;

verus! {

broadcast use vstd::string::group_string_axioms;

// ---------------------------------------------------------------------------
// Conversions between strings and character vectors
// ---------------------------------------------------------------------------

/// The characters of `s`, in order.
pub fn chars_of(s: &str) -> (v: Vec<char>)
    ensures
        v@ == s@,
{
    let mut v: Vec<char> = Vec::new();
    for c in it: s.chars()
        invariant
            it.seq() == s@,
            v@ == it.seq().take(it.index()),
    {
        v.push(c);
    }
    v
}

/// `String::push`: appends one character at the end of `s`.
#[verifier::external_body]
pub(crate) fn push_char(s: &mut String, c: char)
    ensures
        final(s)@ == old(s)@.push(c),
{
    s.push(c);
}

/// A new string holding the characters `v[from..to]`.
pub fn string_from_chars(v: &[char], from: usize, to: usize) -> (s: String)
    requires
        from <= to <= v@.len(),
    ensures
        s@ == v@.subrange(from as int, to as int),
{
    let mut s = String::new();
    let mut i = from;
    while i < to
        invariant
            from <= i <= to <= v@.len(),
            s@ == v@.subrange(from as int, i as int),
        decreases to - i,
    {
        push_char(&mut s, v[i]);
        assert(v@.subrange(from as int, i + 1) == v@.subrange(from as int, i as int).push(v@[i as int]));
        i = i + 1;
    }
    s
}

/// A new string holding a copy of `s`.
pub fn owned(s: &str) -> (r: String)
    ensures
        r@ == s@,
{
    s.to_owned()
}

// ---------------------------------------------------------------------------
// Whitespace and trimming
// ---------------------------------------------------------------------------

/// Unicode `White_Space`, the set `char::is_whitespace` tests for.
pub open spec fn is_whitespace(c: char) -> bool {
    let u = c as u32;
    ||| 0x09 <= u <= 0x0d
    ||| u == 0x20
    ||| u == 0x85
    ||| u == 0xa0
    ||| u == 0x1680
    ||| 0x2000 <= u <= 0x200a
    ||| u == 0x2028
    ||| u == 0x2029
    ||| u == 0x202f
    ||| u == 0x205f
    ||| u == 0x3000
}

/// `char::is_whitespace`.
pub fn whitespace(c: char) -> (b: bool)
    ensures
        b == is_whitespace(c),
{
    let u = c as u32;
    (0x09 <= u && u <= 0x0d) || u == 0x20 || u == 0x85 || u == 0xa0 || u == 0x1680 || (0x2000 <= u
        && u <= 0x200a) || u == 0x2028 || u == 0x2029 || u == 0x202f || u == 0x205f || u == 0x3000
}

/// `s` without its leading whitespace.
pub open spec fn trim_start(s: Seq<char>) -> Seq<char>
    decreases s.len(),
{
    if s.len() > 0 && is_whitespace(s[0]) {
        trim_start(s.drop_first())
    } else {
        s
    }
}

/// `s` without its trailing whitespace.
pub open spec fn trim_end(s: Seq<char>) -> Seq<char>
    decreases s.len(),
{
    if s.len() > 0 && is_whitespace(s.last()) {
        trim_end(s.drop_last())
    } else {
        s
    }
}

/// `s` without leading and trailing whitespace, as `str::trim` gives it.
pub open spec fn trim(s: Seq<char>) -> Seq<char> {
    trim_end(trim_start(s))
}

/// Every character of `s` is whitespace.
pub open spec fn all_whitespace(s: Seq<char>) -> bool {
    forall|i: int| 0 <= i < s.len() ==> is_whitespace(#[trigger] s[i])
}

/// Leading whitespace goes, up to a text that starts with something else.
pub proof fn lemma_trim_start_padded(a: Seq<char>, y: Seq<char>)
    requires
        all_whitespace(a),
        y.len() > 0,
        !is_whitespace(y[0]),
    ensures
        trim_start(a + y) == y,
    decreases a.len(),
{
    if a.len() == 0 {
        assert(a + y =~= y);
    } else {
        assert((a + y)[0] == a[0]);
        assert((a + y).drop_first() =~= a.drop_first() + y);
        assert forall|i: int| 0 <= i < a.drop_first().len() implies is_whitespace(
            #[trigger] a.drop_first()[i],
        ) by {
            assert(a.drop_first()[i] == a[i + 1]);
        }
        lemma_trim_start_padded(a.drop_first(), y);
    }
}

/// Trailing whitespace goes, back to a text that ends with something else.
pub proof fn lemma_trim_end_padded(y: Seq<char>, b: Seq<char>)
    requires
        all_whitespace(b),
        y.len() > 0,
        !is_whitespace(y.last()),
    ensures
        trim_end(y + b) == y,
    decreases b.len(),
{
    if b.len() == 0 {
        assert(y + b =~= y);
    } else {
        assert((y + b).last() == b.last());
        assert((y + b).drop_last() =~= y + b.drop_last());
        assert forall|i: int| 0 <= i < b.drop_last().len() implies is_whitespace(
            #[trigger] b.drop_last()[i],
        ) by {
            assert(b.drop_last()[i] == b[i]);
        }
        lemma_trim_end_padded(y, b.drop_last());
    }
}

/// Trimming a text padded with whitespace on both sides gives the text,
/// when it neither starts nor ends with whitespace.
pub proof fn lemma_trim_padded(a: Seq<char>, x: Seq<char>, b: Seq<char>)
    requires
        all_whitespace(a),
        all_whitespace(b),
        x.len() > 0,
        !is_whitespace(x[0]),
        !is_whitespace(x.last()),
    ensures
        trim(a + x + b) == x,
{
    assert(a + x + b =~= a + (x + b));
    assert((x + b)[0] == x[0]);
    lemma_trim_start_padded(a, x + b);
    lemma_trim_end_padded(x, b);
}

proof fn lemma_trim_start_step(v: Seq<char>, i: int)
    requires
        0 <= i < v.len(),
        is_whitespace(v[i]),
    ensures
        trim_start(v.subrange(i, v.len() as int)) == trim_start(v.subrange(i + 1, v.len() as int)),
{
    assert(v.subrange(i, v.len() as int).drop_first() =~= v.subrange(i + 1, v.len() as int));
}

proof fn lemma_trim_end_step(v: Seq<char>, a: int, j: int)
    requires
        0 <= a < j <= v.len(),
        is_whitespace(v[j - 1]),
    ensures
        trim_end(v.subrange(a, j)) == trim_end(v.subrange(a, j - 1)),
{
    assert(v.subrange(a, j).drop_last() =~= v.subrange(a, j - 1));
}

/// The bounds `(a, b)` such that `v[a..b]` is `v` trimmed.
pub fn trim_bounds(v: &[char]) -> (r: (usize, usize))
    ensures
        r.0 <= r.1 <= v@.len(),
        v@.subrange(r.0 as int, r.1 as int) == trim(v@),
{
    let n = v.len();
    let mut a: usize = 0;
    assert(v@.subrange(0, n as int) =~= v@);
    while a < n && whitespace(v[a])
        invariant
            a <= n == v@.len(),
            trim_start(v@) == trim_start(v@.subrange(a as int, n as int)),
        decreases n - a,
    {
        proof {
            lemma_trim_start_step(v@, a as int);
        }
        a = a + 1;
    }
    assert(trim_start(v@) == v@.subrange(a as int, n as int)) by {
        if a < n {
            assert(v@.subrange(a as int, n as int)[0] == v@[a as int]);
        } else {
            assert(v@.subrange(a as int, n as int).len() == 0);
        }
    }
    let mut b: usize = n;
    while b > a && whitespace(v[b - 1])
        invariant
            a <= b <= n == v@.len(),
            trim(v@) == trim_end(v@.subrange(a as int, b as int)),
        decreases b - a,
    {
        proof {
            lemma_trim_end_step(v@, a as int, b as int);
        }
        b = b - 1;
    }
    assert(trim_end(v@.subrange(a as int, b as int)) == v@.subrange(a as int, b as int)) by {
        if b > a {
            assert(v@.subrange(a as int, b as int).last() == v@[b - 1]);
        }
    }
    (a, b)
}

/// `str::trim`, as an owned string.
pub fn trimmed(s: &str) -> (r: String)
    ensures
        r@ == trim(s@),
{
    let v = chars_of(s);
    let (a, b) = trim_bounds(v.as_slice());
    string_from_chars(v.as_slice(), a, b)
}

// ---------------------------------------------------------------------------
// Decimal formatting
// ---------------------------------------------------------------------------

/// The ASCII digit for `d`.
pub open spec fn digit_char(d: nat) -> char {
    (48 + d) as char
}

/// The decimal representation of `n`, without sign or leading zeros.
pub open spec fn decimal(n: nat) -> Seq<char>
    decreases n,
{
    if n < 10 {
        seq![digit_char(n)]
    } else {
        decimal(n / 10).push(digit_char(n % 10))
    }
}

/// The ASCII digit for `d`.
pub fn digit(d: u64) -> (c: char)
    requires
        d < 10,
    ensures
        c == digit_char(d as nat),
{
    let b: u8 = 48 + d as u8;
    b as char
}

/// Appends the decimal representation of `n` to `s`.
pub fn push_decimal(s: &mut String, n: u64)
    ensures
        final(s)@ == old(s)@ + decimal(n as nat),
    decreases n,
{
    if n < 10 {
        push_char(s, digit(n));
        assert(old(s)@.push(digit_char(n as nat)) =~= old(s)@ + decimal(n as nat));
    } else {
        push_decimal(s, n / 10);
        push_char(s, digit(n % 10));
        assert(old(s)@ + decimal((n / 10) as nat) + seq![digit_char((n % 10) as nat)]
            =~= old(s)@ + decimal(n as nat));
    }
}


/// The decimal representation of `x`, with a `-` when negative.
pub open spec fn signed_decimal(x: int) -> Seq<char> {
    if x < 0 {
        "-"@ + decimal((-x) as nat)
    } else {
        decimal(x as nat)
    }
}

/// Appends the decimal representation of `x` (with a `-` when negative)
/// to `s`.
pub fn push_signed_decimal(s: &mut String, x: i64)
    ensures
        final(s)@ == old(s)@ + signed_decimal(x as int),
{
    if x < 0 {
        s.append("-");
        let m: u64 = (-(x as i128)) as u64;
        push_decimal(s, m);
        assert(final(s)@ =~= old(s)@ + signed_decimal(x as int));
    } else {
        push_decimal(s, x as u64);
    }
}

// ---------------------------------------------------------------------------
// Searching
// ---------------------------------------------------------------------------

/// The first index at or after `i` where `s` holds `c`, if any.
pub open spec fn find_from(s: Seq<char>, c: char, i: int) -> Option<int>
    decreases s.len() - i,
{
    if i < 0 || i >= s.len() {
        None
    } else if s[i] == c {
        Some(i)
    } else {
        find_from(s, c, i + 1)
    }
}

/// The first index where `s` holds `c`, if any (`str::find`).
pub open spec fn find(s: Seq<char>, c: char) -> Option<int> {
    find_from(s, c, 0)
}

pub proof fn lemma_find_from(s: Seq<char>, c: char, i: int)
    requires
        0 <= i,
    ensures
        find_from(s, c, i) matches Some(k) ==> i <= k < s.len() && s[k] == c && forall|j: int|
            i <= j < k ==> s[j] != c,
        find_from(s, c, i) is None ==> forall|j: int| i <= j < s.len() ==> s[j] != c,
    decreases s.len() - i,
{
    if i < s.len() && s[i] != c {
        lemma_find_from(s, c, i + 1);
    }
}

/// The first index in `v[from..to]` holding `c`, if any.
pub fn find_char(v: &[char], from: usize, to: usize, c: char) -> (r: Option<usize>)
    requires
        from <= to <= v@.len(),
    ensures
        r is None <==> find_from(v@.subrange(0, to as int), c, from as int) is None,
        r matches Some(k) ==> find_from(v@.subrange(0, to as int), c, from as int) == Some(
            k as int,
        ),
        r matches Some(k) ==> from <= k < to && v@[k as int] == c,
{
    let ghost w = v@.subrange(0, to as int);
    let mut i: usize = from;
    while i < to
        invariant
            from <= i <= to <= v@.len(),
            w == v@.subrange(0, to as int),
            find_from(w, c, from as int) == find_from(w, c, i as int),
        decreases to - i,
    {
        if v[i] == c {
            return Some(i);
        }
        i = i + 1;
    }
    None
}

/// `v[from..to]` holds exactly the characters of `lit`.
pub fn chars_eq(v: &[char], from: usize, to: usize, lit: &str) -> (r: bool)
    requires
        from <= to <= v@.len(),
    ensures
        r == (v@.subrange(from as int, to as int) == lit@),
{
    let l = chars_of(lit);
    if to - from != l.len() {
        assert(v@.subrange(from as int, to as int).len() != lit@.len());
        return false;
    }
    let mut i: usize = 0;
    while i < l.len()
        invariant
            from <= to <= v@.len(),
            to - from == l@.len(),
            l@ == lit@,
            i <= l@.len(),
            forall|j: int| 0 <= j < i ==> v@[from + j] == l@[j],
        decreases l.len() - i,
    {
        if v[from + i] != l[i] {
            assert(v@.subrange(from as int, to as int)[i as int] != lit@[i as int]);
            return false;
        }
        i = i + 1;
    }
    assert(v@.subrange(from as int, to as int) =~= lit@);
    true
}

// ---------------------------------------------------------------------------
// Substrings
// ---------------------------------------------------------------------------

/// `pat` occurs in `s` starting at index `i`.
pub open spec fn occurs_at(s: Seq<char>, pat: Seq<char>, i: int) -> bool {
    0 <= i && i + pat.len() <= s.len() && s.subrange(i, i + pat.len()) == pat
}

/// The first index at or after `i` where `pat` occurs in `s`, if any.
pub open spec fn find_sub_from(s: Seq<char>, pat: Seq<char>, i: int) -> Option<int>
    decreases s.len() + 1 - i,
{
    if i < 0 || i > s.len() || i + pat.len() > s.len() {
        None
    } else if occurs_at(s, pat, i) {
        Some(i)
    } else {
        find_sub_from(s, pat, i + 1)
    }
}

/// The first index where `pat` occurs in `s`, if any (`str::find`).
pub open spec fn find_sub(s: Seq<char>, pat: Seq<char>) -> Option<int> {
    find_sub_from(s, pat, 0)
}

/// The last index below `n` where `pat` occurs in `s`, if any.
pub open spec fn rfind_sub_below(s: Seq<char>, pat: Seq<char>, n: nat) -> Option<int>
    decreases n,
{
    if n == 0 {
        None
    } else if occurs_at(s, pat, n - 1) {
        Some(n - 1)
    } else {
        rfind_sub_below(s, pat, (n - 1) as nat)
    }
}

/// The last index where `pat` occurs in `s`, if any (`str::rfind`).
pub open spec fn rfind_sub(s: Seq<char>, pat: Seq<char>) -> Option<int> {
    rfind_sub_below(s, pat, s.len() + 1)
}

/// A found occurrence is an occurrence, at or after the start.
pub proof fn lemma_find_sub_from(s: Seq<char>, pat: Seq<char>, i: int)
    ensures
        find_sub_from(s, pat, i) matches Some(k) ==> i <= k && occurs_at(s, pat, k),
    decreases s.len() + 1 - i,
{
    if !(i < 0 || i > s.len() || i + pat.len() > s.len()) && !occurs_at(s, pat, i) {
        lemma_find_sub_from(s, pat, i + 1);
    }
}

/// A found last occurrence is an occurrence, below the bound.
pub proof fn lemma_rfind_sub_below(s: Seq<char>, pat: Seq<char>, n: nat)
    ensures
        rfind_sub_below(s, pat, n) matches Some(k) ==> k < n && occurs_at(s, pat, k),
    decreases n,
{
    if n > 0 && !occurs_at(s, pat, n - 1) {
        lemma_rfind_sub_below(s, pat, (n - 1) as nat);
    }
}

/// `pat` occurs in `v` at index `i`.
pub fn matches_at(v: &[char], i: usize, pat: &[char]) -> (r: bool)
    ensures
        r == occurs_at(v@, pat@, i as int),
{
    if i > v.len() || pat.len() > v.len() - i {
        return false;
    }
    let mut j: usize = 0;
    while j < pat.len()
        invariant
            i + pat@.len() <= v@.len(),
            i + pat.len() <= v.len(),
            j <= pat@.len(),
            forall|k: int| 0 <= k < j ==> v@[i + k] == pat@[k],
        decreases pat.len() - j,
    {
        if v[i + j] != pat[j] {
            assert(v@.subrange(i as int, i + pat@.len())[j as int] != pat@[j as int]);
            return false;
        }
        j = j + 1;
    }
    assert(v@.subrange(i as int, i + pat@.len()) =~= pat@);
    true
}

/// The first index where `pat` occurs in `v`, if any.
pub fn find_substring(v: &[char], pat: &[char]) -> (r: Option<usize>)
    ensures
        match find_sub(v@, pat@) {
            Some(k) => r == Some(k as usize),
            None => r is None,
        },
{
    let mut i: usize = 0;
    loop
        invariant
            i <= v@.len(),
            find_sub(v@, pat@) == find_sub_from(v@, pat@, i as int),
        decreases v.len() - i,
    {
        if pat.len() > v.len() - i {
            return None;
        }
        if matches_at(v, i, pat) {
            return Some(i);
        }
        if i == v.len() {
            assert(find_sub_from(v@, pat@, i + 1) is None);
            return None;
        }
        i = i + 1;
    }
}

/// The last index where `pat` occurs in `v`, if any.
pub fn rfind_substring(v: &[char], pat: &[char]) -> (r: Option<usize>)
    ensures
        match rfind_sub(v@, pat@) {
            Some(k) => r == Some(k as usize),
            None => r is None,
        },
{
    if matches_at(v, v.len(), pat) {
        return Some(v.len());
    }
    let mut n: usize = v.len();
    while n > 0
        invariant
            n <= v@.len() + 1,
            rfind_sub(v@, pat@) == rfind_sub_below(v@, pat@, n as nat),
        decreases n,
    {
        if matches_at(v, n - 1, pat) {
            return Some(n - 1);
        }
        n = n - 1;
    }
    None
}

} // verus!
