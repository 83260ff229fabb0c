//! Text primitives over character sequences, each stated against the
//! meaning that the standard library's `str` methods give them.
use vstd::prelude::*;

verus! {

broadcast use vstd::string::group_string_axioms;

// ---------------------------------------------------------------------------
// Whitespace and trimming
// ---------------------------------------------------------------------------

/// The characters with the Unicode `White_Space` property, which is what
/// `char::is_whitespace`, `str::trim` and `str::split_whitespace` test.
pub open spec fn is_space(c: char) -> bool {
    let n = c as u32;
    ||| 0x9 <= n <= 0xd
    ||| n == 0x20
    ||| n == 0x85
    ||| n == 0xa0
    ||| n == 0x1680
    ||| 0x2000 <= n <= 0x200a
    ||| n == 0x2028
    ||| n == 0x2029
    ||| n == 0x202f
    ||| n == 0x205f
    ||| n == 0x3000
}

/// `s` without its leading whitespace.
pub open spec fn trim_start(s: Seq<char>) -> Seq<char>
    decreases s.len(),
{
    if s.len() > 0 && is_space(s[0]) {
        trim_start(s.drop_first())
    } else {
        s
    }
}

/// `s` without its trailing whitespace.
pub open spec fn trim_end(s: Seq<char>) -> Seq<char>
    decreases s.len(),
{
    if s.len() > 0 && is_space(s.last()) {
        trim_end(s.drop_last())
    } else {
        s
    }
}

/// `s` without leading and trailing whitespace, as `str::trim` gives it.
pub open spec fn trim(s: Seq<char>) -> Seq<char> {
    trim_end(trim_start(s))
}

/// Whether `c` is a whitespace character.
pub fn is_whitespace(c: char) -> (b: bool)
    ensures
        b == is_space(c),
{
    let n = c as u32;
    (0x9 <= n && n <= 0xd) || n == 0x20 || n == 0x85 || n == 0xa0 || n == 0x1680 || (0x2000 <= n
        && n <= 0x200a) || n == 0x2028 || n == 0x2029 || n == 0x202f || n == 0x205f || n == 0x3000
}

proof fn lemma_trim_start_skip(s: Seq<char>, i: int)
    requires
        0 <= i <= s.len(),
        forall|k: int| 0 <= k < i ==> is_space(#[trigger] s[k]),
    ensures
        trim_start(s) == trim_start(s.skip(i)),
    decreases i,
{
    if i == 0 {
        assert(s.skip(0) =~= s);
    } else {
        lemma_trim_start_skip(s.drop_first(), i - 1);
        assert(s.drop_first().skip(i - 1) =~= s.skip(i));
    }
}

proof fn lemma_trim_end_take(s: Seq<char>, j: int)
    requires
        0 <= j <= s.len(),
        forall|k: int| j <= k < s.len() ==> is_space(#[trigger] s[k]),
    ensures
        trim_end(s) == trim_end(s.take(j)),
    decreases s.len() - j,
{
    if j == s.len() {
        assert(s.take(j) =~= s);
    } else {
        lemma_trim_end_take(s.drop_last(), j);
        assert(s.drop_last().take(j) =~= s.take(j));
    }
}

proof fn first_non_space(s: Seq<char>) -> (n: int)
    ensures
        0 <= n <= s.len(),
        forall|k: int| 0 <= k < n ==> is_space(#[trigger] s[k]),
        n == s.len() || !is_space(s[n]),
    decreases s.len(),
{
    if s.len() == 0 || !is_space(s[0]) {
        0
    } else {
        let m = first_non_space(s.drop_first());
        assert forall|k: int| 0 <= k < m + 1 implies is_space(#[trigger] s[k]) by {
            if k > 0 {
                assert(s[k] == s.drop_first()[k - 1]);
            }
        }
        m + 1
    }
}

proof fn end_of_non_space(s: Seq<char>) -> (n: int)
    ensures
        0 <= n <= s.len(),
        forall|k: int| n <= k < s.len() ==> is_space(#[trigger] s[k]),
        n == 0 || !is_space(s[n - 1]),
    decreases s.len(),
{
    if s.len() == 0 || !is_space(s.last()) {
        s.len() as int
    } else {
        let m = end_of_non_space(s.drop_last());
        assert forall|k: int| m <= k < s.len() implies is_space(#[trigger] s[k]) by {
            if k < s.len() - 1 {
                assert(s[k] == s.drop_last()[k]);
            }
        }
        m
    }
}

/// Trimming removes whitespace at both ends and nothing else: the result
/// is a stretch of `s` with only whitespace before and after it, and it is
/// empty or begins and ends with a character that is not whitespace.
pub proof fn law_trim(s: Seq<char>)
    ensures
        exists|i: int|
            #![trigger s.subrange(i, i + trim(s).len())]
            0 <= i && i + trim(s).len() <= s.len() && trim(s) == s.subrange(i, i + trim(s).len())
                && (forall|k: int| 0 <= k < i ==> is_space(#[trigger] s[k])) && (forall|k: int|
                i + trim(s).len() <= k < s.len() ==> is_space(#[trigger] s[k])),
        trim(s).len() == 0 || (!is_space(trim(s)[0]) && !is_space(trim(s).last())),
{
    let i = first_non_space(s);
    lemma_trim_start_skip(s, i);
    let t = s.skip(i);
    assert(trim_start(t) == t);
    let m = end_of_non_space(t);
    assert forall|k: int| m <= k < t.len() implies is_space(#[trigger] t[k]) by {}
    lemma_trim_end_take(t, m);
    let u = t.take(m);
    if m > 0 {
        assert(u.last() == t[m - 1]);
        assert(trim_end(u) == u);
        assert(u[0] == s[i]);
    } else {
        assert(trim_end(u) == u);
    }
    assert(trim(s) == u);
    assert(u =~= s.subrange(i, i + m));
    assert forall|k: int| i + m <= k < s.len() implies is_space(#[trigger] s[k]) by {
        assert(s[k] == t[k - i]);
    }
    assert(s.subrange(i, i + trim(s).len()) == trim(s));
}

/// The characters of `s` from `lo` up to `hi`.
pub fn slice_of(s: &Vec<char>, lo: usize, hi: usize) -> (r: Vec<char>)
    requires
        lo <= hi <= s.len(),
    ensures
        r@ == s@.subrange(lo as int, hi as int),
{
    let mut r: Vec<char> = Vec::new();
    let mut k = lo;
    while k < hi
        invariant
            lo <= k <= hi <= s.len(),
            r@ == s@.subrange(lo as int, k as int),
        decreases hi - k,
    {
        r.push(s[k]);
        k = k + 1;
        assert(r@ =~= s@.subrange(lo as int, k as int));
    }
    r
}

/// `s` without leading and trailing whitespace.
pub fn trim_chars(s: &Vec<char>) -> (r: Vec<char>)
    ensures
        r@ == trim(s@),
{
    let mut i: usize = 0;
    while i < s.len() && is_whitespace(s[i])
        invariant
            i <= s.len(),
            forall|k: int| 0 <= k < i ==> is_space(#[trigger] s@[k]),
        decreases s.len() - i,
    {
        i = i + 1;
    }
    let mut j: usize = s.len();
    while j > i && is_whitespace(s[j - 1])
        invariant
            i <= j <= s.len(),
            forall|k: int| j <= k < s.len() ==> is_space(#[trigger] s@[k]),
        decreases j,
    {
        j = j - 1;
    }
    let r = slice_of(s, i, j);
    proof {
        lemma_trim_start_skip(s@, i as int);
        let t = s@.skip(i as int);
        assert(trim_start(t) == t);
        lemma_trim_end_take(t, (j - i) as int);
        assert(t.take((j - i) as int) =~= r@);
        assert(trim_end(r@) == r@);
    }
    r
}


// ---------------------------------------------------------------------------
// Conversions between `str`/`String` and character vectors
// ---------------------------------------------------------------------------

/// Appends one character to a string.
///
/// Trusted: calls `String::push`, which the standard library documents as
/// appending the given `char` to the end of the `String`.
#[verifier::external_body]
fn push_char(s: &mut String, c: char)
    ensures
        final(s)@ == old(s)@.push(c),
{
    s.push(c);
}

/// The characters of `s`, in order.
pub fn chars_of(s: &str) -> (v: Vec<char>)
    ensures
        v@ == s@,
{
    let mut v: Vec<char> = Vec::new();
    for c in it: s.chars()
        invariant
            v@ == it.seq().take(it.index() as int),
            it.seq() == s@,
    {
        v.push(c);
    }
    v
}

/// Appends the characters of `v` to `out`.
pub fn push_all(out: &mut String, v: &Vec<char>)
    ensures
        final(out)@ == old(out)@ + v@,
{
    let mut k: usize = 0;
    while k < v.len()
        invariant
            k <= v.len(),
            out@ == old(out)@ + v@.take(k as int),
        decreases v.len() - k,
    {
        push_char(out, v[k]);
        k = k + 1;
        assert(out@ =~= old(out)@ + v@.take(k as int));
    }
    assert(v@.take(v.len() as int) =~= v@);
}

/// A string holding the characters of `v`.
pub fn string_of(v: &Vec<char>) -> (s: String)
    ensures
        s@ == v@,
{
    let mut s = String::new();
    push_all(&mut s, v);
    assert(s@ =~= v@);
    s
}

/// Appends the characters of `t` to the vector `v`.
pub fn extend_chars(v: &mut Vec<char>, t: &Vec<char>)
    ensures
        final(v)@ == old(v)@ + t@,
{
    let mut k: usize = 0;
    while k < t.len()
        invariant
            k <= t.len(),
            v@ == old(v)@ + t@.take(k as int),
        decreases t.len() - k,
    {
        v.push(t[k]);
        k = k + 1;
        assert(v@ =~= old(v)@ + t@.take(k as int));
    }
    assert(t@.take(t.len() as int) =~= t@);
}

// ---------------------------------------------------------------------------
// Prefixes and replacement
// ---------------------------------------------------------------------------

/// Whether `s` begins with `p`, as `str::starts_with` tests it.
pub open spec fn has_prefix(s: Seq<char>, p: Seq<char>) -> bool {
    p.len() <= s.len() && s.take(p.len() as int) == p
}

/// Whether `p` occurs in `s` at position `i`.
pub fn matches_at(s: &Vec<char>, i: usize, p: &Vec<char>) -> (b: bool)
    requires
        i <= s.len(),
    ensures
        b == has_prefix(s@.skip(i as int), p@),
{
    if p.len() > s.len() - i {
        return false;
    }
    let mut k: usize = 0;
    while k < p.len()
        invariant
            i + p.len() <= s.len(),
            k <= p.len(),
            forall|m: int| 0 <= m < k ==> s@[i + m] == p@[m],
        decreases p.len() - k,
    {
        if s[i + k] != p[k] {
            assert(s@.skip(i as int).take(p.len() as int)[k as int] != p@[k as int]);
            return false;
        }
        k = k + 1;
    }
    assert(s@.skip(i as int).take(p.len() as int) =~= p@);
    true
}

/// Whether `a` and `b` hold the same characters.
pub fn same_chars(a: &Vec<char>, b: &Vec<char>) -> (r: bool)
    ensures
        r == (a@ == b@),
{
    if a.len() != b.len() {
        return false;
    }
    let r = starts_with(a, b);
    assert(a@.take(b@.len() as int) =~= a@);
    r
}

/// Whether `s` begins with `p`.
pub fn starts_with(s: &Vec<char>, p: &Vec<char>) -> (b: bool)
    ensures
        b == has_prefix(s@, p@),
{
    assert(s@.skip(0) =~= s@);
    matches_at(s, 0, p)
}

/// `s` with every occurrence of `p` replaced by `r`, matches taken from left
/// to right without overlap, as `str::replace` does for a non-empty pattern.
pub open spec fn replace_all(s: Seq<char>, p: Seq<char>, r: Seq<char>) -> Seq<char>
    decreases s.len(),
{
    if p.len() == 0 || s.len() < p.len() {
        s
    } else if has_prefix(s, p) {
        r + replace_all(s.skip(p.len() as int), p, r)
    } else {
        seq![s[0]] + replace_all(s.drop_first(), p, r)
    }
}

/// Replacing a pattern that occurs nowhere in `s` leaves `s` as it is.
pub proof fn law_replace_absent(s: Seq<char>, p: Seq<char>, r: Seq<char>)
    requires
        p.len() > 0,
        forall|k: int| 0 <= k && k + p.len() <= s.len() ==> !has_prefix(#[trigger] s.skip(k), p),
    ensures
        replace_all(s, p, r) == s,
    decreases s.len(),
{
    if s.len() >= p.len() {
        assert(s.skip(0) =~= s);
        assert forall|k: int| 0 <= k && k + p.len() <= s.drop_first().len() implies !has_prefix(
            #[trigger] s.drop_first().skip(k),
            p,
        ) by {
            assert(s.drop_first().skip(k) =~= s.skip(k + 1));
        }
        law_replace_absent(s.drop_first(), p, r);
        assert(seq![s[0]] + s.drop_first() =~= s);
    }
}

/// Replacement goes on after a match: a text that begins with the pattern
/// is the replacement followed by the replaced rest, so every occurrence,
/// not only the first, is replaced.
pub proof fn law_replace_after_match(p: Seq<char>, s: Seq<char>, r: Seq<char>)
    requires
        p.len() > 0,
    ensures
        replace_all(p + s, p, r) == r + replace_all(s, p, r),
{
    let t = p + s;
    assert(t.take(p.len() as int) =~= p);
    assert(t.skip(p.len() as int) =~= s);
}

/// A pattern with spaces at two different places occurs nowhere in a text
/// that holds at most one space.
pub proof fn lemma_two_spaces_absent(s: Seq<char>, p: Seq<char>, i: int, j: int)
    requires
        0 <= i < j < p.len(),
        p[i] == ' ',
        p[j] == ' ',
        forall|a: int, b: int|
            0 <= a < s.len() && 0 <= b < s.len() && #[trigger] s[a] == ' ' && #[trigger] s[b] == ' '
                ==> a == b,
    ensures
        forall|k: int| 0 <= k && k + p.len() <= s.len() ==> !has_prefix(#[trigger] s.skip(k), p),
{
    assert forall|k: int| 0 <= k && k + p.len() <= s.len() implies !has_prefix(
        #[trigger] s.skip(k),
        p,
    ) by {
        if has_prefix(s.skip(k), p) {
            assert(s.skip(k).take(p.len() as int)[i] == s[k + i]);
            assert(s.skip(k).take(p.len() as int)[j] == s[k + j]);
            assert(s[k + i] == ' ' && s[k + j] == ' ');
        }
    }
}

/// Two words joined by one space split back into the first word, then the
/// second word with nothing after it.
pub proof fn law_two_words(x: Seq<char>, y: Seq<char>)
    requires
        x.len() > 0,
        y.len() > 0,
        forall|k: int| 0 <= k < x.len() ==> !is_space(#[trigger] x[k]),
        forall|k: int| 0 <= k < y.len() ==> !is_space(#[trigger] y[k]),
    ensures
        next_word(x + " "@ + y) == Some((x, " "@ + y)),
        next_word(" "@ + y) == Some((y, Seq::<char>::empty())),
{
    reveal_strlit(" ");
    let s = x + " "@ + y;
    assert(trim_start(s) == s);
    assert(s[x.len() as int] == ' ');
    assert forall|k: int| 0 <= k < x.len() implies !is_space(#[trigger] s[k]) by {
        assert(s[k] == x[k]);
    }
    lemma_leading_word(s, x.len() as int);
    assert(s.take(x.len() as int) =~= x);
    assert(s.skip(x.len() as int) =~= " "@ + y);
    let t = " "@ + y;
    lemma_trim_start_skip(t, 1);
    assert(t.skip(1) =~= y);
    assert(trim_start(y) == y);
    lemma_leading_word(y, y.len() as int);
    assert(y.take(y.len() as int) =~= y);
    assert(y.skip(y.len() as int) =~= Seq::<char>::empty());
}

/// Replaces every occurrence of the non-empty pattern `p` in `s` by `r`.
pub fn replace_chars(s: &Vec<char>, p: &Vec<char>, r: &Vec<char>) -> (out: Vec<char>)
    requires
        p.len() > 0,
    ensures
        out@ == replace_all(s@, p@, r@),
{
    let mut out: Vec<char> = Vec::new();
    let mut i: usize = 0;
    assert(s@.skip(0) =~= s@);
    assert(out@ + replace_all(s@, p@, r@) =~= replace_all(s@, p@, r@));
    while i < s.len() && p.len() <= s.len() - i
        invariant
            p.len() > 0,
            i <= s.len(),
            out@ + replace_all(s@.skip(i as int), p@, r@) == replace_all(s@, p@, r@),
        decreases s.len() - i,
    {
        let ghost rest = s@.skip(i as int);
        if matches_at(s, i, p) {
            extend_chars(&mut out, r);
            assert(rest.skip(p.len() as int) =~= s@.skip(i + p.len()));
            i = i + p.len();
        } else {
            out.push(s[i]);
            assert(rest.drop_first() =~= s@.skip(i + 1));
            i = i + 1;
        }
        assert(out@ + replace_all(s@.skip(i as int), p@, r@) =~= replace_all(s@, p@, r@));
    }
    let tail = slice_of(s, i, s.len());
    assert(tail@ =~= s@.skip(i as int));
    extend_chars(&mut out, &tail);
    out
}


// ---------------------------------------------------------------------------
// Whitespace-separated words
// ---------------------------------------------------------------------------

/// The run of non-whitespace characters at the start of `s`.
pub open spec fn leading_word(s: Seq<char>) -> Seq<char>
    decreases s.len(),
{
    if s.len() > 0 && !is_space(s[0]) {
        seq![s[0]] + leading_word(s.drop_first())
    } else {
        seq![]
    }
}

/// The first item that `str::split_whitespace` yields on `s`, with the text
/// after it; `None` when `s` holds only whitespace.
pub open spec fn next_word(s: Seq<char>) -> Option<(Seq<char>, Seq<char>)> {
    let t = trim_start(s);
    if t.len() == 0 {
        None
    } else {
        let w = leading_word(t);
        Some((w, t.skip(w.len() as int)))
    }
}

proof fn lemma_leading_word(t: Seq<char>, n: int)
    requires
        0 <= n <= t.len(),
        forall|k: int| 0 <= k < n ==> !is_space(#[trigger] t[k]),
        n == t.len() || is_space(t[n]),
    ensures
        leading_word(t) == t.take(n),
    decreases n,
{
    if n == 0 {
        assert(t.take(0) =~= Seq::<char>::empty());
    } else {
        lemma_leading_word(t.drop_first(), n - 1);
        assert(seq![t[0]] + t.drop_first().take(n - 1) =~= t.take(n));
    }
}

proof fn first_space(s: Seq<char>) -> (n: int)
    ensures
        0 <= n <= s.len(),
        forall|k: int| 0 <= k < n ==> !is_space(#[trigger] s[k]),
        n == s.len() || is_space(s[n]),
    decreases s.len(),
{
    if s.len() == 0 || is_space(s[0]) {
        0
    } else {
        let m = first_space(s.drop_first());
        assert forall|k: int| 0 <= k < m + 1 implies !is_space(#[trigger] s[k]) by {
            if k > 0 {
                assert(s[k] == s.drop_first()[k - 1]);
            }
        }
        m + 1
    }
}

/// The first word of `s` is found exactly when `s` holds a character that
/// is not whitespace. It is then a non-empty run of such characters that
/// follows only whitespace, and what comes after it is empty or begins with
/// whitespace.
pub proof fn law_next_word(s: Seq<char>)
    ensures
        next_word(s) is None <==> (forall|k: int| 0 <= k < s.len() ==> is_space(#[trigger] s[k])),
        next_word(s) matches Some((w, rest)) ==> (w.len() > 0 && (forall|k: int|
            0 <= k < w.len() ==> !is_space(#[trigger] w[k])) && (rest.len() == 0 || is_space(
            rest[0],
        )) && exists|i: int|
            #![trigger s.take(i)]
            0 <= i <= s.len() && s == s.take(i) + w + rest && (forall|k: int|
                0 <= k < i ==> is_space(#[trigger] s[k]))),
{
    let i = first_non_space(s);
    lemma_trim_start_skip(s, i);
    let t = s.skip(i);
    assert(trim_start(t) == t);
    if i == s.len() {
        assert(t.len() == 0);
    } else {
        assert(t[0] == s[i]);
        let b = first_space(t);
        assert(b > 0);
        lemma_leading_word(t, b);
        let w = t.take(b);
        let rest = t.skip(b);
        assert(next_word(s) == Some((w, rest)));
        assert(s =~= s.take(i) + w + rest);
        if rest.len() > 0 {
            assert(rest[0] == t[b]);
        }
        assert(!is_space(s[i]));
    }
}

/// Locates the first word of `s` at or after position `i`: its start and end.
pub fn word_at(s: &Vec<char>, i: usize) -> (res: Option<(usize, usize)>)
    requires
        i <= s.len(),
    ensures
        match next_word(s@.skip(i as int)) {
            None => res is None,
            Some((w, rest)) => res matches Some((a, b)) && i <= a < b <= s.len() && w == s@.subrange(
                a as int,
                b as int,
            ) && rest == s@.skip(b as int),
        },
{
    let mut a = i;
    while a < s.len() && is_whitespace(s[a])
        invariant
            i <= a <= s.len(),
            forall|k: int| i <= k < a ==> is_space(#[trigger] s@[k]),
        decreases s.len() - a,
    {
        a = a + 1;
    }
    proof {
        let u = s@.skip(i as int);
        assert forall|k: int| 0 <= k < a - i implies is_space(#[trigger] u[k]) by {
            assert(u[k] == s@[i + k]);
        }
        lemma_trim_start_skip(u, a - i);
        assert(u.skip(a - i) =~= s@.skip(a as int));
    }
    if a == s.len() {
        return None;
    }
    let mut b = a;
    while b < s.len() && !is_whitespace(s[b])
        invariant
            a <= b <= s.len(),
            forall|k: int| a <= k < b ==> !is_space(#[trigger] s@[k]),
        decreases s.len() - b,
    {
        b = b + 1;
    }
    proof {
        let t = s@.skip(a as int);
        assert(!is_space(t[0]));
        assert forall|k: int| 0 <= k < b - a implies !is_space(#[trigger] t[k]) by {
            assert(t[k] == s@[a + k]);
        }
        lemma_leading_word(t, b - a);
        assert(t.take(b - a) =~= s@.subrange(a as int, b as int));
        assert(t.skip(b - a) =~= s@.skip(b as int));
    }
    Some((a, b))
}

// ---------------------------------------------------------------------------
// Decimal integers
// ---------------------------------------------------------------------------

/// Whether `c` is one of the ASCII digits `0`..`9`.
pub open spec fn is_digit(c: char) -> bool {
    '0' <= c <= '9'
}

/// The number that the ASCII digit `c` stands for.
pub open spec fn digit_value(c: char) -> int {
    c as int - '0' as int
}

/// Whether every character of `s` is an ASCII digit.
pub open spec fn all_digits(s: Seq<char>) -> bool {
    forall|k: int| 0 <= k < s.len() ==> is_digit(#[trigger] s[k])
}

/// The number written by the decimal digits `s`, most significant first.
pub open spec fn digits_value(s: Seq<char>) -> int
    decreases s.len(),
{
    if s.len() == 0 {
        0
    } else {
        10 * digits_value(s.drop_last()) + digit_value(s.last())
    }
}

/// What `str::parse::<i32>` gives for `s`: an optional sign `+` or `-`
/// followed by at least one ASCII digit, and a value within the range of
/// `i32`; any other text is refused.
pub open spec fn parse_i32_spec(s: Seq<char>) -> Option<i32> {
    if s.len() == 0 {
        None
    } else {
        let signed = s[0] == '-' || s[0] == '+';
        let body = if signed {
            s.drop_first()
        } else {
            s
        };
        let magnitude = digits_value(body);
        if body.len() == 0 || !all_digits(body) {
            None
        } else if s[0] == '-' {
            if magnitude <= 0x8000_0000 {
                Some((-magnitude) as i32)
            } else {
                None
            }
        } else if magnitude <= 0x7fff_ffff {
            Some(magnitude as i32)
        } else {
            None
        }
    }
}

proof fn lemma_digits_value_nonneg(s: Seq<char>)
    requires
        all_digits(s),
    ensures
        digits_value(s) >= 0,
    decreases s.len(),
{
    if s.len() > 0 {
        assert(is_digit(s[s.len() - 1]));
        lemma_digits_value_nonneg(s.drop_last());
    }
}

/// Parses `s` as a decimal `i32`, optionally signed.
pub fn parse_i32(s: &Vec<char>) -> (res: Option<i32>)
    ensures
        res == parse_i32_spec(s@),
{
    if s.len() == 0 {
        return None;
    }
    let negative = s[0] == '-';
    let start: usize = if s[0] == '-' || s[0] == '+' {
        1
    } else {
        0
    };
    let ghost body = s@.skip(start as int);
    proof {
        if start == 1 {
            assert(body =~= s@.drop_first());
        } else {
            assert(body =~= s@);
        }
    }
    if start == s.len() {
        return None;
    }
    let cap: i64 = 0x8000_0001;
    let mut acc: i64 = 0;
    let mut k: usize = start;
    while k < s.len()
        invariant
            start <= k <= s.len(),
            s.len() > 0,
            start == (if s@[0] == '-' || s@[0] == '+' {
                1usize
            } else {
                0usize
            }),
            negative == (s@[0] == '-'),
            body == s@.skip(start as int),
            cap == 0x8000_0001,
            all_digits(body.take(k - start)),
            0 <= acc <= cap,
            acc == if digits_value(body.take(k - start)) < cap {
                digits_value(body.take(k - start))
            } else {
                cap as int
            },
        decreases s.len() - k,
    {
        let c = s[k];
        if !('0' <= c && c <= '9') {
            assert(body[k - start] == c);
            assert(!all_digits(body));
            return None;
        }
        let d = (c as u32 - '0' as u32) as i64;
        let ghost prev = body.take(k - start);
        let ghost next = body.take(k - start + 1);
        proof {
            assert(next.drop_last() =~= prev);
            assert(next.last() == c);
            assert forall|m: int| 0 <= m < next.len() implies is_digit(#[trigger] next[m]) by {
                if m < prev.len() {
                    assert(next[m] == prev[m]);
                }
            }
            lemma_digits_value_nonneg(prev);
        }
        let t = acc * 10 + d;
        acc = if t > cap {
            cap
        } else {
            t
        };
        k = k + 1;
    }
    proof {
        assert(body.take(k - start) =~= body);
    }
    if negative {
        if acc <= 0x8000_0000 {
            Some((-acc) as i32)
        } else {
            None
        }
    } else if acc <= 0x7fff_ffff {
        Some(acc as i32)
    } else {
        None
    }
}

/// What is read as an `i32` has the shape of a decimal numeral: an
/// optional `+` or `-` followed by at least one ASCII digit and nothing
/// else; a `-` gives a number at most 0, anything else a number at least 0.
pub proof fn law_parse_shape(s: Seq<char>)
    ensures
        parse_i32_spec(s) matches Some(n) ==> (s.len() > 0 && (forall|k: int|
            1 <= k < s.len() ==> is_digit(#[trigger] s[k])) && (is_digit(s[0]) || (s.len() >= 2
            && (s[0] == '+' || s[0] == '-'))) && (s[0] == '-' ==> n <= 0) && (s[0] != '-' ==> n
            >= 0)),
{
    if parse_i32_spec(s) is Some {
        let body = if s[0] == '-' || s[0] == '+' {
            s.drop_first()
        } else {
            s
        };
        lemma_digits_value_nonneg(body);
        assert forall|k: int| 1 <= k < s.len() implies is_digit(#[trigger] s[k]) by {
            if s[0] == '-' || s[0] == '+' {
                assert(s[k] == body[k - 1]);
            } else {
                assert(s[k] == body[k]);
            }
        }
        if !(s[0] == '-' || s[0] == '+') {
            assert(is_digit(body[0]));
        }
    }
}

/// The character of the decimal digit `d`.
pub open spec fn digit_char_of(d: int) -> char {
    (d + 48) as char
}

/// The decimal numeral of `n`, without leading zeros.
pub open spec fn decimal(n: nat) -> Seq<char>
    decreases n,
{
    if n < 10 {
        seq![digit_char_of(n as int)]
    } else {
        decimal(n / 10).push(digit_char_of((n % 10) as int))
    }
}

/// The decimal numeral of `n`, with a leading `-` when `n` is negative.
pub open spec fn signed_decimal(n: int) -> Seq<char> {
    if n < 0 {
        seq!['-'] + decimal((-n) as nat)
    } else {
        decimal(n as nat)
    }
}

proof fn lemma_digit_char(d: int)
    requires
        0 <= d < 10,
    ensures
        is_digit(digit_char_of(d)),
        digit_value(digit_char_of(d)) == d,
{
    assert(((d + 48) as char) as int == d + 48);
}

/// A decimal numeral is made of digits, is not empty, and is worth the
/// number it was made from.
pub proof fn law_decimal_digits(n: nat)
    ensures
        decimal(n).len() > 0,
        all_digits(decimal(n)),
        digits_value(decimal(n)) == n,
    decreases n,
{
    if n < 10 {
        lemma_digit_char(n as int);
        assert(seq![digit_char_of(n as int)].drop_last() =~= Seq::<char>::empty());
        assert(digits_value(Seq::<char>::empty()) == 0);
    } else {
        law_decimal_digits(n / 10);
        lemma_digit_char((n % 10) as int);
        let d = decimal(n);
        assert(d.drop_last() =~= decimal(n / 10));
        assert(d.last() == digit_char_of((n % 10) as int));
        assert(n == 10 * (n / 10) + n % 10);
        assert forall|k: int| 0 <= k < d.len() implies is_digit(#[trigger] d[k]) by {
            if k < d.len() - 1 {
                assert(d[k] == decimal(n / 10)[k]);
            }
        }
    }
}

/// Reading back the decimal numeral of any `i32` gives that number: an
/// unsigned numeral for a number at least 0, a numeral after `-` for a
/// negative one, up to the limits of `i32`.
pub proof fn law_parse_decimal(n: i32)
    ensures
        parse_i32_spec(signed_decimal(n as int)) == Some(n),
{
    if n < 0 {
        let m = (-(n as int)) as nat;
        law_decimal_digits(m);
        let s = signed_decimal(n as int);
        assert(s.drop_first() =~= decimal(m));
        assert(s[0] == '-');
    } else {
        law_decimal_digits(n as nat);
        let d = decimal(n as nat);
        assert(is_digit(d[0]));
        assert(d[0] != '-' && d[0] != '+');
    }
}

fn digit_char(d: u16) -> (c: char)
    requires
        d < 10,
    ensures
        c == digit_char_of(d as int),
{
    (48u8 + d as u8) as char
}

/// Appends the decimal numeral of `n` to `out`.
pub fn push_decimal(out: &mut Vec<char>, n: u16)
    ensures
        final(out)@ == old(out)@ + decimal(n as nat),
    decreases n,
{
    if n >= 10 {
        push_decimal(out, n / 10);
    }
    out.push(digit_char(n % 10));
    assert(final(out)@ =~= old(out)@ + decimal(n as nat));
}

} // verus!
