use vstd::prelude::*;
use vstd::string::StrSliceExecFns;

verus! {

/// A decimal digit.
pub open spec fn is_digit(c: char) -> bool {
    48 <= c as int && c as int <= 57
}

/// The numeric value of a decimal digit.
pub open spec fn digit_val(c: char) -> int {
    c as int - 48
}

/// Every character of `s` is a decimal digit.
pub open spec fn all_digits(s: Seq<char>) -> bool {
    forall|i: int| 0 <= i < s.len() ==> is_digit(#[trigger] s[i])
}

/// The least index `j` with `from <= j` such that `s[j]` is `c`, or
/// `s.len()` when no such index exists.
pub open spec fn find_from(s: Seq<char>, from: int, c: char) -> int
    recommends
        0 <= from <= s.len(),
    decreases s.len() - from,
{
    if from < 0 || from >= s.len() {
        s.len() as int
    } else if s[from] == c {
        from
    } else {
        find_from(s, from + 1, c)
    }
}

/// An index with the properties of `find_from` is `find_from`.
pub proof fn lemma_find_from_unique(s: Seq<char>, from: int, c: char, j: int)
    requires
        0 <= from <= j <= s.len(),
        forall|k: int| from <= k < j ==> s[k] != c,
        j < s.len() ==> s[j] == c,
    ensures
        find_from(s, from, c) == j,
    decreases j - from,
{
    if from < j {
        assert(s[from] != c);
        lemma_find_from_unique(s, from + 1, c, j);
    }
}

/// Scan `s` for the next occurrence of `c` at or after `from`.
pub fn scan_for(s: &str, from: usize, c: char) -> (r: usize)
    requires
        from <= s@.len(),
    ensures
        r == find_from(s@, from as int, c),
        from <= r <= s@.len(),
{
    let n = s.unicode_len();
    let mut j = from;
    while j < n && s.get_char(j) != c
        invariant
            from <= j <= n,
            n == s@.len(),
            forall|k: int| from <= k < j ==> s@[k] != c,
        decreases n - j,
    {
        j += 1;
    }
    proof {
        lemma_find_from_unique(s@, from as int, c, j as int);
    }
    j
}

/// `s` with every leading and trailing quote character removed, the way
/// `trim_matches('"')` strips a field.
pub open spec fn trim_quotes(s: Seq<char>) -> Seq<char>
    decreases s.len(),
{
    if s.len() == 0 {
        s
    } else if s[0] == '"' {
        trim_quotes(s.subrange(1, s.len() as int))
    } else if s[s.len() - 1] == '"' {
        trim_quotes(s.subrange(0, s.len() - 1))
    } else {
        s
    }
}

/// `trim_quotes` keeps exactly the span between the outermost non-quote
/// characters.
proof fn lemma_trim_quotes_range(s: Seq<char>, lo: int, hi: int)
    requires
        0 <= lo <= hi <= s.len(),
        forall|i: int| 0 <= i < lo ==> s[i] == '"',
        forall|i: int| hi <= i < s.len() ==> s[i] == '"',
        lo < hi ==> s[lo] != '"',
        lo < hi ==> s[hi - 1] != '"',
    ensures
        trim_quotes(s) == s.subrange(lo, hi),
    decreases s.len(),
{
    if s.len() == 0 {
        assert(trim_quotes(s) == s.subrange(lo, hi));
    } else if s[0] == '"' {
        let t = s.subrange(1, s.len() as int);
        if lo < hi {
            lemma_trim_quotes_range(t, lo - 1, hi - 1);
            assert(t.subrange(lo - 1, hi - 1) == s.subrange(lo, hi));
        } else {
            // everything is a quote; any cut point gives the empty sequence
            lemma_trim_quotes_range(t, 0, 0);
            assert(t.subrange(0, 0) == s.subrange(lo, hi));
        }
    } else if s[s.len() - 1] == '"' {
        let t = s.subrange(0, s.len() - 1);
        assert(lo < hi ==> hi - 1 < s.len() - 1 || s[hi - 1] != '"');
        lemma_trim_quotes_range(t, lo, hi);
        assert(t.subrange(lo, hi) == s.subrange(lo, hi));
    } else {
        assert(lo == 0 && hi == s.len());
        assert(s.subrange(0, s.len() as int) == s);
    }
}

/// Strip leading and trailing quote characters from a field.
pub fn strip_quotes<'a>(s: &'a str) -> (r: &'a str)
    ensures
        r@ == trim_quotes(s@),
{
    let n = s.unicode_len();
    let mut lo: usize = 0;
    while lo < n && s.get_char(lo) == '"'
        invariant
            0 <= lo <= n,
            n == s@.len(),
            forall|i: int| 0 <= i < lo ==> s@[i] == '"',
        decreases n - lo,
    {
        lo += 1;
    }
    let mut hi: usize = n;
    while hi > lo && s.get_char(hi - 1) == '"'
        invariant
            lo <= hi <= n,
            n == s@.len(),
            forall|i: int| hi <= i < n ==> s@[i] == '"',
        decreases hi,
    {
        hi -= 1;
    }
    proof {
        lemma_trim_quotes_range(s@, lo as int, hi as int);
    }
    s.substring_char(lo, hi)
}

/// A leading sign of a number.
pub open spec fn is_sign(c: char) -> bool {
    c == '+' || c == '-'
}

/// `s` without its leading sign, if it has one.
pub open spec fn strip_sign(s: Seq<char>) -> Seq<char> {
    if s.len() > 0 && is_sign(s[0]) {
        s.subrange(1, s.len() as int)
    } else {
        s
    }
}

/// `c` is `l` or, when `l` is a lower-case letter, its upper-case form.
pub open spec fn ci_char(c: char, l: char) -> bool {
    c as int == l as int || c as int == l as int - 32
}

/// `s` equals the lower-case word `lit` up to letter case.
pub open spec fn ci_eq(s: Seq<char>, lit: Seq<char>) -> bool {
    s.len() == lit.len() && forall|i: int| 0 <= i < s.len() ==> ci_char(#[trigger] s[i], lit[i])
}

/// An infinity or not-a-number word, in any letter case.
pub open spec fn is_special(t: Seq<char>) -> bool {
    ci_eq(t, "inf"@) || ci_eq(t, "infinity"@) || ci_eq(t, "nan"@)
}

/// The mantissa of a decimal number: digits with at most one point and at
/// least one digit (`Digit+ | Digit+ '.' Digit* | Digit* '.' Digit+`).
pub open spec fn is_mantissa(t: Seq<char>) -> bool {
    (t.len() > 0 && all_digits(t)) || (exists|k: int|
        0 <= k < t.len() && #[trigger] t[k] == '.' && t.len() > 1 && all_digits(
            t.subrange(0, k),
        ) && all_digits(t.subrange(k + 1, t.len() as int)))
}

/// An exponent tail: an optional sign and then at least one digit.
pub open spec fn is_exponent(t: Seq<char>) -> bool {
    strip_sign(t).len() > 0 && all_digits(strip_sign(t))
}

/// A decimal number, with an optional `e`/`E` exponent part.
pub open spec fn is_number(t: Seq<char>) -> bool {
    is_mantissa(t) || (exists|k: int|
        0 <= k < t.len() && (#[trigger] t[k] == 'e' || t[k] == 'E') && is_mantissa(
            t.subrange(0, k),
        ) && is_exponent(t.subrange(k + 1, t.len() as int)))
}

/// The texts `str::parse` accepts for a floating-point number, as the
/// standard library documents the grammar: an optional sign, then an
/// infinity or not-a-number word in any case, or a decimal number with an
/// optional exponent.
pub open spec fn is_float_text(s: Seq<char>) -> bool {
    is_special(strip_sign(s)) || is_number(strip_sign(s))
}

/// Every character of a mantissa is a digit or the decimal point.
proof fn lemma_mantissa_chars(t: Seq<char>, i: int)
    requires
        is_mantissa(t),
        0 <= i < t.len(),
    ensures
        is_digit(t[i]) || t[i] == '.',
{
    if !(t.len() > 0 && all_digits(t)) {
        let k = choose|k: int|
            0 <= k < t.len() && #[trigger] t[k] == '.' && t.len() > 1 && all_digits(
                t.subrange(0, k),
            ) && all_digits(t.subrange(k + 1, t.len() as int));
        if i < k {
            assert(t.subrange(0, k)[i] == t[i]);
        } else if i > k {
            assert(t.subrange(k + 1, t.len() as int)[i - k - 1] == t[i]);
        }
    }
}

/// Compare the tail of `s` from `from` with a lower-case word, ignoring
/// letter case.
fn ci_match(s: &str, from: usize, lit: &str) -> (r: bool)
    requires
        from <= s@.len(),
    ensures
        r == ci_eq(s@.subrange(from as int, s@.len() as int), lit@),
{
    let n = s.unicode_len();
    let m = lit.unicode_len();
    if n - from != m {
        return false;
    }
    let mut i: usize = 0;
    while i < m
        invariant
            0 <= i <= m,
            n == s@.len(),
            m == lit@.len(),
            from + m == n,
            forall|j: int| 0 <= j < i ==> ci_char(#[trigger] s@[from + j], lit@[j]),
        decreases m - i,
    {
        let c = s.get_char(from + i) as u32;
        let l = lit.get_char(i) as u32;
        if !(c == l || c + 32 == l) {
            assert(!ci_char(s@[from + i], lit@[i as int]));
            assert(s@.subrange(from as int, n as int)[i as int] == s@[from + i]);
            return false;
        }
        i += 1;
    }
    assert forall|j: int| 0 <= j < m implies ci_char(
        #[trigger] s@.subrange(from as int, n as int)[j],
        lit@[j],
    ) by {
        assert(s@.subrange(from as int, n as int)[j] == s@[from + j]);
    }
    true
}

/// The first index in `[a, b)` holding `c`, or `b` when there is none.
fn scan_range(s: &str, a: usize, b: usize, c: char) -> (r: usize)
    requires
        a <= b <= s@.len(),
    ensures
        a <= r <= b,
        r < b ==> s@[r as int] == c,
        forall|k: int| a <= k < r ==> s@[k] != c,
{
    let mut j = a;
    while j < b && s.get_char(j) != c
        invariant
            a <= j <= b,
            b <= s@.len(),
            forall|k: int| a <= k < j ==> s@[k] != c,
        decreases b - j,
    {
        j += 1;
    }
    j
}

/// Every character of `s` in `[a, b)` is a decimal digit.
fn digits_in_range(s: &str, a: usize, b: usize) -> (r: bool)
    requires
        a <= b <= s@.len(),
    ensures
        r == all_digits(s@.subrange(a as int, b as int)),
{
    let mut j = a;
    while j < b
        invariant
            a <= j <= b,
            b <= s@.len(),
            forall|k: int| a <= k < j ==> is_digit(#[trigger] s@[k]),
        decreases b - j,
    {
        let c = s.get_char(j) as u32;
        if !(48 <= c && c <= 57) {
            assert(s@.subrange(a as int, b as int)[j - a] == s@[j as int]);
            return false;
        }
        j += 1;
    }
    assert forall|i: int| 0 <= i < b - a implies is_digit(
        #[trigger] s@.subrange(a as int, b as int)[i],
    ) by {
        assert(s@.subrange(a as int, b as int)[i] == s@[a + i]);
    }
    true
}

/// Decide `is_mantissa` for the span `[a, b)` of `s`.
fn check_mantissa(s: &str, a: usize, b: usize) -> (r: bool)
    requires
        a <= b <= s@.len(),
    ensures
        r == is_mantissa(s@.subrange(a as int, b as int)),
{
    let ghost t = s@.subrange(a as int, b as int);
    let dot = scan_range(s, a, b, '.');
    if dot == b {
        // no point: digits only, and at least one
        let r = b > a && digits_in_range(s, a, b);
        proof {
            if !r {
                assert forall|k: int| !(0 <= k < t.len() && #[trigger] t[k] == '.') by {
                    if 0 <= k < t.len() {
                        assert(t[k] == s@[a + k]);
                    }
                }
            } else {
                assert(t.len() > 0 && all_digits(t));
            }
        }
        r
    } else {
        let r = b - a > 1 && digits_in_range(s, a, dot) && digits_in_range(s, dot + 1, b);
        proof {
            let k = dot - a;
            assert(t[k as int] == s@[dot as int]);
            if r {
                assert(s@.subrange(a as int, dot as int) == t.subrange(0, k as int));
                assert(s@.subrange(dot + 1, b as int) == t.subrange(k + 1, t.len() as int));
                assert(!is_digit(t[k as int]));
                assert(!(t.len() > 0 && all_digits(t)));
            } else {
                // a valid split could only stand at this first point
                if is_mantissa(t) {
                    assert(!(t.len() > 0 && all_digits(t)));
                    let k2 = choose|k2: int|
                        0 <= k2 < t.len() && #[trigger] t[k2] == '.' && t.len() > 1 && all_digits(
                            t.subrange(0, k2),
                        ) && all_digits(t.subrange(k2 + 1, t.len() as int));
                    if k2 < k {
                        assert(s@[a + k2] == t[k2]);
                    } else if k2 > k {
                        assert(t.subrange(0, k2)[k as int] == t[k as int]);
                        assert(all_digits(t.subrange(0, k2)));
                        assert(is_digit(t[k as int]));
                    } else {
                        assert(t.subrange(0, k as int) == s@.subrange(a as int, dot as int));
                        assert(t.subrange(k + 1, t.len() as int) == s@.subrange(dot + 1, b as int));
                    }
                    assert(false);
                }
            }
        }
        r
    }
}

/// Decide `is_exponent` for the span `[a, b)` of `s`.
fn check_exponent(s: &str, a: usize, b: usize) -> (r: bool)
    requires
        a <= b <= s@.len(),
    ensures
        r == is_exponent(s@.subrange(a as int, b as int)),
{
    let ghost t = s@.subrange(a as int, b as int);
    let start = if b > a {
        let c = s.get_char(a);
        if c == '+' || c == '-' {
            a + 1
        } else {
            a
        }
    } else {
        a
    };
    proof {
        if b > a {
            assert(t[0] == s@[a as int]);
        }
        if start == a + 1 {
            assert(strip_sign(t) == s@.subrange(start as int, b as int));
        } else {
            assert(strip_sign(t) == t);
            assert(t == s@.subrange(start as int, b as int));
        }
    }
    b > start && digits_in_range(s, start, b)
}

/// Decide whether a field reads as a floating-point number, per the
/// grammar `str::parse` documents for one.
pub fn is_float_str(s: &str) -> (r: bool)
    ensures
        r == is_float_text(s@),
{
    let n = s.unicode_len();
    let start = if n > 0 {
        let c = s.get_char(0);
        if c == '+' || c == '-' {
            1
        } else {
            0
        }
    } else {
        0
    };
    let ghost t = strip_sign(s@);
    proof {
        if start == 1 {
            assert(t == s@.subrange(1, n as int));
        } else {
            assert(t == s@);
            assert(t == s@.subrange(0, n as int));
        }
    }
    if ci_match(s, start, "inf") || ci_match(s, start, "infinity") || ci_match(s, start, "nan") {
        return true;
    }
    // no special word: a decimal number, split at the first exponent mark
    let mut e = start;
    while e < n && s.get_char(e) != 'e' && s.get_char(e) != 'E'
        invariant
            start <= e <= n,
            n == s@.len(),
            forall|k: int| start <= k < e ==> s@[k] != 'e' && #[trigger] s@[k] != 'E',
        decreases n - e,
    {
        e += 1;
    }
    if e == n {
        let r = check_mantissa(s, start, n);
        proof {
            if !r && is_number(t) {
                let k2 = choose|k2: int|
                    0 <= k2 < t.len() && (#[trigger] t[k2] == 'e' || t[k2] == 'E') && is_mantissa(
                        t.subrange(0, k2),
                    ) && is_exponent(t.subrange(k2 + 1, t.len() as int));
                assert(t[k2] == s@[start + k2]);
                assert(false);
            }
        }
        r
    } else {
        let r = check_mantissa(s, start, e) && check_exponent(s, e + 1, n);
        proof {
            let k = e - start;
            assert(t[k as int] == s@[e as int]);
            assert(s@.subrange(start as int, e as int) == t.subrange(0, k as int));
            assert(s@.subrange(e + 1, n as int) == t.subrange(k + 1, t.len() as int));
            if r {
                assert(is_number(t));
            } else if is_number(t) {
                if is_mantissa(t) {
                    lemma_mantissa_chars(t, k as int);
                } else {
                    let k2 = choose|k2: int|
                        0 <= k2 < t.len() && (#[trigger] t[k2] == 'e' || t[k2] == 'E')
                            && is_mantissa(t.subrange(0, k2)) && is_exponent(
                            t.subrange(k2 + 1, t.len() as int),
                        );
                    if k2 < k {
                        assert(s@[start + k2] == t[k2]);
                    } else if k2 > k {
                        lemma_mantissa_chars(t.subrange(0, k2), k as int);
                    }
                    assert(k2 == k);
                }
                assert(false);
            }
        }
        r
    }
}

} // verus!
