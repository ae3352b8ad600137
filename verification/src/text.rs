//! Verified text helpers: decimal rendering of integers, substring search,
//! and whitespace trimming, each against an exact sequence-level statement.

use vstd::prelude::*;
use vstd::string::*;

verus! {

/// The decimal digit character for a value between 0 and 9.
pub open spec fn spec_digit_char(d: int) -> char {
    if d == 0 {
        '0'
    } else if d == 1 {
        '1'
    } else if d == 2 {
        '2'
    } else if d == 3 {
        '3'
    } else if d == 4 {
        '4'
    } else if d == 5 {
        '5'
    } else if d == 6 {
        '6'
    } else if d == 7 {
        '7'
    } else if d == 8 {
        '8'
    } else {
        '9'
    }
}

/// The decimal rendering of a non-negative integer, most significant digit
/// first, with no leading zeros (a single `'0'` for zero).
pub open spec fn spec_u64_digits(n: int) -> Seq<char>
    decreases n,
{
    if n < 10 {
        seq![spec_digit_char(n)]
    } else {
        spec_u64_digits(n / 10).push(spec_digit_char(n % 10))
    }
}

/// The decimal rendering of a signed integer: a leading `'-'` for negative
/// values, then the digits of the magnitude.
pub open spec fn spec_i64_digits(n: int) -> Seq<char> {
    if n < 0 {
        seq!['-'] + spec_u64_digits(-n)
    } else {
        spec_u64_digits(n)
    }
}

fn digit_to_str(d: u64) -> (r: &'static str)
    requires
        d < 10,
    ensures
        r@ == seq![spec_digit_char(d as int)],
{
    proof {
        reveal_strlit("0");
        reveal_strlit("1");
        reveal_strlit("2");
        reveal_strlit("3");
        reveal_strlit("4");
        reveal_strlit("5");
        reveal_strlit("6");
        reveal_strlit("7");
        reveal_strlit("8");
        reveal_strlit("9");
    }
    let r: &'static str = if d == 0 {
        "0"
    } else if d == 1 {
        "1"
    } else if d == 2 {
        "2"
    } else if d == 3 {
        "3"
    } else if d == 4 {
        "4"
    } else if d == 5 {
        "5"
    } else if d == 6 {
        "6"
    } else if d == 7 {
        "7"
    } else if d == 8 {
        "8"
    } else {
        "9"
    };
    assert(r@ =~= seq![spec_digit_char(d as int)]);
    r
}

/// Renders an unsigned integer in decimal.
pub fn u64_to_string(n: u64) -> (s: String)
    ensures
        s@ == spec_u64_digits(n as int),
    decreases n,
{
    if n < 10 {
        digit_to_str(n).to_owned()
    } else {
        let mut s = u64_to_string(n / 10);
        s.append(digit_to_str(n % 10));
        assert(s@ =~= spec_u64_digits(n as int));
        s
    }
}

/// Renders a signed integer in decimal.
pub fn i64_to_string(n: i64) -> (s: String)
    ensures
        s@ == spec_i64_digits(n as int),
{
    if n >= 0 {
        u64_to_string(n as u64)
    } else {
        let mut s = "-".to_owned();
        proof {
            reveal_strlit("-");
        }
        let magnitude: u64 = ((-(n + 1)) as u64) + 1;
        let digits = u64_to_string(magnitude);
        s.append(digits.as_str());
        assert(s@ =~= spec_i64_digits(n as int));
        s
    }
}

/// Whether `needle` occurs contiguously inside `hay`.
pub open spec fn seq_contains_sub(hay: Seq<char>, needle: Seq<char>) -> bool {
    exists|k: int|
        0 <= k && k + needle.len() <= hay.len() && #[trigger] hay.subrange(
            k,
            k + needle.len() as int,
        ) == needle
}

fn match_at(hay: &str, needle: &str, k: usize, hay_len: usize, needle_len: usize) -> (b: bool)
    requires
        hay_len == hay@.len(),
        needle_len == needle@.len(),
        k + needle_len <= hay_len,
    ensures
        b == (hay@.subrange(k as int, k + needle@.len()) == needle@),
{
    let mut j: usize = 0;
    while j < needle_len
        invariant
            hay_len == hay@.len(),
            needle_len == needle@.len(),
            k + needle_len <= hay_len,
            j <= needle_len,
            forall|t: int| 0 <= t < j ==> hay@[k + t] == needle@[t],
        decreases needle_len - j,
    {
        if hay.get_char(k + j) != needle.get_char(j) {
            assert(hay@.subrange(k as int, k + needle@.len())[j as int] != needle@[j as int]);
            return false;
        }
        j = j + 1;
    }
    assert(hay@.subrange(k as int, k + needle@.len()) =~= needle@);
    true
}

/// Substring search: whether the characters of `needle` occur contiguously
/// inside `hay`.
pub fn str_contains_sub(hay: &str, needle: &str) -> (b: bool)
    ensures
        b == seq_contains_sub(hay@, needle@),
{
    let hay_len = hay.unicode_len();
    let needle_len = needle.unicode_len();
    if needle_len > hay_len {
        assert(!seq_contains_sub(hay@, needle@));
        return false;
    }
    let mut k: usize = 0;
    while k <= hay_len - needle_len
        invariant
            hay_len == hay@.len(),
            needle_len == needle@.len(),
            needle_len <= hay_len,
            k <= hay_len - needle_len + 1,
            forall|t: int|
                0 <= t < k ==> #[trigger] hay@.subrange(t, t + needle@.len() as int) != needle@,
        decreases hay_len - needle_len - k + 1,
    {
        if match_at(hay, needle, k, hay_len, needle_len) {
            return true;
        }
        if k == hay_len - needle_len {
            return false;
        }
        k = k + 1;
    }
    false
}

/// Character-for-character equality of two string slices.
pub fn str_eq(a: &str, b: &str) -> (r: bool)
    ensures
        r == (a@ == b@),
{
    let alen = a.unicode_len();
    let blen = b.unicode_len();
    if alen != blen {
        assert(a@ != b@);
        return false;
    }
    let mut i: usize = 0;
    while i < alen
        invariant
            alen == a@.len(),
            alen == b@.len(),
            i <= alen,
            forall|t: int| 0 <= t < i ==> a@[t] == b@[t],
        decreases alen - i,
    {
        if a.get_char(i) != b.get_char(i) {
            return false;
        }
        i = i + 1;
    }
    assert(a@ =~= b@);
    true
}

/// The whitespace characters stripped by [`trim_str`].
pub open spec fn is_space_char(c: char) -> bool {
    c == ' ' || c == '\t' || c == '\n' || c == '\r'
}

/// Whether `r` is `s` with leading and trailing whitespace removed.
pub open spec fn is_trim_of(r: Seq<char>, s: Seq<char>) -> bool {
    exists|a: int, b: int|
        {
            &&& 0 <= a <= b <= s.len()
            &&& r == s.subrange(a, b)
            &&& (forall|i: int| 0 <= i < a ==> is_space_char(s[i]))
            &&& (forall|i: int| b <= i < s.len() ==> is_space_char(s[i]))
            &&& (a < b ==> !is_space_char(s[a]) && !is_space_char(s[b - 1]))
        }
}

/// The trim of a string is one value: any two sequences that satisfy
/// [`is_trim_of`] for the same input are equal.
pub proof fn lemma_trim_unique(x: Seq<char>, y: Seq<char>, s: Seq<char>)
    requires
        is_trim_of(x, s),
        is_trim_of(y, s),
    ensures
        x == y,
{
    let (a1, b1) = choose|a1: int, b1: int|
        {
            &&& 0 <= a1 <= b1 <= s.len()
            &&& x == s.subrange(a1, b1)
            &&& (forall|i: int| 0 <= i < a1 ==> is_space_char(s[i]))
            &&& (forall|i: int| b1 <= i < s.len() ==> is_space_char(s[i]))
            &&& (a1 < b1 ==> !is_space_char(s[a1]) && !is_space_char(s[b1 - 1]))
        };
    let (a2, b2) = choose|a2: int, b2: int|
        {
            &&& 0 <= a2 <= b2 <= s.len()
            &&& y == s.subrange(a2, b2)
            &&& (forall|i: int| 0 <= i < a2 ==> is_space_char(s[i]))
            &&& (forall|i: int| b2 <= i < s.len() ==> is_space_char(s[i]))
            &&& (a2 < b2 ==> !is_space_char(s[a2]) && !is_space_char(s[b2 - 1]))
        };
    if a1 == b1 && a2 == b2 {
        assert(x =~= y);
    } else if a1 == b1 {
        assert(is_space_char(s[a2]));
        assert(false);
    } else if a2 == b2 {
        assert(is_space_char(s[a1]));
        assert(false);
    } else {
        if a1 < a2 {
            assert(is_space_char(s[a1]));
            assert(false);
        }
        if a2 < a1 {
            assert(is_space_char(s[a2]));
            assert(false);
        }
        if b1 < b2 {
            assert(is_space_char(s[b2 - 1]));
            assert(false);
        }
        if b2 < b1 {
            assert(is_space_char(s[b1 - 1]));
            assert(false);
        }
        assert(x =~= y);
    }
}

/// Strips leading and trailing whitespace.
pub fn trim_str(s: &str) -> (r: String)
    ensures
        is_trim_of(r@, s@),
        r@.len() <= s@.len(),
        r@.len() > 0 ==> !is_space_char(r@[0]),
{
    let n = s.unicode_len();
    let mut a: usize = 0;
    while a < n && is_space(s.get_char(a))
        invariant
            n == s@.len(),
            a <= n,
            forall|i: int| 0 <= i < a ==> is_space_char(s@[i]),
        decreases n - a,
    {
        a = a + 1;
    }
    let mut b: usize = n;
    while b > a && is_space(s.get_char(b - 1))
        invariant
            n == s@.len(),
            a <= b <= n,
            forall|i: int| 0 <= i < a ==> is_space_char(s@[i]),
            forall|i: int| b <= i < n ==> is_space_char(s@[i]),
            a < n ==> !is_space_char(s@[a as int]),
        decreases b,
    {
        b = b - 1;
    }
    let piece = s.substring_char(a, b);
    let r = piece.to_owned();
    proof {
        let aa = a as int;
        let bb = b as int;
        assert({
            &&& 0 <= aa <= bb <= s@.len()
            &&& r@ == s@.subrange(aa, bb)
            &&& (forall|i: int| 0 <= i < aa ==> is_space_char(s@[i]))
            &&& (forall|i: int| bb <= i < s@.len() ==> is_space_char(s@[i]))
            &&& (aa < bb ==> !is_space_char(s@[aa]) && !is_space_char(s@[bb - 1]))
        });
    }
    r
}

fn is_space(c: char) -> (b: bool)
    ensures
        b == is_space_char(c),
{
    c == ' ' || c == '\t' || c == '\n' || c == '\r'
}

} // verus!
