//! Character-level helpers shared by the configuration parsers.
//!
//! Everything here works on the `Seq<char>` view of strings, so that the
//! parsers above can state their contracts over plain sequences.

use vstd::prelude::*;
use vstd::string::StrSliceExecFns;

verus! {

/// No key occurs twice among the `(key, value)` pairs: the pairs form a map.
pub open spec fn distinct_keys<V>(pairs: Seq<(String, V)>) -> bool {
    forall|i: int, j: int| 0 <= i < j < pairs.len() ==> (#[trigger] pairs[i]).0@ != (#[trigger] pairs[j]).0@
}

// ---------------------------------------------------------------------------
// Equality and conversion
// ---------------------------------------------------------------------------

/// Compares two string slices by their characters.
pub fn str_eq(a: &str, b: &str) -> (r: bool)
    ensures
        r == (a@ == b@),
{
    let x = a.to_owned();
    let y = b.to_owned();
    x == y
}

/// The characters of a string slice, in order.
pub fn to_chars(s: &str) -> (v: Vec<char>)
    ensures
        v@ == s@,
{
    let n = s.unicode_len();
    let mut v: Vec<char> = Vec::new();
    let mut i: usize = 0;
    while i < n
        invariant
            n == s@.len(),
            i <= n,
            v@ == s@.subrange(0, i as int),
        decreases n - i,
    {
        let c = s.get_char(i);
        v.push(c);
        i = i + 1;
    }
    v
}

/// Appends one character to a `String` (`String::push`).
#[verifier::external_body]
pub(crate) fn push_char(s: &mut String, c: char)
    ensures
        final(s)@ == old(s)@.push(c),
{
    s.push(c);
}

/// Builds a `String` holding the characters `v[from..to]`.
pub fn string_from_chars(v: &Vec<char>, from: usize, to: usize) -> (s: String)
    requires
        from <= to <= v@.len(),
    ensures
        s@ == v@.subrange(from as int, to as int),
{
    let mut s = String::new();
    let mut i = from;
    while i < to
        invariant
            from <= i <= to <= v@.len(),
            s@ == v@.subrange(from as int, i as int),
        decreases to - i,
    {
        push_char(&mut s, v[i]);
        i = i + 1;
    }
    s
}

/// Concatenates string slices into a new `String`.
pub fn concat3(a: &str, b: &str, c: &str) -> (s: String)
    ensures
        s@ == a@ + b@ + c@,
{
    let mut s = a.to_owned();
    s.append(b);
    s.append(c);
    s
}

/// Whether `seq` equals `lit` character by character.
pub fn chars_eq(seq: &Vec<char>, from: usize, to: usize, lit: &Vec<char>) -> (r: bool)
    requires
        from <= to <= seq@.len(),
    ensures
        r == (seq@.subrange(from as int, to as int) == lit@),
{
    if to - from != lit.len() {
        proof {
            assert(seq@.subrange(from as int, to as int).len() != lit@.len());
        }
        return false;
    }
    let mut i: usize = 0;
    while i < lit.len()
        invariant
            from <= to <= seq@.len(),
            to - from == lit@.len(),
            i <= lit@.len(),
            forall|k: int| 0 <= k < i ==> seq@[from + k] == lit@[k],
        decreases lit@.len() - i,
    {
        if seq[from + i] != lit[i] {
            proof {
                assert(seq@.subrange(from as int, to as int)[i as int] != lit@[i as int]);
            }
            return false;
        }
        i = i + 1;
    }
    proof {
        assert(seq@.subrange(from as int, to as int) =~= lit@);
    }
    true
}

/// Whether `s` begins with the characters of `prefix`.
pub fn starts_with_chars(s: &Vec<char>, prefix: &Vec<char>) -> (r: bool)
    ensures
        r == (prefix@.len() <= s@.len() && s@.subrange(0, prefix@.len() as int) == prefix@),
{
    if prefix.len() > s.len() {
        return false;
    }
    chars_eq(s, 0, prefix.len(), prefix)
}

/// Whether `s` contains the characters of `needle` at some position.
pub fn contains_chars(s: &Vec<char>, needle: &Vec<char>) -> (r: bool)
    ensures
        r == seq_contains_at_some(s@, needle@),
{
    if needle.len() > s.len() {
        return false;
    }
    let nlen = needle.len();
    let last = s.len() - nlen;
    let mut i: usize = 0;
    loop
        invariant
            nlen == needle@.len(),
            s@.len() <= usize::MAX,
            last == s@.len() - needle@.len(),
            needle@.len() <= s@.len(),
            i <= last,
            forall|k: int| 0 <= k < i ==> !occurs_at(s@, needle@, k),
        decreases last - i,
    {
        let end = i + nlen;
        if chars_eq(s, i, end, needle) {
            proof {
                assert(occurs_at(s@, needle@, i as int));
            }
            return true;
        }
        if i == last {
            proof {
                assert forall|k: int| !occurs_at(s@, needle@, k) by {
                    if 0 <= k && k < i {
                    }
                }
            }
            return false;
        }
        i = i + 1;
    }
}

/// `needle` occurs in `s` starting at index `k`.
pub open spec fn occurs_at(s: Seq<char>, needle: Seq<char>, k: int) -> bool {
    0 <= k && k + needle.len() <= s.len() && s.subrange(k, k + needle.len()) == needle
}

/// `needle` occurs somewhere in `s` (what `str::contains` answers).
pub open spec fn seq_contains_at_some(s: Seq<char>, needle: Seq<char>) -> bool {
    exists|k: int| occurs_at(s, needle, k)
}

/// Whether the string slice `s` contains the string slice `needle`.
pub fn str_contains(s: &str, needle: &str) -> (r: bool)
    ensures
        r == seq_contains_at_some(s@, needle@),
{
    let a = to_chars(s);
    let b = to_chars(needle);
    contains_chars(&a, &b)
}

// ---------------------------------------------------------------------------
// Whitespace and trimming
// ---------------------------------------------------------------------------

/// Unicode `White_Space`: the characters `char::is_whitespace` accepts.
pub open spec fn is_ws(c: char) -> bool {
    let u = c as u32;
    (0x09 <= u && u <= 0x0D) || u == 0x20 || u == 0x85 || u == 0xA0 || u == 0x1680
        || (0x2000 <= u && u <= 0x200A) || u == 0x2028 || u == 0x2029 || u == 0x202F
        || u == 0x205F || u == 0x3000
}

/// Whether `c` is Unicode whitespace.
pub fn is_whitespace(c: char) -> (r: bool)
    ensures
        r == is_ws(c),
{
    let u = c as u32;
    (0x09 <= u && u <= 0x0D) || u == 0x20 || u == 0x85 || u == 0xA0 || u == 0x1680
        || (0x2000 <= u && u <= 0x200A) || u == 0x2028 || u == 0x2029 || u == 0x202F
        || u == 0x205F || u == 0x3000
}

/// A square bracket, the character class stripped around a fixed size.
pub open spec fn is_bracket(c: char) -> bool {
    c == '[' || c == ']'
}

/// The characters a trim removes: whitespace, or brackets.
pub open spec fn strip_class(brackets: bool, c: char) -> bool {
    if brackets {
        is_bracket(c)
    } else {
        is_ws(c)
    }
}

/// First index at or after `i` whose character is kept by the trim.
pub open spec fn keep_from(s: Seq<char>, i: int, brackets: bool) -> int
    decreases s.len() - i,
{
    if i >= s.len() || i < 0 {
        s.len() as int
    } else if !strip_class(brackets, s[i]) {
        i
    } else {
        keep_from(s, i + 1, brackets)
    }
}

/// End (exclusive) of the kept characters in `s[lo..j]`, scanning back from `j`.
pub open spec fn keep_to(s: Seq<char>, lo: int, j: int, brackets: bool) -> int
    decreases j - lo,
{
    if j <= lo {
        lo
    } else if !strip_class(brackets, s[j - 1]) {
        j
    } else {
        keep_to(s, lo, j - 1, brackets)
    }
}

/// `s` with the stripped class removed from both ends (`str::trim`, or
/// `trim_matches` on brackets).
pub open spec fn spec_strip(s: Seq<char>, brackets: bool) -> Seq<char> {
    let a = keep_from(s, 0, brackets);
    s.subrange(a, keep_to(s, a, s.len() as int, brackets))
}

proof fn lemma_keep_from_bounds(s: Seq<char>, i: int, brackets: bool)
    requires
        0 <= i <= s.len(),
    ensures
        i <= keep_from(s, i, brackets) <= s.len(),
    decreases s.len() - i,
{
    if i < s.len() && strip_class(brackets, s[i]) {
        lemma_keep_from_bounds(s, i + 1, brackets);
    }
}

proof fn lemma_keep_to_bounds(s: Seq<char>, lo: int, j: int, brackets: bool)
    requires
        0 <= lo <= j <= s.len(),
    ensures
        lo <= keep_to(s, lo, j, brackets) <= j,
    decreases j - lo,
{
    if j > lo && strip_class(brackets, s[j - 1]) {
        lemma_keep_to_bounds(s, lo, j - 1, brackets);
    }
}

fn in_strip_class(brackets: bool, c: char) -> (r: bool)
    ensures
        r == strip_class(brackets, c),
{
    if brackets {
        c == '[' || c == ']'
    } else {
        is_whitespace(c)
    }
}

/// Bounds `(a, b)` of the kept part of `v[from..to]`.
pub fn strip_bounds(v: &Vec<char>, from: usize, to: usize, brackets: bool) -> (r: (usize, usize))
    requires
        from <= to <= v@.len(),
    ensures
        ({
            let s = v@.subrange(from as int, to as int);
            let a = keep_from(s, 0, brackets);
            &&& r.0 == from + a
            &&& r.1 == from + keep_to(s, a, s.len() as int, brackets)
            &&& from <= r.0 <= r.1 <= to
        }),
{
    let ghost s = v@.subrange(from as int, to as int);
    let mut a = from;
    while a < to && in_strip_class(brackets, v[a])
        invariant
            from <= a <= to <= v@.len(),
            s == v@.subrange(from as int, to as int),
            keep_from(s, 0, brackets) == keep_from(s, a - from, brackets),
        decreases to - a,
    {
        proof {
            assert(s[a - from] == v@[a as int]);
        }
        a = a + 1;
    }
    proof {
        if a < to {
            assert(s[a - from] == v@[a as int]);
        }
        assert(keep_from(s, 0, brackets) == a - from);
    }
    let mut b = to;
    while b > a && in_strip_class(brackets, v[b - 1])
        invariant
            from <= a <= b <= to <= v@.len(),
            s == v@.subrange(from as int, to as int),
            keep_to(s, a - from, s.len() as int, brackets) == keep_to(s, a - from, b - from, brackets),
        decreases b - a,
    {
        proof {
            assert(s[b - 1 - from] == v@[b - 1]);
        }
        b = b - 1;
    }
    proof {
        if b > a {
            assert(s[b - 1 - from] == v@[b - 1]);
        }
        assert(keep_to(s, a - from, b - from, brackets) == b - from);
    }
    (a, b)
}

/// `s` without leading and trailing whitespace (`str::trim`).
pub fn trim(s: &str) -> (r: String)
    ensures
        r@ == spec_strip(s@, false),
{
    let v = to_chars(s);
    let (a, b) = strip_bounds(&v, 0, v.len(), false);
    proof {
        assert(v@.subrange(0, v@.len() as int) =~= v@);
        let t = v@;
        let ka = keep_from(t, 0, false);
        assert(t.subrange(ka, keep_to(t, ka, t.len() as int, false)) =~= v@.subrange(a as int, b as int));
    }
    string_from_chars(&v, a, b)
}

// ---------------------------------------------------------------------------
// Decimal integers
// ---------------------------------------------------------------------------

/// An ASCII decimal digit.
pub open spec fn is_digit(c: char) -> bool {
    '0' <= c && c <= '9'
}

/// The value of a string of decimal digits.
pub open spec fn digits_value(s: Seq<char>) -> int
    decreases s.len(),
{
    if s.len() == 0 {
        0
    } else {
        digits_value(s.drop_last()) * 10 + (s.last() as int - '0' as int)
    }
}

/// The digits that `u32::from_str` reads: an optional leading `+` is dropped.
pub open spec fn unsigned_digits(s: Seq<char>) -> Seq<char> {
    if s.len() > 0 && s[0] == '+' {
        s.drop_first()
    } else {
        s
    }
}

/// What `str::parse::<u32>` returns: `Some` exactly for a non-empty run of
/// decimal digits (after an optional `+`) whose value fits in a `u32`.
pub open spec fn spec_parse_u32(s: Seq<char>) -> Option<u32> {
    let d = unsigned_digits(s);
    if d.len() > 0 && (forall|i: int| 0 <= i < d.len() ==> is_digit(#[trigger] d[i]))
        && digits_value(d) <= u32::MAX {
        Some(digits_value(d) as u32)
    } else {
        None
    }
}

proof fn lemma_digits_value_nonneg(s: Seq<char>)
    requires
        forall|i: int| 0 <= i < s.len() ==> is_digit(#[trigger] s[i]),
    ensures
        digits_value(s) >= 0,
    decreases s.len(),
{
    if s.len() > 0 {
        assert(forall|i: int|
            0 <= i < s.drop_last().len() ==> #[trigger] s.drop_last()[i] == s[i]);
        lemma_digits_value_nonneg(s.drop_last());
        assert(is_digit(s[s.len() - 1]));
    }
}

/// Parses `v[from..to]` as `str::parse::<u32>` would.
pub fn parse_u32_chars(v: &Vec<char>, from: usize, to: usize) -> (r: Option<u32>)
    requires
        from <= to <= v@.len(),
    ensures
        r == spec_parse_u32(v@.subrange(from as int, to as int)),
{
    let ghost s = v@.subrange(from as int, to as int);
    let mut start = from;
    if from < to && v[from] == '+' {
        start = from + 1;
    }
    let ghost d = v@.subrange(start as int, to as int);
    proof {
        assert(d =~= unsigned_digits(s));
    }
    if start == to {
        return None;
    }
    let mut acc: u64 = 0;
    let mut overflow = false;
    let mut i = start;
    while i < to
        invariant
            from <= start <= i <= to <= v@.len(),
            d == v@.subrange(start as int, to as int),
            s == v@.subrange(from as int, to as int),
            d == unsigned_digits(s),
            forall|k: int| 0 <= k < i - start ==> is_digit(#[trigger] d[k]),
            overflow ==> digits_value(d.subrange(0, i - start)) > u32::MAX,
            !overflow ==> acc == digits_value(d.subrange(0, i - start)),
            acc <= u32::MAX,
        decreases to - i,
    {
        let c = v[i];
        if !('0' <= c && c <= '9') {
            proof {
                assert(d[i - start] == c);
                assert(!is_digit(d[i - start]));
            }
            return None;
        }
        proof {
            assert(d[i - start] == c);
            let p = d.subrange(0, i - start);
            let q = d.subrange(0, i + 1 - start);
            assert(q.drop_last() =~= p);
            assert(q.last() == c);
            assert(forall|k: int| 0 <= k < p.len() ==> #[trigger] p[k] == d[k]);
            lemma_digits_value_nonneg(p);
        }
        let digit = (c as u32 - '0' as u32) as u64;
        if !overflow {
            let next = acc * 10 + digit;
            if next > 0xFFFF_FFFF {
                overflow = true;
            } else {
                acc = next;
            }
        }
        i = i + 1;
    }
    proof {
        assert(d.subrange(0, d.len() as int) =~= d);
    }
    if overflow {
        None
    } else {
        Some(acc as u32)
    }
}

/// Parses a string slice as `str::parse::<u32>` would.
pub fn parse_u32(s: &str) -> (r: Option<u32>)
    ensures
        r == spec_parse_u32(s@),
{
    let v = to_chars(s);
    let r = parse_u32_chars(&v, 0, v.len());
    proof {
        assert(v@.subrange(0, v@.len() as int) =~= v@);
    }
    r
}


/// The decimal digit character for `d` (below ten).
pub open spec fn digit_char(d: nat) -> char {
    if d == 0 { '0' } else if d == 1 { '1' } else if d == 2 { '2' } else if d == 3 { '3' } else if d
        == 4 { '4' } else if d == 5 { '5' } else if d == 6 { '6' } else if d == 7 { '7' } else if d
        == 8 { '8' } else { '9' }
}

/// The decimal notation of `n`, without leading zeros (`0` for zero), as
/// `Display` writes an unsigned integer.
pub open spec fn spec_decimal(n: nat) -> Seq<char>
    decreases n,
{
    if n < 10 {
        seq![digit_char(n)]
    } else {
        spec_decimal(n / 10).push(digit_char(n % 10))
    }
}

/// The decimal notation of a number is a non-empty run of digits, not
/// starting with `+`, whose value is the number.
pub proof fn lemma_decimal_digits(n: nat)
    ensures
        spec_decimal(n).len() > 0,
        forall|i: int| 0 <= i < spec_decimal(n).len() ==> is_digit(#[trigger] spec_decimal(n)[i]),
        digits_value(spec_decimal(n)) == n,
    decreases n,
{
    if n < 10 {
        let s = spec_decimal(n);
        assert(s.drop_last() =~= Seq::<char>::empty());
        assert(s.last() == digit_char(n));
        assert(digit_char(n) as int - '0' as int == n);
        assert(digits_value(s) == digits_value(s.drop_last()) * 10 + (s.last() as int - '0' as int));
    } else {
        lemma_decimal_digits(n / 10);
        let s = spec_decimal(n);
        assert(s.drop_last() =~= spec_decimal(n / 10));
        assert(s.last() == digit_char(n % 10));
        assert(digit_char(n % 10) as int - '0' as int == n % 10);
        assert(n == (n / 10) * 10 + n % 10);
        assert(digits_value(s) == digits_value(s.drop_last()) * 10 + (s.last() as int - '0' as int));
        assert forall|i: int| 0 <= i < s.len() implies is_digit(#[trigger] s[i]) by {
            if i < s.len() - 1 {
                assert(s[i] == spec_decimal(n / 10)[i]);
            }
        }
    }
}

/// Decimal digits are no whitespace and no brackets.
pub proof fn lemma_digit_kept(c: char)
    requires
        is_digit(c),
    ensures
        !is_ws(c),
        !is_bracket(c),
{
}

/// Trimming a run of digits leaves it as it is.
pub proof fn lemma_strip_digits(s: Seq<char>, brackets: bool)
    requires
        s.len() > 0,
        forall|i: int| 0 <= i < s.len() ==> is_digit(#[trigger] s[i]),
    ensures
        spec_strip(s, brackets) == s,
{
    lemma_digit_kept(s[0]);
    lemma_digit_kept(s[s.len() - 1]);
    assert(keep_from(s, 0, brackets) == 0);
    assert(keep_to(s, 0, s.len() as int, brackets) == s.len());
    assert(s.subrange(0, s.len() as int) =~= s);
}

/// A `u32` written in decimal reads back as itself.
pub proof fn lemma_parse_decimal_u32(n: u32)
    ensures
        spec_parse_u32(spec_decimal(n as nat)) == Some(n),
{
    lemma_decimal_digits(n as nat);
    let d = spec_decimal(n as nat);
    assert(d[0] != '+');
    assert(unsigned_digits(d) == d);
}

fn digit_to_char(d: u64) -> (c: char)
    requires
        d < 10,
    ensures
        c == digit_char(d as nat),
{
    match d {
        0 => '0',
        1 => '1',
        2 => '2',
        3 => '3',
        4 => '4',
        5 => '5',
        6 => '6',
        7 => '7',
        8 => '8',
        _ => '9',
    }
}

/// Writes `n` in decimal.
pub fn format_u64(n: u64) -> (s: String)
    ensures
        s@ == spec_decimal(n as nat),
    decreases n,
{
    if n < 10 {
        let mut s = String::new();
        push_char(&mut s, digit_to_char(n));
        proof {
            assert(s@ =~= seq![digit_char(n as nat)]);
        }
        s
    } else {
        let mut s = format_u64(n / 10);
        push_char(&mut s, digit_to_char(n % 10));
        s
    }
}

/// `s` without its trailing run of `c`, as `str::trim_end_matches` with a
/// character pattern gives it.
pub open spec fn spec_trim_end(s: Seq<char>, c: char) -> Seq<char>
    decreases s.len(),
{
    if s.len() > 0 && s.last() == c {
        spec_trim_end(s.drop_last(), c)
    } else {
        s
    }
}

/// Removes every trailing `c` from `s`.
pub fn trim_end_char(s: &str, c: char) -> (r: String)
    ensures
        r@ == spec_trim_end(s@, c),
{
    let v = to_chars(s);
    let mut end = v.len();
    proof {
        assert(v@.subrange(0, end as int) =~= v@);
    }
    while end > 0 && v[end - 1] == c
        invariant
            end <= v@.len(),
            spec_trim_end(v@.subrange(0, end as int), c) == spec_trim_end(v@, c),
        decreases end,
    {
        proof {
            let t = v@.subrange(0, end as int);
            assert(t.drop_last() =~= v@.subrange(0, end - 1));
        }
        end = end - 1;
    }
    proof {
        let t = v@.subrange(0, end as int);
        if end > 0 {
            assert(t.last() == v@[end - 1]);
        }
        assert(spec_trim_end(t, c) == t);
    }
    string_from_chars(&v, 0, end)
}


/// What `str::parse::<usize>` returns: `Some` exactly for a non-empty run of
/// decimal digits (after an optional `+`) whose value fits in a `usize`.
pub open spec fn spec_parse_usize(s: Seq<char>) -> Option<usize> {
    let d = unsigned_digits(s);
    if d.len() > 0 && (forall|i: int| 0 <= i < d.len() ==> is_digit(#[trigger] d[i]))
        && digits_value(d) <= usize::MAX {
        Some(digits_value(d) as usize)
    } else {
        None
    }
}

proof fn lemma_digits_value_prefix_mono(d: Seq<char>, k: int)
    requires
        0 <= k <= d.len(),
        forall|i: int| 0 <= i < d.len() ==> is_digit(#[trigger] d[i]),
    ensures
        digits_value(d.subrange(0, k)) <= digits_value(d),
    decreases d.len() - k,
{
    if k < d.len() {
        lemma_digits_value_prefix_mono(d, k + 1);
        let p = d.subrange(0, k + 1);
        assert(p.drop_last() =~= d.subrange(0, k));
        assert(forall|i: int| 0 <= i < p.len() ==> #[trigger] p[i] == d[i]);
        lemma_digits_value_nonneg(p.drop_last());
    } else {
        assert(d.subrange(0, k) =~= d);
    }
}

/// Parses a string slice as `str::parse::<usize>` would.
pub fn parse_usize(s: &str) -> (r: Option<usize>)
    ensures
        r == spec_parse_usize(s@),
{
    let v = to_chars(s);
    let mut start: usize = 0;
    if v.len() > 0 && v[0] == '+' {
        start = 1;
    }
    let ghost d = v@.subrange(start as int, v@.len() as int);
    proof {
        assert(d =~= unsigned_digits(s@));
    }
    if start == v.len() {
        return None;
    }
    let mut acc: usize = 0;
    let mut i = start;
    while i < v.len()
        invariant
            start <= i <= v@.len(),
            start < v@.len(),
            v@ == s@,
            d == v@.subrange(start as int, v@.len() as int),
            d == unsigned_digits(s@),
            forall|k: int| 0 <= k < i - start ==> is_digit(#[trigger] d[k]),
            acc == digits_value(d.subrange(0, i - start)),
        decreases v@.len() - i,
    {
        let c = v[i];
        proof {
            assert(d[i - start] == c);
        }
        if !('0' <= c && c <= '9') {
            return None;
        }
        proof {
            let p = d.subrange(0, i - start);
            let q = d.subrange(0, i + 1 - start);
            assert(q.drop_last() =~= p);
            assert(q.last() == c);
        }
        let digit = (c as u32 - '0' as u32) as usize;
        match acc.checked_mul(10) {
            Some(m) => match m.checked_add(digit) {
                Some(n) => {
                    acc = n;
                },
                None => {
                    proof {
                        lemma_rest_digits(d, i + 1 - start, s@);
                    }
                    return None;
                },
            },
            None => {
                proof {
                    let p = d.subrange(0, i - start);
                    assert(forall|k: int| 0 <= k < p.len() ==> #[trigger] p[k] == d[k]);
                    lemma_digits_value_nonneg(p);
                    lemma_rest_digits(d, i + 1 - start, s@);
                }
                return None;
            },
        }
        i = i + 1;
    }
    proof {
        assert(d.subrange(0, d.len() as int) =~= d);
    }
    Some(acc)
}

/// Once a prefix of the digits overflows, the whole does: either some later
/// character is no digit, or the value is larger still.
proof fn lemma_rest_digits(d: Seq<char>, k: int, s: Seq<char>)
    requires
        0 < k <= d.len(),
        d == unsigned_digits(s),
        forall|j: int| 0 <= j < k ==> is_digit(#[trigger] d[j]),
        digits_value(d.subrange(0, k)) > usize::MAX,
    ensures
        spec_parse_usize(s) is None,
{
    if forall|i: int| 0 <= i < d.len() ==> is_digit(#[trigger] d[i]) {
        lemma_digits_value_prefix_mono(d, k);
    }
}

// ---------------------------------------------------------------------------
// Ordering strings
// ---------------------------------------------------------------------------

/// Lexicographic order by code point, the order of `str`'s `Ord` (UTF-8
/// byte order and code-point order agree).
pub open spec fn lex_le(a: Seq<char>, b: Seq<char>) -> bool
    decreases a.len(),
{
    if a.len() == 0 {
        true
    } else if b.len() == 0 {
        false
    } else if a[0] != b[0] {
        (a[0] as int) < (b[0] as int)
    } else {
        lex_le(a.drop_first(), b.drop_first())
    }
}

/// Any two strings are ordered one way or the other.
pub proof fn lemma_lex_total(a: Seq<char>, b: Seq<char>)
    ensures
        lex_le(a, b) || lex_le(b, a),
    decreases a.len(),
{
    if a.len() > 0 && b.len() > 0 && a[0] == b[0] {
        lemma_lex_total(a.drop_first(), b.drop_first());
    }
}

/// The order is transitive.
pub proof fn lemma_lex_trans(a: Seq<char>, b: Seq<char>, c: Seq<char>)
    requires
        lex_le(a, b),
        lex_le(b, c),
    ensures
        lex_le(a, c),
    decreases a.len(),
{
    if a.len() > 0 && b.len() > 0 && c.len() > 0 && a[0] == b[0] && b[0] == c[0] {
        lemma_lex_trans(a.drop_first(), b.drop_first(), c.drop_first());
    }
}

proof fn lemma_lex_skip(a: Seq<char>, b: Seq<char>, i: int)
    requires
        0 <= i < a.len(),
        i < b.len(),
        a[i] == b[i],
    ensures
        lex_le(a.skip(i), b.skip(i)) == lex_le(a.skip(i + 1), b.skip(i + 1)),
{
    assert(a.skip(i).drop_first() =~= a.skip(i + 1));
    assert(b.skip(i).drop_first() =~= b.skip(i + 1));
}

/// Compares two character sequences in that order.
pub fn lex_le_chars(a: &Vec<char>, b: &Vec<char>) -> (r: bool)
    ensures
        r == lex_le(a@, b@),
{
    let mut i: usize = 0;
    proof {
        assert(a@.skip(0) =~= a@);
        assert(b@.skip(0) =~= b@);
    }
    while i < a.len() && i < b.len() && a[i] == b[i]
        invariant
            i <= a@.len(),
            i <= b@.len(),
            lex_le(a@, b@) == lex_le(a@.skip(i as int), b@.skip(i as int)),
        decreases a@.len() - i,
    {
        proof {
            lemma_lex_skip(a@, b@, i as int);
        }
        i = i + 1;
    }
    if i == a.len() {
        proof {
            assert(a@.skip(i as int) =~= Seq::<char>::empty());
        }
        true
    } else if i == b.len() {
        proof {
            assert(b@.skip(i as int) =~= Seq::<char>::empty());
            assert(a@.skip(i as int).len() > 0);
        }
        false
    } else {
        proof {
            assert(a@.skip(i as int)[0] == a@[i as int]);
            assert(b@.skip(i as int)[0] == b@[i as int]);
        }
        a[i] < b[i]
    }
}

/// The strings as character sequences.
pub open spec fn views(v: Seq<String>) -> Seq<Seq<char>> {
    v.map_values(|s: String| s@)
}

/// Sorted in `lex_le` order.
pub open spec fn lex_sorted(s: Seq<Seq<char>>) -> bool {
    forall|i: int, j: int| 0 <= i < j < s.len() ==> lex_le(#[trigger] s[i], #[trigger] s[j])
}

/// The strings sorted as `Vec::sort` sorts them.
pub fn sort_strings(v: Vec<String>) -> (r: Vec<String>)
    ensures
        lex_sorted(views(r@)),
        views(r@).to_multiset() == views(v@).to_multiset(),
{
    let mut out: Vec<String> = Vec::new();
    let mut out_chars: Vec<Vec<char>> = Vec::new();
    let mut i: usize = 0;
    proof {
        assert(views(v@.take(0)) =~= Seq::<Seq<char>>::empty());
        assert(views(out@) =~= Seq::<Seq<char>>::empty());
    }
    while i < v.len()
        invariant
            i <= v@.len(),
            out_chars@.len() == out@.len(),
            forall|k: int| 0 <= k < out@.len() ==> (#[trigger] out_chars@[k])@ == out@[k]@,
            lex_sorted(views(out@)),
            views(out@).to_multiset() == views(v@.take(i as int)).to_multiset(),
        decreases v@.len() - i,
    {
        let x = v[i].clone();
        let xc = to_chars(x.as_str());
        let mut k: usize = 0;
        while k < out.len() && lex_le_chars(&out_chars[k], &xc)
            invariant
                k <= out@.len(),
                xc@ == x@,
                out_chars@.len() == out@.len(),
                forall|m: int| 0 <= m < out@.len() ==> (#[trigger] out_chars@[m])@ == out@[m]@,
                forall|m: int| 0 <= m < k ==> lex_le(#[trigger] views(out@)[m], x@),
            decreases out@.len() - k,
        {
            proof {
                assert(views(out@)[k as int] == out_chars@[k as int]@);
            }
            k = k + 1;
        }
        let ghost before = views(out@);
        proof {
            if k < out@.len() {
                assert(!lex_le(before[k as int], x@));
                lemma_lex_total(before[k as int], x@);
            }
            assert forall|m: int| k <= m < before.len() implies lex_le(x@, #[trigger] before[m]) by {
                if m > k {
                    lemma_lex_trans(x@, before[k as int], before[m]);
                }
            }
        }
        out.insert(k, x);
        out_chars.insert(k, xc);
        proof {
            assert(views(out@) =~= before.insert(k as int, x@));
            let now = views(out@);
            assert forall|a: int, b: int| 0 <= a < b < now.len() implies lex_le(#[trigger] now[a], #[trigger] now[b]) by {
                if a < k && b == k {
                } else if a == k {
                    assert(now[b] == before[b - 1]);
                } else if a < k && b > k {
                    assert(now[b] == before[b - 1]);
                    lemma_lex_trans(now[a], x@, now[b]);
                } else if b < k {
                } else {
                    assert(now[a] == before[a - 1]);
                    assert(now[b] == before[b - 1]);
                }
            }
            vstd::seq_lib::to_multiset_insert(before, k as int, x@);
            assert(v@.take(i + 1) =~= v@.take(i as int).push(v@[i as int]));
            assert(views(v@.take(i + 1)) =~= views(v@.take(i as int)).push(x@));
            vstd::seq_lib::to_multiset_build(views(v@.take(i as int)), x@);
            assert forall|m: int| 0 <= m < out@.len() implies (#[trigger] out_chars@[m])@ == out@[m]@ by {
                if m < k {
                } else if m > k {
                }
            }
        }
        i = i + 1;
    }
    proof {
        assert(v@.take(v@.len() as int) =~= v@);
    }
    out
}

} // verus!
