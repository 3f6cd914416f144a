//! Byte-level text handling for sysfs and procfs content: Unicode
//! whitespace trimming, prefix and substring tests, token splitting and
//! decimal parsing with the rules of `str::parse` for unsigned integers.
//!
//! All functions work on a byte range `lo..hi` of a slice, so that callers
//! can walk through one buffer without copying it.
use vstd::prelude::*;
use vstd::string::StringSliceAdditionalSpecFns;

verus! {

/// `b` is an ASCII decimal digit.
pub open spec fn is_digit(b: u8) -> bool {
    48 <= b && b <= 57
}

/// The three bytes are the UTF-8 encoding of one of the three-byte
/// White_Space characters (U+1680, U+2000..U+200A, U+2028, U+2029, U+202F,
/// U+205F, U+3000).
pub open spec fn is_space3(a: u8, b: u8, c: u8) -> bool {
    ||| (a == 0xE1 && b == 0x9A && c == 0x80)
    ||| (a == 0xE2 && b == 0x80 && ((0x80 <= c && c <= 0x8A) || c == 0xA8 || c == 0xA9 || c
        == 0xAF))
    ||| (a == 0xE2 && b == 0x81 && c == 0x9F)
    ||| (a == 0xE3 && b == 0x80 && c == 0x80)
}

/// `b` is a one-byte White_Space character (U+0009..U+000D, U+0020).
pub open spec fn is_space1(b: u8) -> bool {
    (9 <= b && b <= 13) || b == 32
}

/// The two bytes encode U+0085 or U+00A0.
pub open spec fn is_space2(a: u8, b: u8) -> bool {
    a == 0xC2 && (b == 0x85 || b == 0xA0)
}

/// Byte length of the UTF-8 encoding of a White_Space character at the
/// start of `s`, or 0 when `s` does not start with one.
pub open spec fn leading_space_len(s: Seq<u8>) -> int {
    if s.len() >= 1 && is_space1(s[0]) {
        1
    } else if s.len() >= 2 && is_space2(s[0], s[1]) {
        2
    } else if s.len() >= 3 && is_space3(s[0], s[1], s[2]) {
        3
    } else {
        0
    }
}

/// Byte length of the UTF-8 encoding of a White_Space character at the end
/// of `s`, or 0 when `s` does not end with one.
pub open spec fn trailing_space_len(s: Seq<u8>) -> int {
    let n = s.len() as int;
    if n >= 1 && is_space1(s[n - 1]) {
        1
    } else if n >= 2 && is_space2(s[n - 2], s[n - 1]) {
        2
    } else if n >= 3 && is_space3(s[n - 3], s[n - 2], s[n - 1]) {
        3
    } else {
        0
    }
}

/// `s` without its leading whitespace characters.
pub open spec fn trim_start(s: Seq<u8>) -> Seq<u8>
    decreases s.len(),
{
    let k = leading_space_len(s);
    if k <= 0 || k > s.len() {
        s
    } else {
        trim_start(s.skip(k))
    }
}

/// `s` without its trailing whitespace characters.
pub open spec fn trim_end(s: Seq<u8>) -> Seq<u8>
    decreases s.len(),
{
    let k = trailing_space_len(s);
    if k <= 0 || k > s.len() {
        s
    } else {
        trim_end(s.take(s.len() - k))
    }
}

/// `s` without leading and trailing whitespace, as `str::trim` gives it for
/// UTF-8 text.
pub open spec fn trim(s: Seq<u8>) -> Seq<u8> {
    trim_end(trim_start(s))
}

/// Number of bytes before the first whitespace character of `s`: the length
/// of the first whitespace-separated token of text that does not start with
/// whitespace.
pub open spec fn token_len(s: Seq<u8>) -> int
    decreases s.len(),
{
    if s.len() == 0 || leading_space_len(s) > 0 {
        0
    } else {
        1 + token_len(s.skip(1))
    }
}

/// The first whitespace-separated token of `s`, which must not start with
/// whitespace (for trimmed text this is `split_whitespace().next()`, or the
/// empty sequence when there is none).
pub open spec fn first_token(s: Seq<u8>) -> Seq<u8> {
    s.take(token_len(s))
}

/// `pat` is a prefix of `s`.
pub open spec fn has_prefix(s: Seq<u8>, pat: Seq<u8>) -> bool {
    pat.len() <= s.len() && s.take(pat.len() as int) == pat
}

/// `pat` is a suffix of `s`.
pub open spec fn has_suffix(s: Seq<u8>, pat: Seq<u8>) -> bool {
    pat.len() <= s.len() && s.skip(s.len() - pat.len()) == pat
}

/// `pat` occurs in `s` starting at index `i`.
pub open spec fn occurs_at(s: Seq<u8>, pat: Seq<u8>, i: int) -> bool {
    0 <= i && i + pat.len() <= s.len() && s.subrange(i, i + pat.len()) == pat
}

/// `pat` occurs somewhere in `s`.
pub open spec fn contains(s: Seq<u8>, pat: Seq<u8>) -> bool {
    exists|i: int| occurs_at(s, pat, i)
}

/// `j` is the index of the first occurrence of byte `c` in `s`.
pub open spec fn is_first_byte(s: Seq<u8>, c: u8, j: int) -> bool {
    &&& 0 <= j < s.len()
    &&& s[j] == c
    &&& forall|k: int| 0 <= k < j ==> s[k] != c
}

/// Index of the first occurrence of `c` in `s`.
pub open spec fn first_index_of(s: Seq<u8>, c: u8) -> Option<int> {
    if exists|j: int| is_first_byte(s, c, j) {
        Some(choose|j: int| is_first_byte(s, c, j))
    } else {
        None
    }
}

/// The bytes of ASCII text.
pub open spec fn ascii_bytes(t: Seq<char>) -> Seq<u8> {
    Seq::new(t.len(), |i: int| t[i] as u8)
}

/// Value of a sequence of decimal digits.
pub open spec fn digits_value(s: Seq<u8>) -> nat
    decreases s.len(),
{
    if s.len() == 0 {
        0
    } else {
        digits_value(s.drop_last()) * 10 + (s.last() - 48) as nat
    }
}

/// Every byte of `s` is a decimal digit.
pub open spec fn all_digits(s: Seq<u8>) -> bool {
    forall|i: int| 0 <= i < s.len() ==> is_digit(s[i])
}

/// The digits of an unsigned number: `s` without one leading `+`.
pub open spec fn unsigned_digits(s: Seq<u8>) -> Seq<u8> {
    if s.len() > 0 && s[0] == 43 {
        s.skip(1)
    } else {
        s
    }
}

/// `str::parse` of an unsigned integer type whose largest value is `max`:
/// an optional `+`, then at least one decimal digit and nothing else, with a
/// value no larger than `max`.
pub open spec fn parse_unsigned(s: Seq<u8>, max: nat) -> Option<nat> {
    let d = unsigned_digits(s);
    if d.len() > 0 && all_digits(d) && digits_value(d) <= max {
        Some(digits_value(d))
    } else {
        None
    }
}

/// The value that `parse::<u64>()` gives `s`, or 0 when it fails.
pub open spec fn u64_or_zero(s: Seq<u8>) -> u64 {
    match parse_unsigned(s, u64::MAX as nat) {
        Some(v) => v as u64,
        None => 0,
    }
}

/// The value that `parse::<u32>()` gives `s`, or 0 when it fails.
pub open spec fn u32_or_zero(s: Seq<u8>) -> u32 {
    match parse_unsigned(s, u32::MAX as nat) {
        Some(v) => v as u32,
        None => 0,
    }
}

pub(crate) proof fn lemma_first_byte_unique(s: Seq<u8>, c: u8, j: int)
    requires
        is_first_byte(s, c, j),
    ensures
        first_index_of(s, c) == Some(j),
{
    let k = choose|k: int| is_first_byte(s, c, k);
    assert(is_first_byte(s, c, k));
    if k < j {
        assert(s[k] != c);
    }
    if j < k {
        assert(s[j] != c);
    }
}

proof fn lemma_digits_value_prefix(s: Seq<u8>, j: int)
    requires
        all_digits(s),
        0 <= j <= s.len(),
    ensures
        digits_value(s.take(j)) <= digits_value(s),
    decreases s.len(),
{
    if j < s.len() {
        let t = s.drop_last();
        assert(all_digits(t));
        lemma_digits_value_prefix(t, j);
        assert(t.take(j) =~= s.take(j));
    } else {
        assert(s.take(j) =~= s);
    }
}

/// Byte length of the whitespace character that starts `s[i..hi]`, or 0.
pub fn leading_space_at(s: &[u8], i: usize, hi: usize) -> (k: usize)
    requires
        i <= hi <= s@.len(),
    ensures
        k as int == leading_space_len(s@.subrange(i as int, hi as int)),
        k <= hi - i,
{
    let n = hi - i;
    if n >= 1 && ((9 <= s[i] && s[i] <= 13) || s[i] == 32) {
        1
    } else if n >= 2 && s[i] == 0xC2 && (s[i + 1] == 0x85 || s[i + 1] == 0xA0) {
        2
    } else if n >= 3 && space3(s[i], s[i + 1], s[i + 2]) {
        3
    } else {
        0
    }
}

/// Byte length of the whitespace character that ends `s[lo..j]`, or 0.
pub fn trailing_space_at(s: &[u8], lo: usize, j: usize) -> (k: usize)
    requires
        lo <= j <= s@.len(),
    ensures
        k as int == trailing_space_len(s@.subrange(lo as int, j as int)),
        k <= j - lo,
{
    let n = j - lo;
    if n >= 1 && ((9 <= s[j - 1] && s[j - 1] <= 13) || s[j - 1] == 32) {
        1
    } else if n >= 2 && s[j - 2] == 0xC2 && (s[j - 1] == 0x85 || s[j - 1] == 0xA0) {
        2
    } else if n >= 3 && space3(s[j - 3], s[j - 2], s[j - 1]) {
        3
    } else {
        0
    }
}

fn space3(a: u8, b: u8, c: u8) -> (r: bool)
    ensures
        r == is_space3(a, b, c),
{
    (a == 0xE1 && b == 0x9A && c == 0x80) || (a == 0xE2 && b == 0x80 && ((0x80 <= c && c <= 0x8A)
        || c == 0xA8 || c == 0xA9 || c == 0xAF)) || (a == 0xE2 && b == 0x81 && c == 0x9F) || (a
        == 0xE3 && b == 0x80 && c == 0x80)
}

/// The bounds of `trim(s[lo..hi])` inside `s`.
pub fn trim_range(s: &[u8], lo: usize, hi: usize) -> (r: (usize, usize))
    requires
        lo <= hi <= s@.len(),
    ensures
        lo <= r.0 <= r.1 <= hi,
        s@.subrange(r.0 as int, r.1 as int) == trim(s@.subrange(lo as int, hi as int)),
{
    let mut a = lo;
    loop
        invariant
            lo <= a <= hi <= s@.len(),
            trim_start(s@.subrange(lo as int, hi as int)) == trim_start(
                s@.subrange(a as int, hi as int),
            ),
        ensures
            lo <= a <= hi,
            trim_start(s@.subrange(lo as int, hi as int)) == s@.subrange(a as int, hi as int),
        decreases hi - a,
    {
        let k = leading_space_at(s, a, hi);
        if k == 0 {
            break;
        }
        proof {
            assert(s@.subrange(a as int, hi as int).skip(k as int) =~= s@.subrange(
                (a + k) as int,
                hi as int,
            ));
        }
        a = a + k;
    }
    let mut b = hi;
    loop
        invariant
            a <= b <= hi <= s@.len(),
            trim_end(s@.subrange(a as int, hi as int)) == trim_end(s@.subrange(a as int, b as int)),
        ensures
            a <= b <= hi,
            trim_end(s@.subrange(a as int, hi as int)) == s@.subrange(a as int, b as int),
        decreases b - a,
    {
        let k = trailing_space_at(s, a, b);
        if k == 0 {
            break;
        }
        proof {
            let t = s@.subrange(a as int, b as int);
            assert(t.take(t.len() - k) =~= s@.subrange(a as int, (b - k) as int));
        }
        b = b - k;
    }
    (a, b)
}

/// The end of the first whitespace-separated token of `s[lo..hi]`, which is
/// taken not to start with whitespace.
pub fn token_end(s: &[u8], lo: usize, hi: usize) -> (e: usize)
    requires
        lo <= hi <= s@.len(),
    ensures
        lo <= e <= hi,
        s@.subrange(lo as int, e as int) == first_token(s@.subrange(lo as int, hi as int)),
{
    let mut j = lo;
    while j < hi && leading_space_at(s, j, hi) == 0
        invariant
            lo <= j <= hi <= s@.len(),
            token_len(s@.subrange(lo as int, hi as int)) == (j - lo) + token_len(
                s@.subrange(j as int, hi as int),
            ),
        decreases hi - j,
    {
        proof {
            assert(s@.subrange(j as int, hi as int).skip(1) =~= s@.subrange(j + 1, hi as int));
        }
        j = j + 1;
    }
    proof {
        assert(token_len(s@.subrange(j as int, hi as int)) == 0);
        assert(s@.subrange(lo as int, hi as int).take(j - lo) =~= s@.subrange(lo as int, j as int));
    }
    j
}

/// Whether `s[lo..hi]` starts with `pat`.
pub fn starts_with(s: &[u8], lo: usize, hi: usize, pat: &[u8]) -> (r: bool)
    requires
        lo <= hi <= s@.len(),
    ensures
        r == has_prefix(s@.subrange(lo as int, hi as int), pat@),
{
    if pat.len() > hi - lo {
        return false;
    }
    let r = matches_at(s, lo, pat);
    proof {
        assert(s@.subrange(lo as int, hi as int).take(pat@.len() as int) =~= s@.subrange(
            lo as int,
            lo + pat@.len(),
        ));
    }
    r
}

/// Whether `s[lo..hi]` ends with `pat`.
pub fn ends_with(s: &[u8], lo: usize, hi: usize, pat: &[u8]) -> (r: bool)
    requires
        lo <= hi <= s@.len(),
    ensures
        r == has_suffix(s@.subrange(lo as int, hi as int), pat@),
{
    if pat.len() > hi - lo {
        return false;
    }
    let r = matches_at(s, hi - pat.len(), pat);
    proof {
        let t = s@.subrange(lo as int, hi as int);
        assert(t.skip(t.len() - pat@.len()) =~= s@.subrange(hi - pat@.len(), hi as int));
    }
    r
}

/// Whether `pat` occurs in `s` at index `i`.
pub fn matches_at(s: &[u8], i: usize, pat: &[u8]) -> (r: bool)
    requires
        i + pat@.len() <= s@.len(),
    ensures
        r == (s@.subrange(i as int, i + pat@.len()) == pat@),
{
    let n = s.len();
    let mut k: usize = 0;
    while k < pat.len()
        invariant
            k <= pat@.len(),
            i + pat@.len() <= s@.len(),
            n == s@.len(),
            forall|m: int| 0 <= m < k ==> s@[i + m] == pat@[m],
        decreases pat@.len() - k,
    {
        if s[i + k] != pat[k] {
            proof {
                assert(s@.subrange(i as int, i + pat@.len())[k as int] != pat@[k as int]);
            }
            return false;
        }
        k = k + 1;
    }
    assert(s@.subrange(i as int, i + pat@.len()) =~= pat@);
    true
}

/// Whether `pat` occurs anywhere in `s`.
pub fn contains_bytes(s: &[u8], pat: &[u8]) -> (r: bool)
    ensures
        r == contains(s@, pat@),
{
    if pat.len() == 0 {
        assert(s@.subrange(0, 0) =~= pat@);
        assert(occurs_at(s@, pat@, 0));
        return true;
    }
    if pat.len() > s.len() {
        proof {
            assert forall|i: int| !occurs_at(s@, pat@, i) by {}
        }
        return false;
    }
    let last = s.len() - pat.len();
    let mut i: usize = 0;
    while i <= last
        invariant
            last + pat@.len() == s@.len(),
            pat@.len() >= 1,
            s@.len() <= usize::MAX,
            i <= last + 1,
            forall|j: int| 0 <= j < i ==> !occurs_at(s@, pat@, j),
        decreases last + 1 - i,
    {
        if matches_at(s, i, pat) {
            assert(occurs_at(s@, pat@, i as int));
            return true;
        }
        i = i + 1;
    }
    proof {
        assert forall|j: int| !occurs_at(s@, pat@, j) by {
            if 0 <= j < i {
            }
        }
    }
    false
}

/// Index of the first byte `c` in `s[lo..hi]`, counted from the start of `s`.
pub fn find_byte(s: &[u8], lo: usize, hi: usize, c: u8) -> (r: Option<usize>)
    requires
        lo <= hi <= s@.len(),
    ensures
        match r {
            Some(i) => lo <= i < hi && first_index_of(s@.subrange(lo as int, hi as int), c) == Some(
                i - lo,
            ),
            None => first_index_of(s@.subrange(lo as int, hi as int), c) is None,
        },
{
    let ghost t = s@.subrange(lo as int, hi as int);
    let mut i = lo;
    while i < hi
        invariant
            lo <= i <= hi <= s@.len(),
            t == s@.subrange(lo as int, hi as int),
            forall|k: int| 0 <= k < i - lo ==> t[k] != c,
        decreases hi - i,
    {
        if s[i] == c {
            proof {
                assert(is_first_byte(t, c, i - lo));
                lemma_first_byte_unique(t, c, i - lo);
            }
            return Some(i);
        }
        i = i + 1;
    }
    proof {
        assert forall|j: int| !is_first_byte(t, c, j) by {
            if 0 <= j < t.len() {
                assert(t[j] != c);
            }
        }
    }
    None
}

/// `str::parse` of `s[lo..hi]` as an unsigned integer no larger than `max`.
pub fn parse_bounded(s: &[u8], lo: usize, hi: usize, max: u64) -> (r: Option<u64>)
    requires
        lo <= hi <= s@.len(),
    ensures
        match r {
            Some(v) => parse_unsigned(s@.subrange(lo as int, hi as int), max as nat) == Some(
                v as nat,
            ),
            None => parse_unsigned(s@.subrange(lo as int, hi as int), max as nat) is None,
        },
{
    let ghost t = s@.subrange(lo as int, hi as int);
    let mut start = lo;
    if hi > lo && s[lo] == 43 {
        start = lo + 1;
    }
    let ghost d = s@.subrange(start as int, hi as int);
    assert(d =~= unsigned_digits(t));
    if start == hi {
        assert(d.len() == 0);
        assert(parse_unsigned(t, max as nat) is None);
        return None;
    }
    let mut v: u64 = 0;
    let mut i = start;
    while i < hi
        invariant
            start <= i <= hi <= s@.len(),
            d == s@.subrange(start as int, hi as int),
            d == unsigned_digits(t),
            t == s@.subrange(lo as int, hi as int),
            all_digits(d.take(i - start)),
            v as nat == digits_value(d.take(i - start)),
            v <= max,
        decreases hi - i,
    {
        let b = s[i];
        if b < 48 || b > 57 {
            assert(!is_digit(d[i - start]));
            assert(!all_digits(d));
            assert(parse_unsigned(t, max as nat) is None);
            return None;
        }
        let nv: u128 = (v as u128) * 10 + ((b - 48) as u128);
        proof {
            assert(d.take(i - start + 1).drop_last() =~= d.take(i - start));
            assert(all_digits(d.take(i - start + 1)));
            assert(digits_value(d.take(i - start + 1)) == nv);
        }
        if nv > max as u128 {
            proof {
                if all_digits(d) {
                    lemma_digits_value_prefix(d, i - start + 1);
                }
            }
            return None;
        }
        v = nv as u64;
        i = i + 1;
    }
    assert(d.take(i - start) =~= d);
    Some(v)
}

/// Why `str::parse` of an unsigned integer fails, as std's
/// `IntErrorKind` tells it.
#[derive(Debug, Clone, Copy, PartialEq, Eq)]
pub enum IntErrorKind {
    /// The text is empty.
    Empty,
    /// A byte that is not a decimal digit, or a sign with no digits.
    InvalidDigit,
    /// The value does not fit the type.
    PosOverflow,
}

impl IntErrorKind {
    /// std's message for the error, as `ParseIntError` displays it.
    pub fn message(&self) -> (r: &'static str)
        ensures
            r@ == match *self {
                IntErrorKind::Empty => "cannot parse integer from empty string"@,
                IntErrorKind::InvalidDigit => "invalid digit found in string"@,
                IntErrorKind::PosOverflow => "number too large to fit in target type"@,
            },
    {
        match self {
            IntErrorKind::Empty => "cannot parse integer from empty string",
            IntErrorKind::InvalidDigit => "invalid digit found in string",
            IntErrorKind::PosOverflow => "number too large to fit in target type",
        }
    }
}

/// Some prefix of the digits, made of digits only, already exceeds `max`:
/// reading left to right, the value overflows before any other byte is
/// met.
pub open spec fn overflows_first(d: Seq<u8>, max: nat) -> bool {
    exists|k: int|
        0 <= k <= d.len() && all_digits(#[trigger] d.take(k)) && digits_value(d.take(k)) > max
}

/// `str::parse` of an unsigned integer type whose largest value is `max`,
/// with the error std gives: empty text; a lone `+`; an overflow met while
/// reading the digits left to right; a byte that is not a digit; or the
/// value.
pub open spec fn int_parse(s: Seq<u8>, max: nat) -> Result<nat, IntErrorKind> {
    let d = unsigned_digits(s);
    if s.len() == 0 {
        Err(IntErrorKind::Empty)
    } else if d.len() == 0 {
        Err(IntErrorKind::InvalidDigit)
    } else if overflows_first(d, max) {
        Err(IntErrorKind::PosOverflow)
    } else if !all_digits(d) {
        Err(IntErrorKind::InvalidDigit)
    } else {
        Ok(digits_value(d))
    }
}

/// A parse that succeeds gives the value `parse_unsigned` gives.
pub proof fn int_parse_agrees(s: Seq<u8>, max: nat)
    ensures
        int_parse(s, max) is Ok <==> parse_unsigned(s, max) is Some,
        int_parse(s, max) matches Ok(v) ==> parse_unsigned(s, max) == Some(v),
{
    let d = unsigned_digits(s);
    if s.len() > 0 && d.len() > 0 && all_digits(d) {
        if digits_value(d) > max {
            assert(d.take(d.len() as int) =~= d);
            assert(all_digits(d.take(d.len() as int)));
        } else {
            assert forall|k: int| 0 <= k <= d.len() && all_digits(#[trigger] d.take(k)) implies
                digits_value(d.take(k)) <= max by {
                lemma_digits_value_prefix(d, k);
            }
        }
    }
    if s.len() == 0 {
        assert(d.len() == 0);
    }
}

/// `str::parse` of `s[lo..hi]` as an unsigned integer no larger than
/// `max`, with std's error kind when it fails.
pub fn parse_checked(s: &[u8], lo: usize, hi: usize, max: u64) -> (r: Result<u64, IntErrorKind>)
    requires
        lo <= hi <= s@.len(),
    ensures
        match r {
            Ok(v) => int_parse(s@.subrange(lo as int, hi as int), max as nat) == Ok::<
                nat,
                IntErrorKind,
            >(v as nat),
            Err(e) => int_parse(s@.subrange(lo as int, hi as int), max as nat) == Err::<
                nat,
                IntErrorKind,
            >(e),
        },
{
    let ghost t = s@.subrange(lo as int, hi as int);
    if lo == hi {
        return Err(IntErrorKind::Empty);
    }
    let mut start = lo;
    if s[lo] == 43 {
        start = lo + 1;
    }
    let ghost d = s@.subrange(start as int, hi as int);
    assert(d =~= unsigned_digits(t));
    if start == hi {
        return Err(IntErrorKind::InvalidDigit);
    }
    let mut v: u64 = 0;
    let mut i = start;
    while i < hi
        invariant
            start <= i <= hi <= s@.len(),
            d == s@.subrange(start as int, hi as int),
            d == unsigned_digits(t),
            t == s@.subrange(lo as int, hi as int),
            t.len() > 0,
            d.len() > 0,
            all_digits(d.take(i - start)),
            v as nat == digits_value(d.take(i - start)),
            v <= max,
        decreases hi - i,
    {
        let b = s[i];
        let ghost p = i - start;
        if b < 48 || b > 57 {
            proof {
                assert(!is_digit(d[p]));
                assert forall|k: int| 0 <= k <= d.len() && all_digits(#[trigger] d.take(k)) implies
                    digits_value(d.take(k)) <= max by {
                    if k > p {
                        assert(d.take(k)[p] == d[p]);
                    } else {
                        lemma_digits_value_prefix(d.take(p), k);
                        assert(d.take(p).take(k) =~= d.take(k));
                    }
                }
                assert(!all_digits(d));
            }
            return Err(IntErrorKind::InvalidDigit);
        }
        let nv: u128 = (v as u128) * 10 + ((b - 48) as u128);
        proof {
            assert(d.take(p + 1).drop_last() =~= d.take(p));
            assert(all_digits(d.take(p + 1)));
            assert(digits_value(d.take(p + 1)) == nv);
        }
        if nv > max as u128 {
            proof {
                assert(0 <= p + 1 <= d.len() && all_digits(d.take(p + 1)) && digits_value(
                    d.take(p + 1),
                ) > max);
            }
            return Err(IntErrorKind::PosOverflow);
        }
        v = nv as u64;
        i = i + 1;
    }
    proof {
        assert(d.take(i - start) =~= d);
        assert forall|k: int| 0 <= k <= d.len() && all_digits(#[trigger] d.take(k)) implies
            digits_value(d.take(k)) <= max by {
            lemma_digits_value_prefix(d, k);
        }
    }
    Ok(v)
}

/// A number written in decimal digits reads as its value when it fits the
/// type (up to `u64::MAX` or `u32::MAX`), as 0 when it does not.
pub proof fn digits_read_as_their_value(s: Seq<u8>)
    requires
        s.len() > 0,
        all_digits(s),
        s[0] != 43,
    ensures
        u64_or_zero(s) == if digits_value(s) <= 0xFFFF_FFFF_FFFF_FFFF {
            digits_value(s)
        } else {
            0
        },
        u32_or_zero(s) == if digits_value(s) <= 0xFFFF_FFFF {
            digits_value(s)
        } else {
            0
        },
{
    assert(unsigned_digits(s) == s);
}

/// `parse::<u64>()` of `s[lo..hi]`, 0 when it fails.
pub fn parse_u64_or_zero(s: &[u8], lo: usize, hi: usize) -> (r: u64)
    requires
        lo <= hi <= s@.len(),
    ensures
        r == u64_or_zero(s@.subrange(lo as int, hi as int)),
{
    match parse_bounded(s, lo, hi, u64::MAX) {
        Some(v) => v,
        None => 0,
    }
}

/// `parse::<u32>()` of `s[lo..hi]`, 0 when it fails.
pub fn parse_u32_or_zero(s: &[u8], lo: usize, hi: usize) -> (r: u32)
    requires
        lo <= hi <= s@.len(),
    ensures
        r == u32_or_zero(s@.subrange(lo as int, hi as int)),
{
    match parse_bounded(s, lo, hi, 0xFFFF_FFFF) {
        Some(v) => v as u32,
        None => 0,
    }
}

/// A copy of `s[lo..hi]`.
pub fn copy_range(s: &[u8], lo: usize, hi: usize) -> (r: Vec<u8>)
    requires
        lo <= hi <= s@.len(),
    ensures
        r@ == s@.subrange(lo as int, hi as int),
{
    let mut r: Vec<u8> = Vec::new();
    let mut i = lo;
    while i < hi
        invariant
            lo <= i <= hi <= s@.len(),
            r@ == s@.subrange(lo as int, i as int),
        decreases hi - i,
    {
        r.push(s[i]);
        proof {
            assert(r@ =~= s@.subrange(lo as int, i + 1));
        }
        i = i + 1;
    }
    r
}

/// Whether `a` holds the same bytes as `s[lo..hi]`.
pub fn equals_range(a: &[u8], s: &[u8], lo: usize, hi: usize) -> (r: bool)
    requires
        lo <= hi <= s@.len(),
    ensures
        r == (a@ == s@.subrange(lo as int, hi as int)),
{
    if a.len() != hi - lo {
        return false;
    }
    let r = matches_at(s, lo, a);
    r
}


/// Whether the two strings hold the same characters.
pub fn str_equals(a: &str, b: &str) -> (r: bool)
    ensures
        r == (a@ == b@),
{
    let x = a.as_bytes();
    let y = b.as_bytes();
    let n = y.len();
    let r = equals_range(x, y, 0, n);
    proof {
        assert(y@.subrange(0, n as int) =~= y@);
        if r {
            vstd::utf8::encode_utf8_decode_utf8(a@);
            vstd::utf8::encode_utf8_decode_utf8(b@);
        }
    }
    r
}

} // verus!
