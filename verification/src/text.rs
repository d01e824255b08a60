//! Character-level text model shared by all modules.
//!
//! Strings are specified through their character sequences (`s@`). The
//! helpers here mirror the small part of `str` the voice logic relies on
//! (whitespace trimming, prefix tests, integer parsing and printing) and are
//! each proved against a short statement of what the standard library does.

use vstd::prelude::*;

verus! {

// ── Specifications ─────────────────────────────────────────────────────────

/// `char::is_whitespace`: the Unicode `White_Space` property.
pub open spec fn is_ws(c: char) -> bool {
    ||| ('\u{9}' <= c && c <= '\u{d}')
    ||| c == ' '
    ||| c == '\u{85}'
    ||| c == '\u{a0}'
    ||| c == '\u{1680}'
    ||| ('\u{2000}' <= c && c <= '\u{200a}')
    ||| c == '\u{2028}'
    ||| c == '\u{2029}'
    ||| c == '\u{202f}'
    ||| c == '\u{205f}'
    ||| c == '\u{3000}'
}

/// `str::trim_start`.
pub open spec fn trim_start_spec(s: Seq<char>) -> Seq<char>
    decreases s.len(),
{
    if s.len() > 0 && is_ws(s[0]) {
        trim_start_spec(s.drop_first())
    } else {
        s
    }
}

/// `str::trim_end`.
pub open spec fn trim_end_spec(s: Seq<char>) -> Seq<char>
    decreases s.len(),
{
    if s.len() > 0 && is_ws(s.last()) {
        trim_end_spec(s.drop_last())
    } else {
        s
    }
}

/// `str::trim`.
pub open spec fn trim_spec(s: Seq<char>) -> Seq<char> {
    trim_end_spec(trim_start_spec(s))
}

pub open spec fn is_digit(c: char) -> bool {
    '0' <= c && c <= '9'
}

pub open spec fn digit_value(c: char) -> int {
    (c as int) - ('0' as int)
}

pub open spec fn digit_char(d: int) -> char {
    ((d + ('0' as int)) as u32) as char
}

pub open spec fn all_digits(s: Seq<char>) -> bool {
    forall|i: int| 0 <= i < s.len() ==> is_digit(#[trigger] s[i])
}

/// Decimal value of a digit string (most significant digit first).
pub open spec fn digits_value(s: Seq<char>) -> int
    decreases s.len(),
{
    if s.len() == 0 {
        0
    } else {
        10 * digits_value(s.drop_last()) + digit_value(s.last())
    }
}

/// `FromStr` for Rust's integer types whose range is `lo..=hi`: an optional
/// `+` (or `-` when the type is signed), then one or more ASCII digits whose
/// value lies in the range.
pub open spec fn parse_int_spec(s: Seq<char>, lo: int, hi: int) -> Option<int> {
    let negative = s.len() > 0 && s[0] == '-' && lo < 0;
    let body = if s.len() > 0 && (s[0] == '+' || (s[0] == '-' && lo < 0)) {
        s.drop_first()
    } else {
        s
    };
    let value = if negative { -digits_value(body) } else { digits_value(body) };
    if body.len() > 0 && all_digits(body) && lo <= value && value <= hi {
        Some(value)
    } else {
        None
    }
}

/// Decimal rendering of a natural number, as `Display` prints it.
pub open spec fn nat_dec(n: nat) -> Seq<char>
    decreases n,
{
    if n < 10 {
        seq![digit_char(n as int)]
    } else {
        nat_dec((n / 10) as nat).push(digit_char((n % 10) as int))
    }
}

/// Decimal rendering of an integer, as `Display` prints it.
pub open spec fn int_dec(i: int) -> Seq<char> {
    if i < 0 {
        seq!['-'] + nat_dec((-i) as nat)
    } else {
        nat_dec(i as nat)
    }
}

pub open spec fn is_ascii_seq(s: Seq<char>) -> bool {
    forall|i: int| 0 <= i < s.len() ==> (#[trigger] s[i] as int) < 128
}

pub open spec fn ascii_lower_char(c: char) -> char {
    if 'A' <= c && c <= 'Z' {
        ((c as u32) + 32) as char
    } else {
        c
    }
}

/// `str::to_ascii_lowercase`.
pub open spec fn ascii_lower(s: Seq<char>) -> Seq<char> {
    Seq::new(s.len(), |i: int| ascii_lower_char(s[i]))
}

pub open spec fn ascii_upper_char(c: char) -> char {
    if 'a' <= c && c <= 'z' {
        ((c as u32) - 32) as char
    } else {
        c
    }
}

/// The first character ASCII-uppercased, the rest unchanged.
pub open spec fn ascii_capitalize(s: Seq<char>) -> Seq<char> {
    if s.len() == 0 {
        s
    } else {
        seq![ascii_upper_char(s[0])] + s.drop_first()
    }
}

proof fn lemma_ascii_trim_start(s: Seq<char>)
    requires
        is_ascii_seq(s),
    ensures
        is_ascii_seq(trim_start_spec(s)),
    decreases s.len(),
{
    if s.len() > 0 && is_ws(s[0]) {
        assert(forall|i: int| 0 <= i < s.drop_first().len() ==> s.drop_first()[i] == s[i + 1]);
        lemma_ascii_trim_start(s.drop_first());
    }
}

proof fn lemma_ascii_trim_end(s: Seq<char>)
    requires
        is_ascii_seq(s),
    ensures
        is_ascii_seq(trim_end_spec(s)),
    decreases s.len(),
{
    if s.len() > 0 && is_ws(s.last()) {
        assert(forall|i: int| 0 <= i < s.drop_last().len() ==> s.drop_last()[i] == s[i]);
        lemma_ascii_trim_end(s.drop_last());
    }
}

/// Trimming keeps ASCII text ASCII.
pub proof fn lemma_ascii_trim(s: Seq<char>)
    requires
        is_ascii_seq(s),
    ensures
        is_ascii_seq(trim_spec(s)),
{
    lemma_ascii_trim_start(s);
    lemma_ascii_trim_end(trim_start_spec(s));
}

/// ASCII lowercasing keeps text ASCII and does nothing the second time.
pub proof fn lemma_ascii_lower_twice(s: Seq<char>)
    requires
        is_ascii_seq(s),
    ensures
        is_ascii_seq(ascii_lower(s)),
        ascii_lower(ascii_lower(s)) == ascii_lower(s),
{
    assert forall|i: int| 0 <= i < s.len() implies (#[trigger] ascii_lower(s)[i] as int) < 128 by {
        assert((s[i] as int) < 128);
    }
    assert(ascii_lower(ascii_lower(s)) =~= ascii_lower(s));
}

/// What `str::to_lowercase` returns for the given characters; the Unicode
/// lowercase mapping.
pub uninterp spec fn lowercase_of(s: Seq<char>) -> Seq<char>;

/// What `char::to_uppercase` yields for one character; the Unicode uppercase
/// mapping.
pub uninterp spec fn uppercase_of(c: char) -> Seq<char>;

/// `s.starts_with(p)` for a string pattern.
pub open spec fn has_prefix(s: Seq<char>, p: Seq<char>) -> bool {
    p.len() <= s.len() && s.subrange(0, p.len() as int) == p
}

/// `s.ends_with(p)` for a string pattern.
pub open spec fn has_suffix(s: Seq<char>, p: Seq<char>) -> bool {
    p.len() <= s.len() && s.subrange(s.len() - p.len(), s.len() as int) == p
}

/// `s.contains(p)` for a string pattern.
pub open spec fn has_infix(s: Seq<char>, p: Seq<char>) -> bool {
    exists|i: int| 0 <= i <= s.len() - p.len() && #[trigger] s.subrange(i, i + p.len()) == p
}

/// `s.strip_prefix(p)`.
pub open spec fn strip_prefix_spec(s: Seq<char>, p: Seq<char>) -> Option<Seq<char>> {
    if has_prefix(s, p) {
        Some(s.subrange(p.len() as int, s.len() as int))
    } else {
        None
    }
}

// ── Outside calls (std) ────────────────────────────────────────────────────

/// Calls `str::to_lowercase`. Claimed: the result is the lowercase mapping
/// named by `lowercase_of`, and on ASCII input it is the ASCII lowercase
/// mapping (Unicode lowercases `A`..`Z` to `a`..`z` and leaves every other
/// ASCII character alone).
#[verifier::external_body]
pub(crate) fn to_lowercase(s: &str) -> (r: String)
    ensures
        r@ == lowercase_of(s@),
        is_ascii_seq(s@) ==> r@ == ascii_lower(s@),
{
    s.to_lowercase()
}

/// Calls `char::to_uppercase` and collects the yielded characters. Claimed:
/// the result is the uppercase mapping named by `uppercase_of`, and for an
/// ASCII character it is the single ASCII uppercase character (`a`..`z`
/// become `A`..`Z`, every other ASCII character maps to itself).
#[verifier::external_body]
pub(crate) fn char_to_uppercase(c: char) -> (r: String)
    ensures
        r@ == uppercase_of(c),
        (c as int) < 128 ==> r@ == seq![ascii_upper_char(c)],
{
    c.to_uppercase().collect()
}

/// Calls `String::push`. Claimed: the character is appended.
#[verifier::external_body]
pub(crate) fn push_char(s: &mut String, c: char)
    ensures
        final(s)@ == old(s)@.push(c),
{
    s.push(c);
}

// ── Executable helpers ─────────────────────────────────────────────────────

/// The characters of a string slice, in order.
pub fn chars_of(s: &str) -> (v: Vec<char>)
    ensures
        v@ == s@,
{
    let mut v: Vec<char> = Vec::new();
    for c in it: s.chars()
        invariant
            v@ == it.seq().take(it.index() as int),
    {
        v.push(c);
    }
    v
}

/// A `String` holding exactly the given characters.
pub fn string_of(v: &[char]) -> (s: String)
    ensures
        s@ == v@,
{
    let mut s = String::new();
    let mut i: usize = 0;
    while i < v.len()
        invariant
            i <= v.len(),
            s@ == v@.take(i as int),
        decreases v.len() - i,
    {
        push_char(&mut s, v[i]);
        assert(v@.take(i as int + 1) == v@.take(i as int).push(v@[i as int]));
        i += 1;
    }
    assert(v@.take(v.len() as int) == v@);
    s
}

/// A fresh `String` equal to the slice.
pub fn owned(t: &str) -> (s: String)
    ensures
        s@ == t@,
{
    let mut s = String::new();
    s.append(t);
    s
}

/// Appends the characters of `v` to `out`.
pub fn append_chars(out: &mut Vec<char>, v: &[char])
    ensures
        final(out)@ == old(out)@ + v@,
{
    let mut i: usize = 0;
    while i < v.len()
        invariant
            i <= v.len(),
            out@ == old(out)@ + v@.take(i as int),
        decreases v.len() - i,
    {
        out.push(v[i]);
        assert(v@.take(i as int + 1) == v@.take(i as int).push(v@[i as int]));
        i += 1;
    }
    assert(v@.take(v.len() as int) == v@);
}

/// Appends the characters of a string slice to `out`.
pub fn append_str(out: &mut Vec<char>, t: &str)
    ensures
        final(out)@ == old(out)@ + t@,
{
    let v = chars_of(t);
    append_chars(out, &v);
}

pub fn is_whitespace(c: char) -> (b: bool)
    ensures
        b == is_ws(c),
{
    ('\u{9}' <= c && c <= '\u{d}') || c == ' ' || c == '\u{85}' || c == '\u{a0}' || c
        == '\u{1680}' || ('\u{2000}' <= c && c <= '\u{200a}') || c == '\u{2028}' || c
        == '\u{2029}' || c == '\u{202f}' || c == '\u{205f}' || c == '\u{3000}'
}

proof fn lemma_trim_start_skip(s: Seq<char>, i: int)
    requires
        0 <= i <= s.len(),
        forall|k: int| 0 <= k < i ==> is_ws(#[trigger] s[k]),
    ensures
        trim_start_spec(s) == trim_start_spec(s.subrange(i, s.len() as int)),
    decreases i,
{
    if i > 0 {
        assert(is_ws(s[0]));
        let t = s.drop_first();
        assert forall|k: int| 0 <= k < i - 1 implies is_ws(#[trigger] t[k]) by {
            assert(t[k] == s[k + 1]);
        }
        lemma_trim_start_skip(t, i - 1);
        assert(t.subrange(i - 1, t.len() as int) == s.subrange(i, s.len() as int));
    } else {
        assert(s.subrange(0, s.len() as int) == s);
    }
}

proof fn lemma_trim_end_cut(s: Seq<char>, j: int)
    requires
        0 <= j <= s.len(),
        forall|k: int| j <= k < s.len() ==> is_ws(#[trigger] s[k]),
    ensures
        trim_end_spec(s) == trim_end_spec(s.subrange(0, j)),
    decreases s.len() - j,
{
    if j < s.len() {
        assert(is_ws(s.last()));
        let t = s.drop_last();
        assert forall|k: int| j <= k < t.len() implies is_ws(#[trigger] t[k]) by {
            assert(t[k] == s[k]);
        }
        lemma_trim_end_cut(t, j);
        assert(t.subrange(0, j) == s.subrange(0, j));
    } else {
        assert(s.subrange(0, j) == s);
    }
}

/// `str::trim` on a character vector.
pub fn trim_chars(v: &[char]) -> (r: Vec<char>)
    ensures
        r@ == trim_spec(v@),
{
    let n = v.len();
    let mut i: usize = 0;
    while i < n && is_whitespace(v[i])
        invariant
            i <= n,
            n == v.len(),
            forall|k: int| 0 <= k < i ==> is_ws(#[trigger] v@[k]),
        decreases n - i,
    {
        i += 1;
    }
    proof {
        lemma_trim_start_skip(v@, i as int);
    }
    let ghost rest = v@.subrange(i as int, n as int);
    assert(trim_start_spec(rest) == rest);
    let mut j: usize = n;
    while j > i && is_whitespace(v[j - 1])
        invariant
            i <= j <= n,
            n == v.len(),
            forall|k: int| j <= k < n ==> is_ws(#[trigger] v@[k]),
        decreases j,
    {
        j -= 1;
    }
    proof {
        let jj = (j - i) as int;
        assert forall|k: int| jj <= k < rest.len() implies is_ws(#[trigger] rest[k]) by {
            assert(rest[k] == v@[k + i]);
        }
        lemma_trim_end_cut(rest, jj);
        assert(rest.subrange(0, jj) == v@.subrange(i as int, j as int));
        if jj > 0 {
            assert(!is_ws(rest.subrange(0, jj).last()));
        }
    }
    let mut r: Vec<char> = Vec::new();
    let mut k: usize = i;
    while k < j
        invariant
            i <= k <= j <= n,
            n == v.len(),
            r@ == v@.subrange(i as int, k as int),
        decreases j - k,
    {
        r.push(v[k]);
        assert(v@.subrange(i as int, k + 1) == v@.subrange(i as int, k as int).push(v@[k as int]));
        k += 1;
    }
    r
}

/// `str::trim` on a string slice, as characters.
pub fn trim_str(s: &str) -> (r: Vec<char>)
    ensures
        r@ == trim_spec(s@),
{
    let v = chars_of(s);
    trim_chars(&v)
}

/// `v.subrange(from, to)` as a fresh vector.
pub fn slice_chars(v: &[char], from: usize, to: usize) -> (r: Vec<char>)
    requires
        from <= to <= v.len(),
    ensures
        r@ == v@.subrange(from as int, to as int),
{
    let mut r: Vec<char> = Vec::new();
    let mut k: usize = from;
    while k < to
        invariant
            from <= k <= to <= v.len(),
            r@ == v@.subrange(from as int, k as int),
        decreases to - k,
    {
        r.push(v[k]);
        assert(v@.subrange(from as int, k + 1) == v@.subrange(from as int, k as int).push(
            v@[k as int],
        ));
        k += 1;
    }
    r
}

/// Character-wise equality of two sequences.
pub fn chars_eq(a: &[char], b: &[char]) -> (r: bool)
    ensures
        r == (a@ == b@),
{
    if a.len() != b.len() {
        return false;
    }
    let mut i: usize = 0;
    while i < a.len()
        invariant
            i <= a.len(),
            a.len() == b.len(),
            forall|k: int| 0 <= k < i ==> a@[k] == b@[k],
        decreases a.len() - i,
    {
        if a[i] != b[i] {
            return false;
        }
        i += 1;
    }
    assert(a@ =~= b@);
    true
}

/// Equality of a character sequence and a string slice.
pub fn chars_eq_str(a: &[char], b: &str) -> (r: bool)
    ensures
        r == (a@ == b@),
{
    let bv = chars_of(b);
    chars_eq(a, &bv)
}

/// Equality of two string slices.
pub fn str_eq(a: &str, b: &str) -> (r: bool)
    ensures
        r == (a@ == b@),
{
    let av = chars_of(a);
    chars_eq_str(&av, b)
}

/// `s.starts_with(p)`.
pub fn starts_with_chars(s: &[char], p: &[char]) -> (r: bool)
    ensures
        r == has_prefix(s@, p@),
{
    if p.len() > s.len() {
        return false;
    }
    let mut i: usize = 0;
    while i < p.len()
        invariant
            i <= p.len() <= s.len(),
            forall|k: int| 0 <= k < i ==> s@[k] == p@[k],
        decreases p.len() - i,
    {
        if s[i] != p[i] {
            assert(s@.subrange(0, p.len() as int)[i as int] != p@[i as int]);
            return false;
        }
        i += 1;
    }
    assert(s@.subrange(0, p.len() as int) =~= p@);
    true
}

/// `s.starts_with(p)` for a string-slice pattern.
pub fn starts_with_str(s: &[char], p: &str) -> (r: bool)
    ensures
        r == has_prefix(s@, p@),
{
    let pv = chars_of(p);
    starts_with_chars(s, &pv)
}

/// `s.ends_with(p)`.
pub fn ends_with_chars(s: &[char], p: &[char]) -> (r: bool)
    ensures
        r == has_suffix(s@, p@),
{
    if p.len() > s.len() {
        return false;
    }
    let off = s.len() - p.len();
    let mut i: usize = 0;
    while i < p.len()
        invariant
            i <= p.len() <= s.len(),
            off == s.len() - p.len(),
            forall|k: int| 0 <= k < i ==> s@[off + k] == p@[k],
        decreases p.len() - i,
    {
        if s[off + i] != p[i] {
            assert(s@.subrange(off as int, s.len() as int)[i as int] != p@[i as int]);
            return false;
        }
        i += 1;
    }
    assert(s@.subrange(off as int, s.len() as int) =~= p@);
    true
}

/// Whether `p` occurs in `s` starting at position `i`.
fn occurs_at(s: &[char], p: &[char], i: usize) -> (r: bool)
    requires
        i + p.len() <= s.len(),
    ensures
        r == (s@.subrange(i as int, i + p.len()) == p@),
{
    let mut k: usize = 0;
    while k < p.len()
        invariant
            k <= p.len(),
            i + p.len() <= s.len(),
            forall|m: int| 0 <= m < k ==> s@[i + m] == p@[m],
        decreases p.len() - k,
    {
        if s[i + k] != p[k] {
            assert(s@.subrange(i as int, i + p.len())[k as int] != p@[k as int]);
            return false;
        }
        k += 1;
    }
    assert(s@.subrange(i as int, i + p.len()) =~= p@);
    true
}

/// `s.contains(p)`.
pub fn contains_chars(s: &[char], p: &[char]) -> (r: bool)
    ensures
        r == has_infix(s@, p@),
{
    if p.len() > s.len() {
        return false;
    }
    let last = s.len() - p.len();
    let mut i: usize = 0;
    while i <= last
        invariant
            last == s.len() - p.len(),
            p.len() <= s.len(),
            forall|m: int| 0 <= m < i && m <= last ==> #[trigger] s@.subrange(m, m + p.len()) != p@,
        decreases last + 1 - i,
    {
        if occurs_at(s, p, i) {
            return true;
        }
        if i == last {
            assert forall|m: int| 0 <= m <= s.len() - p.len() implies #[trigger] s@.subrange(
                m,
                m + p.len(),
            ) != p@ by {}
            return false;
        }
        i += 1;
    }
    false
}

/// `s.contains(c)` for a single character.
pub fn contains_char(s: &[char], c: char) -> (r: bool)
    ensures
        r == s@.contains(c),
{
    let mut i: usize = 0;
    while i < s.len()
        invariant
            i <= s.len(),
            forall|k: int| 0 <= k < i ==> s@[k] != c,
        decreases s.len() - i,
    {
        if s[i] == c {
            return true;
        }
        i += 1;
    }
    false
}

/// `str::to_ascii_lowercase`.
pub fn ascii_lowercase(s: &[char]) -> (r: Vec<char>)
    ensures
        r@ == ascii_lower(s@),
{
    let mut r: Vec<char> = Vec::new();
    let mut i: usize = 0;
    while i < s.len()
        invariant
            i <= s.len(),
            r@.len() == i,
            forall|k: int| 0 <= k < i ==> r@[k] == ascii_lower_char(s@[k]),
        decreases s.len() - i,
    {
        let c = s[i];
        if 'A' <= c && c <= 'Z' {
            let u = (c as u32 + 32) as u8;
            r.push(u as char);
        } else {
            r.push(c);
        }
        i += 1;
    }
    assert(r@ =~= ascii_lower(s@));
    r
}

/// The decimal digits of `n`, appended to `out`.
pub fn push_nat_dec(out: &mut Vec<char>, n: u64)
    ensures
        final(out)@ == old(out)@ + nat_dec(n as nat),
    decreases n,
{
    if n >= 10 {
        push_nat_dec(out, n / 10);
    }
    let d = (n % 10) as u8;
    let c = (d + 0x30u8) as char;
    assert(c == digit_char((n % 10) as int));
    out.push(c);
}

/// `Display` for `u64`, appended to `out`.
pub fn push_u64(out: &mut Vec<char>, n: u64)
    ensures
        final(out)@ == old(out)@ + int_dec(n as int),
{
    push_nat_dec(out, n);
}

/// `Display` for `i64`, appended to `out`.
pub fn push_i64(out: &mut Vec<char>, i: i64)
    ensures
        final(out)@ == old(out)@ + int_dec(i as int),
{
    if i < 0 {
        out.push('-');
        let m: u64 = if i == i64::MIN {
            9223372036854775808u64
        } else {
            (-i) as u64
        };
        push_nat_dec(out, m);
        assert(old(out)@.push('-') + nat_dec(m as nat) == old(out)@ + (seq!['-'] + nat_dec(
            m as nat,
        )));
    } else {
        push_nat_dec(out, i as u64);
    }
}

/// `u64::to_string`.
pub fn u64_to_string(n: u64) -> (s: String)
    ensures
        s@ == int_dec(n as int),
{
    let mut v: Vec<char> = Vec::new();
    push_u64(&mut v, n);
    string_of(&v)
}

/// `i64::to_string`.
pub fn i64_to_string(n: i64) -> (s: String)
    ensures
        s@ == int_dec(n as int),
{
    let mut v: Vec<char> = Vec::new();
    push_i64(&mut v, n);
    string_of(&v)
}

proof fn lemma_digits_value_nonneg(s: Seq<char>)
    requires
        all_digits(s),
    ensures
        digits_value(s) >= 0,
    decreases s.len(),
{
    if s.len() > 0 {
        assert(all_digits(s.drop_last())) by {
            assert forall|i: int| 0 <= i < s.drop_last().len() implies is_digit(
                #[trigger] s.drop_last()[i],
            ) by {
                assert(s.drop_last()[i] == s[i]);
            }
        }
        lemma_digits_value_nonneg(s.drop_last());
        assert(is_digit(s[s.len() - 1]));
    }
}

/// Parses the digits `v[from..]` as a decimal number no greater than `bound`;
/// `None` when a character is not a digit or the value exceeds `bound`.
fn parse_digits(v: &[char], from: usize, bound: u64) -> (r: Option<u64>)
    requires
        from <= v.len(),
    ensures
        ({
            let body = v@.subrange(from as int, v.len() as int);
            match r {
                Some(x) => all_digits(body) && digits_value(body) == x as int && x <= bound,
                None => !all_digits(body) || digits_value(body) > bound,
            }
        }),
{
    let ghost body = v@.subrange(from as int, v.len() as int);
    let mut acc: u64 = 0;
    let mut k: usize = from;
    while k < v.len()
        invariant
            from <= k <= v.len(),
            body == v@.subrange(from as int, v.len() as int),
            all_digits(v@.subrange(from as int, k as int)),
            digits_value(v@.subrange(from as int, k as int)) == acc as int,
            acc <= bound,
        decreases v.len() - k,
    {
        let c = v[k];
        let ghost pre = v@.subrange(from as int, k as int);
        let ghost next = v@.subrange(from as int, k + 1);
        assert(next.drop_last() == pre);
        assert(next.last() == c);
        if !('0' <= c && c <= '9') {
            assert(body[(k - from) as int] == c);
            return None;
        }
        let d = (c as u32 - 0x30) as u64;
        assert(all_digits(next)) by {
            assert forall|i: int| 0 <= i < next.len() implies is_digit(#[trigger] next[i]) by {
                if i < pre.len() {
                    assert(next[i] == pre[i]);
                }
            }
        }
        assert(digits_value(next) == 10 * acc + d);
        let nv: u128 = acc as u128 * 10 + d as u128;
        if nv > bound as u128 {
            // the value already exceeds the bound and only grows further
            proof {
                lemma_digits_value_grows(v@, from as int, k + 1);
            }
            return None;
        }
        acc = nv as u64;
        k += 1;
    }
    assert(v@.subrange(from as int, k as int) == body);
    Some(acc)
}

proof fn lemma_digits_value_grows(v: Seq<char>, from: int, k: int)
    requires
        0 <= from <= k <= v.len(),
        all_digits(v.subrange(from, k)),
    ensures
        all_digits(v.subrange(from, v.len() as int)) ==> digits_value(v.subrange(from, v.len() as int))
            >= digits_value(v.subrange(from, k)),
    decreases v.len() - k,
{
    if k < v.len() && all_digits(v.subrange(from, v.len() as int)) {
        let cur = v.subrange(from, k);
        let next = v.subrange(from, k + 1);
        assert(next.drop_last() == cur);
        assert(all_digits(next)) by {
            assert forall|i: int| 0 <= i < next.len() implies is_digit(#[trigger] next[i]) by {
                assert(next[i] == v.subrange(from, v.len() as int)[i]);
            }
        }
        assert(is_digit(next.last()));
        lemma_digits_value_nonneg(cur);
        lemma_digits_value_grows(v, from, k + 1);
    }
}


/// Sign handling shared by the integer parsers: the position where digits
/// start and whether a minus sign was consumed.
fn sign_prefix(v: &[char], signed: bool) -> (r: (usize, bool))
    ensures
        r.0 <= v.len(),
        r.1 == (v@.len() > 0 && v@[0] == '-' && signed),
        r.0 == (if v@.len() > 0 && (v@[0] == '+' || (v@[0] == '-' && signed)) {
            1usize
        } else {
            0usize
        }),
{
    if v.len() > 0 && v[0] == '+' {
        (1, false)
    } else if v.len() > 0 && v[0] == '-' && signed {
        (1, true)
    } else {
        (0, false)
    }
}

/// `str::parse::<u64>`.
pub fn parse_u64(v: &[char]) -> (r: Option<u64>)
    ensures
        match r {
            Some(x) => parse_int_spec(v@, 0, u64::MAX as int) == Some(x as int),
            None => parse_int_spec(v@, 0, u64::MAX as int) is None,
        },
{
    let (from, _neg) = sign_prefix(v, false);
    assert(v@.subrange(from as int, v.len() as int) == (if from == 1 {
        v@.drop_first()
    } else {
        v@
    }));
    if from == v.len() {
        return None;
    }
    parse_digits(v, from, u64::MAX)
}

/// `str::parse::<usize>`.
pub fn parse_usize(v: &[char]) -> (r: Option<usize>)
    ensures
        match r {
            Some(x) => parse_int_spec(v@, 0, usize::MAX as int) == Some(x as int),
            None => parse_int_spec(v@, 0, usize::MAX as int) is None,
        },
{
    let (from, _neg) = sign_prefix(v, false);
    assert(v@.subrange(from as int, v.len() as int) == (if from == 1 {
        v@.drop_first()
    } else {
        v@
    }));
    if from == v.len() {
        return None;
    }
    match parse_digits(v, from, usize::MAX as u64) {
        Some(x) => Some(x as usize),
        None => None,
    }
}

/// Signed parsing into the range `-(neg_bound)..=pos_bound`.
fn parse_signed(v: &[char], neg_bound: u64, pos_bound: u64) -> (r: Option<i128>)
    requires
        neg_bound > 0,
    ensures
        match r {
            Some(x) => parse_int_spec(v@, -(neg_bound as int), pos_bound as int) == Some(
                x as int,
            ),
            None => parse_int_spec(v@, -(neg_bound as int), pos_bound as int) is None,
        },
{
    let (from, neg) = sign_prefix(v, true);
    assert(v@.subrange(from as int, v.len() as int) == (if from == 1 {
        v@.drop_first()
    } else {
        v@
    }));
    if from == v.len() {
        return None;
    }
    if neg {
        match parse_digits(v, from, neg_bound) {
            Some(x) => Some(-(x as i128)),
            None => None,
        }
    } else {
        match parse_digits(v, from, pos_bound) {
            Some(x) => Some(x as i128),
            None => None,
        }
    }
}

/// `str::parse::<i64>`.
pub fn parse_i64(v: &[char]) -> (r: Option<i64>)
    ensures
        match r {
            Some(x) => parse_int_spec(v@, i64::MIN as int, i64::MAX as int) == Some(x as int),
            None => parse_int_spec(v@, i64::MIN as int, i64::MAX as int) is None,
        },
{
    match parse_signed(v, 9223372036854775808u64, 9223372036854775807u64) {
        Some(x) => Some(x as i64),
        None => None,
    }
}

/// `str::parse::<i32>`.
pub fn parse_i32(v: &[char]) -> (r: Option<i32>)
    ensures
        match r {
            Some(x) => parse_int_spec(v@, i32::MIN as int, i32::MAX as int) == Some(x as int),
            None => parse_int_spec(v@, i32::MIN as int, i32::MAX as int) is None,
        },
{
    match parse_signed(v, 2147483648u64, 2147483647u64) {
        Some(x) => Some(x as i32),
        None => None,
    }
}

// ── Splitting ───────────────────────────────────────────────────────────────

/// `str::split_whitespace`: the maximal runs of non-whitespace characters.
pub open spec fn split_ws_spec(s: Seq<char>) -> Seq<Seq<char>>
    decreases s.len(),
{
    if s.len() == 0 {
        Seq::empty()
    } else {
        let rest = split_ws_spec(s.drop_last());
        let c = s.last();
        if is_ws(c) {
            rest
        } else if s.len() >= 2 && !is_ws(s[s.len() - 2]) && rest.len() > 0 {
            rest.update(rest.len() - 1, rest.last().push(c))
        } else {
            rest.push(seq![c])
        }
    }
}

/// `str::split(sep)`: the pieces between separators, empty ones included.
pub open spec fn split_on_spec(s: Seq<char>, sep: char) -> Seq<Seq<char>>
    decreases s.len(),
{
    if s.len() == 0 {
        seq![Seq::empty()]
    } else {
        let rest = split_on_spec(s.drop_last(), sep);
        if s.last() == sep {
            rest.push(Seq::empty())
        } else {
            rest.update(rest.len() - 1, rest.last().push(s.last()))
        }
    }
}

pub proof fn lemma_split_on_nonempty(s: Seq<char>, sep: char)
    ensures
        split_on_spec(s, sep).len() >= 1,
    decreases s.len(),
{
    if s.len() > 0 {
        lemma_split_on_nonempty(s.drop_last(), sep);
    }
}

/// The whitespace-separated words of `v`.
pub fn split_whitespace_chars(v: &[char]) -> (r: Vec<Vec<char>>)
    ensures
        r@.map_values(|w: Vec<char>| w@) == split_ws_spec(v@),
{
    let mut words: Vec<Vec<char>> = Vec::new();
    let mut i: usize = 0;
    while i < v.len()
        invariant
            i <= v.len(),
            words@.map_values(|w: Vec<char>| w@) == split_ws_spec(v@.take(i as int)),
        decreases v.len() - i,
    {
        let ghost pre = v@.take(i as int);
        let ghost next = v@.take(i + 1);
        assert(next.drop_last() == pre);
        assert(next.last() == v@[i as int]);
        let c = v[i];
        if is_whitespace(c) {
        } else if i >= 1 && !is_whitespace(v[i - 1]) && words.len() > 0 {
            assert(next[next.len() - 2] == v@[i - 1]);
            let last = words.len() - 1;
            let mut w = words.remove(last);
            w.push(c);
            words.push(w);
            assert(words@.map_values(|w: Vec<char>| w@) =~= split_ws_spec(next));
        } else {
            if i >= 1 {
                assert(next[next.len() - 2] == v@[i - 1]);
            }
            let mut w: Vec<char> = Vec::new();
            w.push(c);
            words.push(w);
            assert(words@.map_values(|w: Vec<char>| w@) =~= split_ws_spec(next));
        }
        i += 1;
    }
    assert(v@.take(v@.len() as int) == v@);
    words
}

/// The pieces of `v` between occurrences of `sep`.
pub fn split_on_char(v: &[char], sep: char) -> (r: Vec<Vec<char>>)
    ensures
        r@.map_values(|w: Vec<char>| w@) == split_on_spec(v@, sep),
{
    let mut parts: Vec<Vec<char>> = Vec::new();
    parts.push(Vec::new());
    let mut i: usize = 0;
    assert(parts@.map_values(|w: Vec<char>| w@) =~= split_on_spec(v@.take(0), sep));
    while i < v.len()
        invariant
            i <= v.len(),
            parts@.map_values(|w: Vec<char>| w@) == split_on_spec(v@.take(i as int), sep),
        decreases v.len() - i,
    {
        let ghost pre = v@.take(i as int);
        let ghost next = v@.take(i + 1);
        assert(next.drop_last() == pre);
        assert(next.last() == v@[i as int]);
        proof {
            lemma_split_on_nonempty(pre, sep);
        }
        let c = v[i];
        if c == sep {
            parts.push(Vec::new());
        } else {
            let last = parts.len() - 1;
            let mut w = parts.remove(last);
            w.push(c);
            parts.push(w);
        }
        assert(parts@.map_values(|w: Vec<char>| w@) =~= split_on_spec(next, sep));
        i += 1;
    }
    assert(v@.take(v@.len() as int) == v@);
    parts
}

/// `join(sep)` of a list of strings.
pub open spec fn join_spec(parts: Seq<Seq<char>>, sep: Seq<char>) -> Seq<char>
    decreases parts.len(),
{
    if parts.len() == 0 {
        Seq::empty()
    } else if parts.len() == 1 {
        parts[0]
    } else {
        join_spec(parts.drop_last(), sep) + sep + parts.last()
    }
}

pub open spec fn strings_view(v: Seq<String>) -> Seq<Seq<char>> {
    v.map_values(|s: String| s@)
}

/// The strings joined by `sep`.
pub fn join_strings(parts: &[String], sep: &str) -> (r: String)
    ensures
        r@ == join_spec(strings_view(parts@), sep@),
{
    let mut v: Vec<char> = Vec::new();
    let mut i: usize = 0;
    while i < parts.len()
        invariant
            i <= parts.len(),
            v@ == join_spec(strings_view(parts@.take(i as int)), sep@),
        decreases parts.len() - i,
    {
        let ghost pre = strings_view(parts@.take(i as int));
        let ghost next = strings_view(parts@.take(i + 1));
        assert(next.drop_last() == pre);
        assert(next.last() == parts@[i as int]@);
        if i > 0 {
            append_str(&mut v, sep);
        }
        append_str(&mut v, parts[i].as_str());
        i += 1;
    }
    assert(parts@.take(parts@.len() as int) == parts@);
    string_of(&v)
}

// ── Facts about decimal text and splitting ────────────────────────────────

/// The decimal digits of a natural number are at least one digit and read
/// back as the number.
pub proof fn lemma_nat_dec_value(n: nat)
    ensures
        nat_dec(n).len() >= 1,
        all_digits(nat_dec(n)),
        digits_value(nat_dec(n)) == n,
    decreases n,
{
    if n < 10 {
        let c = digit_char(n as int);
        assert(c as int == n + 48);
        assert(nat_dec(n) == seq![c]);
        assert(seq![c].drop_last() =~= Seq::<char>::empty());
        assert(seq![c].last() == c);
        assert(digits_value(seq![c]) == 10 * digits_value(Seq::<char>::empty()) + digit_value(c));
    } else {
        lemma_nat_dec_value(n / 10);
        let s = nat_dec(n);
        let d = (n % 10) as int;
        let c = digit_char(d);
        assert(c as int == d + 48);
        assert(s == nat_dec(n / 10).push(c));
        assert(s.drop_last() == nat_dec(n / 10));
        assert forall|i: int| 0 <= i < s.len() implies is_digit(#[trigger] s[i]) by {
            if i < s.len() - 1 {
                assert(s[i] == nat_dec(n / 10)[i]);
            }
        }
        assert(s.last() == c);
        assert(digit_value(c) == d);
        assert(digits_value(s) == 10 * digits_value(nat_dec(n / 10)) + d);
        assert(n == 10 * (n / 10) + n % 10) by (nonlinear_arith);
    }
}

/// `FromStr` reads back what `Display` prints, for every value in range.
pub proof fn lemma_parse_int_dec(n: int, lo: int, hi: int)
    requires
        lo <= n <= hi,
    ensures
        parse_int_spec(int_dec(n), lo, hi) == Some(n),
{
    if n >= 0 {
        lemma_nat_dec_value(n as nat);
        let s = nat_dec(n as nat);
        assert(is_digit(s[0]));
    } else {
        lemma_nat_dec_value((-n) as nat);
        let s = int_dec(n);
        assert(s[0] == '-');
        assert(s.drop_first() =~= nat_dec((-n) as nat));
    }
}

/// Decimal text holds no character but digits and a leading minus.
pub proof fn lemma_int_dec_chars(n: int, c: char)
    requires
        c != '-',
        !is_digit(c),
    ensures
        !int_dec(n).contains(c),
{
    if n >= 0 {
        lemma_nat_dec_value(n as nat);
        assert(!nat_dec(n as nat).contains(c));
    } else {
        lemma_nat_dec_value((-n) as nat);
        let s = int_dec(n);
        if s.contains(c) {
            let k = choose|k: int| 0 <= k < s.len() && s[k] == c;
            assert(k > 0);
            assert(s[k] == nat_dec((-n) as nat)[k - 1]);
        }
    }
}

/// A text without the separator is a single piece.
pub proof fn lemma_split_on_no_sep(x: Seq<char>, sep: char)
    requires
        !x.contains(sep),
    ensures
        split_on_spec(x, sep) == seq![x],
    decreases x.len(),
{
    if x.len() == 0 {
        assert(x =~= Seq::<char>::empty());
    } else {
        assert(!x.drop_last().contains(sep)) by {
            if x.drop_last().contains(sep) {
                let k = choose|k: int| 0 <= k < x.drop_last().len() && x.drop_last()[k] == sep;
                assert(x[k] == sep);
            }
        }
        lemma_split_on_no_sep(x.drop_last(), sep);
        assert(x.last() != sep) by {
            assert(x[x.len() - 1] == x.last());
        }
        assert(x.drop_last().push(x.last()) =~= x);
        let rest = split_on_spec(x.drop_last(), sep);
        assert(rest == seq![x.drop_last()]);
        assert(rest.last() == x.drop_last());
        assert(split_on_spec(x, sep) == rest.update(rest.len() - 1, rest.last().push(x.last())));
        assert(split_on_spec(x, sep) =~= seq![x]);
    }
}

/// Splitting `x:rest` where `x` holds no separator gives `x`, then the
/// pieces of `rest`.
pub proof fn lemma_split_on_concat(x: Seq<char>, y: Seq<char>, sep: char)
    requires
        !x.contains(sep),
    ensures
        split_on_spec(x + seq![sep] + y, sep) == seq![x] + split_on_spec(y, sep),
    decreases y.len(),
{
    let whole = x + seq![sep] + y;
    if y.len() == 0 {
        lemma_split_on_no_sep(x, sep);
        assert(whole.drop_last() =~= x);
        assert(whole.last() == sep);
        assert(split_on_spec(whole, sep) =~= seq![x] + split_on_spec(y, sep));
    } else {
        lemma_split_on_concat(x, y.drop_last(), sep);
        lemma_split_on_nonempty(y.drop_last(), sep);
        assert(whole.drop_last() =~= x + seq![sep] + y.drop_last());
        assert(whole.last() == y.last());
        let rest = split_on_spec(y.drop_last(), sep);
        if y.last() == sep {
            assert(split_on_spec(whole, sep) =~= seq![x] + split_on_spec(y, sep));
        } else {
            assert((seq![x] + rest).update(rest.len() as int, rest.last().push(y.last())) =~= seq![x]
                + rest.update(rest.len() - 1, rest.last().push(y.last())));
            assert(split_on_spec(whole, sep) =~= seq![x] + split_on_spec(y, sep));
        }
    }
}

} // verus!
