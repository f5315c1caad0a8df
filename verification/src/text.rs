//! Character-level helpers shared by the parsers: whitespace, trimming,
//! integer parsing and decimal formatting, all over `Seq<char>` models.
use vstd::prelude::*;

verus! {

broadcast use vstd::string::group_string_axioms;

// ---------------------------------------------------------------------
// Building strings
// ---------------------------------------------------------------------

/// `String::push` from std: appends one character to the end of the string.
#[verifier::external_body]
pub(crate) fn push_char(s: &mut String, c: char)
    ensures
        final(s)@ == old(s)@.push(c),
{
    s.push(c);
}

/// The characters of `s`, one per element.
pub fn chars_of(s: &str) -> (v: Vec<char>)
    ensures
        v@ == s@,
{
    let mut v: Vec<char> = Vec::new();
    for c in it: s.chars()
        invariant
            v@ == it.seq().take(it.index() as int),
            it.seq() == s@,
    {
        v.push(c);
    }
    v
}

/// Appends `v[lo..hi]` to `s`.
pub fn push_range(s: &mut String, v: &Vec<char>, lo: usize, hi: usize)
    requires
        lo <= hi <= v@.len(),
    ensures
        final(s)@ == old(s)@ + v@.subrange(lo as int, hi as int),
{
    let mut i = lo;
    while i < hi
        invariant
            lo <= i <= hi <= v@.len(),
            s@ == old(s)@ + v@.subrange(lo as int, i as int),
        decreases hi - i,
    {
        push_char(s, v[i]);
        assert(v@.subrange(lo as int, i + 1) == v@.subrange(lo as int, i as int).push(v@[i as int]));
        i = i + 1;
    }
}

/// A new string holding `v[lo..hi]`.
pub fn string_of(v: &Vec<char>, lo: usize, hi: usize) -> (s: String)
    requires
        lo <= hi <= v@.len(),
    ensures
        s@ == v@.subrange(lo as int, hi as int),
{
    let mut s = String::new();
    push_range(&mut s, v, lo, hi);
    s
}

/// A new string holding exactly the characters of `v`.
pub fn string_from_slice(v: &[char]) -> (s: String)
    ensures
        s@ == v@,
{
    let mut s = String::new();
    let mut i: usize = 0;
    while i < v.len()
        invariant
            0 <= i <= v@.len(),
            s@ == v@.take(i as int),
        decreases v.len() - i,
    {
        push_char(&mut s, v[i]);
        assert(v@.take(i + 1) == v@.take(i as int).push(v@[i as int]));
        i = i + 1;
    }
    assert(v@.take(v@.len() as int) == v@);
    s
}

/// `std::str::from_utf8`: a string slice over `bytes` when they are valid
/// UTF-8, as the std documentation states; `None` otherwise.
#[verifier::external_body]
pub(crate) fn str_from_utf8(bytes: &[u8]) -> (r: Option<&str>)
    ensures
        r is Some <==> vstd::utf8::valid_utf8(bytes@),
        r matches Some(s) ==> vstd::utf8::encode_utf8(s@) == bytes@,
{
    std::str::from_utf8(bytes).ok()
}

/// Appends all of `v` to `s`.
pub fn push_all(s: &mut String, v: &Vec<char>)
    ensures
        final(s)@ == old(s)@ + v@,
{
    push_range(s, v, 0, v.len());
    assert(v@.subrange(0, v@.len() as int) == v@);
}

/// A new string holding exactly the characters of `v`.
pub fn string_from_chars(v: &Vec<char>) -> (s: String)
    ensures
        s@ == v@,
{
    let mut s = String::new();
    push_all(&mut s, v);
    s
}

/// A copy of `s` as an owned string.
pub fn owned(s: &str) -> (r: String)
    ensures
        r@ == s@,
{
    let v = chars_of(s);
    string_from_chars(&v)
}

/// `true` iff the two character sequences are equal.
pub fn chars_eq(a: &Vec<char>, b: &Vec<char>) -> (r: bool)
    ensures
        r == (a@ == b@),
{
    if a.len() != b.len() {
        return false;
    }
    let mut i: usize = 0;
    while i < a.len()
        invariant
            a@.len() == b@.len(),
            0 <= i <= a@.len(),
            forall|k: int| 0 <= k < i ==> a@[k] == b@[k],
        decreases a.len() - i,
    {
        if a[i] != b[i] {
            return false;
        }
        i = i + 1;
    }
    assert(a@ =~= b@);
    true
}

/// `true` iff `s` is equal to `t`, both read as characters.
pub fn str_eq(s: &str, t: &str) -> (r: bool)
    ensures
        r == (s@ == t@),
{
    let a = chars_of(s);
    let b = chars_of(t);
    chars_eq(&a, &b)
}

/// `true` iff `v[lo..]` begins with `p`.
pub fn has_prefix_at(v: &Vec<char>, lo: usize, p: &[char]) -> (r: bool)
    requires
        lo <= v@.len(),
    ensures
        r == (lo + p@.len() <= v@.len() && v@.subrange(lo as int, lo + p@.len()) == p@),
{
    if p.len() > v.len() - lo {
        return false;
    }
    let mut k: usize = 0;
    while k < p.len()
        invariant
            lo + p@.len() <= v@.len(),
            v@.len() <= usize::MAX,
            0 <= k <= p@.len(),
            forall|j: int| 0 <= j < k ==> v@[lo + j] == p@[j],
        decreases p.len() - k,
    {
        if v[lo + k] != p[k] {
            assert(v@.subrange(lo as int, lo + p@.len())[k as int] != p@[k as int]);
            return false;
        }
        k = k + 1;
    }
    assert(v@.subrange(lo as int, lo + p@.len()) =~= p@);
    true
}

// ---------------------------------------------------------------------
// Whitespace and trimming
// ---------------------------------------------------------------------

/// The Unicode `White_Space` property, which is what `char::is_whitespace`
/// tests.
pub open spec fn is_ws(c: char) -> bool {
    ||| c == ' '
    ||| ('\u{9}' <= c && c <= '\u{d}')
    ||| c == '\u{85}'
    ||| c == '\u{a0}'
    ||| c == '\u{1680}'
    ||| ('\u{2000}' <= c && c <= '\u{200a}')
    ||| c == '\u{2028}'
    ||| c == '\u{2029}'
    ||| c == '\u{202f}'
    ||| c == '\u{205f}'
    ||| c == '\u{3000}'
}

/// Executable `is_ws`.
pub fn is_whitespace(c: char) -> (r: bool)
    ensures
        r == is_ws(c),
{
    c == ' ' || ('\u{9}' <= c && c <= '\u{d}') || c == '\u{85}' || c == '\u{a0}' || c == '\u{1680}'
        || ('\u{2000}' <= c && c <= '\u{200a}') || c == '\u{2028}' || c == '\u{2029}' || c
        == '\u{202f}' || c == '\u{205f}' || c == '\u{3000}'
}

/// The first index at or after `i` that does not hold whitespace (or the
/// length, when there is none).
pub open spec fn skip_ws(s: Seq<char>, i: int) -> int
    decreases s.len() - i,
{
    if 0 <= i < s.len() && is_ws(s[i]) {
        skip_ws(s, i + 1)
    } else {
        i
    }
}

/// The smallest `k <= j` such that `s[k..j]` is all whitespace.
pub open spec fn skip_ws_back(s: Seq<char>, j: int) -> int
    decreases j,
{
    if 0 < j <= s.len() && is_ws(s[j - 1]) {
        skip_ws_back(s, j - 1)
    } else {
        j
    }
}

/// `str::trim`: `s` without leading and trailing whitespace.
pub open spec fn trim(s: Seq<char>) -> Seq<char> {
    let a = skip_ws(s, 0);
    let b = skip_ws_back(s, s.len() as int);
    if a < b {
        s.subrange(a, b)
    } else {
        Seq::empty()
    }
}

proof fn lemma_skip_ws_bounds(s: Seq<char>, i: int)
    requires
        0 <= i <= s.len(),
    ensures
        i <= skip_ws(s, i) <= s.len(),
        skip_ws(s, i) < s.len() ==> !is_ws(s[skip_ws(s, i)]),
        forall|k: int| i <= k < skip_ws(s, i) ==> is_ws(#[trigger] s[k]),
    decreases s.len() - i,
{
    if i < s.len() && is_ws(s[i]) {
        lemma_skip_ws_bounds(s, i + 1);
    }
}

proof fn lemma_skip_ws_back_bounds(s: Seq<char>, j: int)
    requires
        0 <= j <= s.len(),
    ensures
        0 <= skip_ws_back(s, j) <= j,
        skip_ws_back(s, j) > 0 ==> !is_ws(s[skip_ws_back(s, j) - 1]),
        forall|k: int| skip_ws_back(s, j) <= k < j ==> is_ws(#[trigger] s[k]),
    decreases j,
{
    if 0 < j && is_ws(s[j - 1]) {
        lemma_skip_ws_back_bounds(s, j - 1);
    }
}

/// Trimming a trimmed text changes nothing.
pub proof fn lemma_trim_idempotent(s: Seq<char>)
    ensures
        trim(trim(s)) == trim(s),
{
    lemma_skip_ws_bounds(s, 0);
    lemma_skip_ws_back_bounds(s, s.len() as int);
    let t = trim(s);
    if t.len() > 0 {
        let a = skip_ws(s, 0);
        let b = skip_ws_back(s, s.len() as int);
        assert(t[0] == s[a]);
        assert(t[t.len() - 1] == s[b - 1]);
        assert(skip_ws(t, 0) == 0);
        assert(skip_ws_back(t, t.len() as int) == t.len());
        assert(t.subrange(0, t.len() as int) =~= t);
    }
}

/// The bounds of `trim(v[lo..hi])` inside `v`.
pub fn trim_range(v: &Vec<char>, lo: usize, hi: usize) -> (r: (usize, usize))
    requires
        lo <= hi <= v@.len(),
    ensures
        lo <= r.0 <= r.1 <= hi,
        v@.subrange(r.0 as int, r.1 as int) == trim(v@.subrange(lo as int, hi as int)),
{
    let ghost s = v@.subrange(lo as int, hi as int);
    let mut i = lo;
    while i < hi && is_whitespace(v[i])
        invariant
            lo <= i <= hi <= v@.len(),
            s == v@.subrange(lo as int, hi as int),
            skip_ws(s, 0) == skip_ws(s, i - lo),
        decreases hi - i,
    {
        i = i + 1;
    }
    proof {
        lemma_skip_ws_bounds(s, 0);
    }
    if i == hi {
        proof {
            lemma_skip_ws_back_bounds(s, s.len() as int);
            assert(v@.subrange(i as int, i as int) =~= Seq::<char>::empty());
        }
        return (i, i);
    }
    let mut j = hi;
    while is_whitespace(v[j - 1])
        invariant
            lo <= i < j <= hi <= v@.len(),
            s == v@.subrange(lo as int, hi as int),
            !is_ws(v@[i as int]),
            skip_ws_back(s, s.len() as int) == skip_ws_back(s, j - lo),
        decreases j,
    {
        j = j - 1;
    }
    proof {
        lemma_skip_ws_back_bounds(s, s.len() as int);
        assert(v@.subrange(i as int, j as int) =~= s.subrange(i - lo, j - lo));
    }
    (i, j)
}

/// A new string holding `trim(v[lo..hi])`.
pub fn trimmed_string(v: &Vec<char>, lo: usize, hi: usize) -> (s: String)
    requires
        lo <= hi <= v@.len(),
    ensures
        s@ == trim(v@.subrange(lo as int, hi as int)),
{
    let (a, b) = trim_range(v, lo, hi);
    string_of(v, a, b)
}

/// `trim(s)` as an owned string.
pub fn trim_str(s: &str) -> (r: String)
    ensures
        r@ == trim(s@),
{
    let v = chars_of(s);
    let r = trimmed_string(&v, 0, v.len());
    assert(v@.subrange(0, v@.len() as int) == v@);
    r
}

// ---------------------------------------------------------------------
// ASCII case
// ---------------------------------------------------------------------

/// `char::to_ascii_lowercase`.
pub open spec fn ascii_lower(c: char) -> char {
    if 'A' <= c && c <= 'Z' {
        ((c as u32) + 32) as char
    } else {
        c
    }
}

/// Executable `ascii_lower`.
pub fn to_ascii_lower(c: char) -> (r: char)
    ensures
        r == ascii_lower(c),
{
    if 'A' <= c && c <= 'Z' {
        ((c as u8) + 32) as char
    } else {
        c
    }
}

/// `s` with every ASCII capital letter lowered.
pub open spec fn lower_ascii_seq(s: Seq<char>) -> Seq<char> {
    s.map_values(|c: char| ascii_lower(c))
}

/// What `str::to_lowercase` gives for a text (full Unicode lowercasing).
pub uninterp spec fn lowercase(s: Seq<char>) -> Seq<char>;

/// `str::to_lowercase` from std. The contract claims that the result is a
/// function of the text, and that on ASCII text it lowers the ASCII
/// capital letters and keeps every other character.
#[verifier::external_body]
pub(crate) fn to_lowercase(s: &str) -> (r: String)
    ensures
        r@ == lowercase(s@),
        (forall|i: int| 0 <= i < s@.len() ==> (#[trigger] s@[i] as u32) < 128) ==> r@
            == lower_ascii_seq(s@),
{
    s.to_lowercase()
}

/// `true` iff `t` occurs in `s` at position `i`.
pub open spec fn occurs_at(s: Seq<char>, t: Seq<char>, i: int) -> bool {
    0 <= i && i + t.len() <= s.len() && s.subrange(i, i + t.len()) == t
}

/// `str::contains`: `t` occurs somewhere in `s`.
pub open spec fn contains_seq(s: Seq<char>, t: Seq<char>) -> bool {
    exists|i: int| occurs_at(s, t, i)
}

/// `str::contains` on character vectors.
pub fn contains_chars(s: &Vec<char>, t: &[char]) -> (r: bool)
    ensures
        r == contains_seq(s@, t@),
{
    let mut i: usize = 0;
    while i < s.len()
        invariant
            0 <= i <= s@.len(),
            forall|k: int| 0 <= k < i ==> !occurs_at(s@, t@, k),
        decreases s.len() - i,
    {
        if has_prefix_at(s, i, t) {
            assert(occurs_at(s@, t@, i as int));
            return true;
        }
        i = i + 1;
    }
    if t.len() == 0 {
        assert(occurs_at(s@, t@, s@.len() as int)) by {
            assert(s@.subrange(s@.len() as int, s@.len() as int) =~= t@);
        }
        return true;
    }
    assert(forall|k: int| !occurs_at(s@, t@, k));
    false
}

/// `str::ends_with`.
pub open spec fn ends_with_seq(s: Seq<char>, t: Seq<char>) -> bool {
    t.len() <= s.len() && s.subrange(s.len() - t.len(), s.len() as int) == t
}

/// `str::ends_with` on character vectors.
pub fn ends_with_chars(s: &Vec<char>, t: &[char]) -> (r: bool)
    ensures
        r == ends_with_seq(s@, t@),
{
    if t.len() > s.len() {
        return false;
    }
    has_prefix_at(s, s.len() - t.len(), t)
}

/// `str::eq_ignore_ascii_case`: equal once both are ASCII-lowercased.
pub fn eq_ignore_ascii_case(a: &str, b: &str) -> (r: bool)
    ensures
        r == (lower_ascii_seq(a@) == lower_ascii_seq(b@)),
{
    let x = chars_of(a);
    let y = chars_of(b);
    if x.len() != y.len() {
        assert(lower_ascii_seq(a@).len() != lower_ascii_seq(b@).len());
        return false;
    }
    let mut i: usize = 0;
    while i < x.len()
        invariant
            x@ == a@,
            y@ == b@,
            x@.len() == y@.len(),
            0 <= i <= x@.len(),
            forall|k: int| 0 <= k < i ==> lower_ascii_seq(a@)[k] == lower_ascii_seq(b@)[k],
        decreases x.len() - i,
    {
        if to_ascii_lower(x[i]) != to_ascii_lower(y[i]) {
            assert(lower_ascii_seq(a@)[i as int] != lower_ascii_seq(b@)[i as int]);
            return false;
        }
        i = i + 1;
    }
    assert(lower_ascii_seq(a@) =~= lower_ascii_seq(b@));
    true
}

// ---------------------------------------------------------------------
// Integers
// ---------------------------------------------------------------------

/// An ASCII decimal digit.
pub open spec fn is_digit(c: char) -> bool {
    '0' <= c && c <= '9'
}

/// Every character is an ASCII decimal digit.
pub open spec fn all_digits(s: Seq<char>) -> bool {
    forall|i: int| 0 <= i < s.len() ==> is_digit(#[trigger] s[i])
}

/// The value of a run of decimal digits.
pub open spec fn digits_value(s: Seq<char>) -> nat
    decreases s.len(),
{
    if s.len() == 0 {
        0
    } else {
        digits_value(s.drop_last()) * 10 + ((s.last() as nat) - ('0' as nat)) as nat
    }
}

/// The optional sign of a decimal literal: `(negative, digits)`. `signed`
/// says whether a leading `-` is accepted as a sign.
pub open spec fn split_sign(s: Seq<char>, signed: bool) -> (bool, Seq<char>) {
    if s.len() > 0 && s[0] == '+' {
        (false, s.drop_first())
    } else if signed && s.len() > 0 && s[0] == '-' {
        (true, s.drop_first())
    } else {
        (false, s)
    }
}

/// The integer a decimal literal denotes, as `str::parse` reads one:
/// an optional sign (`-` only when `signed`), then one or more ASCII digits.
pub open spec fn decimal_value(s: Seq<char>, signed: bool) -> Option<int> {
    let (neg, ds) = split_sign(s, signed);
    if ds.len() == 0 || !all_digits(ds) {
        None
    } else if neg {
        Some(-(digits_value(ds) as int))
    } else {
        Some(digits_value(ds) as int)
    }
}

/// `str::parse::<i64>`.
pub open spec fn parse_i64_spec(s: Seq<char>) -> Option<i64> {
    match decimal_value(s, true) {
        Some(v) => if i64::MIN <= v <= i64::MAX {
            Some(v as i64)
        } else {
            None
        },
        None => None,
    }
}

/// `str::parse::<u16>`.
pub open spec fn parse_u16_spec(s: Seq<char>) -> Option<u16> {
    match decimal_value(s, false) {
        Some(v) => if v <= u16::MAX {
            Some(v as u16)
        } else {
            None
        },
        None => None,
    }
}

proof fn lemma_digits_value_mono(s: Seq<char>, i: int, j: int)
    requires
        0 <= i <= j <= s.len(),
        all_digits(s),
    ensures
        digits_value(s.take(i)) <= digits_value(s.take(j)),
    decreases j,
{
    if i < j {
        lemma_digits_value_mono(s, i, j - 1);
        assert(s.take(j).drop_last() =~= s.take(j - 1));
        assert(is_digit(s[j - 1]));
    }
}

/// Reads `v[lo..hi]` as a signed or unsigned decimal literal whose
/// magnitude is at most `bound`; `None` when it is not such a literal or
/// is larger.
fn parse_decimal(v: &Vec<char>, lo: usize, hi: usize, signed: bool, bound: u64) -> (r: Option<(
    bool,
    u64,
)>)
    requires
        lo <= hi <= v@.len(),
    ensures
        ({
            let (neg, ds) = split_sign(v@.subrange(lo as int, hi as int), signed);
            match r {
                Some((n, m)) => ds.len() > 0 && all_digits(ds) && n == neg && m == digits_value(ds)
                    && m <= bound,
                None => ds.len() == 0 || !all_digits(ds) || digits_value(ds) > bound,
            }
        }),
{
    let ghost s = v@.subrange(lo as int, hi as int);
    let mut start = lo;
    let mut neg = false;
    if lo < hi && v[lo] == '+' {
        start = lo + 1;
    } else if signed && lo < hi && v[lo] == '-' {
        start = lo + 1;
        neg = true;
    }
    let ghost ds = split_sign(s, signed).1;
    assert(ds =~= v@.subrange(start as int, hi as int));
    if start == hi {
        return None;
    }
    let mut acc: u128 = 0;
    let mut i = start;
    while i < hi
        invariant
            lo <= start <= i <= hi <= v@.len(),
            ds == v@.subrange(start as int, hi as int),
            ds == split_sign(v@.subrange(lo as int, hi as int), signed).1,
            neg == split_sign(v@.subrange(lo as int, hi as int), signed).0,
            forall|k: int| 0 <= k < i - start ==> is_digit(#[trigger] ds[k]),
            acc == digits_value(ds.take(i - start)),
            acc <= bound,
        decreases hi - i,
    {
        let c = v[i];
        if !('0' <= c && c <= '9') {
            assert(!is_digit(ds[i - start]));
            return None;
        }
        let d = ((c as u32) - ('0' as u32)) as u128;
        assert(ds.take(i - start + 1).drop_last() =~= ds.take(i - start));
        acc = acc * 10 + d;
        i = i + 1;
        if acc > bound as u128 {
            proof {
                if all_digits(ds) {
                    lemma_digits_value_mono(ds, i - start, ds.len() as int);
                    assert(ds.take(ds.len() as int) =~= ds);
                }
            }
            return None;
        }
    }
    assert(ds.take(ds.len() as int) =~= ds);
    Some((neg, acc as u64))
}

/// `str::parse::<i64>` on `v[lo..hi]`.
pub fn parse_i64_range(v: &Vec<char>, lo: usize, hi: usize) -> (r: Option<i64>)
    requires
        lo <= hi <= v@.len(),
    ensures
        r == parse_i64_spec(v@.subrange(lo as int, hi as int)),
{
    match parse_decimal(v, lo, hi, true, 9223372036854775808) {
        Some((neg, m)) => {
            if neg {
                if m == 9223372036854775808 {
                    Some(i64::MIN)
                } else {
                    Some(-(m as i64))
                }
            } else if m <= 9223372036854775807 {
                Some(m as i64)
            } else {
                None
            }
        },
        None => None,
    }
}

/// `str::parse::<i64>`.
pub fn parse_i64(s: &str) -> (r: Option<i64>)
    ensures
        r == parse_i64_spec(s@),
{
    let v = chars_of(s);
    assert(v@.subrange(0, v@.len() as int) == v@);
    parse_i64_range(&v, 0, v.len())
}

/// `str::parse::<u16>`.
pub fn parse_u16(s: &str) -> (r: Option<u16>)
    ensures
        r == parse_u16_spec(s@),
{
    let v = chars_of(s);
    assert(v@.subrange(0, v@.len() as int) == v@);
    match parse_decimal(&v, 0, v.len(), false, 65535) {
        Some((_, m)) => Some(m as u16),
        None => None,
    }
}

/// The decimal digit for `d < 10`.
pub open spec fn digit_char(d: nat) -> char {
    (('0' as nat) + d) as char
}

/// The shortest decimal spelling of `n` (what `Display` prints).
pub open spec fn nat_decimal(n: nat) -> Seq<char>
    decreases n,
{
    if n < 10 {
        seq![digit_char(n)]
    } else {
        nat_decimal(n / 10).push(digit_char(n % 10))
    }
}

/// The decimal spelling of `n`, with a leading `-` when negative.
pub open spec fn int_decimal(n: int) -> Seq<char> {
    if n < 0 {
        seq!['-'] + nat_decimal((-n) as nat)
    } else {
        nat_decimal(n as nat)
    }
}

/// The decimal spelling of `n` is a run of digits worth `n`.
pub proof fn lemma_nat_decimal_value(n: nat)
    ensures
        nat_decimal(n).len() > 0,
        all_digits(nat_decimal(n)),
        digits_value(nat_decimal(n)) == n,
    decreases n,
{
    if n >= 10 {
        lemma_nat_decimal_value(n / 10);
        let s = nat_decimal(n);
        assert(s.drop_last() =~= nat_decimal(n / 10));
        assert(s.last() == digit_char(n % 10));
        assert((digit_char(n % 10) as nat) == 48 + n % 10);
        assert(n == (n / 10) * 10 + n % 10);
        assert forall|i: int| 0 <= i < s.len() implies is_digit(#[trigger] s[i]) by {
            if i < s.len() - 1 {
                assert(s[i] == nat_decimal(n / 10)[i]);
            }
        }
    } else {
        assert(nat_decimal(n).drop_last() =~= Seq::<char>::empty());
        assert((digit_char(n) as nat) == 48 + n);
        assert(digits_value(Seq::<char>::empty()) == 0);
    }
}

/// Reading back the decimal spelling of a `u16` gives the same number.
pub proof fn lemma_parse_u16_decimal(p: u16)
    ensures
        parse_u16_spec(nat_decimal(p as nat)) == Some(p),
{
    lemma_nat_decimal_value(p as nat);
    let s = nat_decimal(p as nat);
    assert(is_digit(s[0]));
    assert(split_sign(s, false) == (false, s));
}

/// Reading back the decimal spelling of an `i64` gives the same number.
pub proof fn lemma_parse_i64_decimal(v: i64)
    ensures
        parse_i64_spec(int_decimal(v as int)) == Some(v),
{
    if v < 0 {
        let m = (-v) as nat;
        lemma_nat_decimal_value(m);
        let s = int_decimal(v as int);
        assert(s[0] == '-');
        assert(s.drop_first() =~= nat_decimal(m));
        assert(split_sign(s, true) == (true, nat_decimal(m)));
    } else {
        lemma_nat_decimal_value(v as nat);
        let s = nat_decimal(v as nat);
        assert(is_digit(s[0]));
        assert(split_sign(s, true) == (false, s));
    }
}

/// Appends the decimal spelling of `n`.
pub fn push_u64(s: &mut String, n: u64)
    ensures
        final(s)@ == old(s)@ + nat_decimal(n as nat),
    decreases n,
{
    if n >= 10 {
        push_u64(s, n / 10);
    }
    let d = (n % 10) as u32;
    let c = (('0' as u32) + d) as u8 as char;
    push_char(s, c);
}

/// Appends the decimal spelling of `n`.
pub fn push_i64(s: &mut String, n: i64)
    ensures
        final(s)@ == old(s)@ + int_decimal(n as int),
{
    if n < 0 {
        push_char(s, '-');
        let m: u64 = if n == i64::MIN {
            9223372036854775808
        } else {
            (-n) as u64
        };
        push_u64(s, m);
    } else {
        push_u64(s, n as u64);
    }
}

} // verus!
