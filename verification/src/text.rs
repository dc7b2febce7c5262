//! Character-level helpers shared by the parsers and formatters: whitespace,
//! trimming, prefixes, searching and decimal rendering, each with the
//! specification that the rest of the library states its contracts in.

use vstd::prelude::*;

verus! {

/// Unicode `White_Space`, the set that `char::is_whitespace` tests.
pub open spec fn is_ws(c: char) -> bool {
    let u = c as u32;
    ||| 0x09 <= u <= 0x0D
    ||| u == 0x20
    ||| u == 0x85
    ||| u == 0xA0
    ||| u == 0x1680
    ||| 0x2000 <= u <= 0x200A
    ||| u == 0x2028
    ||| u == 0x2029
    ||| u == 0x202F
    ||| u == 0x205F
    ||| u == 0x3000
}

pub fn is_whitespace(c: char) -> (r: bool)
    ensures r == is_ws(c),
{
    let u = c as u32;
    (0x09 <= u && u <= 0x0D) || u == 0x20 || u == 0x85 || u == 0xA0 || u == 0x1680
        || (0x2000 <= u && u <= 0x200A) || u == 0x2028 || u == 0x2029 || u == 0x202F
        || u == 0x205F || u == 0x3000
}

/// Number of leading whitespace characters.
pub open spec fn leading_ws(s: Seq<char>) -> nat
    decreases s.len(),
{
    if s.len() > 0 && is_ws(s[0]) { 1 + leading_ws(s.drop_first()) } else { 0 }
}

/// Number of trailing whitespace characters.
pub open spec fn trailing_ws(s: Seq<char>) -> nat
    decreases s.len(),
{
    if s.len() > 0 && is_ws(s.last()) { 1 + trailing_ws(s.drop_last()) } else { 0 }
}

/// `str::trim_start`.
pub open spec fn trim_start(s: Seq<char>) -> Seq<char> {
    s.skip(leading_ws(s) as int)
}

/// `str::trim_end`.
pub open spec fn trim_end(s: Seq<char>) -> Seq<char> {
    s.take(s.len() - trailing_ws(s))
}

/// `str::trim`.
pub open spec fn trim(s: Seq<char>) -> Seq<char> {
    trim_end(trim_start(s))
}

pub proof fn lemma_leading_ws(s: Seq<char>, i: int)
    requires
        0 <= i <= s.len(),
        forall|j: int| 0 <= j < i ==> is_ws(#[trigger] s[j]),
        i == s.len() || !is_ws(s[i]),
    ensures
        leading_ws(s) == i,
    decreases i,
{
    if i > 0 {
        assert forall|j: int| 0 <= j < i - 1 implies is_ws(#[trigger] s.drop_first()[j]) by {
            assert(s.drop_first()[j] == s[j + 1]);
        }
        lemma_leading_ws(s.drop_first(), i - 1);
    }
}

pub proof fn lemma_trailing_ws(s: Seq<char>, i: int)
    requires
        0 <= i <= s.len(),
        forall|j: int| s.len() - i <= j < s.len() ==> is_ws(#[trigger] s[j]),
        i == s.len() || !is_ws(s[s.len() - i - 1]),
    ensures
        trailing_ws(s) == i,
    decreases i,
{
    if i > 0 {
        let t = s.drop_last();
        assert forall|j: int| t.len() - (i - 1) <= j < t.len() implies is_ws(#[trigger] t[j]) by {
            assert(t[j] == s[j]);
        }
        lemma_trailing_ws(t, i - 1);
    }
}

pub proof fn lemma_leading_ws_bound(s: Seq<char>)
    ensures leading_ws(s) <= s.len(),
    decreases s.len(),
{
    if s.len() > 0 && is_ws(s[0]) {
        lemma_leading_ws_bound(s.drop_first());
    }
}

pub proof fn lemma_trailing_ws_bound(s: Seq<char>)
    ensures trailing_ws(s) <= s.len(),
    decreases s.len(),
{
    if s.len() > 0 && is_ws(s.last()) {
        lemma_trailing_ws_bound(s.drop_last());
    }
}

/// Index of the first character that is not whitespace (or the length).
pub fn trim_start_index(s: &[char]) -> (r: usize)
    ensures
        r == leading_ws(s@),
        r <= s@.len(),
{
    let mut i: usize = 0;
    while i < s.len() && is_whitespace(s[i])
        invariant
            0 <= i <= s@.len(),
            forall|j: int| 0 <= j < i ==> is_ws(#[trigger] s@[j]),
        decreases s.len() - i,
    {
        i = i + 1;
    }
    proof { lemma_leading_ws(s@, i as int); }
    i
}

/// Index just past the last character that is not whitespace (or 0).
pub fn trim_end_index(s: &[char]) -> (r: usize)
    ensures
        r == s@.len() - trailing_ws(s@),
        r <= s@.len(),
{
    let mut i: usize = s.len();
    while i > 0 && is_whitespace(s[i - 1])
        invariant
            0 <= i <= s@.len(),
            forall|j: int| i <= j < s@.len() ==> is_ws(#[trigger] s@[j]),
        decreases i,
    {
        i = i - 1;
    }
    proof {
        lemma_trailing_ws(s@, s@.len() - i);
    }
    i
}

/// `s.trim()` as characters.
pub fn trim_chars(s: &[char]) -> (r: Vec<char>)
    ensures r@ == trim(s@),
{
    let a = trim_start_index(s);
    let rest = slice_to_vec(s, a, s.len());
    let b = trim_end_index(rest.as_slice());
    assert(rest@ == trim_start(s@));
    slice_to_vec(rest.as_slice(), 0, b)
}

/// `s.trim_start()` as characters.
pub fn trim_start_chars(s: &[char]) -> (r: Vec<char>)
    ensures r@ == trim_start(s@),
{
    let a = trim_start_index(s);
    slice_to_vec(s, a, s.len())
}

/// `s.trim_end()` as characters.
pub fn trim_end_chars(s: &[char]) -> (r: Vec<char>)
    ensures r@ == trim_end(s@),
{
    let b = trim_end_index(s);
    slice_to_vec(s, 0, b)
}

/// A copy of `s[a..b]`.
pub fn slice_to_vec<T: Copy>(s: &[T], a: usize, b: usize) -> (r: Vec<T>)
    requires a <= b <= s@.len(),
    ensures r@ == s@.subrange(a as int, b as int),
{
    let mut r: Vec<T> = Vec::new();
    let mut i = a;
    while i < b
        invariant
            a <= i <= b <= s@.len(),
            r@ == s@.subrange(a as int, i as int),
        decreases b - i,
    {
        r.push(s[i]);
        i = i + 1;
    }
    r
}

/// Appends `s[a..b]` to `out`.
pub fn extend_from<T: Copy>(out: &mut Vec<T>, s: &[T], a: usize, b: usize)
    requires a <= b <= s@.len(),
    ensures final(out)@ == old(out)@ + s@.subrange(a as int, b as int),
{
    let mut i = a;
    while i < b
        invariant
            a <= i <= b <= s@.len(),
            out@ == old(out)@ + s@.subrange(a as int, i as int),
        decreases b - i,
    {
        out.push(s[i]);
        i = i + 1;
    }
}

/// Appends all of `s` to `out`.
pub fn extend_all<T: Copy>(out: &mut Vec<T>, s: &[T])
    ensures final(out)@ == old(out)@ + s@,
{
    extend_from(out, s, 0, s.len());
    assert(s@.subrange(0, s@.len() as int) == s@);
}

/// `s` starts with `p`.
pub open spec fn seq_starts_with<T>(s: Seq<T>, p: Seq<T>) -> bool {
    p.len() <= s.len() && s.take(p.len() as int) == p
}

/// `s` ends with `p`.
pub open spec fn seq_ends_with<T>(s: Seq<T>, p: Seq<T>) -> bool {
    p.len() <= s.len() && s.skip(s.len() - p.len()) == p
}

/// `p` occurs in `s` at index `i`.
pub open spec fn occurs_at<T>(s: Seq<T>, p: Seq<T>, i: int) -> bool {
    0 <= i && i + p.len() <= s.len() && s.subrange(i, i + p.len()) == p
}

/// `p` occurs somewhere in `s`.
pub open spec fn seq_contains_seq<T>(s: Seq<T>, p: Seq<T>) -> bool {
    exists|i: int| occurs_at(s, p, i)
}

/// `s` has `p` at position `at` (characters).
pub fn has_at(s: &[char], at: usize, p: &[char]) -> (r: bool)
    ensures r == occurs_at(s@, p@, at as int),
{
    if at > s.len() || p.len() > s.len() - at {
        return false;
    }
    let mut k: usize = 0;
    while k < p.len()
        invariant
            at + p@.len() <= s@.len(),
            at + p.len() <= s.len(),
            0 <= k <= p@.len(),
            forall|j: int| 0 <= j < k ==> s@[at + j] == p@[j],
        decreases p.len() - k,
    {
        if s[at + k] != p[k] {
            assert(s@.subrange(at as int, at + p@.len())[k as int] != p@[k as int]);
            return false;
        }
        k = k + 1;
    }
    assert(s@.subrange(at as int, at + p@.len()) =~= p@);
    true
}

/// `s` has `p` at position `at` (bytes).
pub fn has_at_bytes(s: &[u8], at: usize, p: &[u8]) -> (r: bool)
    ensures r == occurs_at(s@, p@, at as int),
{
    if at > s.len() || p.len() > s.len() - at {
        return false;
    }
    let mut k: usize = 0;
    while k < p.len()
        invariant
            at + p@.len() <= s@.len(),
            at + p.len() <= s.len(),
            0 <= k <= p@.len(),
            forall|j: int| 0 <= j < k ==> s@[at + j] == p@[j],
        decreases p.len() - k,
    {
        if s[at + k] != p[k] {
            assert(s@.subrange(at as int, at + p@.len())[k as int] != p@[k as int]);
            return false;
        }
        k = k + 1;
    }
    assert(s@.subrange(at as int, at + p@.len()) =~= p@);
    true
}

/// `s` starts with `p`.
pub fn starts_with(s: &[char], p: &[char]) -> (r: bool)
    ensures r == seq_starts_with(s@, p@),
{
    let r = has_at(s, 0, p);
    proof {
        if p@.len() <= s@.len() {
            assert(s@.subrange(0, p@.len() as int) == s@.take(p@.len() as int));
        }
    }
    r
}

/// `s` ends with `p`.
pub fn ends_with(s: &[char], p: &[char]) -> (r: bool)
    ensures r == seq_ends_with(s@, p@),
{
    if p.len() > s.len() {
        return false;
    }
    let r = has_at(s, s.len() - p.len(), p);
    proof {
        assert(s@.subrange(s@.len() - p@.len(), s@.len() as int) == s@.skip(s@.len() - p@.len()));
    }
    r
}

/// Index of the first occurrence of `c` in `s[from..]`.
pub fn find_char(s: &[char], from: usize, c: char) -> (r: Option<usize>)
    requires from <= s@.len(),
    ensures
        match r {
            Some(i) => from <= i < s@.len() && s@[i as int] == c
                && forall|j: int| from <= j < i ==> s@[j] != c,
            None => forall|j: int| from <= j < s@.len() ==> s@[j] != c,
        },
{
    let mut i = from;
    while i < s.len()
        invariant
            from <= i <= s@.len(),
            forall|j: int| from <= j < i ==> s@[j] != c,
        decreases s.len() - i,
    {
        if s[i] == c {
            return Some(i);
        }
        i = i + 1;
    }
    None
}

/// Index of the first occurrence of `p` in `s` at or after `from`.
pub fn find_seq(s: &[char], from: usize, p: &[char]) -> (r: Option<usize>)
    requires from <= s@.len(),
    ensures
        match r {
            Some(i) => from <= i && occurs_at(s@, p@, i as int)
                && forall|j: int| from <= j < i ==> !occurs_at(s@, p@, j),
            None => forall|j: int| from <= j ==> !occurs_at(s@, p@, j),
        },
{
    let mut i = from;
    while i <= s.len()
        invariant
            from <= i,
            forall|j: int| from <= j < i ==> !occurs_at(s@, p@, j),
        decreases s.len() + 1 - i,
    {
        if has_at(s, i, p) {
            return Some(i);
        }
        if i == s.len() {
            assert forall|j: int| from <= j implies !occurs_at(s@, p@, j) by {
                if j > i {
                    assert(!(j + p@.len() <= s@.len()));
                }
            }
            return None;
        }
        i = i + 1;
    }
    None
}

/// `p` occurs in `s`.
pub fn contains_seq(s: &[char], p: &[char]) -> (r: bool)
    ensures r == seq_contains_seq(s@, p@),
{
    match find_seq(s, 0, p) {
        Some(_) => true,
        None => {
            assert forall|j: int| !occurs_at(s@, p@, j) by {
                if j < 0 {} 
            }
            false
        }
    }
}

/// `c` occurs in `s`.
pub fn contains_char(s: &[char], c: char) -> (r: bool)
    ensures r == s@.contains(c),
{
    match find_char(s, 0, c) {
        Some(i) => {
            assert(s@[i as int] == c);
            true
        }
        None => false,
    }
}

/// The characters of a string.
pub fn chars_of(s: &str) -> (v: Vec<char>)
    ensures v@ == s@,
{
    let mut v: Vec<char> = Vec::new();
    for c in it: s.chars()
        invariant
            v@ == it.seq().take(it.index() as int),
    {
        v.push(c);
    }
    v
}

/// A string made of the given characters (`Iterator::collect` into `String`).
#[verifier::external_body]
pub(crate) fn string_from_chars(v: &[char]) -> (s: String)
    ensures s@ == v@,
{
    v.iter().collect()
}

/// The digit character for `d < 10`.
pub open spec fn digit_char(d: nat) -> char {
    if d == 0 { '0' } else if d == 1 { '1' } else if d == 2 { '2' } else if d == 3 { '3' }
    else if d == 4 { '4' } else if d == 5 { '5' } else if d == 6 { '6' } else if d == 7 { '7' }
    else if d == 8 { '8' } else { '9' }
}

/// Decimal rendering of a natural number, as `Display` writes it.
pub open spec fn decimal(n: nat) -> Seq<char>
    decreases n,
{
    if n < 10 { seq![digit_char(n)] } else { decimal(n / 10).push(digit_char(n % 10)) }
}

/// Decimal rendering of an integer, with a leading `-` when negative.
pub open spec fn signed_decimal(n: int) -> Seq<char> {
    if n < 0 { seq!['-'] + decimal((-n) as nat) } else { decimal(n as nat) }
}

fn digit(d: u64) -> (c: char)
    requires d < 10,
    ensures c == digit_char(d as nat),
{
    if d == 0 { '0' } else if d == 1 { '1' } else if d == 2 { '2' } else if d == 3 { '3' }
    else if d == 4 { '4' } else if d == 5 { '5' } else if d == 6 { '6' } else if d == 7 { '7' }
    else if d == 8 { '8' } else { '9' }
}

/// Decimal digits of `n`.
pub fn decimal_chars(n: u64) -> (r: Vec<char>)
    ensures r@ == decimal(n as nat),
    decreases n,
{
    if n < 10 {
        let mut v = Vec::new();
        v.push(digit(n));
        v
    } else {
        let mut v = decimal_chars(n / 10);
        v.push(digit(n % 10));
        v
    }
}

/// Decimal digits of `n` with a leading `-` when negative.
pub fn signed_decimal_chars(n: i64) -> (r: Vec<char>)
    ensures r@ == signed_decimal(n as int),
{
    if n < 0 {
        let m: u64 = if n == i64::MIN { 9223372036854775808u64 } else { (-n) as u64 };
        let d = decimal_chars(m);
        let mut v = Vec::new();
        v.push('-');
        extend_all(&mut v, d.as_slice());
        v
    } else {
        decimal_chars(n as u64)
    }
}

pub proof fn lemma_decimal_len(n: nat)
    ensures decimal(n).len() >= 1,
    decreases n,
{
    if n >= 10 {
        lemma_decimal_len(n / 10);
    }
}

/// The value of a decimal digit character.
pub open spec fn digit_value(c: char) -> nat {
    (c as u32 - 0x30) as nat
}

pub open spec fn is_digit(c: char) -> bool {
    '0' <= c <= '9'
}

/// The value of a run of decimal digits.
pub open spec fn digits_value(d: Seq<char>) -> nat
    decreases d.len(),
{
    if d.len() == 0 { 0 } else { digits_value(d.drop_last()) * 10 + digit_value(d.last()) }
}

/// The digits of an unsigned number's text: without one leading `+`.
pub open spec fn unsigned_digits(s: Seq<char>) -> Seq<char> {
    if s.len() > 0 && s[0] == '+' { s.drop_first() } else { s }
}

pub open spec fn all_digits(d: Seq<char>) -> bool {
    forall|k: int| 0 <= k < d.len() ==> is_digit(#[trigger] d[k])
}

/// What `str::parse` gives for an unsigned integer, before the range check:
/// an optional `+`, then one or more decimal digits.
pub open spec fn parse_unsigned(s: Seq<char>) -> Option<nat> {
    let d = unsigned_digits(s);
    if d.len() > 0 && all_digits(d) {
        Some(digits_value(d))
    } else {
        None
    }
}

/// `str::parse` into an unsigned integer type whose largest value is `max`.
pub open spec fn parse_unsigned_upto(s: Seq<char>, max: nat) -> Option<nat> {
    match parse_unsigned(s) {
        Some(v) => if v <= max { Some(v) } else { None },
        None => None,
    }
}

/// Parses an unsigned decimal number no larger than `max`.
pub fn parse_unsigned_chars(s: &[char], max: u64) -> (r: Option<u64>)
    ensures
        match parse_unsigned_upto(s@, max as nat) {
            Some(v) => r == Some(v as u64),
            None => r is None,
        },
{
    let ghost d = unsigned_digits(s@);
    let a: usize = if s.len() > 0 && s[0] == '+' { 1 } else { 0 };
    assert(d =~= s@.subrange(a as int, s@.len() as int));
    if a == s.len() {
        return None;
    }
    let mut v: u64 = 0;
    let mut big = false;
    let mut k = a;
    while k < s.len()
        invariant
            a <= k <= s@.len(),
            d == unsigned_digits(s@),
            d =~= s@.subrange(a as int, s@.len() as int),
            forall|q: int| a <= q < k ==> is_digit(#[trigger] s@[q]),
            !big ==> v as nat == digits_value(s@.subrange(a as int, k as int)) && v <= max,
            big ==> digits_value(s@.subrange(a as int, k as int)) > max,
        decreases s.len() - k,
    {
        let c = s[k];
        if !('0' <= c && c <= '9') {
            proof {
                assert(d[k - a] == c);
            }
            return None;
        }
        let dv: u64 = (c as u32 - 0x30) as u64;
        proof {
            let s2 = s@.subrange(a as int, k + 1);
            assert(s2.drop_last() =~= s@.subrange(a as int, k as int));
            assert(s2.last() == c);
            assert(digits_value(s2) == digits_value(s@.subrange(a as int, k as int)) * 10 + dv);
        }
        if big {
            assert(digits_value(s@.subrange(a as int, k as int)) * 10 + dv > max) by (nonlinear_arith)
                requires digits_value(s@.subrange(a as int, k as int)) > max, dv >= 0;
        } else {
            if dv > max {
                big = true;
                assert(digits_value(s@.subrange(a as int, k as int)) * 10 + dv > max) by (nonlinear_arith)
                    requires dv > max, digits_value(s@.subrange(a as int, k as int)) >= 0;
            } else if v > (max - dv) / 10 {
                big = true;
                assert(v * 10 + dv > max) by (nonlinear_arith)
                    requires v > (max - dv) / 10, dv <= max, dv < 10;
            } else {
                assert(v * 10 + dv <= max) by (nonlinear_arith)
                    requires v <= (max - dv) / 10, dv <= max;
                v = v * 10 + dv;
            }
        }
        k = k + 1;
    }
    proof {
        assert(s@.subrange(a as int, s@.len() as int) =~= d);
        assert forall|q: int| 0 <= q < d.len() implies is_digit(#[trigger] d[q]) by {
            assert(d[q] == s@[a + q]);
        }
    }
    if big { None } else { Some(v) }
}

/// `char::to_ascii_lowercase`.
pub open spec fn ascii_lower(c: char) -> char {
    if 'A' <= c <= 'Z' { ((c as u32) + 32) as char } else { c }
}

pub fn to_ascii_lower(c: char) -> (r: char)
    ensures r == ascii_lower(c),
{
    if 'A' <= c && c <= 'Z' {
        let u: u8 = (c as u32 + 32) as u8;
        u as char
    } else {
        c
    }
}

/// `a` and `b` agree up to ASCII case (`str::eq_ignore_ascii_case`).
pub open spec fn ascii_ci_eq(a: Seq<char>, b: Seq<char>) -> bool {
    a.len() == b.len() && forall|i: int| 0 <= i < a.len() ==> ascii_lower(#[trigger] a[i]) == ascii_lower(b[i])
}

pub fn eq_ignore_ascii_case(a: &[char], b: &[char]) -> (r: bool)
    ensures r == ascii_ci_eq(a@, b@),
{
    if a.len() != b.len() {
        return false;
    }
    let mut i: usize = 0;
    while i < a.len()
        invariant
            a@.len() == b@.len(),
            i <= a@.len(),
            forall|j: int| 0 <= j < i ==> ascii_lower(#[trigger] a@[j]) == ascii_lower(b@[j]),
        decreases a.len() - i,
    {
        if to_ascii_lower(a[i]) != to_ascii_lower(b[i]) {
            return false;
        }
        i = i + 1;
    }
    true
}

/// The words of `s` from `i`, as `str::split_whitespace` yields them: `cur`
/// is the word being read and `acc` the words already complete.
pub open spec fn words_from(s: Seq<char>, i: int, cur: Seq<char>, acc: Seq<Seq<char>>) -> Seq<Seq<char>>
    decreases s.len() - i,
{
    if i < 0 || i >= s.len() {
        if cur.len() > 0 { acc.push(cur) } else { acc }
    } else if is_ws(s[i]) {
        words_from(s, i + 1, seq![], if cur.len() > 0 { acc.push(cur) } else { acc })
    } else {
        words_from(s, i + 1, cur.push(s[i]), acc)
    }
}

/// `str::split_whitespace`.
pub open spec fn split_ws(s: Seq<char>) -> Seq<Seq<char>> {
    words_from(s, 0, seq![], seq![])
}

pub open spec fn words_view(v: Seq<Vec<char>>) -> Seq<Seq<char>> {
    v.map_values(|w: Vec<char>| w@)
}

/// The whitespace-separated words of `s`.
pub fn split_whitespace(s: &[char]) -> (r: Vec<Vec<char>>)
    ensures words_view(r@) == split_ws(s@),
{
    let mut acc: Vec<Vec<char>> = Vec::new();
    let mut cur: Vec<char> = Vec::new();
    let mut i: usize = 0;
    assert(words_view(acc@) =~= Seq::<Seq<char>>::empty());
    assert(cur@ =~= Seq::<char>::empty());
    while i < s.len()
        invariant
            i <= s@.len(),
            words_from(s@, i as int, cur@, words_view(acc@)) == split_ws(s@),
        decreases s.len() - i,
    {
        if is_whitespace(s[i]) {
            if cur.len() > 0 {
                let w = cur;
                proof { assert(words_view(acc@.push(w)) =~= words_view(acc@).push(w@)); }
                acc.push(w);
                cur = Vec::new();
                assert(cur@ =~= Seq::<char>::empty());
            } else {
                assert(cur@ =~= Seq::<char>::empty());
            }
        } else {
            cur.push(s[i]);
        }
        i = i + 1;
    }
    if cur.len() > 0 {
        proof { assert(words_view(acc@.push(cur)) =~= words_view(acc@).push(cur@)); }
        acc.push(cur);
    }
    acc
}

/// Why a text is not an unsigned integer (`std::num::IntErrorKind`).
#[derive(Debug, Clone, Copy, PartialEq, Eq, Structural)]
pub enum IntErrorKind {
    Empty,
    InvalidDigit,
    PosOverflow,
}

/// Reads digits from `i` onto `acc`, left to right, failing at the first
/// character that is not a digit or the first digit that takes the value
/// past `max`.
pub open spec fn int_scan(d: Seq<char>, i: int, acc: nat, max: nat) -> Result<nat, IntErrorKind>
    decreases d.len() - i,
{
    if i < 0 || i >= d.len() {
        Ok(acc)
    } else if !is_digit(d[i]) {
        Err(IntErrorKind::InvalidDigit)
    } else if acc * 10 + digit_value(d[i]) > max {
        Err(IntErrorKind::PosOverflow)
    } else {
        int_scan(d, i + 1, acc * 10 + digit_value(d[i]), max)
    }
}

/// `str::parse` into an unsigned integer type whose largest value is `max`,
/// with the kind of error it reports.
pub open spec fn spec_parse_int(s: Seq<char>, max: nat) -> Result<nat, IntErrorKind> {
    if s.len() == 0 {
        Err(IntErrorKind::Empty)
    } else if s.len() == 1 && (s[0] == '+' || s[0] == '-') {
        Err(IntErrorKind::InvalidDigit)
    } else if s[0] == '+' {
        int_scan(s.drop_first(), 0, 0, max)
    } else {
        int_scan(s, 0, 0, max)
    }
}

pub proof fn lemma_int_scan_bound(d: Seq<char>, i: int, acc: nat, max: nat)
    requires acc <= max,
    ensures int_scan(d, i, acc, max) matches Ok(v) ==> v <= max,
    decreases d.len() - i,
{
    if 0 <= i < d.len() && is_digit(d[i]) && acc * 10 + digit_value(d[i]) <= max {
        lemma_int_scan_bound(d, i + 1, acc * 10 + digit_value(d[i]), max);
    }
}

/// The text a parse error displays.
pub open spec fn int_error_text(k: IntErrorKind) -> Seq<char> {
    match k {
        IntErrorKind::Empty => "cannot parse integer from empty string"@,
        IntErrorKind::InvalidDigit => "invalid digit found in string"@,
        IntErrorKind::PosOverflow => "number too large to fit in target type"@,
    }
}

pub fn int_error_message(k: IntErrorKind) -> (r: &'static str)
    ensures r@ == int_error_text(k),
{
    match k {
        IntErrorKind::Empty => "cannot parse integer from empty string",
        IntErrorKind::InvalidDigit => "invalid digit found in string",
        IntErrorKind::PosOverflow => "number too large to fit in target type",
    }
}

/// Parses an unsigned integer no larger than `max`, or tells why it cannot.
pub fn parse_int(s: &[char], max: u64) -> (r: Result<u64, IntErrorKind>)
    ensures
        match spec_parse_int(s@, max as nat) {
            Ok(v) => r == Ok::<u64, IntErrorKind>(v as u64),
            Err(k) => r == Err::<u64, IntErrorKind>(k),
        },
        spec_parse_int(s@, max as nat) matches Ok(v) ==> v <= max,
{
    proof {
        lemma_int_scan_bound(s@, 0, 0, max as nat);
        lemma_int_scan_bound(s@.drop_first(), 0, 0, max as nat);
    }
    if s.len() == 0 {
        return Err(IntErrorKind::Empty);
    }
    if s.len() == 1 && (s[0] == '+' || s[0] == '-') {
        return Err(IntErrorKind::InvalidDigit);
    }
    let a: usize = if s[0] == '+' { 1 } else { 0 };
    let ghost d = if s@[0] == '+' { s@.drop_first() } else { s@ };
    let mut acc: u64 = 0;
    let mut k = a;
    assert(d =~= s@.subrange(a as int, s@.len() as int));
    assert(spec_parse_int(s@, max as nat) == int_scan(d, 0, 0, max as nat));
    while k < s.len()
        invariant
            a <= k <= s@.len(),
            d =~= s@.subrange(a as int, s@.len() as int),
            spec_parse_int(s@, max as nat) == int_scan(d, 0, 0, max as nat),
            acc <= max,
            int_scan(d, k - a, acc as nat, max as nat) == int_scan(d, 0, 0, max as nat),
        decreases s.len() - k,
    {
        let c = s[k];
        assert(d[k - a] == c);
        if !('0' <= c && c <= '9') {
            return Err(IntErrorKind::InvalidDigit);
        }
        let dv: u64 = (c as u32 - 0x30) as u64;
        if dv > max || acc > (max - dv) / 10 {
            assert(acc * 10 + dv > max) by (nonlinear_arith)
                requires dv > max || acc > (max - dv) / 10, dv < 10;
            return Err(IntErrorKind::PosOverflow);
        }
        assert(acc * 10 + dv <= max) by (nonlinear_arith)
            requires acc <= (max - dv) / 10, dv <= max;
        acc = acc * 10 + dv;
        k = k + 1;
    }
    Ok(acc)
}

/// UTF-8 length of a character.
pub open spec fn char_utf8_len(c: char) -> nat {
    let u = c as u32;
    if u < 0x80 { 1 } else if u < 0x800 { 2 } else if u < 0x10000 { 3 } else { 4 }
}

pub open spec fn utf8_len(s: Seq<char>) -> nat
    decreases s.len(),
{
    if s.len() == 0 { 0 } else { char_utf8_len(s[0]) + utf8_len(s.drop_first()) }
}

/// UTF-8 length of a character.
pub fn char_len(c: char) -> (r: usize)
    ensures r as nat == char_utf8_len(c),
{
    let u = c as u32;
    if u < 0x80 { 1 } else if u < 0x800 { 2 } else if u < 0x10000 { 3 } else { 4 }
}

pub proof fn lemma_utf8_len_split(s: Seq<char>, i: int)
    requires 0 <= i < s.len(),
    ensures utf8_len(s.take(i + 1)) == utf8_len(s.take(i)) + char_utf8_len(s[i]),
    decreases i,
{
    if i > 0 {
        lemma_utf8_len_split(s.drop_first(), i - 1);
        assert(s.take(i + 1).drop_first() =~= s.drop_first().take(i));
        assert(s.take(i).drop_first() =~= s.drop_first().take(i - 1));
        assert(s.take(i + 1)[0] == s[0]);
        assert(s.take(i)[0] == s[0]);
        assert(s.drop_first()[i - 1] == s[i]);
    } else {
        assert(s.take(1).drop_first() =~= Seq::<char>::empty());
        assert(s.take(1)[0] == s[0]);
        assert(s.take(0) =~= Seq::<char>::empty());
    }
}

pub proof fn lemma_utf8_len_append(a: Seq<char>, b: Seq<char>)
    ensures utf8_len(a + b) == utf8_len(a) + utf8_len(b),
    decreases a.len(),
{
    if a.len() > 0 {
        assert((a + b).drop_first() =~= a.drop_first() + b);
        lemma_utf8_len_append(a.drop_first(), b);
    } else {
        assert(a + b =~= b);
    }
}

/// The UTF-8 encoding of a text has `utf8_len` bytes.
pub proof fn lemma_encode_len(s: Seq<char>)
    ensures vstd::utf8::encode_utf8(s).len() == utf8_len(s),
    decreases s.len(),
{
    if s.len() > 0 {
        vstd::utf8::char_is_scalar(s[0]);
        lemma_encode_len(s.drop_first());
    }
}

/// The UTF-8 length of a text.
pub fn utf8_length(s: &[char]) -> (r: usize)
    ensures r as nat == utf8_len(s@),
{
    let t = string_from_chars(s);
    proof { lemma_encode_len(s@); }
    let b = t.as_str().as_bytes();
    b.len()
}

/// A prefix is no longer in UTF-8 than the text.
pub proof fn lemma_utf8_len_take(s: Seq<char>, k: int)
    requires 0 <= k <= s.len(),
    ensures utf8_len(s.take(k)) <= utf8_len(s),
{
    lemma_utf8_len_append(s.take(k), s.skip(k));
    assert(s.take(k) + s.skip(k) =~= s);
}

/// The pieces of `s` from `i` on, split at `c`: `cur` is the piece being
/// read and `acc` the pieces already complete.
pub open spec fn split_from(s: Seq<char>, c: char, i: int, cur: Seq<char>, acc: Seq<Seq<char>>) -> Seq<Seq<char>>
    decreases s.len() - i,
{
    if i < 0 || i >= s.len() {
        acc.push(cur)
    } else if s[i] == c {
        split_from(s, c, i + 1, seq![], acc.push(cur))
    } else {
        split_from(s, c, i + 1, cur.push(s[i]), acc)
    }
}

pub open spec fn split_char(s: Seq<char>, c: char) -> Seq<Seq<char>> {
    split_from(s, c, 0, seq![], seq![])
}

pub open spec fn vstrs(v: Seq<Vec<char>>) -> Seq<Seq<char>> {
    v.map_values(|s: Vec<char>| s@)
}

/// The pieces of `s` between occurrences of `c` (`str::split`).
pub fn split_on(s: &[char], c: char) -> (r: Vec<Vec<char>>)
    ensures vstrs(r@) == split_char(s@, c),
{
    let mut acc: Vec<Vec<char>> = Vec::new();
    let mut cur: Vec<char> = Vec::new();
    let mut i: usize = 0;
    assert(vstrs(acc@) =~= Seq::<Seq<char>>::empty());
    assert(cur@ =~= Seq::<char>::empty());
    while i < s.len()
        invariant
            i <= s@.len(),
            split_from(s@, c, i as int, cur@, vstrs(acc@)) == split_char(s@, c),
        decreases s.len() - i,
    {
        if s[i] == c {
            let w = cur;
            proof { assert(vstrs(acc@.push(w)) =~= vstrs(acc@).push(w@)); }
            acc.push(w);
            cur = Vec::new();
            assert(cur@ =~= Seq::<char>::empty());
        } else {
            cur.push(s[i]);
        }
        i = i + 1;
    }
    proof { assert(vstrs(acc@.push(cur)) =~= vstrs(acc@).push(cur@)); }
    acc.push(cur);
    acc
}

} // verus!
