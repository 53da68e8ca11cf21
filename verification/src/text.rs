//! Characters and strings: trimming, ASCII case, searching, numbers.
//!
//! Every function states its result over the sequence of characters that a string views as.

use vstd::prelude::*;

use crate::models::texts;

verus! {

/// `String::push`: appends one character at the end.
pub assume_specification[ String::push ](s: &mut String, c: char)
    ensures
        final(s)@ == old(s)@.push(c),
;

/// The Unicode White_Space property.
pub open spec fn is_space(c: char) -> bool {
    ||| 0x09 <= c as u32 <= 0x0d
    ||| c as u32 == 0x20
    ||| c as u32 == 0x85
    ||| c as u32 == 0xa0
    ||| c as u32 == 0x1680
    ||| 0x2000 <= c as u32 <= 0x200a
    ||| c as u32 == 0x2028
    ||| c as u32 == 0x2029
    ||| c as u32 == 0x202f
    ||| c as u32 == 0x205f
    ||| c as u32 == 0x3000
}

pub fn is_space_char(c: char) -> (r: bool)
    ensures
        r == is_space(c),
{
    let u: u32 = c as u32;
    (0x09 <= u && u <= 0x0d) || u == 0x20 || u == 0x85 || u == 0xa0 || u == 0x1680 || (0x2000 <= u
        && u <= 0x200a) || u == 0x2028 || u == 0x2029 || u == 0x202f || u == 0x205f || u == 0x3000
}

/// The characters of `s` without the white space in front.
pub open spec fn trim_front(s: Seq<char>) -> Seq<char>
    decreases s.len(),
{
    if s.len() > 0 && is_space(s[0]) {
        trim_front(s.drop_first())
    } else {
        s
    }
}

/// The characters of `s` without the white space at the end.
pub open spec fn trim_back(s: Seq<char>) -> Seq<char>
    decreases s.len(),
{
    if s.len() > 0 && is_space(s.last()) {
        trim_back(s.drop_last())
    } else {
        s
    }
}

/// The characters of `s` without the white space at both ends.
pub open spec fn trimmed(s: Seq<char>) -> Seq<char> {
    trim_back(trim_front(s))
}

/// The ASCII lower-case form of a character; every other character is its own.
pub open spec fn lower_char(c: char) -> char {
    if 'A' <= c && c <= 'Z' {
        ((c as u32) + 32) as char
    } else {
        c
    }
}

pub open spec fn lower(s: Seq<char>) -> Seq<char> {
    s.map_values(|c: char| lower_char(c))
}

pub fn lower_ascii_char(c: char) -> (r: char)
    ensures
        r == lower_char(c),
{
    if 'A' <= c && c <= 'Z' {
        let u: u8 = c as u8;
        (u + 32) as char
    } else {
        c
    }
}

/// The characters of a string, in order.
pub fn chars_of(s: &str) -> (v: Vec<char>)
    ensures
        v@ == s@,
{
    let mut v: Vec<char> = Vec::new();
    for c in iter: s.chars()
        invariant
            v@ == iter.seq().take(iter.index()),
            iter.seq() == s@,
    {
        v.push(c);
    }
    v
}

/// The string that consists of `chars`.
pub fn string_of(chars: &[char]) -> (s: String)
    ensures
        s@ == chars@,
{
    let mut s = String::new();
    let mut i: usize = 0;
    while i < chars.len()
        invariant
            i <= chars.len(),
            s@ == chars@.take(i as int),
        decreases chars.len() - i,
    {
        s.push(chars[i]);
        i += 1;
    }
    assert(chars@.take(i as int) =~= chars@);
    s
}

pub fn same_chars(a: &[char], b: &[char]) -> (r: bool)
    ensures
        r == (a@ == b@),
{
    if a.len() != b.len() {
        return false;
    }
    let mut i: usize = 0;
    while i < a.len()
        invariant
            i <= a.len(),
            a.len() == b.len(),
            forall|j: int| 0 <= j < i ==> a@[j] == b@[j],
        decreases a.len() - i,
    {
        if a[i] != b[i] {
            return false;
        }
        i += 1;
    }
    assert(a@ =~= b@);
    true
}

/// String equality, character by character.
pub fn same(a: &str, b: &str) -> (r: bool)
    ensures
        r == (a@ == b@),
{
    let left = chars_of(a);
    let right = chars_of(b);
    same_chars(left.as_slice(), right.as_slice())
}

pub proof fn lemma_trim_front_skip(s: Seq<char>, i: int)
    requires
        0 <= i <= s.len(),
        forall|j: int| 0 <= j < i ==> is_space(s[j]),
    ensures
        trim_front(s) == trim_front(s.skip(i)),
    decreases i,
{
    if i == 0 {
        assert(s.skip(0) =~= s);
    } else {
        lemma_trim_front_skip(s.drop_first(), i - 1);
        assert(s.drop_first().skip(i - 1) =~= s.skip(i));
    }
}

pub proof fn lemma_trim_back_take(s: Seq<char>, i: int)
    requires
        0 <= i <= s.len(),
        forall|j: int| i <= j < s.len() ==> is_space(s[j]),
    ensures
        trim_back(s) == trim_back(s.take(i)),
    decreases s.len() - i,
{
    if i == s.len() {
        assert(s.take(i) =~= s);
    } else {
        lemma_trim_back_take(s.drop_last(), i);
        assert(s.drop_last().take(i) =~= s.take(i));
    }
}

/// The characters without the white space at both ends.
pub fn trim_chars(v: &[char]) -> (r: Vec<char>)
    ensures
        r@ == trimmed(v@),
{
    let mut i: usize = 0;
    while i < v.len() && is_space_char(v[i])
        invariant
            i <= v.len(),
            forall|j: int| 0 <= j < i ==> is_space(v@[j]),
        decreases v.len() - i,
    {
        i += 1;
    }
    let ghost front = v@.skip(i as int);
    proof {
        lemma_trim_front_skip(v@, i as int);
        assert(i < v.len() ==> front[0] == v@[i as int]);
        assert(trim_front(v@) == front);
    }
    let mut k: usize = v.len();
    while k > i && is_space_char(v[k - 1])
        invariant
            i <= k <= v.len(),
            front == v@.skip(i as int),
            forall|j: int| k - i <= j < front.len() ==> is_space(front[j]),
        decreases k - i,
    {
        k -= 1;
    }
    proof {
        lemma_trim_back_take(front, k - i);
        assert(k > i ==> front.take(k - i).last() == v@[k - 1]);
        assert(trim_back(front) == front.take(k - i));
        assert(front.take(k - i) =~= v@.subrange(i as int, k as int));
    }
    copy_chars(v, i, k)
}

/// The characters from `from` up to, but not at, `to`.
pub fn copy_chars(v: &[char], from: usize, to: usize) -> (r: Vec<char>)
    requires
        from <= to <= v.len(),
    ensures
        r@ == v@.subrange(from as int, to as int),
{
    let mut r: Vec<char> = Vec::new();
    let mut i: usize = from;
    while i < to
        invariant
            from <= i <= to <= v.len(),
            r@ == v@.subrange(from as int, i as int),
        decreases to - i,
    {
        r.push(v[i]);
        i += 1;
        assert(r@ =~= v@.subrange(from as int, i as int));
    }
    r
}

/// `s` without the white space at both ends.
pub fn trim(s: &str) -> (r: String)
    ensures
        r@ == trimmed(s@),
{
    let v = chars_of(s);
    let t = trim_chars(v.as_slice());
    string_of(t.as_slice())
}

pub fn lower_chars(v: &[char]) -> (r: Vec<char>)
    ensures
        r@ == lower(v@),
{
    let mut r: Vec<char> = Vec::new();
    let mut i: usize = 0;
    while i < v.len()
        invariant
            i <= v.len(),
            r@ == lower(v@).take(i as int),
        decreases v.len() - i,
    {
        r.push(lower_ascii_char(v[i]));
        i += 1;
        assert(r@ =~= lower(v@).take(i as int));
    }
    assert(r@ =~= lower(v@));
    r
}

/// `s` with its ASCII capitals in lower case.
pub fn lower_ascii(s: &str) -> (r: String)
    ensures
        r@ == lower(s@),
{
    let v = chars_of(s);
    let t = lower_chars(v.as_slice());
    string_of(t.as_slice())
}

/// Where `c` first stands in `s`, or the length of `s` where it does not occur.
pub open spec fn position(s: Seq<char>, c: char) -> int
    decreases s.len(),
{
    if s.len() == 0 {
        0
    } else if s[0] == c {
        0
    } else {
        1 + position(s.drop_first(), c)
    }
}

/// A position that holds `c`, with none before it, is the first one.
pub proof fn lemma_position_is(s: Seq<char>, c: char, i: int)
    requires
        0 <= i <= s.len(),
        forall|j: int| 0 <= j < i ==> s[j] != c,
        i < s.len() ==> s[i] == c,
    ensures
        position(s, c) == i,
    decreases s.len(),
{
    if s.len() > 0 && s[0] != c {
        lemma_position_is(s.drop_first(), c, i - 1);
    }
}

pub proof fn lemma_position(s: Seq<char>, c: char)
    ensures
        0 <= position(s, c) <= s.len(),
        forall|j: int| 0 <= j < position(s, c) ==> s[j] != c,
        position(s, c) < s.len() ==> s[position(s, c)] == c,
    decreases s.len(),
{
    if s.len() > 0 && s[0] != c {
        lemma_position(s.drop_first(), c);
        let p = position(s.drop_first(), c);
        assert forall|j: int| 0 <= j < position(s, c) implies s[j] != c by {
            if j > 0 {
                assert(s.drop_first()[j - 1] == s[j]);
            }
        }
    }
}

pub fn find_char(v: &[char], c: char) -> (r: usize)
    ensures
        r == position(v@, c),
        r <= v.len(),
{
    let mut i: usize = 0;
    while i < v.len() && v[i] != c
        invariant
            i <= v.len(),
            forall|j: int| 0 <= j < i ==> v@[j] != c,
        decreases v.len() - i,
    {
        i += 1;
    }
    proof {
        lemma_position_is(v@, c, i as int);
    }
    i
}

/// The parts of `s` before and after the first `c`.
pub open spec fn split_at_char(s: Seq<char>, c: char) -> Option<(Seq<char>, Seq<char>)> {
    let p = position(s, c);
    if p < s.len() {
        Some((s.take(p), s.skip(p + 1)))
    } else {
        None
    }
}

/// The part of `s` before the first `c`, or all of it.
pub open spec fn before_char(s: Seq<char>, c: char) -> Seq<char> {
    s.take(position(s, c))
}

pub fn starts_with(s: &[char], prefix: &[char]) -> (r: bool)
    ensures
        r == prefix@.is_prefix_of(s@),
{
    if prefix.len() > s.len() {
        return false;
    }
    let mut i: usize = 0;
    while i < prefix.len()
        invariant
            i <= prefix.len() <= s.len(),
            forall|j: int| 0 <= j < i ==> s@[j] == prefix@[j],
        decreases prefix.len() - i,
    {
        if s[i] != prefix[i] {
            assert(prefix@[i as int] != s@.subrange(0, prefix@.len() as int)[i as int]);
            return false;
        }
        i += 1;
    }
    assert(prefix@ =~= s@.subrange(0, prefix@.len() as int));
    true
}

pub fn ends_with(s: &[char], suffix: &[char]) -> (r: bool)
    ensures
        r == suffix@.is_suffix_of(s@),
{
    if suffix.len() > s.len() {
        return false;
    }
    let base: usize = s.len() - suffix.len();
    let mut i: usize = 0;
    while i < suffix.len()
        invariant
            i <= suffix.len() <= s.len(),
            base == s.len() - suffix.len(),
            forall|j: int| 0 <= j < i ==> s@[base + j] == suffix@[j],
        decreases suffix.len() - i,
    {
        if s[base + i] != suffix[i] {
            assert(suffix@[i as int] != s@.subrange(
                s@.len() - suffix@.len(),
                s@.len() as int,
            )[i as int]);
            return false;
        }
        i += 1;
    }
    assert(suffix@ =~= s@.subrange(s@.len() - suffix@.len(), s@.len() as int));
    true
}

/// Whether `s` begins with `prefix`.
pub fn has_prefix(s: &str, prefix: &str) -> (r: bool)
    ensures
        r == prefix@.is_prefix_of(s@),
{
    let a = chars_of(s);
    let b = chars_of(prefix);
    starts_with(a.as_slice(), b.as_slice())
}

/// Whether `s` ends with `suffix`.
pub fn has_suffix(s: &str, suffix: &str) -> (r: bool)
    ensures
        r == suffix@.is_suffix_of(s@),
{
    let a = chars_of(s);
    let b = chars_of(suffix);
    ends_with(a.as_slice(), b.as_slice())
}

pub open spec fn is_digit(c: char) -> bool {
    '0' <= c && c <= '9'
}

pub open spec fn digit_of(c: char) -> nat {
    (c as u32 - '0' as u32) as nat
}

pub open spec fn all_digits(s: Seq<char>) -> bool {
    forall|i: int| 0 <= i < s.len() ==> is_digit(#[trigger] s[i])
}

/// The number that a row of decimal digits stands for.
pub open spec fn digits_value(s: Seq<char>) -> nat
    decreases s.len(),
{
    if s.len() == 0 {
        0
    } else {
        10 * digits_value(s.drop_last()) + digit_of(s.last())
    }
}

/// An optional plus sign in front of the digits is not one of them.
pub open spec fn unsigned_body(s: Seq<char>) -> Seq<char> {
    if s.len() > 0 && s[0] == '+' {
        s.drop_first()
    } else {
        s
    }
}

/// The unsigned number that a text stands for: an optional `+`, then decimal digits only.
pub open spec fn parsed_u64(s: Seq<char>) -> Option<u64> {
    let body = unsigned_body(s);
    if body.len() > 0 && all_digits(body) && digits_value(body) <= u64::MAX {
        Some(digits_value(body) as u64)
    } else {
        None
    }
}

pub proof fn lemma_digits_value_grows(s: Seq<char>, i: int)
    requires
        0 <= i <= s.len(),
    ensures
        digits_value(s.take(i)) <= digits_value(s),
    decreases s.len() - i,
{
    if i == s.len() {
        assert(s.take(i) =~= s);
    } else {
        lemma_digits_value_grows(s.drop_last(), i);
        assert(s.drop_last().take(i) =~= s.take(i));
    }
}

pub fn parse_u64_chars(v: &[char]) -> (r: Option<u64>)
    ensures
        r == parsed_u64(v@),
{
    let start: usize = if v.len() > 0 && v[0] == '+' {
        1
    } else {
        0
    };
    let ghost body = unsigned_body(v@);
    assert(body =~= v@.skip(start as int));
    if start == v.len() {
        return None;
    }
    let mut value: u64 = 0;
    let mut i: usize = start;
    while i < v.len()
        invariant
            start <= i <= v.len(),
            body == v@.skip(start as int),
            body == unsigned_body(v@),
            forall|j: int| 0 <= j < i - start ==> is_digit(#[trigger] body[j]),
            value == digits_value(body.take(i - start)),
        decreases v.len() - i,
    {
        let c = v[i];
        assert(body[i - start] == c);
        if !('0' <= c && c <= '9') {
            assert(!is_digit(body[i - start]));
            return None;
        }
        let digit: u64 = (c as u32 - '0' as u32) as u64;
        assert(body.take(i - start + 1).drop_last() =~= body.take(i - start));
        proof {
            lemma_digits_value_grows(body, i - start + 1);
        }
        if value > 1844674407370955161 || value * 10 > 18446744073709551615 - digit {
            assert(digits_value(body) > u64::MAX);
            return None;
        }
        value = value * 10 + digit;
        i += 1;
    }
    assert(body.take(i - start) =~= body);
    Some(value)
}

/// The unsigned number that `s` stands for.
pub fn parse_u64(s: &str) -> (r: Option<u64>)
    ensures
        r == parsed_u64(s@),
{
    let v = chars_of(s);
    parse_u64_chars(v.as_slice())
}

pub open spec fn digit_char(d: nat) -> char {
    ((d % 10) + 48) as char
}

/// The decimal digits of a number, without leading zeros.
pub open spec fn decimal(n: nat) -> Seq<char>
    decreases n,
{
    if n < 10 {
        seq![digit_char(n)]
    } else {
        decimal(n / 10).push(digit_char(n))
    }
}

/// The decimal digits of a signed number, with a minus sign where it is negative.
pub open spec fn signed_decimal(n: int) -> Seq<char> {
    if n < 0 {
        seq!['-'] + decimal((-n) as nat)
    } else {
        decimal(n as nat)
    }
}

fn digit_char_of(d: u64) -> (c: char)
    requires
        d < 10,
    ensures
        c == digit_char(d as nat),
{
    let b: u8 = d as u8;
    (b + 48) as char
}

pub fn append_decimal(s: &mut String, n: u64)
    ensures
        final(s)@ == old(s)@ + decimal(n as nat),
    decreases n,
{
    if n >= 10 {
        append_decimal(s, n / 10);
    }
    s.push(digit_char_of(n % 10));
    assert(digit_char((n % 10) as nat) == digit_char(n as nat));
    assert(s@ =~= old(s)@ + decimal(n as nat));
}

pub fn append_signed(s: &mut String, n: i64)
    ensures
        final(s)@ == old(s)@ + signed_decimal(n as int),
{
    if n < 0 {
        s.push('-');
        let magnitude: u64 = (-(n as i128)) as u64;
        append_decimal(s, magnitude);
        assert(s@ =~= old(s)@ + signed_decimal(n as int));
    } else {
        append_decimal(s, n as u64);
    }
}

/// Reading back the decimal digits of a number gives that number.
pub proof fn decimal_reads_back(n: u64)
    ensures
        parsed_u64(decimal(n as nat)) == Some(n),
{
    lemma_decimal_digits(n as nat);
    let s = decimal(n as nat);
    assert(is_digit(s[0]));
    assert(unsigned_body(s) == s);
}

pub proof fn lemma_decimal_digits(n: nat)
    ensures
        decimal(n).len() > 0,
        all_digits(decimal(n)),
        digits_value(decimal(n)) == n,
    decreases n,
{
    let d = digit_char(n);
    assert(is_digit(d) && digit_of(d) == n % 10);
    if n < 10 {
        assert(decimal(n).drop_last() =~= Seq::<char>::empty());
        assert(digits_value(Seq::<char>::empty()) == 0);
    } else {
        lemma_decimal_digits(n / 10);
        assert(decimal(n).drop_last() =~= decimal(n / 10));
        assert forall|i: int| 0 <= i < decimal(n).len() implies is_digit(
            #[trigger] decimal(n)[i],
        ) by {
            if i < decimal(n / 10).len() {
                assert(decimal(n)[i] == decimal(n / 10)[i]);
            }
        }
    }
}

/// One hexadecimal digit, in lower or upper case.
pub open spec fn hex_char(d: nat, upper: bool) -> char {
    if d % 16 < 10 {
        ((d % 16) + 48) as char
    } else if upper {
        ((d % 16) + 55) as char
    } else {
        ((d % 16) + 87) as char
    }
}

/// The last `width` hexadecimal digits of a number, with leading zeros.
pub open spec fn hex(n: nat, width: nat, upper: bool) -> Seq<char>
    decreases width,
{
    if width == 0 {
        Seq::empty()
    } else {
        hex(n / 16, (width - 1) as nat, upper).push(hex_char(n, upper))
    }
}

pub fn append_hex(s: &mut String, n: u64, width: usize, upper: bool)
    ensures
        final(s)@ == old(s)@ + hex(n as nat, width as nat, upper),
    decreases width,
{
    if width > 0 {
        append_hex(s, n / 16, width - 1, upper);
        let d: u8 = (n % 16) as u8;
        let c: char = if d < 10 {
            (d + 48) as char
        } else if upper {
            (d + 55) as char
        } else {
            (d + 87) as char
        };
        assert(c == hex_char(n as nat, upper));
        s.push(c);
    }
    assert(s@ =~= old(s)@ + hex(n as nat, width as nat, upper));
}

pub proof fn lemma_hex_len(n: nat, width: nat, upper: bool)
    ensures
        hex(n, width, upper).len() == width,
    decreases width,
{
    if width > 0 {
        lemma_hex_len(n / 16, (width - 1) as nat, upper);
    }
}

/// `a` followed by `b`.
pub fn concat(a: &str, b: &str) -> (s: String)
    ensures
        s@ == a@ + b@,
{
    let mut s = a.to_owned();
    s.append(b);
    s
}

/// The order of texts: by their first difference, with a prefix before what it begins.
pub open spec fn less(a: Seq<char>, b: Seq<char>) -> bool
    decreases a.len(),
{
    if b.len() == 0 {
        false
    } else if a.len() == 0 {
        true
    } else if a[0] != b[0] {
        a[0] < b[0]
    } else {
        less(a.drop_first(), b.drop_first())
    }
}

pub proof fn lemma_less_irreflexive(a: Seq<char>)
    ensures
        !less(a, a),
    decreases a.len(),
{
    if a.len() > 0 {
        lemma_less_irreflexive(a.drop_first());
    }
}

pub proof fn lemma_less_transitive(a: Seq<char>, b: Seq<char>, c: Seq<char>)
    requires
        less(a, b),
        less(b, c),
    ensures
        less(a, c),
    decreases a.len(),
{
    if a.len() > 0 && a[0] == b[0] && b[0] == c[0] {
        lemma_less_transitive(a.drop_first(), b.drop_first(), c.drop_first());
    }
}

pub proof fn lemma_less_total(a: Seq<char>, b: Seq<char>)
    requires
        a != b,
    ensures
        less(a, b) || less(b, a),
    decreases a.len(),
{
    if a.len() > 0 && b.len() > 0 && a[0] == b[0] {
        if a.drop_first() == b.drop_first() {
            assert(a =~= seq![a[0]] + a.drop_first());
            assert(b =~= seq![b[0]] + b.drop_first());
        }
        lemma_less_total(a.drop_first(), b.drop_first());
    } else if a.len() == 0 && b.len() == 0 {
        assert(a =~= b);
    }
}

pub fn less_text(a: &str, b: &str) -> (r: bool)
    ensures
        r == less(a@, b@),
{
    let left = chars_of(a);
    let right = chars_of(b);
    let mut i: usize = 0;
    assert(left@.skip(0) =~= left@);
    assert(right@.skip(0) =~= right@);
    while i < left.len() && i < right.len() && left[i] == right[i]
        invariant
            i <= left.len(),
            i <= right.len(),
            less(left@, right@) == less(left@.skip(i as int), right@.skip(i as int)),
        decreases left.len() - i,
    {
        assert(left@.skip(i as int).drop_first() =~= left@.skip(i + 1));
        assert(right@.skip(i as int).drop_first() =~= right@.skip(i + 1));
        i += 1;
    }
    if i >= right.len() {
        false
    } else if i >= left.len() {
        true
    } else {
        left[i] < right[i]
    }
}

/// A path without the separators and the `.` parts at its end.
pub open spec fn without_tail(path: Seq<char>) -> Seq<char>
    decreases path.len(),
{
    if path.len() > 1 && path.last() == '/' {
        without_tail(path.drop_last())
    } else if path.len() > 1 && path.last() == '.' && path[path.len() - 2] == '/' {
        without_tail(path.drop_last())
    } else {
        path
    }
}

/// What stands behind the last `c` of a text, or all of it.
pub open spec fn after_last(s: Seq<char>, c: char) -> Seq<char>
    decreases s.len(),
{
    if s.len() == 0 {
        s
    } else if s.last() == c {
        Seq::empty()
    } else {
        after_last(s.drop_last(), c).push(s.last())
    }
}

/// The last part of a path; nothing where the path ends in `..` or has no part.
pub open spec fn file_name_of(path: Seq<char>) -> Seq<char> {
    let name = after_last(without_tail(path), '/');
    if name == seq!['.'] || name == seq!['.', '.'] {
        Seq::empty()
    } else {
        name
    }
}

/// What follows the last dot of a path's last part; nothing where that part has no dot or only one
/// in front.
pub open spec fn extension_of(path: Seq<char>) -> Seq<char> {
    let name = file_name_of(path);
    let tail = after_last(name, '.');
    if tail.len() + 1 < name.len() {
        tail
    } else {
        Seq::empty()
    }
}

pub proof fn lemma_after_last(s: Seq<char>, c: char, i: int)
    requires
        0 <= i <= s.len(),
        i > 0 ==> s[i - 1] == c,
        forall|j: int| i <= j < s.len() ==> s[j] != c,
    ensures
        after_last(s, c) == s.skip(i),
    decreases s.len(),
{
    if s.len() == 0 {
        assert(s.skip(i) =~= s);
    } else if i == s.len() {
        assert(s.skip(i) =~= Seq::<char>::empty());
    } else {
        lemma_after_last(s.drop_last(), c, i);
        assert(s.drop_last().skip(i).push(s.last()) =~= s.skip(i));
    }
}

fn last_start(v: &[char], c: char, end: usize) -> (i: usize)
    requires
        end <= v.len(),
    ensures
        i <= end,
        after_last(v@.take(end as int), c) == v@.subrange(i as int, end as int),
{
    let mut i: usize = end;
    while i > 0 && v[i - 1] != c
        invariant
            i <= end <= v.len(),
            forall|j: int| i <= j < end ==> v@[j] != c,
        decreases i,
    {
        i -= 1;
    }
    proof {
        lemma_after_last(v@.take(end as int), c, i as int);
        assert(v@.take(end as int).skip(i as int) =~= v@.subrange(i as int, end as int));
    }
    i
}

/// The last part of a path.
pub fn file_name(path: &str) -> (r: String)
    ensures
        r@ == file_name_of(path@),
{
    let v = chars_of(path);
    let mut end: usize = v.len();
    assert(v@.take(end as int) =~= v@);
    while end > 1 && (v[end - 1] == '/' || (v[end - 1] == '.' && v[end - 2] == '/'))
        invariant
            end <= v.len(),
            without_tail(v@) == without_tail(v@.take(end as int)),
        decreases end,
    {
        assert(v@.take(end as int).drop_last() =~= v@.take(end - 1));
        end -= 1;
    }
    let start: usize = last_start(v.as_slice(), '/', end);
    let ghost name = v@.subrange(start as int, end as int);
    let dots: bool = (end - start == 1 && v[start] == '.') || (end - start == 2 && v[start] == '.'
        && v[start + 1] == '.');
    proof {
        if dots {
            assert(name =~= seq!['.'] || name =~= seq!['.', '.']);
        } else if name == seq!['.'] || name == seq!['.', '.'] {
            assert(name[0] == '.');
            assert(name.len() == 2 ==> name[1] == '.');
        }
    }
    if dots {
        let r = String::new();
        assert(r@ =~= Seq::<char>::empty());
        return r;
    }
    let part = copy_chars(v.as_slice(), start, end);
    string_of(part.as_slice())
}

/// The extension of a path, without its dot.
pub fn extension(path: &str) -> (r: String)
    ensures
        r@ == extension_of(path@),
{
    let name = file_name(path);
    let v = chars_of(name.as_str());
    let start: usize = last_start(v.as_slice(), '.', v.len());
    assert(v@.take(v.len() as int) =~= v@);
    if start <= 1 {
        let r = String::new();
        assert(r@ =~= Seq::<char>::empty());
        return r;
    }
    let part = copy_chars(v.as_slice(), start, v.len());
    string_of(part.as_slice())
}

/// The parts of a text between the separators `c`.
pub open spec fn split_all(s: Seq<char>, c: char) -> Seq<Seq<char>>
    decreases s.len(),
{
    let p = position(s, c);
    if 0 <= p < s.len() {
        seq![s.take(p)] + split_all(s.skip(p + 1), c)
    } else {
        seq![s]
    }
}

/// The parts of a text between the separators `c`.
pub fn split(s: &str, c: char) -> (r: Vec<String>)
    ensures
        texts(r@) == split_all(s@, c),
{
    let v = chars_of(s);
    let mut r: Vec<String> = Vec::new();
    let mut start: usize = 0;
    let mut i: usize = 0;
    assert(v@.skip(0) =~= v@);
    assert(texts(r@) + split_all(v@, c) =~= split_all(v@, c));
    while i < v.len()
        invariant
            start <= i <= v.len(),
            v@ == s@,
            forall|j: int| start <= j < i ==> v@[j] != c,
            split_all(v@, c) == texts(r@) + split_all(v@.skip(start as int), c),
        decreases v.len() - i,
    {
        if v[i] == c {
            let part = string_of(copy_chars(v.as_slice(), start, i).as_slice());
            let ghost rest = v@.skip(start as int);
            let ghost before = texts(r@);
            proof {
                lemma_position_is(rest, c, i - start);
                assert(rest.take(i - start) =~= v@.subrange(start as int, i as int));
                assert(rest.skip(i - start + 1) =~= v@.skip(i + 1));
            }
            r.push(part);
            start = i + 1;
            proof {
                assert(texts(r@) =~= before.push(part@));
                assert(texts(r@) + split_all(v@.skip(start as int), c) =~= before + (
                seq![part@] + split_all(v@.skip(start as int), c)));
            }
        }
        i += 1;
    }
    let last = string_of(copy_chars(v.as_slice(), start, v.len()).as_slice());
    let ghost rest = v@.skip(start as int);
    let ghost before = texts(r@);
    proof {
        lemma_position_is(rest, c, rest.len() as int);
        assert(v@.subrange(start as int, v@.len() as int) =~= rest);
    }
    r.push(last);
    assert(texts(r@) =~= before + seq![last@]);
    r
}

/// A text without the characters `c` in front.
pub open spec fn strip_front(s: Seq<char>, c: char) -> Seq<char>
    decreases s.len(),
{
    if s.len() > 0 && s[0] == c {
        strip_front(s.drop_first(), c)
    } else {
        s
    }
}

/// A text without the characters `c` at its end.
pub open spec fn strip_back(s: Seq<char>, c: char) -> Seq<char>
    decreases s.len(),
{
    if s.len() > 0 && s.last() == c {
        strip_back(s.drop_last(), c)
    } else {
        s
    }
}

pub open spec fn stripped(s: Seq<char>, c: char) -> Seq<char> {
    strip_back(strip_front(s, c), c)
}

/// `s` without the characters `c` at both ends.
pub fn strip(s: &str, c: char) -> (r: String)
    ensures
        r@ == stripped(s@, c),
{
    let v = chars_of(s);
    let mut i: usize = 0;
    assert(v@.skip(0) =~= v@);
    while i < v.len() && v[i] == c
        invariant
            i <= v.len(),
            strip_front(v@, c) == strip_front(v@.skip(i as int), c),
        decreases v.len() - i,
    {
        assert(v@.skip(i as int).drop_first() =~= v@.skip(i + 1));
        i += 1;
    }
    let ghost front = v@.skip(i as int);
    assert(strip_front(v@, c) == front);
    let mut k: usize = v.len();
    assert(front.take(k - i) =~= front);
    while k > i && v[k - 1] == c
        invariant
            i <= k <= v.len(),
            front == v@.skip(i as int),
            strip_back(front, c) == strip_back(front.take(k - i), c),
        decreases k - i,
    {
        assert(front.take(k - i).last() == v@[k - 1]);
        assert(front.take(k - i).drop_last() =~= front.take(k - i - 1));
        k -= 1;
    }
    proof {
        assert(k > i ==> front.take(k - i).last() == v@[k - 1]);
        assert(front.take(k - i) =~= v@.subrange(i as int, k as int));
    }
    string_of(copy_chars(v.as_slice(), i, k).as_slice())
}

/// The parts of `s` before and after its first `c`.
pub fn split_once(s: &str, c: char) -> (r: Option<(String, String)>)
    ensures
        match r {
            Some(parts) => split_at_char(s@, c) == Some((parts.0@, parts.1@)),
            None => split_at_char(s@, c) is None,
        },
{
    let v = chars_of(s);
    let p: usize = find_char(v.as_slice(), c);
    if p < v.len() {
        let head = string_of(copy_chars(v.as_slice(), 0, p).as_slice());
        let tail = string_of(copy_chars(v.as_slice(), p + 1, v.len()).as_slice());
        assert(v@.subrange(0, p as int) =~= v@.take(p as int));
        assert(v@.subrange(p + 1, v@.len() as int) =~= v@.skip(p + 1));
        Some((head, tail))
    } else {
        None
    }
}

/// `s` without `prefix`, where it begins with it.
pub open spec fn without_prefix(s: Seq<char>, prefix: Seq<char>) -> Seq<char> {
    if prefix.is_prefix_of(s) {
        s.skip(prefix.len() as int)
    } else {
        s
    }
}

pub fn drop_prefix(s: &str, prefix: &str) -> (r: String)
    ensures
        r@ == without_prefix(s@, prefix@),
{
    let v = chars_of(s);
    let p = chars_of(prefix);
    if starts_with(v.as_slice(), p.as_slice()) {
        assert(v@.subrange(p@.len() as int, v@.len() as int) =~= v@.skip(p@.len() as int));
        string_of(copy_chars(v.as_slice(), p.len(), v.len()).as_slice())
    } else {
        s.to_owned()
    }
}

/// `s` without every repetition of `prefix` in front.
pub open spec fn without_prefixes(s: Seq<char>, prefix: Seq<char>) -> Seq<char>
    decreases s.len(),
{
    if prefix.len() > 0 && prefix.is_prefix_of(s) {
        without_prefixes(s.skip(prefix.len() as int), prefix)
    } else {
        s
    }
}

pub fn drop_prefixes(s: &str, prefix: &str) -> (r: String)
    ensures
        r@ == without_prefixes(s@, prefix@),
{
    let p = chars_of(prefix);
    let mut rest = s.to_owned();
    if p.len() == 0 {
        return rest;
    }
    while has_prefix(rest.as_str(), prefix)
        invariant
            p@ == prefix@,
            p.len() > 0,
            without_prefixes(s@, prefix@) == without_prefixes(rest@, prefix@),
        decreases rest@.len(),
    {
        rest = drop_prefix(rest.as_str(), prefix);
    }
    rest
}

/// Two texts with the same bytes are the same.
pub proof fn lemma_same_bytes(a: Seq<char>, b: Seq<char>)
    requires
        vstd::utf8::encode_utf8(a) == vstd::utf8::encode_utf8(b),
    ensures
        a == b,
{
    vstd::utf8::encode_utf8_decode_utf8(a);
    vstd::utf8::encode_utf8_decode_utf8(b);
}

/// The texts, one behind the other, with `separator` between any two.
pub open spec fn joined_by(parts: Seq<Seq<char>>, separator: Seq<char>) -> Seq<char>
    decreases parts.len(),
{
    if parts.len() == 0 {
        Seq::empty()
    } else if parts.len() == 1 {
        parts[0]
    } else {
        joined_by(parts.drop_last(), separator) + separator + parts.last()
    }
}

pub fn join(parts: &Vec<String>, separator: &str) -> (r: String)
    ensures
        r@ == joined_by(texts(parts@), separator@),
{
    let ghost all = texts(parts@);
    let mut r = String::new();
    let mut i: usize = 0;
    assert(r@ =~= joined_by(all.take(0), separator@));
    while i < parts.len()
        invariant
            i <= parts.len(),
            all == texts(parts@),
            r@ == joined_by(all.take(i as int), separator@),
        decreases parts.len() - i,
    {
        let ghost before = r@;
        assert(all.take(i + 1).drop_last() =~= all.take(i as int));
        assert(all.take(i + 1).last() == parts[i as int]@);
        if i > 0 {
            r.append(separator);
        }
        r.append(parts[i].as_str());
        if i == 0 {
            assert(before =~= Seq::<char>::empty());
        }
        assert(r@ =~= joined_by(all.take(i + 1), separator@));
        i += 1;
    }
    assert(all.take(i as int) =~= all);
    r
}

/// The number of bytes of a text.
pub open spec fn byte_count(s: Seq<char>) -> nat {
    vstd::utf8::encode_utf8(s).len()
}

pub fn byte_len(s: &str) -> (r: usize)
    ensures
        r == byte_count(s@),
{
    s.as_bytes().len()
}

/// Whether `part` occurs in `s`.
pub open spec fn occurs_in(part: Seq<char>, s: Seq<char>) -> bool {
    exists|i: int| #![trigger s.skip(i)] 0 <= i <= s.len() && part.is_prefix_of(s.skip(i))
}

pub fn contains_chars(s: &[char], part: &[char]) -> (r: bool)
    ensures
        r == occurs_in(part@, s@),
{
    let mut i: usize = 0;
    while i < s.len()
        invariant
            i <= s.len(),
            forall|j: int| #![trigger s@.skip(j)] 0 <= j < i ==> !part@.is_prefix_of(s@.skip(j)),
        decreases s.len() - i,
    {
        let rest = copy_chars(s, i, s.len());
        assert(rest@ =~= s@.skip(i as int));
        if starts_with(rest.as_slice(), part) {
            assert(part@.is_prefix_of(s@.skip(i as int)));
            return true;
        }
        i += 1;
    }
    let rest: Vec<char> = Vec::new();
    assert(rest@ =~= s@.skip(s@.len() as int));
    starts_with(rest.as_slice(), part)
}

/// Whether `part` occurs in `s`.
pub fn contains(s: &str, part: &str) -> (r: bool)
    ensures
        r == occurs_in(part@, s@),
{
    let a = chars_of(s);
    let b = chars_of(part);
    contains_chars(a.as_slice(), b.as_slice())
}

/// What `String::from_utf8_lossy` makes of bytes: text in which everything that is not UTF-8 is
/// replaced.
pub uninterp spec fn lossy_text(bytes: Seq<u8>) -> Seq<char>;

/// Calls `String::from_utf8_lossy`. The contract claims only that the text depends on nothing but
/// the bytes.
#[verifier::external_body]
pub(crate) fn decode_lossy(bytes: &[u8]) -> (r: String)
    ensures
        r@ == lossy_text(bytes@),
{
    String::from_utf8_lossy(bytes).into_owned()
}

/// The first `count` characters of a text, or all of it.
pub open spec fn first_chars(s: Seq<char>, count: nat) -> Seq<char> {
    if s.len() > count {
        s.take(count as int)
    } else {
        s
    }
}

pub fn take_chars(s: &str, count: usize) -> (r: String)
    ensures
        r@ == first_chars(s@, count as nat),
{
    let v = chars_of(s);
    if v.len() > count {
        assert(v@.subrange(0, count as int) =~= v@.take(count as int));
        string_of(copy_chars(v.as_slice(), 0, count).as_slice())
    } else {
        s.to_owned()
    }
}

/// What `char::to_lowercase` makes of a character.
pub uninterp spec fn lowercase_of(c: char) -> Seq<char>;

/// Calls `char::to_lowercase`. The contract claims only that the characters depend on nothing but
/// the one that was given.
#[verifier::external_body]
pub(crate) fn lowercase_chars(c: char) -> (r: Vec<char>)
    ensures
        r@ == lowercase_of(c),
{
    c.to_lowercase().collect()
}

/// What `char::is_alphanumeric` says of a character.
pub uninterp spec fn is_letter_or_number(c: char) -> bool;

/// Calls `char::is_alphanumeric`. The contract claims only that the answer depends on nothing but
/// the character.
#[verifier::external_body]
pub(crate) fn letter_or_number(c: char) -> (r: bool)
    ensures
        r == is_letter_or_number(c),
{
    c.is_alphanumeric()
}

/// What `str::to_lowercase` makes of a text.
pub uninterp spec fn lowercase_text(s: Seq<char>) -> Seq<char>;

/// Calls `str::to_lowercase`. The contract claims only that the text depends on nothing but the one
/// that was given.
#[verifier::external_body]
pub(crate) fn to_lowercase(s: &str) -> (r: String)
    ensures
        r@ == lowercase_text(s@),
{
    s.to_lowercase()
}

/// What `str::to_uppercase` makes of a text.
pub uninterp spec fn uppercase_text(s: Seq<char>) -> Seq<char>;

/// Calls `str::to_uppercase`. The contract claims only that the text depends on nothing but the one
/// that was given.
#[verifier::external_body]
pub(crate) fn to_uppercase(s: &str) -> (r: String)
    ensures
        r@ == uppercase_text(s@),
{
    s.to_uppercase()
}

/// The last part of a path without its extension; nothing where the path has no last part.
pub open spec fn file_stem_of(path: Seq<char>) -> Seq<char> {
    let name = file_name_of(path);
    let tail = after_last(name, '.');
    if tail.len() + 1 < name.len() {
        name.take(name.len() - tail.len() - 1)
    } else {
        name
    }
}

pub fn file_stem(path: &str) -> (r: String)
    ensures
        r@ == file_stem_of(path@),
{
    let name = file_name(path);
    let v = chars_of(name.as_str());
    let start: usize = last_start(v.as_slice(), '.', v.len());
    assert(v@.take(v.len() as int) =~= v@);
    if start <= 1 {
        return name;
    }
    let part = copy_chars(v.as_slice(), 0, start - 1);
    assert(part@ =~= v@.take(start - 1));
    string_of(part.as_slice())
}

/// The words of a text.
pub open spec fn words_of(s: Seq<char>) -> Seq<Seq<char>>
    decreases s.len(),
{
    if s.len() == 0 {
        Seq::empty()
    } else {
        let before = words_of(s.drop_last());
        let c = s.last();
        if is_space(c) {
            before
        } else if s.len() == 1 || is_space(s[s.len() - 2]) {
            before.push(seq![c])
        } else {
            before.update(before.len() - 1, before.last().push(c))
        }
    }
}

pub open spec fn word_views(v: Seq<Vec<char>>) -> Seq<Seq<char>> {
    v.map_values(|w: Vec<char>| w@)
}

pub proof fn lemma_open_word(s: Seq<char>)
    requires
        s.len() > 0,
        !is_space(s.last()),
    ensures
        words_of(s).len() > 0,
    decreases s.len(),
{
    if s.len() > 1 && !is_space(s[s.len() - 2]) {
        lemma_open_word(s.drop_last());
    }
}

/// Every character is white space.
pub open spec fn all_space(s: Seq<char>) -> bool {
    forall|i: int| 0 <= i < s.len() ==> is_space(#[trigger] s[i])
}

proof fn lemma_words_then_space(s: Seq<char>, gap: Seq<char>)
    requires
        all_space(gap),
    ensures
        words_of(s + gap) == words_of(s),
    decreases gap.len(),
{
    if gap.len() == 0 {
        assert(s + gap =~= s);
    } else {
        let front = gap.drop_last();
        assert(all_space(front));
        assert((s + gap).drop_last() =~= s + front);
        assert((s + gap).last() == gap[gap.len() - 1]);
        lemma_words_then_space(s, front);
    }
}

/// White space parts words, however much of it there is.
pub proof fn lemma_words_apart(before: Seq<char>, gap: Seq<char>, after: Seq<char>)
    requires
        all_space(gap),
        gap.len() > 0,
    ensures
        words_of(before + gap + after) == words_of(before) + words_of(after),
    decreases after.len(),
{
    let s = before + gap + after;
    if after.len() == 0 {
        assert(s =~= before + gap);
        lemma_words_then_space(before, gap);
        assert(words_of(before) + words_of(after) =~= words_of(before));
    } else {
        let front = after.drop_last();
        let c = after.last();
        assert(s.drop_last() =~= before + gap + front);
        assert(s.last() == c);
        lemma_words_apart(before, gap, front);
        if !is_space(c) {
            if after.len() == 1 {
                assert(front =~= Seq::<char>::empty());
                assert(s[s.len() - 2] == gap[gap.len() - 1]);
                assert(words_of(s) =~= words_of(before) + words_of(after));
            } else {
                assert(s[s.len() - 2] == after[after.len() - 2]);
                assert(front.last() == after[after.len() - 2]);
                if !is_space(front.last()) {
                    lemma_open_word(front);
                }
                assert(words_of(s) =~= words_of(before) + words_of(after));
            }
        }
    }
}

/// A word: at least one character, and no white space.
pub open spec fn is_word(s: Seq<char>) -> bool {
    s.len() > 0 && forall|i: int| 0 <= i < s.len() ==> !is_space(#[trigger] s[i])
}

proof fn lemma_words_are_words(s: Seq<char>)
    ensures
        forall|i: int| 0 <= i < words_of(s).len() ==> is_word(#[trigger] words_of(s)[i]),
    decreases s.len(),
{
    if s.len() > 0 {
        let front = s.drop_last();
        let c = s.last();
        lemma_words_are_words(front);
        let before = words_of(front);
        let all = words_of(s);
        if !is_space(c) && s.len() > 1 && !is_space(s[s.len() - 2]) {
            lemma_open_word(front);
        }
        assert forall|i: int| 0 <= i < all.len() implies is_word(#[trigger] all[i]) by {
            if i < before.len() {
                assert(is_word(before[i]));
            }
        }
    }
}

proof fn lemma_one_word(s: Seq<char>)
    requires
        is_word(s),
    ensures
        words_of(s) == seq![s],
    decreases s.len(),
{
    let front = s.drop_last();
    if s.len() == 1 {
        assert(front =~= Seq::<char>::empty());
        assert(seq![s.last()] =~= s);
        assert(!is_space(s[0]));
        assert(words_of(front) =~= Seq::<Seq<char>>::empty());
        assert(words_of(s) =~= seq![s]);
    } else {
        lemma_one_word(front);
        assert(front.push(s.last()) =~= s);
        assert(!is_space(s[s.len() - 2]));
        assert(!is_space(s[s.len() - 1]));
        assert(words_of(s) =~= seq![s]);
    }
}

proof fn lemma_joined_words(parts: Seq<Seq<char>>)
    requires
        forall|i: int| 0 <= i < parts.len() ==> is_word(#[trigger] parts[i]),
    ensures
        words_of(joined_by(parts, " "@)) == parts,
    decreases parts.len(),
{
    reveal_strlit(" ");
    if parts.len() == 0 {
        assert(words_of(joined_by(parts, " "@)) =~= parts);
    } else if parts.len() == 1 {
        lemma_one_word(parts[0]);
        assert(seq![parts[0]] =~= parts);
    } else {
        let front = parts.drop_last();
        assert forall|i: int| 0 <= i < front.len() implies is_word(#[trigger] front[i]) by {
            assert(front[i] == parts[i]);
        }
        lemma_joined_words(front);
        assert(is_word(parts[parts.len() - 1]));
        lemma_one_word(parts.last());
        lemma_words_apart(joined_by(front, " "@), " "@, parts.last());
        assert(front + seq![parts.last()] =~= parts);
    }
}

/// A text with single spaces has the same words, so that spacing it again changes nothing.
pub proof fn lemma_spacing_keeps_words(s: Seq<char>)
    ensures
        words_of(joined_by(words_of(s), " "@)) == words_of(s),
{
    lemma_words_are_words(s);
    lemma_joined_words(words_of(s));
}

/// The words of a text.
pub fn words(value: &str) -> (r: Vec<String>)
    ensures
        texts(r@) == words_of(value@),
{
    let v = chars_of(value);
    let mut words: Vec<Vec<char>> = Vec::new();
    let mut i: usize = 0;
    assert(word_views(words@) =~= words_of(v@.take(0)));
    while i < v.len()
        invariant
            i <= v@.len(),
            word_views(words@) == words_of(v@.take(i as int)),
        decreases v@.len() - i,
    {
        let ghost before = word_views(words@);
        let ghost s = v@.take(i + 1);
        assert(s.drop_last() =~= v@.take(i as int));
        assert(s.last() == v@[i as int]);
        let c = v[i];
        if !is_space_char(c) {
            if i == 0 || is_space_char(v[i - 1]) {
                assert(i > 0 ==> s[s.len() - 2] == v@[i - 1]);
                let mut word: Vec<char> = Vec::new();
                word.push(c);
                assert(word@ =~= seq![c]);
                words.push(word);
                assert(word_views(words@) =~= before.push(seq![c]));
            } else {
                assert(s[s.len() - 2] == v@[i - 1]);
                proof {
                    assert(v@.take(i as int).last() == v@[i - 1]);
                    lemma_open_word(v@.take(i as int));
                }
                let last: usize = words.len() - 1;
                assert(before.last() == words@[last as int]@);
                let word: &mut Vec<char> = &mut words[last];
                word.push(c);
                assert(word_views(words@) =~= before.update(
                    before.len() - 1,
                    before.last().push(c),
                ));
            }
        }
        i += 1;
    }
    assert(v@.take(i as int) =~= v@);
    let ghost model = word_views(words@);
    let mut list: Vec<String> = Vec::new();
    let mut k: usize = 0;
    while k < words.len()
        invariant
            k <= words@.len(),
            model == word_views(words@),
            texts(list@) == model.take(k as int),
        decreases words@.len() - k,
    {
        let ghost before = texts(list@);
        list.push(string_of(words[k].as_slice()));
        assert(model[k as int] == words@[k as int]@);
        assert(texts(list@) =~= before.push(model[k as int]));
        k += 1;
        assert(texts(list@) =~= model.take(k as int));
    }
    assert(texts(list@) =~= model);
    list
}

} // verus!
