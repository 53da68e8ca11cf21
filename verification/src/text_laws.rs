//! What trimming, splitting, joining and the digits of numbers do to a text.

use vstd::prelude::*;

use crate::text::{
    after_last, all_digits, all_space, before_char, decimal, decimal_reads_back, digits_value,
    extension_of, file_name_of, file_stem_of, first_chars, hex, hex_char, is_digit, is_space,
    is_word, joined_by, lemma_decimal_digits, lemma_hex_len, lemma_position, less, lower,
    lower_char, occurs_in, parsed_u64, position, signed_decimal, split_all, split_at_char,
    trim_back, trim_front, trimmed, without_prefix, without_prefixes, without_tail, words_of,
};

verus! {

proof fn lemma_trim_front_shape(s: Seq<char>) -> (n: int)
    ensures
        0 <= n <= s.len(),
        trim_front(s) == s.skip(n),
        forall|i: int| 0 <= i < n ==> is_space(#[trigger] s[i]),
        n < s.len() ==> !is_space(s[n]),
    decreases s.len(),
{
    if s.len() > 0 && is_space(s[0]) {
        let rest = s.drop_first();
        let m = lemma_trim_front_shape(rest);
        assert(rest.skip(m) =~= s.skip(m + 1));
        assert forall|i: int| 0 <= i < m + 1 implies is_space(#[trigger] s[i]) by {
            if i > 0 {
                assert(rest[i - 1] == s[i]);
            }
        }
        m + 1
    } else {
        assert(s.skip(0) =~= s);
        0
    }
}

proof fn lemma_trim_back_shape(s: Seq<char>) -> (n: int)
    ensures
        0 <= n <= s.len(),
        trim_back(s) == s.take(n),
        forall|i: int| n <= i < s.len() ==> is_space(#[trigger] s[i]),
        n > 0 ==> !is_space(s[n - 1]),
    decreases s.len(),
{
    if s.len() > 0 && is_space(s.last()) {
        let front = s.drop_last();
        let m = lemma_trim_back_shape(front);
        assert(front.take(m) =~= s.take(m));
        assert forall|i: int| m <= i < s.len() implies is_space(#[trigger] s[i]) by {
            if i < front.len() {
                assert(front[i] == s[i]);
            }
        }
        m
    } else {
        assert(s.take(s.len() as int) =~= s);
        s.len() as int
    }
}

/// A trimmed text is a stretch of the text: what stands before and behind it is white space, and
/// it neither begins nor ends with any.
pub proof fn trimming_takes_the_white_space_around(s: Seq<char>)
    ensures
        exists|a: int, b: int|
            #![trigger s.subrange(a, b)]
            {
                &&& 0 <= a <= b <= s.len()
                &&& trimmed(s) == s.subrange(a, b)
                &&& forall|i: int| 0 <= i < a ==> is_space(#[trigger] s[i])
                &&& forall|i: int| b <= i < s.len() ==> is_space(#[trigger] s[i])
                &&& a < b ==> !is_space(s[a]) && !is_space(s[b - 1])
            },
        trimmed(s).len() == 0 <==> all_space(s),
{
    let a = lemma_trim_front_shape(s);
    let t = s.skip(a);
    let n = lemma_trim_back_shape(t);
    let b = a + n;
    assert(t.take(n) =~= s.subrange(a, b));
    assert forall|i: int| b <= i < s.len() implies is_space(#[trigger] s[i]) by {
        assert(t[i - a] == s[i]);
    }
    if a < b {
        assert(t[n - 1] == s[b - 1]);
        if a < s.len() {
            assert(!is_space(s[a]));
        }
        assert(!all_space(s));
    } else {
        assert forall|i: int| 0 <= i < s.len() implies is_space(#[trigger] s[i]) by {}
    }
    assert(s.subrange(a, b) == trimmed(s));
}

/// White space, in code points.
pub proof fn white_space_is_what_it_is(c: char)
    ensures
        is_space(c) <==> {
            let n = c as u32;
            (9 <= n && n <= 13) || n == 32 || n == 133 || n == 160 || n == 5760 || (8192 <= n && n
                <= 8202) || n == 8232 || n == 8233 || n == 8239 || n == 8287 || n == 12288
        },
{
}

/// Lower case changes the capital letters of ASCII, and nothing else.
pub proof fn lower_case_changes_capitals_alone(s: Seq<char>)
    ensures
        lower(s).len() == s.len(),
        forall|i: int|
            #![trigger lower(s)[i]]
            0 <= i < s.len() ==> (if 65 <= s[i] as u32 && s[i] as u32 <= 90 {
                lower(s)[i] as u32 == s[i] as u32 + 32
            } else {
                lower(s)[i] == s[i]
            }),
        lower(lower(s)) == lower(s),
{
    assert forall|i: int| #![trigger lower(s)[i]] 0 <= i < s.len() implies (if 65 <= s[i] as u32
        && s[i] as u32 <= 90 {
        lower(s)[i] as u32 == s[i] as u32 + 32
    } else {
        lower(s)[i] == s[i]
    }) by {
        assert(lower(s)[i] == lower_char(s[i]));
    }
    assert(lower(lower(s)) =~= lower(s));
}

/// No part of a split text holds the separator.
pub proof fn parts_hold_no_separator(s: Seq<char>, c: char)
    ensures
        split_all(s, c).len() > 0,
        forall|i: int|
            #![trigger split_all(s, c)[i]]
            0 <= i < split_all(s, c).len() ==> !split_all(s, c)[i].contains(c),
    decreases s.len(),
{
    lemma_position(s, c);
    let p = position(s, c);
    let parts = split_all(s, c);
    if p < s.len() {
        let rest = split_all(s.skip(p + 1), c);
        parts_hold_no_separator(s.skip(p + 1), c);
        assert forall|i: int| #![trigger parts[i]] 0 <= i < parts.len() implies !parts[i].contains(
            c,
        ) by {
            if i == 0 {
                assert(parts[0] == s.take(p));
            } else {
                assert(parts[i] == rest[i - 1]);
            }
        }
    }
}

proof fn lemma_joined_front(first: Seq<char>, rest: Seq<Seq<char>>, separator: Seq<char>)
    requires
        rest.len() > 0,
    ensures
        joined_by(seq![first] + rest, separator) == first + separator + joined_by(rest, separator),
    decreases rest.len(),
{
    let all = seq![first] + rest;
    if rest.len() == 1 {
        assert(all.drop_last() =~= seq![first]);
        assert(joined_by(seq![first], separator) == first);
    } else {
        assert(all.drop_last() =~= seq![first] + rest.drop_last());
        lemma_joined_front(first, rest.drop_last(), separator);
        assert(joined_by(all, separator) =~= first + separator + joined_by(rest, separator));
    }
}

/// A split text, joined with the separator again, is the text.
pub proof fn a_split_text_joins_back(s: Seq<char>, c: char)
    ensures
        joined_by(split_all(s, c), seq![c]) == s,
    decreases s.len(),
{
    lemma_position(s, c);
    let p = position(s, c);
    if p < s.len() {
        let rest = split_all(s.skip(p + 1), c);
        parts_hold_no_separator(s.skip(p + 1), c);
        a_split_text_joins_back(s.skip(p + 1), c);
        lemma_joined_front(s.take(p), rest, seq![c]);
        assert(s.take(p) + seq![c] + s.skip(p + 1) =~= s);
    }
}

/// What follows the last separator holds none, and the text ends with it.
pub proof fn what_follows_the_last_separator(s: Seq<char>, c: char)
    ensures
        !after_last(s, c).contains(c),
        after_last(s, c).len() <= s.len(),
        after_last(s, c) == s.skip(s.len() - after_last(s, c).len()),
        after_last(s, c).len() < s.len() ==> s[s.len() - after_last(s, c).len() - 1] == c,
    decreases s.len(),
{
    if s.len() > 0 && s.last() != c {
        let front = s.drop_last();
        what_follows_the_last_separator(front, c);
        let t = after_last(front, c);
        assert(after_last(s, c) == t.push(s.last()));
        assert forall|i: int| 0 <= i < t.push(s.last()).len() implies t.push(s.last())[i] != c by {
            if i < t.len() {
                assert(t.contains(t[i]));
            }
        }
        assert(s.skip(s.len() - t.len() - 1) =~= t.push(s.last()));
    } else {
        assert(s.skip(s.len() as int) =~= Seq::empty());
    }
}

/// The value of one hexadecimal digit.
pub open spec fn hex_digit_value(c: char) -> int {
    if '0' <= c && c <= '9' {
        c as int - 48
    } else if 'a' <= c && c <= 'f' {
        c as int - 87
    } else {
        c as int - 55
    }
}

/// The number that hexadecimal digits stand for.
pub open spec fn hex_value(s: Seq<char>) -> int
    decreases s.len(),
{
    if s.len() == 0 {
        0
    } else {
        16 * hex_value(s.drop_last()) + hex_digit_value(s.last())
    }
}

pub open spec fn pow16(n: nat) -> int
    decreases n,
{
    if n == 0 {
        1
    } else {
        16 * pow16((n - 1) as nat)
    }
}

/// Hexadecimal digits read back as the number, where it fits in them.
pub proof fn hex_reads_back(n: nat, width: nat, upper: bool)
    requires
        n < pow16(width),
    ensures
        hex(n, width, upper).len() == width,
        hex_value(hex(n, width, upper)) == n,
    decreases width,
{
    lemma_hex_len(n, width, upper);
    if width > 0 {
        let w = (width - 1) as nat;
        hex_reads_back(n / 16, w, upper);
        let s = hex(n, width, upper);
        assert(s.drop_last() =~= hex(n / 16, w, upper));
        assert(s.last() == hex_char(n, upper));
        assert(hex_digit_value(hex_char(n, upper)) == n % 16);
    }
}

/// Hexadecimal digits are digits and letters of one case.
pub proof fn hex_digits_are_of_one_case(n: nat, width: nat, upper: bool)
    ensures
        forall|i: int|
            #![trigger hex(n, width, upper)[i]]
            0 <= i < width ==> {
                let c = hex(n, width, upper)[i];
                ('0' <= c && c <= '9') || (if upper {
                    'A' <= c && c <= 'F'
                } else {
                    'a' <= c && c <= 'f'
                })
            },
    decreases width,
{
    lemma_hex_len(n, width, upper);
    if width > 0 {
        let w = (width - 1) as nat;
        let before = hex(n / 16, w, upper);
        hex_digits_are_of_one_case(n / 16, w, upper);
        lemma_hex_len(n / 16, w, upper);
        assert forall|i: int| #![trigger hex(n, width, upper)[i]] 0 <= i < width implies {
            let c = hex(n, width, upper)[i];
            ('0' <= c && c <= '9') || (if upper {
                'A' <= c && c <= 'F'
            } else {
                'a' <= c && c <= 'f'
            })
        } by {
            if i < w {
                assert(hex(n, width, upper)[i] == before[i]);
            } else {
                assert(hex(n, width, upper)[i] == hex_char(n, upper));
            }
        }
    }
}

/// A number of more than one digit does not begin with a zero.
pub proof fn decimals_have_no_leading_zero(n: nat)
    ensures
        decimal(n).len() > 0,
        decimal(n)[0] == '0' <==> n == 0,
    decreases n,
{
    if n >= 10 {
        decimals_have_no_leading_zero(n / 10);
        assert(decimal(n)[0] == decimal(n / 10)[0]);
    }
}

/// A text without the separator is one part; what stands before the first separator is the first
/// part, and what stands behind it splits into the others.
pub proof fn a_joined_text_splits(first: Seq<char>, rest: Seq<char>, c: char)
    requires
        !first.contains(c),
    ensures
        split_all(first, c) == seq![first],
        split_all(first + seq![c] + rest, c) == seq![first] + split_all(rest, c),
{
    let text = first + seq![c] + rest;
    assert forall|j: int| 0 <= j < first.len() implies first[j] != c by {
        assert(first.contains(first[j]));
    }
    crate::text::lemma_position_is(first, c, first.len() as int);
    assert(text[first.len() as int] == c);
    assert forall|j: int| 0 <= j < first.len() implies text[j] != c by {
        assert(text[j] == first[j]);
    }
    crate::text::lemma_position_is(text, c, first.len() as int);
    assert(text.take(first.len() as int) =~= first);
    assert(text.skip(first.len() as int + 1) =~= rest);
}

/// Stripping takes a character off both ends, as often as it stands there, and nothing else.
pub proof fn stripping_takes_the_ends_alone(s: Seq<char>, c: char)
    ensures
        s.len() > 0 && s[0] != c && s.last() != c ==> crate::text::stripped(s, c) == s,
        crate::text::stripped(seq![c] + s, c) == crate::text::stripped(s, c),
        s.len() > 0 && s[0] != c ==> crate::text::stripped(s.push(c), c) == crate::text::stripped(s, c),
{
    assert((seq![c] + s).drop_first() =~= s);
    assert(s.push(c).drop_last() =~= s);
}

/// A text splits at the first separator into what stands before and behind it; one without the
/// separator does not split.
pub proof fn a_text_splits_at_the_first_separator(first: Seq<char>, rest: Seq<char>, c: char)
    requires
        !first.contains(c),
    ensures
        split_at_char(first + seq![c] + rest, c) == Some((first, rest)),
        before_char(first + seq![c] + rest, c) == first,
        split_at_char(first, c) is None,
        before_char(first, c) == first,
{
    let text = first + seq![c] + rest;
    assert forall|j: int| 0 <= j < first.len() implies first[j] != c by {
        assert(first.contains(first[j]));
    }
    crate::text::lemma_position_is(first, c, first.len() as int);
    assert(text[first.len() as int] == c);
    assert forall|j: int| 0 <= j < first.len() implies text[j] != c by {
        assert(text[j] == first[j]);
    }
    crate::text::lemma_position_is(text, c, first.len() as int);
    assert(text.take(first.len() as int) =~= first);
    assert(text.skip(first.len() as int + 1) =~= rest);
    assert(first.take(first.len() as int) =~= first);
}

/// The last name of a path is what stands behind its last separator.
pub proof fn a_path_ends_in_its_name(folder: Seq<char>, name: Seq<char>)
    requires
        name.len() > 0,
        !name.contains('/'),
        name != seq!['.'],
        name != seq!['.', '.'],
    ensures
        file_name_of(folder + seq!['/'] + name) == name,
        file_name_of(name) == name,
{
    let path = folder + seq!['/'] + name;
    assert(name.contains(name[name.len() - 1]));
    assert(path.last() == name.last());
    if name.last() == '.' {
        assert(name.len() > 1) by {
            if name.len() == 1 {
                assert(name =~= seq!['.']);
            }
        }
        assert(path[path.len() - 2] == name[name.len() - 2]);
        assert(name.contains(name[name.len() - 2]));
    }
    assert(without_tail(path) == path);
    assert(without_tail(name) == name);
    let i = folder.len() as int + 1;
    assert forall|j: int| i <= j < path.len() implies path[j] != '/' by {
        assert(path[j] == name[j - i]);
        assert(name.contains(name[j - i]));
    }
    crate::text::lemma_after_last(path, '/', i);
    assert(path.skip(i) =~= name);
    assert forall|j: int| 0 <= j < name.len() implies name[j] != '/' by {
        assert(name.contains(name[j]));
    }
    crate::text::lemma_after_last(name, '/', 0);
    assert(name.skip(0) =~= name);
}

/// The ending of a name is what stands behind its last dot, and its stem what stands before it; a
/// name without a dot, or with one in front alone, has no ending.
pub proof fn a_name_has_stem_and_ending(stem: Seq<char>, ending: Seq<char>)
    requires
        stem.len() > 0,
        ending.len() > 0,
        !stem.contains('/'),
        !ending.contains('/'),
        !ending.contains('.'),
    ensures
        extension_of(stem + seq!['.'] + ending) == ending,
        file_stem_of(stem + seq!['.'] + ending) == stem,
        extension_of(ending).len() == 0,
        file_stem_of(ending) == ending,
        extension_of(seq!['.'] + ending).len() == 0,
{
    let name = stem + seq!['.'] + ending;
    let hidden = seq!['.'] + ending;
    assert(!name.contains('/')) by {
        if name.contains('/') {
            let k = choose|k: int| 0 <= k < name.len() && name[k] == '/';
            if k < stem.len() {
                assert(stem[k] == '/');
            } else if k > stem.len() {
                assert(ending[k - stem.len() - 1] == '/');
            }
        }
    }
    assert(!hidden.contains('/')) by {
        if hidden.contains('/') {
            let k = choose|k: int| 0 <= k < hidden.len() && hidden[k] == '/';
            assert(ending[k - 1] == '/');
        }
    }
    assert(ending.contains(ending[0]) && ending.contains(ending[ending.len() - 1]));
    assert(name.last() == ending.last() && hidden.last() == ending.last());
    assert(ending[0] != '.');
    assert(hidden[1] == ending[0]);
    a_path_ends_in_its_name(Seq::empty(), name);
    a_path_ends_in_its_name(Seq::empty(), ending);
    a_path_ends_in_its_name(Seq::empty(), hidden);
    let i = stem.len() as int + 1;
    assert forall|j: int| i <= j < name.len() implies name[j] != '.' by {
        assert(name[j] == ending[j - i]);
        assert(ending.contains(ending[j - i]));
    }
    crate::text::lemma_after_last(name, '.', i);
    assert(name.skip(i) =~= ending);
    assert(name.take(name.len() - ending.len() - 1) =~= stem);
    assert forall|j: int| 0 <= j < ending.len() implies ending[j] != '.' by {
        assert(ending.contains(ending[j]));
    }
    crate::text::lemma_after_last(ending, '.', 0);
    assert(ending.skip(0) =~= ending);
    assert forall|j: int| 1 <= j < hidden.len() implies hidden[j] != '.' by {
        assert(hidden[j] == ending[j - 1]);
        assert(ending.contains(ending[j - 1]));
    }
    crate::text::lemma_after_last(hidden, '.', 1);
    assert(hidden.skip(1) =~= ending);
}

/// A text occurs where it stands, whatever stands around it; a longer one does not.
pub proof fn a_part_occurs_where_it_stands(before: Seq<char>, part: Seq<char>, after: Seq<char>)
    ensures
        occurs_in(part, before + part + after),
        part.len() > before.len() ==> !occurs_in(part, before),
{
    let text = before + part + after;
    let i = before.len() as int;
    assert(text.skip(i).take(part.len() as int) =~= part);
    assert(part.is_prefix_of(text.skip(i)));
}

/// What a text begins with is taken off once, or as often as it stands there.
pub proof fn a_beginning_is_taken_off(prefix: Seq<char>, rest: Seq<char>)
    ensures
        without_prefix(prefix + rest, prefix) == rest,
        !prefix.is_prefix_of(rest) ==> without_prefix(rest, prefix) == rest && without_prefixes(
            rest,
            prefix,
        ) == rest,
        prefix.len() > 0 ==> without_prefixes(prefix + rest, prefix) == without_prefixes(
            rest,
            prefix,
        ),
{
    let text = prefix + rest;
    assert(text.take(prefix.len() as int) =~= prefix);
    assert(text.skip(prefix.len() as int) =~= rest);
}

/// A text of one word is that word.
pub proof fn one_word_is_one_word(w: Seq<char>)
    requires
        is_word(w),
    ensures
        words_of(w) == seq![w],
        words_of(Seq::empty()).len() == 0,
    decreases w.len(),
{
    let c = w.last();
    assert(!is_space(w[w.len() - 1]));
    if w.len() == 1 {
        assert(w.drop_last() =~= Seq::empty());
        assert(words_of(w.drop_last()).len() == 0);
        assert(seq![c] =~= w);
        assert(words_of(w) =~= seq![w]);
    } else {
        let front = w.drop_last();
        assert(is_word(front)) by {
            assert forall|i: int| 0 <= i < front.len() implies !is_space(#[trigger] front[i]) by {
                assert(front[i] == w[i]);
            }
        }
        one_word_is_one_word(front);
        assert(!is_space(w[w.len() - 2]));
        assert(front.push(c) =~= w);
        assert(words_of(front).last() == front);
        assert(words_of(w) =~= seq![w]);
    }
}

/// The beginning of a text is of so many characters, or all of it.
pub proof fn a_text_is_cut_to_its_beginning(s: Seq<char>, count: nat)
    ensures
        first_chars(s, count).len() == (if s.len() < count {
            s.len()
        } else {
            count
        }),
        forall|i: int| 0 <= i < first_chars(s, count).len() ==> #[trigger] first_chars(s, count)[i]
            == s[i],
{
}

/// A text stands for a number where it is of digits alone, with a plus sign in front or without one;
/// the number is that of its digits.
pub proof fn a_number_is_of_digits_alone(s: Seq<char>, i: int, n: u64)
    requires
        0 <= i < s.len(),
    ensures
        !('0' <= s[i] && s[i] <= '9') && !(i == 0 && s[0] == '+') ==> parsed_u64(s) is None,
        parsed_u64(Seq::empty()) is None,
        parsed_u64(seq!['+']) is None,
        parsed_u64(decimal(n as nat)) == Some(n),
        parsed_u64(seq!['+'] + decimal(n as nat)) == Some(n),
        parsed_u64(seq!['0'] + decimal(n as nat)) == Some(n),
{
    decimal_reads_back(n);
    lemma_decimal_digits(n as nat);
    let d = decimal(n as nat);
    assert((seq!['+'] + d).drop_first() =~= d);
    assert(seq!['+'].drop_first() =~= Seq::empty());
    assert(is_digit(d[0]));
    let z = seq!['0'] + d;
    lemma_leading_zero(d);
    assert(all_digits(z)) by {
        assert forall|k: int| 0 <= k < z.len() implies is_digit(#[trigger] z[k]) by {
            if k > 0 {
                assert(z[k] == d[k - 1]);
                assert(is_digit(d[k - 1]));
            }
        }
    }
    if !('0' <= s[i] && s[i] <= '9') && !(i == 0 && s[0] == '+') {
        if s[0] == '+' {
            let body = s.drop_first();
            assert(body[i - 1] == s[i]);
            assert(!is_digit(body[i - 1]));
        } else {
            assert(!is_digit(s[i]));
        }
    }
}

proof fn lemma_leading_zero(d: Seq<char>)
    ensures
        digits_value(seq!['0'] + d) == digits_value(d),
    decreases d.len(),
{
    let z = seq!['0'] + d;
    if d.len() > 0 {
        lemma_leading_zero(d.drop_last());
        assert(z.drop_last() =~= seq!['0'] + d.drop_last());
    } else {
        assert(z.drop_last() =~= Seq::empty());
        assert(z.last() == '0');
        assert(digits_value(z.drop_last()) == 0);
    }
}

/// A negative number is written as a minus sign and the digits of its amount.
pub proof fn a_negative_number_has_a_sign(n: int)
    ensures
        n < 0 ==> signed_decimal(n) == seq!['-'] + decimal((-n) as nat),
        n >= 0 ==> signed_decimal(n) == decimal(n as nat),
        n >= 0 ==> all_digits(signed_decimal(n)) && digits_value(signed_decimal(n)) == n,
        n < 0 ==> signed_decimal(n)[0] == '-' && digits_value(signed_decimal(n).skip(1)) == -n,
{
    if n >= 0 {
        lemma_decimal_digits(n as nat);
    } else {
        lemma_decimal_digits((-n) as nat);
        assert(signed_decimal(n).skip(1) =~= decimal((-n) as nat));
    }
}

/// Texts are ordered by their first difference; a text comes before every longer one that begins
/// with it.
pub proof fn the_first_difference_decides(
    common: Seq<char>,
    x: char,
    y: char,
    a: Seq<char>,
    b: Seq<char>,
)
    requires
        x < y,
    ensures
        less(common + seq![x] + a, common + seq![y] + b),
        !less(common + seq![y] + b, common + seq![x] + a),
        less(common, common + seq![x] + a),
        !less(common + seq![x] + a, common),
    decreases common.len(),
{
    let s = common + seq![x] + a;
    let t = common + seq![y] + b;
    if common.len() > 0 {
        let rest = common.drop_first();
        the_first_difference_decides(rest, x, y, a, b);
        assert(s.drop_first() =~= rest + seq![x] + a);
        assert(t.drop_first() =~= rest + seq![y] + b);
        assert(s[0] == common[0] && t[0] == common[0]);
    } else {
        assert(s[0] == x && t[0] == y);
    }
}

} // verus!
