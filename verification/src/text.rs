//! Text: comparison, search, trimming and numbers in decimal.

use vstd::prelude::*;

verus! {

/// The ASCII lower-case form of one character; any other character is kept.
pub open spec fn ascii_lower(c: char) -> char {
    if 'A' <= c && c <= 'Z' {
        ((c as u32) + 32) as char
    } else {
        c
    }
}

/// A text with every ASCII letter in lower case.
pub open spec fn ascii_folded(s: Seq<char>) -> Seq<char> {
    s.map_values(|c: char| ascii_lower(c))
}

/// Two texts that differ at most in the case of ASCII letters.
pub open spec fn same_ignoring_ascii_case(a: Seq<char>, b: Seq<char>) -> bool {
    ascii_folded(a) == ascii_folded(b)
}

/// The characters of a text, in order.
pub fn char_vec(s: &str) -> (r: Vec<char>)
    ensures
        r@ == s@,
{
    let mut r: Vec<char> = Vec::new();
    for c in it: s.chars()
        invariant
            it.seq() == s@,
            r@ == s@.take(it.index() as int),
    {
        proof {
            assert(s@.take(it.index() + 1) =~= s@.take(it.index() as int).push(c));
        }
        r.push(c);
    }
    proof {
        assert(s@.take(s@.len() as int) =~= s@);
    }
    r
}

fn lower_char(c: char) -> (r: char)
    ensures
        r == ascii_lower(c),
{
    if 'A' <= c && c <= 'Z' {
        let b: u8 = c as u8;
        (b + 32) as char
    } else {
        c
    }
}

/// Whether two texts are equal, character by character.
pub fn text_eq(a: &str, b: &str) -> (r: bool)
    ensures
        r == (a@ == b@),
{
    let x = char_vec(a);
    let y = char_vec(b);
    if x.len() != y.len() {
        return false;
    }
    let mut i: usize = 0;
    while i < x.len()
        invariant
            i <= x.len(),
            x.len() == y.len(),
            x@ == a@,
            y@ == b@,
            forall|j: int| 0 <= j < i ==> x@[j] == y@[j],
        decreases x.len() - i,
    {
        if x[i] != y[i] {
            return false;
        }
        i += 1;
    }
    assert(x@ =~= y@);
    true
}

/// Whether two texts are equal up to the case of ASCII letters.
pub fn eq_ignore_ascii_case(a: &str, b: &str) -> (r: bool)
    ensures
        r == same_ignoring_ascii_case(a@, b@),
{
    let x = char_vec(a);
    let y = char_vec(b);
    if x.len() != y.len() {
        assert(ascii_folded(a@).len() != ascii_folded(b@).len());
        return false;
    }
    let mut i: usize = 0;
    while i < x.len()
        invariant
            i <= x.len(),
            x.len() == y.len(),
            x@ == a@,
            y@ == b@,
            forall|j: int| 0 <= j < i ==> ascii_lower(x@[j]) == ascii_lower(y@[j]),
        decreases x.len() - i,
    {
        if lower_char(x[i]) != lower_char(y[i]) {
            assert(ascii_folded(a@)[i as int] != ascii_folded(b@)[i as int]);
            return false;
        }
        i += 1;
    }
    assert(ascii_folded(a@) =~= ascii_folded(b@));
    true
}

/// What `str::to_lowercase` returns for a text that is not all ASCII.
pub uninterp spec fn unicode_lowercase(s: Seq<char>) -> Seq<char>;

/// `str::to_lowercase`: on ASCII text, each letter in its ASCII lower case; on any
/// other text, some text that depends on the given one alone.
pub assume_specification[ str::to_lowercase ](s: &str) -> (r: String)
    ensures
        r@ == (if vstd::utf8::is_ascii_chars(s@) {
            ascii_folded(s@)
        } else {
            unicode_lowercase(s@)
        }),
;

/// The lower-case form of a text.
pub open spec fn lowercase(s: Seq<char>) -> Seq<char> {
    if vstd::utf8::is_ascii_chars(s) {
        ascii_folded(s)
    } else {
        unicode_lowercase(s)
    }
}

/// The ASCII upper-case form of one character; any other character is kept.
pub open spec fn ascii_upper(c: char) -> char {
    if 'a' <= c && c <= 'z' {
        ((c as u32) - 32) as char
    } else {
        c
    }
}

/// What `str::to_uppercase` returns for a text that is not all ASCII.
pub uninterp spec fn unicode_uppercase(s: Seq<char>) -> Seq<char>;

/// `str::to_uppercase`: on ASCII text, each letter in its ASCII upper case; on any
/// other text, some text that depends on the given one alone.
pub assume_specification[ str::to_uppercase ](s: &str) -> (r: String)
    ensures
        r@ == (if vstd::utf8::is_ascii_chars(s@) {
            s@.map_values(|c: char| ascii_upper(c))
        } else {
            unicode_uppercase(s@)
        }),
;

/// The upper-case form of a text.
pub open spec fn uppercase(s: Seq<char>) -> Seq<char> {
    if vstd::utf8::is_ascii_chars(s) {
        s.map_values(|c: char| ascii_upper(c))
    } else {
        unicode_uppercase(s)
    }
}

/// What `char::is_whitespace` returns for a character outside ASCII.
pub uninterp spec fn unicode_white_space(c: char) -> bool;

/// `char::is_whitespace`: of the ASCII characters, the space and the five from
/// tab to carriage return; of the others, a fixed set.
pub assume_specification[ char::is_whitespace ](c: char) -> (r: bool)
    ensures
        r == (if (c as u32) < 128 {
            c == ' ' || 9 <= (c as u32) <= 13
        } else {
            unicode_white_space(c)
        }),
;

/// Whether a character is white space.
pub open spec fn white_space(c: char) -> bool {
    if (c as u32) < 128 {
        c == ' ' || 9 <= (c as u32) <= 13
    } else {
        unicode_white_space(c)
    }
}

/// A text without the white space at its two ends.
pub open spec fn trimmed(s: Seq<char>) -> Seq<char>
    decreases s.len(),
{
    if s.len() > 0 && white_space(s[0]) {
        trimmed(s.skip(1))
    } else if s.len() > 0 && white_space(s.last()) {
        trimmed(s.drop_last())
    } else {
        s
    }
}

/// The text without the white space at its two ends.
pub fn trim(s: &str) -> (r: &str)
    ensures
        r@ == trimmed(s@),
{
    let x = char_vec(s);
    let mut from: usize = 0;
    assert(s@.skip(0) =~= s@);
    while from < x.len() && x[from].is_whitespace()
        invariant
            x@ == s@,
            from <= x@.len(),
            trimmed(s@) == trimmed(s@.skip(from as int)),
        decreases x@.len() - from,
    {
        assert(s@.skip(from as int).skip(1) =~= s@.skip(from + 1));
        from += 1;
    }
    let mut to: usize = x.len();
    assert(s@.skip(from as int) =~= s@.subrange(from as int, to as int));
    while to > from && x[to - 1].is_whitespace()
        invariant
            x@ == s@,
            from <= to <= x@.len(),
            from < x@.len() ==> !white_space(x@[from as int]),
            trimmed(s@) == trimmed(s@.subrange(from as int, to as int)),
        decreases to,
    {
        assert(s@.subrange(from as int, to as int).drop_last() =~= s@.subrange(
            from as int,
            to - 1,
        ));
        to -= 1;
    }
    s.substring_char(from, to)
}

/// Whether `needle` occurs in `hay` as a run of consecutive characters.
pub open spec fn occurs_in(needle: Seq<char>, hay: Seq<char>) -> bool {
    exists|i: int|
        0 <= i <= hay.len() - needle.len() && #[trigger] hay.subrange(i, i + needle.len())
            == needle
}

fn occurs_at(needle: &Vec<char>, hay: &Vec<char>, at: usize) -> (r: bool)
    requires
        at + needle.len() <= hay.len(),
    ensures
        r == (hay@.subrange(at as int, at + needle@.len()) == needle@),
{
    let mut j: usize = 0;
    while j < needle.len()
        invariant
            at + needle.len() <= hay.len(),
            j <= needle@.len(),
            forall|k: int| 0 <= k < j ==> hay@[at + k] == needle@[k],
        decreases needle@.len() - j,
    {
        if hay[at + j] != needle[j] {
            assert(hay@.subrange(at as int, at + needle@.len())[j as int] != needle@[j as int]);
            return false;
        }
        j += 1;
    }
    assert(hay@.subrange(at as int, at + needle@.len()) =~= needle@);
    true
}

/// Whether a text holds another one.
pub fn contains(hay: &str, needle: &str) -> (r: bool)
    ensures
        r == occurs_in(needle@, hay@),
{
    let h = char_vec(hay);
    let n = char_vec(needle);
    if n.len() > h.len() {
        return false;
    }
    let last: usize = h.len() - n.len();
    let mut i: usize = 0;
    loop
        invariant
            h@ == hay@,
            n@ == needle@,
            i <= last,
            last == h@.len() - n@.len(),
            forall|k: int|
                0 <= k < i ==> #[trigger] hay@.subrange(k, k + needle@.len()) != needle@,
        decreases last - i,
    {
        if occurs_at(&n, &h, i) {
            assert(hay@.subrange(i as int, i + needle@.len()) == needle@);
            return true;
        }
        if i == last {
            return false;
        }
        i += 1;
    }
}

pub open spec fn is_digit(c: char) -> bool {
    '0' <= c && c <= '9'
}

/// The number that a run of decimal digits stands for.
pub open spec fn decimal_value(s: Seq<char>) -> nat
    decreases s.len(),
{
    if s.len() == 0 {
        0
    } else {
        decimal_value(s.drop_last()) * 10 + ((s.last() as nat) - ('0' as nat)) as nat
    }
}

/// A number in decimal, without a sign and without leading zeros.
pub open spec fn decimal(n: nat) -> Seq<char>
    decreases n,
{
    let digit = (('0' as nat) + n % 10) as char;
    if n < 10 {
        seq![digit]
    } else {
        decimal(n / 10).push(digit)
    }
}

/// Whether a text consists of decimal digits, at least one.
pub open spec fn all_digits(s: Seq<char>) -> bool {
    s.len() > 0 && forall|i: int| 0 <= i < s.len() ==> is_digit(#[trigger] s[i])
}

/// A text without its plus sign, if it starts with one.
pub open spec fn without_plus(s: Seq<char>) -> Seq<char> {
    if s.len() > 0 && s[0] == '+' {
        s.skip(1)
    } else {
        s
    }
}

/// The number that a text stands for: decimal digits, at least one, after an
/// optional plus sign, of a value that a `usize` can hold.
pub open spec fn parsed_usize(s: Seq<char>) -> Option<usize> {
    let digits = without_plus(s);
    if all_digits(digits) && decimal_value(digits) <= usize::MAX {
        Some(decimal_value(digits) as usize)
    } else {
        None
    }
}

proof fn lemma_value_grows(s: Seq<char>, n: int)
    requires
        0 <= n <= s.len(),
        all_digits(s),
    ensures
        decimal_value(s.take(n)) <= decimal_value(s),
    decreases s.len(),
{
    if n == s.len() {
        assert(s.take(n) =~= s);
    } else {
        if s.len() > 1 {
            lemma_value_grows(s.drop_last(), n);
        }
        assert(s.drop_last().take(n) =~= s.take(n));
    }
}

/// The number that a text stands for, if it stands for one.
pub fn parse_usize(s: &str) -> (r: Option<usize>)
    ensures
        r == parsed_usize(s@),
{
    let x = char_vec(s);
    let from: usize = if x.len() > 0 && x[0] == '+' {
        1
    } else {
        0
    };
    let ghost digits = without_plus(s@);
    proof {
        assert(s@.skip(0) =~= s@);
        assert(digits == s@.skip(from as int));
    }
    if from == x.len() {
        assert(digits.len() == 0);
        return None;
    }
    let mut value: usize = 0;
    let mut i: usize = from;
    while i < x.len()
        invariant
            x@ == s@,
            from <= i <= x@.len(),
            digits == s@.skip(from as int),
            digits == without_plus(s@),
            forall|k: int| 0 <= k < i - from ==> is_digit(#[trigger] digits[k]),
            value == decimal_value(digits.take(i - from)),
        decreases x@.len() - i,
    {
        let c = x[i];
        let ghost n: int = i - from;
        assert(digits[n] == c);
        if !('0' <= c && c <= '9') {
            assert(!is_digit(digits[n]));
            return None;
        }
        let d: usize = c as usize - '0' as usize;
        proof {
            assert(digits.take(n + 1).drop_last() =~= digits.take(n));
            assert(decimal_value(digits.take(n + 1)) == value * 10 + d);
            if value * 10 + d > usize::MAX && all_digits(digits) {
                lemma_value_grows(digits, n + 1);
            }
        }
        if value > usize::MAX / 10 || (value == usize::MAX / 10 && d > usize::MAX % 10) {
            return None;
        }
        value = value * 10 + d;
        i += 1;
    }
    assert(digits.take(digits.len() as int) =~= digits);
    Some(value)
}

/// What is written in decimal is digits that stand for the number.
pub(crate) proof fn lemma_decimal(n: nat)
    ensures
        all_digits(decimal(n)),
        decimal_value(decimal(n)) == n,
    decreases n,
{
    let digit = (('0' as nat) + n % 10) as char;
    assert(is_digit(digit));
    if n < 10 {
        assert(decimal(n).drop_last() =~= Seq::<char>::empty());
        assert(decimal_value(Seq::<char>::empty()) == 0);
    } else {
        lemma_decimal(n / 10);
        assert(decimal(n).drop_last() =~= decimal(n / 10));
    }
}

/// A number written in decimal is read back as itself.
pub proof fn law_decimal_round_trip(n: usize)
    ensures
        parsed_usize(decimal(n as nat)) == Some(n),
{
    lemma_decimal(n as nat);
    assert(is_digit(decimal(n as nat)[0]));
}

/// `String::push` appends one character.
pub assume_specification[ String::push ](s: &mut String, c: char)
    ensures
        final(s)@ == old(s)@.push(c),
;

/// Appends a number in decimal.
pub fn push_decimal(s: &mut String, n: usize)
    ensures
        final(s)@ == old(s)@ + decimal(n as nat),
    decreases n,
{
    if n >= 10 {
        push_decimal(s, n / 10);
    }
    let d: u8 = (n % 10) as u8;
    s.push((48 + d) as char);
    assert(s@ =~= old(s)@ + decimal(n as nat));
}

/// Searching for one text or for another that differs from it only in the case
/// of ASCII letters is the same, in ASCII text.
pub proof fn law_ascii_search_ignores_case(
    needle: Seq<char>,
    other: Seq<char>,
    hay: Seq<char>,
)
    requires
        vstd::utf8::is_ascii_chars(needle),
        vstd::utf8::is_ascii_chars(other),
        same_ignoring_ascii_case(needle, other),
    ensures
        occurs_in(lowercase(needle), lowercase(hay)) == occurs_in(
            lowercase(other),
            lowercase(hay),
        ),
{
}

/// Whether two characters are one ASCII letter in its two cases.
pub open spec fn two_cases(c: char, d: char) -> bool {
    ||| 'a' <= c && c <= 'z' && d as int == c as int - 32
    ||| 'A' <= c && c <= 'Z' && d as int == c as int + 32
}

/// Whether two texts have the same length and, in each place, the same character or
/// the two cases of one ASCII letter.
pub open spec fn differ_in_case_only(a: Seq<char>, b: Seq<char>) -> bool {
    &&& a.len() == b.len()
    &&& forall|i: int|
        0 <= i < a.len() ==> #[trigger] a[i] == b[i] || two_cases(a[i], b[i])
}

/// Two texts are the same up to ASCII case exactly if they are so place by place.
pub proof fn law_case_is_compared_place_by_place(a: Seq<char>, b: Seq<char>)
    ensures
        same_ignoring_ascii_case(a, b) <==> differ_in_case_only(a, b),
{
    let x = ascii_folded(a);
    let y = ascii_folded(b);
    if x == y {
        assert(a.len() == x.len() && b.len() == y.len());
        assert forall|i: int| 0 <= i < a.len() implies #[trigger] a[i] == b[i] || two_cases(
            a[i],
            b[i],
        ) by {
            assert(x[i] == y[i]);
        }
    }
    if differ_in_case_only(a, b) {
        assert forall|i: int| 0 <= i < x.len() implies x[i] == y[i] by {
            assert(a[i] == b[i] || two_cases(a[i], b[i]));
        }
        assert(x =~= y);
    }
}

/// The lower-case form of an ASCII text differs from it in case only and has no
/// upper-case letter; any other text has the form that Unicode gives it.
pub proof fn law_lowercase(s: Seq<char>)
    ensures
        vstd::utf8::is_ascii_chars(s) ==> differ_in_case_only(s, lowercase(s)) && forall|i: int|
            0 <= i < s.len() ==> !('A' <= #[trigger] lowercase(s)[i] && lowercase(s)[i] <= 'Z'),
        !vstd::utf8::is_ascii_chars(s) ==> lowercase(s) == unicode_lowercase(s),
{
}

/// The upper-case form of an ASCII text differs from it in case only and has no
/// lower-case letter; any other text has the form that Unicode gives it.
pub proof fn law_uppercase(s: Seq<char>)
    ensures
        vstd::utf8::is_ascii_chars(s) ==> differ_in_case_only(s, uppercase(s)) && forall|i: int|
            0 <= i < s.len() ==> !('a' <= #[trigger] uppercase(s)[i] && uppercase(s)[i] <= 'z'),
        !vstd::utf8::is_ascii_chars(s) ==> uppercase(s) == unicode_uppercase(s),
{
}

/// Whether `t` is `s` from one place to another, with nothing but white space
/// outside and no white space at the ends inside.
pub open spec fn white_outside(s: Seq<char>, t: Seq<char>, from: int, to: int) -> bool {
    &&& 0 <= from <= to <= s.len()
    &&& t == s.subrange(from, to)
    &&& forall|k: int| 0 <= k < from ==> white_space(#[trigger] s[k])
    &&& forall|k: int| to <= k < s.len() ==> white_space(#[trigger] s[k])
    &&& from < to ==> !white_space(s[from]) && !white_space(s[to - 1])
}

proof fn lemma_trimmed_from_to(s: Seq<char>) -> (r: (int, int))
    ensures
        white_outside(s, trimmed(s), r.0, r.1),
    decreases s.len(),
{
    if s.len() > 0 && white_space(s[0]) {
        let t = s.skip(1);
        let (from, to) = lemma_trimmed_from_to(t);
        assert(s.subrange(from + 1, to + 1) =~= t.subrange(from, to));
        assert forall|k: int| 0 <= k < from + 1 implies white_space(#[trigger] s[k]) by {
            if k > 0 {
                assert(s[k] == t[k - 1]);
            }
        }
        assert forall|k: int| to + 1 <= k < s.len() implies white_space(#[trigger] s[k]) by {
            assert(s[k] == t[k - 1]);
        }
        (from + 1, to + 1)
    } else if s.len() > 0 && white_space(s.last()) {
        let t = s.drop_last();
        let (from, to) = lemma_trimmed_from_to(t);
        assert(s.subrange(from, to) =~= t.subrange(from, to));
        assert forall|k: int| 0 <= k < from implies white_space(#[trigger] s[k]) by {
            assert(s[k] == t[k]);
        }
        assert forall|k: int| to <= k < s.len() implies white_space(#[trigger] s[k]) by {
            if k < t.len() {
                assert(s[k] == t[k]);
            }
        }
        (from, to)
    } else {
        assert(s.subrange(0, s.len() as int) =~= s);
        (0, s.len() as int)
    }
}

/// Trimming takes away white space, all that there is at the two ends, and nothing
/// else.
pub proof fn law_trimming_takes_the_white_ends(s: Seq<char>)
    ensures
        exists|from: int, to: int| white_outside(s, trimmed(s), from, to),
{
    let (from, to) = lemma_trimmed_from_to(s);
    assert(white_outside(s, trimmed(s), from, to));
}

/// The white space of ASCII: space, tab, line feed, vertical tab, form feed and
/// carriage return.
pub proof fn law_ascii_white_space(c: char)
    requires
        c as int <= 127,
    ensures
        white_space(c) <==> c == ' ' || c == '\t' || c == '\n' || c == '\x0b' || c == '\x0c' || c
            == '\r',
{
}

/// A text occurs in another exactly if the other is some text, then it, then some
/// text.
pub proof fn law_occurring_is_standing_between(needle: Seq<char>, hay: Seq<char>)
    ensures
        occurs_in(needle, hay) <==> exists|before: Seq<char>, after: Seq<char>|
            hay == #[trigger] (before + needle + after),
{
    if occurs_in(needle, hay) {
        let i = choose|i: int|
            0 <= i <= hay.len() - needle.len() && #[trigger] hay.subrange(i, i + needle.len())
                == needle;
        let before = hay.take(i);
        let after = hay.skip(i + needle.len());
        assert forall|k: int| 0 <= k < needle.len() implies hay[i + k] == needle[k] by {
            assert(hay.subrange(i, i + needle.len())[k] == needle[k]);
        }
        assert(hay =~= before + needle + after);
    }
    if exists|before: Seq<char>, after: Seq<char>| hay == #[trigger] (before + needle + after) {
        let (before, after) = choose|before: Seq<char>, after: Seq<char>|
            hay == #[trigger] (before + needle + after);
        let i = before.len() as int;
        assert(hay.subrange(i, i + needle.len()) =~= needle);
    }
}

/// A number below 10 is written as one digit, and ten times a number plus a digit is
/// written as the number with the digit behind it.
pub proof fn law_decimal_is_written_digit_by_digit(n: nat, digit: nat)
    requires
        digit < 10,
    ensures
        decimal(digit) == seq![(48 + digit) as char],
        n > 0 ==> decimal(10 * n + digit) == decimal(n).push((48 + digit) as char),
{
    assert((10 * n + digit) / 10 == n && (10 * n + digit) % 10 == digit);
}

/// An optional plus sign, some zeros and some digits.
pub open spec fn padded(plus: bool, zeros: nat, digits: Seq<char>) -> Seq<char> {
    (if plus {
        seq!['+']
    } else {
        Seq::empty()
    }) + Seq::new(zeros, |i: int| '0') + digits
}

proof fn lemma_zeros(zeros: nat, digits: Seq<char>)
    requires
        all_digits(digits),
    ensures
        all_digits(padded(false, zeros, digits)),
        decimal_value(padded(false, zeros, digits)) == decimal_value(digits),
    decreases zeros + digits.len(),
{
    let all = padded(false, zeros, digits);
    assert forall|i: int| 0 <= i < all.len() implies is_digit(#[trigger] all[i]) by {
        if i >= zeros {
            assert(all[i] == digits[i - zeros]);
        }
    }
    if digits.len() == 1 {
        assert(all.drop_last() =~= Seq::new(zeros, |i: int| '0'));
        lemma_all_zeros(zeros);
        assert(decimal_value(digits.drop_last()) == 0);
    } else {
        assert(digits.drop_last().len() > 0);
        assert(all_digits(digits.drop_last()));
        lemma_zeros(zeros, digits.drop_last());
        assert(all.drop_last() =~= padded(false, zeros, digits.drop_last()));
    }
}

proof fn lemma_all_zeros(zeros: nat)
    ensures
        decimal_value(Seq::new(zeros, |i: int| '0')) == 0,
    decreases zeros,
{
    if zeros > 0 {
        lemma_all_zeros((zeros - 1) as nat);
        assert(Seq::new(zeros, |i: int| '0').drop_last() =~= Seq::new(
            (zeros - 1) as nat,
            |i: int| '0',
        ));
    }
}

/// Digits are their value in decimal, after some zeros.
proof fn lemma_digits_are_padded(digits: Seq<char>) -> (zeros: nat)
    requires
        all_digits(digits),
    ensures
        digits == padded(false, zeros, decimal(decimal_value(digits))),
    decreases digits.len(),
{
    let d = digits.last();
    let n = decimal_value(digits.drop_last());
    assert(is_digit(d));
    let digit = (d as nat - 48) as nat;
    assert((48 + digit) as char == d);
    if digits.len() == 1 {
        assert(n == 0);
        assert(digits =~= padded(false, 0, decimal(decimal_value(digits))));
        0
    } else {
        let head = digits.drop_last();
        assert(all_digits(head));
        let zeros = lemma_digits_are_padded(head);
        law_decimal_is_written_digit_by_digit(n, digit);
        if n > 0 {
            assert(decimal_value(digits) == 10 * n + digit);
            assert(digits =~= head.push(d));
            assert(head.push(d) =~= padded(false, zeros, decimal(n).push(d)));
            zeros
        } else {
            assert(decimal(0) =~= seq!['0']);
            assert(head =~= Seq::new(zeros + 1, |i: int| '0'));
            assert(digits =~= padded(false, zeros + 1, decimal(decimal_value(digits))));
            zeros + 1
        }
    }
}

/// A text stands for a number exactly if it is the number in decimal, after any
/// number of zeros and an optional plus sign.
pub proof fn law_what_stands_for_a_number(s: Seq<char>, n: usize)
    ensures
        parsed_usize(s) == Some(n) <==> exists|plus: bool, zeros: nat|
            s == #[trigger] padded(plus, zeros, decimal(n as nat)),
{
    if parsed_usize(s) == Some(n) {
        let digits = without_plus(s);
        let zeros = lemma_digits_are_padded(digits);
        let plus = s.len() > 0 && s[0] == '+';
        assert(digits == padded(false, zeros, decimal(n as nat)));
        if plus {
            assert(s =~= seq!['+'] + digits);
            assert(s =~= padded(true, zeros, decimal(n as nat)));
        } else {
            assert(s == padded(false, zeros, decimal(n as nat)));
        }
    }
    if exists|plus: bool, zeros: nat| s == #[trigger] padded(plus, zeros, decimal(n as nat)) {
        let (plus, zeros) = choose|plus: bool, zeros: nat|
            s == #[trigger] padded(plus, zeros, decimal(n as nat));
        lemma_decimal(n as nat);
        lemma_zeros(zeros, decimal(n as nat));
        let digits = padded(false, zeros, decimal(n as nat));
        assert(is_digit(digits[0]));
        if plus {
            assert(s.skip(1) =~= digits);
        } else {
            assert(s =~= digits);
        }
        assert(without_plus(s) == digits);
    }
}

} // verus!
