//! Text made of characters: decimal numbers, trimming, splitting and joining.

use vstd::prelude::*;

verus! {

/// `String::push` adds one character at the end.
pub assume_specification[ String::push ](s: &mut String, c: char)
    ensures
        final(s)@ == old(s)@.push(c),
;

/// The decimal digit that stands for `d`.
pub open spec fn digit(d: nat) -> char {
    ('0' as u32 + d) as char
}

/// `n` written in decimal, without leading zeros.
pub open spec fn decimal(n: nat) -> Seq<char>
    decreases n,
{
    if n < 10 {
        seq![digit(n)]
    } else {
        decimal(n / 10).push(digit(n % 10))
    }
}

/// `n` written in decimal, with a leading zero where it would have one digit only.
pub open spec fn two_digits(n: nat) -> Seq<char> {
    if n < 10 {
        seq!['0', digit(n)]
    } else {
        decimal(n)
    }
}

/// Whether `c` is a decimal digit.
pub open spec fn is_digit(c: char) -> bool {
    '0' <= c <= '9'
}

/// The number that the decimal digits `s` stand for.
pub open spec fn digits_value(s: Seq<char>) -> nat
    decreases s.len(),
{
    if s.len() == 0 {
        0
    } else {
        digits_value(s.drop_last()) * 10 + (s.last() as u32 - '0' as u32) as nat
    }
}

/// The digits of a number that may be written with a plus sign in front.
pub open spec fn unsigned(s: Seq<char>) -> Seq<char> {
    if s.len() > 0 && s[0] == '+' {
        s.skip(1)
    } else {
        s
    }
}

/// The unsigned 64-bit number that `s` is the text of: an optional plus sign and then at least
/// one decimal digit, and nothing else. A number that does not fit has no value.
pub open spec fn u64_value(s: Seq<char>) -> Option<u64> {
    let digits = unsigned(s);
    if digits.len() > 0 && (forall|i: int| 0 <= i < digits.len() ==> is_digit(#[trigger] digits[i]))
        && digits_value(digits) <= u64::MAX {
        Some(digits_value(digits) as u64)
    } else {
        None
    }
}

/// Why a text is no unsigned 64-bit number.
#[derive(Clone, Copy, Debug, PartialEq, Eq, Structural)]
pub enum NumberError {
    /// There is no text.
    Empty,
    /// A character is no digit, or there is none behind a plus sign.
    InvalidDigit,
    /// The digits make a number that does not fit.
    TooLarge,
}

impl NumberError {
    /// What the user is told about it.
    pub open spec fn text(self) -> Seq<char> {
        match self {
            NumberError::Empty => "cannot parse integer from empty string"@,
            NumberError::InvalidDigit => "invalid digit found in string"@,
            NumberError::TooLarge => "number too large to fit in target type"@,
        }
    }

    /// Tells the user about it.
    pub fn message(self) -> (message: String)
        ensures
            message@ == self.text(),
    {
        match self {
            NumberError::Empty => "cannot parse integer from empty string".to_owned(),
            NumberError::InvalidDigit => "invalid digit found in string".to_owned(),
            NumberError::TooLarge => "number too large to fit in target type".to_owned(),
        }
    }
}

/// How many digits stand at the start of `s`.
pub open spec fn leading_digits(s: Seq<char>) -> nat
    decreases s.len(),
{
    if s.len() == 0 || !is_digit(s[0]) {
        0
    } else {
        1 + leading_digits(s.skip(1))
    }
}

/// What is wrong with a text that is no unsigned 64-bit number: where the digits before the first
/// other character already make too great a number, that, and not the character.
pub open spec fn number_error(s: Seq<char>) -> NumberError {
    let digits = unsigned(s);
    if s.len() == 0 {
        NumberError::Empty
    } else if digits_value(digits.take(leading_digits(digits) as int)) > u64::MAX {
        NumberError::TooLarge
    } else {
        NumberError::InvalidDigit
    }
}

/// The characters of `s`.
pub fn to_chars(s: &str) -> (v: Vec<char>)
    ensures
        v@ == s@,
{
    let mut v: Vec<char> = Vec::new();
    for c in it: s.chars()
        invariant
            v@.len() == it.index(),
            forall|i: int| 0 <= i < v@.len() ==> v@[i] == it.seq()[i],
            it.seq() == s@,
    {
        v.push(c);
    }
    v
}

/// The text made of the characters of `v` from `from` up to but not including `to`.
pub fn from_chars(v: &Vec<char>, from: usize, to: usize) -> (s: String)
    requires
        from <= to <= v@.len(),
    ensures
        s@ == v@.subrange(from as int, to as int),
{
    let mut s = String::new();
    let mut i: usize = from;
    while i < to
        invariant
            from <= i <= to <= v@.len(),
            s@ == v@.subrange(from as int, i as int),
        decreases to - i,
    {
        s.push(v[i]);
        i += 1;
    }
    s
}

fn digit_char(d: u8) -> (c: char)
    requires
        d < 10,
    ensures
        c == digit(d as nat),
{
    (48u8 + d) as char
}

/// Writes `n` in decimal.
pub fn decimal_text(n: u64) -> (s: String)
    ensures
        s@ == decimal(n as nat),
    decreases n,
{
    if n < 10 {
        let mut s = String::new();
        s.push(digit_char(n as u8));
        s
    } else {
        let mut s = decimal_text(n / 10);
        s.push(digit_char((n % 10) as u8));
        s
    }
}

/// Writes `n` in decimal with at least two digits.
pub fn two_digit_text(n: u64) -> (s: String)
    ensures
        s@ == two_digits(n as nat),
{
    if n < 10 {
        let mut s = String::new();
        s.push('0');
        s.push(digit_char(n as u8));
        s
    } else {
        decimal_text(n)
    }
}

/// The position of the first `c` in `s`, or the length of `s` where there is none.
pub open spec fn first_index(s: Seq<char>, c: char) -> nat
    decreases s.len(),
{
    if s.len() == 0 || s[0] == c {
        0
    } else {
        1 + first_index(s.skip(1), c)
    }
}

/// What stands behind the last `c` in `s`, or all of `s` where there is none.
pub open spec fn after_last(s: Seq<char>, c: char) -> Seq<char>
    decreases s.len(),
{
    if s.len() == 0 || s.last() == c {
        Seq::empty()
    } else {
        after_last(s.drop_last(), c).push(s.last())
    }
}

/// Whether `c` has the Unicode property `White_Space`.
pub open spec fn is_space(c: char) -> bool {
    ||| '\u{9}' <= c <= '\u{d}'
    ||| c == ' '
    ||| c == '\u{85}'
    ||| c == '\u{a0}'
    ||| c == '\u{1680}'
    ||| '\u{2000}' <= c <= '\u{200a}'
    ||| c == '\u{2028}'
    ||| c == '\u{2029}'
    ||| c == '\u{202f}'
    ||| c == '\u{205f}'
    ||| c == '\u{3000}'
}

/// `s` without the white space at its start.
pub open spec fn trim_start(s: Seq<char>) -> Seq<char>
    decreases s.len(),
{
    if s.len() > 0 && is_space(s[0]) {
        trim_start(s.skip(1))
    } else {
        s
    }
}

/// `s` without the white space at its end.
pub open spec fn trim_end(s: Seq<char>) -> Seq<char>
    decreases s.len(),
{
    if s.len() > 0 && is_space(s.last()) {
        trim_end(s.drop_last())
    } else {
        s
    }
}

/// `s` without the white space around it.
pub open spec fn trim(s: Seq<char>) -> Seq<char> {
    trim_end(trim_start(s))
}

/// The position of the first `c` is where nothing before is `c`.
pub(crate) proof fn lemma_first_index(s: Seq<char>, c: char, n: nat)
    requires
        n <= s.len(),
        forall|i: int| 0 <= i < n ==> s[i] != c,
        n < s.len() ==> s[n as int] == c,
    ensures
        first_index(s, c) == n,
    decreases n,
{
    if n > 0 {
        lemma_first_index(s.skip(1), c, (n - 1) as nat);
    }
}

/// What stands behind the last `c` is a suffix without `c`.
pub(crate) proof fn lemma_after_last(s: Seq<char>, c: char, n: int)
    requires
        0 <= n <= s.len(),
        forall|i: int| n <= i < s.len() ==> s[i] != c,
        n > 0 ==> s[n - 1] == c,
    ensures
        after_last(s, c) == s.skip(n),
    decreases s.len(),
{
    if n < s.len() {
        lemma_after_last(s.drop_last(), c, n);
        assert(s.drop_last().skip(n).push(s.last()) =~= s.skip(n));
    } else {
        assert(s.skip(n) =~= Seq::empty());
    }
}

/// The digits at the start of a text end where another character stands.
proof fn lemma_leading_digits(s: Seq<char>)
    ensures
        leading_digits(s) <= s.len(),
        forall|i: int| 0 <= i < leading_digits(s) ==> is_digit(#[trigger] s[i]),
        leading_digits(s) < s.len() ==> !is_digit(s[leading_digits(s) as int]),
    decreases s.len(),
{
    if s.len() > 0 && is_digit(s[0]) {
        lemma_leading_digits(s.skip(1));
        assert forall|i: int| 0 <= i < leading_digits(s) implies is_digit(#[trigger] s[i]) by {
            if i > 0 {
                assert(s.skip(1)[i - 1] == s[i]);
            }
        }
    }
}

/// The first digits of a number make no greater number than all of them.
proof fn lemma_digits_value_of_prefix(s: Seq<char>, n: int)
    requires
        0 <= n <= s.len(),
        forall|i: int| 0 <= i < s.len() ==> is_digit(#[trigger] s[i]),
    ensures
        digits_value(s.take(n)) <= digits_value(s),
    decreases s.len(),
{
    if n < s.len() {
        assert(s.drop_last().take(n) =~= s.take(n));
        lemma_digits_value_of_prefix(s.drop_last(), n);
    } else {
        assert(s.take(n) =~= s);
    }
}

/// Writing a number and reading it again gives the number.
pub proof fn law_decimal_reads_back(n: u64)
    ensures
        u64_value(decimal(n as nat)) == Some(n),
{
    lemma_decimal_value(n as nat);
}

/// A number in decimal is made of digits, and they make the number.
pub(crate) proof fn lemma_decimal_value(n: nat)
    ensures
        decimal(n).len() > 0,
        forall|i: int| 0 <= i < decimal(n).len() ==> is_digit(#[trigger] decimal(n)[i]),
        digits_value(decimal(n)) == n,
    decreases n,
{
    let d: nat = n % 10;
    assert('0' <= digit(d) <= '9');
    assert(digit(d) as u32 - '0' as u32 == d);
    if n < 10 {
        assert(decimal(n).drop_last() =~= Seq::empty());
        assert(digits_value(Seq::empty()) == 0);
    } else {
        lemma_decimal_value(n / 10);
        assert(decimal(n).drop_last() =~= decimal(n / 10));
    }
}

/// Finds the first `c` in the characters of `v` from `from` on.
pub fn find_from(v: &Vec<char>, from: usize, c: char) -> (at: usize)
    requires
        from <= v@.len(),
    ensures
        from <= at <= v@.len(),
        at == from + first_index(v@.skip(from as int), c),
{
    let mut i: usize = from;
    while i < v.len() && v[i] != c
        invariant
            from <= i <= v@.len(),
            forall|j: int| from <= j < i ==> v@[j] != c,
        decreases v@.len() - i,
    {
        i += 1;
    }
    proof {
        lemma_first_index(v@.skip(from as int), c, (i - from) as nat);
    }
    i
}

/// What stands behind the last `c` in `s`, or all of `s` where there is none.
pub fn text_after_last(s: &str, c: char) -> (tail: String)
    ensures
        tail@ == after_last(s@, c),
{
    let v = to_chars(s);
    let mut i: usize = v.len();
    while i > 0 && v[i - 1] != c
        invariant
            0 <= i <= v@.len(),
            forall|j: int| i <= j < v@.len() ==> v@[j] != c,
        decreases i,
    {
        i -= 1;
    }
    proof {
        lemma_after_last(v@, c, i as int);
        assert(v@.subrange(i as int, v@.len() as int) =~= v@.skip(i as int));
    }
    from_chars(&v, i, v.len())
}

fn space(c: char) -> (b: bool)
    ensures
        b == is_space(c),
{
    ('\u{9}' <= c && c <= '\u{d}') || c == ' ' || c == '\u{85}' || c == '\u{a0}' || c == '\u{1680}'
        || ('\u{2000}' <= c && c <= '\u{200a}') || c == '\u{2028}' || c == '\u{2029}' || c == '\u{202f}'
        || c == '\u{205f}' || c == '\u{3000}'
}

/// Narrows the part of `v` from `from` up to but not including `to` to what stands between the
/// white space around it.
pub fn trim_range(v: &Vec<char>, from: usize, to: usize) -> (range: (usize, usize))
    requires
        from <= to <= v@.len(),
    ensures
        from <= range.0 <= range.1 <= to,
        v@.subrange(range.0 as int, range.1 as int) == trim(v@.subrange(from as int, to as int)),
{
    let ghost whole = v@.subrange(from as int, to as int);
    let mut i: usize = from;
    while i < to && space(v[i])
        invariant
            from <= i <= to <= v@.len(),
            whole == v@.subrange(from as int, to as int),
            trim_start(whole) == trim_start(v@.subrange(i as int, to as int)),
        decreases to - i,
    {
        assert(v@.subrange(i as int, to as int).skip(1) =~= v@.subrange(i + 1, to as int));
        i += 1;
    }
    assert(trim_start(whole) == v@.subrange(i as int, to as int));
    let mut j: usize = to;
    while i < j && space(v[j - 1])
        invariant
            from <= i <= j <= to <= v@.len(),
            trim_start(whole) == v@.subrange(i as int, to as int),
            trim_end(trim_start(whole)) == trim_end(v@.subrange(i as int, j as int)),
        decreases j,
    {
        assert(v@.subrange(i as int, j as int).drop_last() =~= v@.subrange(i as int, j - 1));
        j -= 1;
    }
    (i, j)
}

/// Whether `s` is the text that begins at `at` in `v`, and ends before `to`.
pub fn text_at(v: &Vec<char>, at: usize, to: usize, s: &str) -> (b: bool)
    requires
        at <= to <= v@.len(),
    ensures
        b == s@.is_prefix_of(v@.subrange(at as int, to as int)),
{
    let w = to_chars(s);
    if w.len() > to - at {
        return false;
    }
    let mut i: usize = 0;
    while i < w.len()
        invariant
            at <= to <= v@.len(),
            i <= w@.len() <= to - at,
            w@ == s@,
            forall|j: int| 0 <= j < i ==> w@[j] == v@[at + j],
        decreases w@.len() - i,
    {
        if w[i] != v[at + i] {
            assert(s@[i as int] != v@.subrange(at as int, to as int)[i as int]);
            return false;
        }
        i += 1;
    }
    assert(s@ =~= v@.subrange(at as int, to as int).take(s@.len() as int));
    true
}

/// Reads an unsigned 64-bit number.
pub fn parse_u64(s: &str) -> (n: Result<u64, NumberError>)
    ensures
        n is Ok <==> u64_value(s@) is Some,
        n matches Ok(n) ==> u64_value(s@) == Some(n),
        n matches Err(error) ==> error == number_error(s@),
{
    let v = to_chars(s);
    let start: usize = if v.len() > 0 && v[0] == '+' {
        1
    } else {
        0
    };
    let ghost digits = unsigned(s@);
    assert(digits =~= v@.skip(start as int));
    if v.len() == 0 {
        return Err(NumberError::Empty);
    }
    proof {
        lemma_leading_digits(digits);
        assert(digits_value(Seq::empty()) == 0);
    }
    if start == v.len() {
        assert(digits.take(0) =~= Seq::empty());
        return Err(NumberError::InvalidDigit);
    }
    let mut n: u64 = 0;
    let mut i: usize = start;
    while i < v.len()
        invariant
            start <= i <= v@.len(),
            digits == v@.skip(start as int),
            digits == unsigned(s@),
            digits.len() > 0,
            s@.len() > 0,
            leading_digits(digits) <= digits.len(),
            forall|j: int| 0 <= j < leading_digits(digits) ==> is_digit(#[trigger] digits[j]),
            leading_digits(digits) < digits.len() ==> !is_digit(digits[leading_digits(digits) as int]),
            forall|j: int| 0 <= j < i - start ==> is_digit(#[trigger] digits[j]),
            n == digits_value(digits.take(i - start)),
        decreases v@.len() - i,
    {
        let c = v[i];
        assert(digits[i - start] == c);
        if c < '0' || '9' < c {
            assert(leading_digits(digits) == i - start);
            return Err(NumberError::InvalidDigit);
        }
        let d: u64 = c as u64 - 48;
        assert(digits.take(i - start + 1).drop_last() =~= digits.take(i - start));
        if n > (u64::MAX - d) / 10 {
            proof {
                let leading = digits.take(leading_digits(digits) as int);
                assert(leading.take(i - start + 1) =~= digits.take(i - start + 1));
                lemma_digits_value_of_prefix(leading, i - start + 1);
                if leading_digits(digits) == digits.len() {
                    assert(leading =~= digits);
                }
            }
            return Err(NumberError::TooLarge);
        }
        n = n * 10 + d;
        i += 1;
    }
    assert(digits.take(i - start) =~= digits);
    Ok(n)
}

/// Digits make a number in base ten: no digits make zero, and one more digit makes ten times the
/// number and the digit.
pub proof fn law_digits_count_in_tens(digits: Seq<char>, c: char)
    requires
        '0' <= c <= '9',
    ensures
        digits_value(Seq::empty()) == 0,
        digits_value(digits.push(c)) == 10 * digits_value(digits) + (c as u32 - '0' as u32),
{
    assert(digits.push(c).drop_last() =~= digits);
}

/// A number is written with decimal digits that make that number, and without leading zeros.
pub proof fn law_decimal_is_plain(n: nat)
    ensures
        decimal(n).len() > 0,
        forall|i: int| 0 <= i < decimal(n).len() ==> '0' <= #[trigger] decimal(n)[i] <= '9',
        digits_value(decimal(n)) == n,
        decimal(n).len() > 1 ==> decimal(n)[0] != '0',
    decreases n,
{
    lemma_decimal_value(n);
    assert forall|i: int| 0 <= i < decimal(n).len() implies '0' <= #[trigger] decimal(n)[i] <= '9' by {
        assert(is_digit(decimal(n)[i]));
    }
    if n >= 10 {
        law_decimal_is_plain(n / 10);
        let first = decimal(n / 10);
        if first.len() == 1 {
            assert(first.drop_last() =~= Seq::empty());
            assert(digits_value(first) == (first[0] as u32 - '0' as u32) as nat) by {
                assert(digits_value(Seq::empty()) == 0);
            }
        }
        assert(decimal(n)[0] == first[0]);
    }
}

/// A number that is written with at least two digits is written with digits that make that
/// number, and without a leading zero that is not needed for the second digit.
pub proof fn law_two_digits_are_plain(n: nat)
    ensures
        two_digits(n).len() >= 2,
        forall|i: int| 0 <= i < two_digits(n).len() ==> '0' <= #[trigger] two_digits(n)[i] <= '9',
        digits_value(two_digits(n)) == n,
        two_digits(n).len() > 2 ==> two_digits(n)[0] != '0',
{
    law_decimal_is_plain(n);
    if n < 10 {
        let d = decimal(n)[0];
        assert(decimal(n) =~= seq![d]);
        law_digits_count_in_tens(Seq::empty(), '0');
        law_digits_count_in_tens(seq!['0'], d);
        law_digits_count_in_tens(Seq::empty(), d);
        assert(Seq::<char>::empty().push('0') =~= seq!['0']);
        assert(Seq::<char>::empty().push(d) =~= seq![d]);
        assert(two_digits(n) =~= seq!['0'].push(d));
    } else if decimal(n).len() == 1 {
        let d = decimal(n)[0];
        law_digits_count_in_tens(Seq::empty(), d);
        assert(Seq::<char>::empty().push(d) =~= decimal(n));
    }
}

/// Digits are read as the number that they make, with or without a plus sign in front, and as
/// nothing where that number does not fit.
pub proof fn law_digits_are_read(digits: Seq<char>)
    requires
        digits.len() > 0,
        forall|i: int| 0 <= i < digits.len() ==> '0' <= #[trigger] digits[i] <= '9',
    ensures
        digits_value(digits) <= u64::MAX ==> {
            &&& u64_value(digits) == Some(digits_value(digits) as u64)
            &&& u64_value(seq!['+'] + digits) == Some(digits_value(digits) as u64)
        },
        digits_value(digits) > u64::MAX ==> u64_value(digits) is None && u64_value(seq!['+'] + digits) is None,
{
    assert('0' <= digits[0] <= '9');
    assert(unsigned(digits) == digits);
    assert(unsigned(seq!['+'] + digits) =~= digits);
}

/// A text with anything but digits in it is read as nothing; only its first character may be a
/// plus sign, and then there are digits behind it.
pub proof fn law_other_texts_are_not_read(s: Seq<char>, i: int)
    requires
        s.len() == 0 || s == seq!['+'] || (0 <= i < s.len() && !('0' <= s[i] <= '9') && (i > 0 || s[i] != '+')),
    ensures
        u64_value(s) is None,
{
    if 0 <= i < s.len() && !('0' <= s[i] <= '9') && (i > 0 || s[i] != '+') {
        if s[0] == '+' {
            assert(!is_digit(unsigned(s)[i - 1]));
        } else {
            assert(!is_digit(unsigned(s)[i]));
        }
    }
}

/// What is wrong with a text: that it is empty, or that the digits at its start make too great a
/// number, whatever follows them, or else that something else follows them.
pub proof fn law_what_is_wrong_with_a_number(digits: Seq<char>, tail: Seq<char>)
    requires
        forall|i: int| 0 <= i < digits.len() ==> '0' <= #[trigger] digits[i] <= '9',
        tail.len() > 0 ==> !('0' <= tail[0] <= '9'),
    ensures
        number_error(Seq::empty()) == NumberError::Empty,
        number_error(seq!['+'] + digits + tail) == (if digits_value(digits) > u64::MAX {
            NumberError::TooLarge
        } else {
            NumberError::InvalidDigit
        }),
        digits.len() > 0 || (tail.len() > 0 && tail[0] != '+') ==> number_error(digits + tail) == (if digits_value(
            digits,
        ) > u64::MAX {
            NumberError::TooLarge
        } else {
            NumberError::InvalidDigit
        }),
{
    let s = digits + tail;
    lemma_leading_digits(s);
    let k = leading_digits(s) as int;
    if k < digits.len() {
        assert(s[k] == digits[k]);
        assert(false);
    }
    if k > digits.len() {
        assert(s[digits.len() as int] == tail[0]);
        assert(is_digit(s[digits.len() as int]));
        assert(false);
    }
    assert(s.take(k) =~= digits);
    assert(unsigned(seq!['+'] + digits + tail) =~= s);
    if digits.len() > 0 {
        assert(s[0] == digits[0]);
    }
}

/// The first `c` is found behind everything that has none, and where there is none nothing is
/// left out.
pub proof fn law_first_is_found(before: Seq<char>, c: char, after: Seq<char>)
    requires
        !before.contains(c),
    ensures
        first_index(before.push(c) + after, c) == before.len(),
        first_index(before, c) == before.len(),
{
    let s = before.push(c) + after;
    assert forall|i: int| 0 <= i < before.len() implies s[i] != c by {
        assert(s[i] == before[i]);
        assert(before.contains(before[i]));
    }
    lemma_first_index(s, c, before.len());
    assert forall|i: int| 0 <= i < before.len() implies before[i] != c by {
        assert(before.contains(before[i]));
    }
    lemma_first_index(before, c, before.len());
}

/// What stands behind the last `c` is everything that follows it, and where there is none it is
/// the whole text.
pub proof fn law_rest_is_found(before: Seq<char>, c: char, after: Seq<char>)
    requires
        !after.contains(c),
    ensures
        after_last(before.push(c) + after, c) == after,
        after_last(after, c) == after,
{
    let s = before.push(c) + after;
    let n = before.len() as int + 1;
    assert forall|i: int| n <= i < s.len() implies s[i] != c by {
        assert(s[i] == after[i - n]);
        assert(after.contains(after[i - n]));
    }
    lemma_after_last(s, c, n);
    assert(s.skip(n) =~= after);
    assert forall|i: int| 0 <= i < after.len() implies after[i] != c by {
        assert(after.contains(after[i]));
    }
    lemma_after_last(after, c, 0);
    assert(after.skip(0) =~= after);
}

/// Of the ASCII characters the space and those from the tab to the carriage return are white
/// space.
pub proof fn law_ascii_space(c: char)
    requires
        c < '\u{80}',
    ensures
        is_space(c) <==> c == ' ' || '\t' <= c <= '\r',
{
}

/// Trimming takes away all white space around a text and nothing of the text.
pub proof fn law_space_is_trimmed(before: Seq<char>, text: Seq<char>, after: Seq<char>)
    requires
        forall|i: int| 0 <= i < before.len() ==> is_space(#[trigger] before[i]),
        forall|i: int| 0 <= i < after.len() ==> is_space(#[trigger] after[i]),
        text.len() > 0 ==> !is_space(text[0]) && !is_space(text.last()),
    ensures
        trim(before + text + after) == text,
{
    let whole = before + text + after;
    lemma_trim_start(before, text + after);
    assert(before + (text + after) =~= whole);
    if text.len() == 0 {
        lemma_trim_start(before + after, Seq::empty());
        assert((before + after) + Seq::<char>::empty() =~= whole);
        assert(trim_start(Seq::<char>::empty()) == Seq::<char>::empty());
        assert(trim_end(Seq::<char>::empty()) == Seq::<char>::empty());
        assert(text =~= Seq::empty());
    } else {
        assert((text + after)[0] == text[0]);
        assert(trim_start(text + after) == text + after);
        lemma_trim_end(text, after);
    }
}

proof fn lemma_trim_start(before: Seq<char>, rest: Seq<char>)
    requires
        forall|i: int| 0 <= i < before.len() ==> is_space(#[trigger] before[i]),
    ensures
        trim_start(before + rest) == trim_start(rest),
    decreases before.len(),
{
    if before.len() > 0 {
        assert((before + rest)[0] == before[0]);
        assert((before + rest).skip(1) =~= before.skip(1) + rest);
        lemma_trim_start(before.skip(1), rest);
    } else {
        assert(before + rest =~= rest);
    }
}

proof fn lemma_trim_end(text: Seq<char>, after: Seq<char>)
    requires
        forall|i: int| 0 <= i < after.len() ==> is_space(#[trigger] after[i]),
        text.len() > 0,
        !is_space(text.last()),
    ensures
        trim_end(text + after) == text,
    decreases after.len(),
{
    if after.len() > 0 {
        assert((text + after).last() == after.last());
        assert((text + after).drop_last() =~= text + after.drop_last());
        lemma_trim_end(text, after.drop_last());
    } else {
        assert(text + after =~= text);
    }
}

} // verus!
