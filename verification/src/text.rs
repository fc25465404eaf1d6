//! Character-level helpers on strings: whitespace trimming, substring search,
//! and decimal numbers in both directions.

use vstd::prelude::*;
use vstd::string::*;
use vstd::utf8::*;

verus! {

/// The characters with the Unicode property `White_Space`.
pub open spec fn is_white_space(c: char) -> bool {
    ||| '\u{9}' <= c <= '\u{d}'
    ||| c == ' '
    ||| c == '\u{85}'
    ||| c == '\u{a0}'
    ||| c == '\u{1680}'
    ||| '\u{2000}' <= c <= '\u{200a}'
    ||| c == '\u{2028}'
    ||| c == '\u{2029}'
    ||| c == '\u{202f}'
    ||| c == '\u{205f}'
    ||| c == '\u{3000}'
}

/// `s` without its leading white space.
pub open spec fn trim_start_of(s: Seq<char>) -> Seq<char>
    decreases s.len(),
{
    if s.len() > 0 && is_white_space(s[0]) {
        trim_start_of(s.drop_first())
    } else {
        s
    }
}

/// `s` without its trailing white space.
pub open spec fn trim_end_of(s: Seq<char>) -> Seq<char>
    decreases s.len(),
{
    if s.len() > 0 && is_white_space(s.last()) {
        trim_end_of(s.drop_last())
    } else {
        s
    }
}

/// `s` without leading and trailing white space.
pub open spec fn trimmed(s: Seq<char>) -> Seq<char> {
    trim_end_of(trim_start_of(s))
}

/// The position of the first `c` in `s`, if there is one.
pub open spec fn first_position(s: Seq<char>, c: char) -> Option<int>
    decreases s.len(),
{
    if s.len() == 0 {
        None
    } else if s[0] == c {
        Some(0)
    } else {
        match first_position(s.drop_first(), c) {
            Some(i) => Some(i + 1),
            None => None,
        }
    }
}

/// Whether `needle` stands in `hay` from position `at` on.
pub open spec fn occurs_at(hay: Seq<char>, needle: Seq<char>, at: int) -> bool {
    &&& 0 <= at
    &&& at + needle.len() <= hay.len()
    &&& hay.subrange(at, at + needle.len()) == needle
}

/// Whether `needle` stands somewhere in `hay`.
pub open spec fn contains_text(hay: Seq<char>, needle: Seq<char>) -> bool {
    exists|at: int| occurs_at(hay, needle, at)
}

/// The character of a decimal digit.
pub open spec fn digit_char(d: int) -> char {
    ('0' as u32 + d) as char
}

/// Whether `c` is one of `0` to `9`.
pub open spec fn is_digit(c: char) -> bool {
    '0' <= c <= '9'
}

/// The decimal text of `n`, without leading zeros.
pub open spec fn decimal(n: nat) -> Seq<char>
    decreases n,
{
    if n < 10 {
        seq![digit_char(n as int)]
    } else {
        decimal(n / 10).push(digit_char((n % 10) as int))
    }
}

/// The decimal text of `n`, with a minus sign where it is negative.
pub open spec fn signed_decimal(n: int) -> Seq<char> {
    if n < 0 {
        seq!['-'] + decimal((-n) as nat)
    } else {
        decimal(n as nat)
    }
}

/// Whether `s` holds decimal digits only.
pub open spec fn all_digits(s: Seq<char>) -> bool {
    forall|i: int| 0 <= i < s.len() ==> is_digit(#[trigger] s[i])
}

/// The number that a sequence of decimal digits denotes.
pub open spec fn digits_value(s: Seq<char>) -> nat
    decreases s.len(),
{
    if s.len() == 0 {
        0
    } else {
        10 * digits_value(s.drop_last()) + (s.last() as nat - '0' as nat) as nat
    }
}

/// `s` without one leading plus sign.
pub open spec fn without_plus(s: Seq<char>) -> Seq<char> {
    if s.len() > 0 && s[0] == '+' {
        s.drop_first()
    } else {
        s
    }
}

/// Why a text is no unsigned 32-bit number.
#[derive(Debug, Clone, Copy, PartialEq, Eq, Structural)]
pub enum NumberError {
    /// The text is empty.
    Empty,
    /// A digit is missing, or something else stands in its place.
    InvalidDigit,
    /// The digits denote a number that is too large.
    PosOverflow,
}

impl NumberError {
    /// The text of the message that tells of this failure.
    pub open spec fn text(self) -> Seq<char> {
        match self {
            NumberError::Empty => "cannot parse integer from empty string"@,
            NumberError::InvalidDigit => "invalid digit found in string"@,
            NumberError::PosOverflow => "number too large to fit in target type"@,
        }
    }

    /// The message that tells of this failure.
    pub fn message(&self) -> (res: &'static str)
        ensures
            res@ == self.text(),
    {
        match self {
            NumberError::Empty => "cannot parse integer from empty string",
            NumberError::InvalidDigit => "invalid digit found in string",
            NumberError::PosOverflow => "number too large to fit in target type",
        }
    }
}

/// How many digits `s` starts with.
pub open spec fn digit_run(s: Seq<char>) -> nat
    decreases s.len(),
{
    if s.len() > 0 && is_digit(s[0]) {
        1 + digit_run(s.drop_first())
    } else {
        0
    }
}

/// The unsigned 32-bit number that `s` denotes: an optional plus sign, then at
/// least one digit and nothing else, with a value that fits. Digits that denote
/// too large a number are reported before anything that follows them.
pub open spec fn parsed_u32(s: Seq<char>) -> Result<u32, NumberError> {
    let digits = without_plus(s);
    let run = digits.take(digit_run(digits) as int);
    if s.len() == 0 {
        Err(NumberError::Empty)
    } else if digits_value(run) > u32::MAX {
        Err(NumberError::PosOverflow)
    } else if digits.len() == 0 || run.len() < digits.len() {
        Err(NumberError::InvalidDigit)
    } else {
        Ok(digits_value(digits) as u32)
    }
}

/// `String::from_utf8`: gives the text with these bytes if they are valid
/// UTF-8, and nothing if they are not.
#[verifier::external_body]
pub(crate) fn text_from_utf8(bytes: Vec<u8>) -> (res: Option<String>)
    ensures
        match res {
            Some(text) => valid_utf8(bytes@) && text@ == decode_utf8(bytes@),
            None => !valid_utf8(bytes@),
        },
{
    String::from_utf8(bytes).ok()
}

/// The characters of `s` in a vector.
pub fn chars_of(s: &str) -> (chars: Vec<char>)
    ensures
        chars@ == s@,
{
    let mut chars: Vec<char> = Vec::new();
    for c in it: s.chars()
        invariant
            it.seq() == s@,
            chars@ == s@.take(it.index()),
    {
        chars.push(c);
        assert(s@.take(it.index() + 1) == s@.take(it.index()).push(c));
    }
    assert(s@.take(s@.len() as int) == s@);
    chars
}

/// Whether `c` has the Unicode property `White_Space`.
pub fn white_space(c: char) -> (yes: bool)
    ensures
        yes == is_white_space(c),
{
    ('\u{9}' <= c && c <= '\u{d}') || c == ' ' || c == '\u{85}' || c == '\u{a0}' || c == '\u{1680}'
        || ('\u{2000}' <= c && c <= '\u{200a}') || c == '\u{2028}' || c == '\u{2029}' || c
        == '\u{202f}' || c == '\u{205f}' || c == '\u{3000}'
}

/// `s` without leading and trailing white space.
pub fn trim(s: &str) -> (res: &str)
    ensures
        res@ == trimmed(s@),
{
    let chars = chars_of(s);
    let len: usize = chars.len();
    let mut start: usize = 0;
    assert(s@.skip(0) == s@);
    while start < len && white_space(chars[start])
        invariant
            start <= len,
            len == chars@.len(),
            chars@ == s@,
            trim_start_of(s@) == trim_start_of(s@.skip(start as int)),
        decreases len - start,
    {
        assert(s@.skip(start as int).drop_first() == s@.skip(start + 1));
        start = start + 1;
    }
    let ghost rest = s@.skip(start as int);
    assert(rest == trim_start_of(s@));
    let mut end: usize = len;
    assert(s@.subrange(start as int, len as int) == rest);
    while end > start && white_space(chars[end - 1])
        invariant
            start <= end <= len,
            len == chars@.len(),
            chars@ == s@,
            trim_end_of(rest) == trim_end_of(s@.subrange(start as int, end as int)),
        decreases end,
    {
        assert(s@.subrange(start as int, end as int).drop_last() == s@.subrange(
            start as int,
            end - 1,
        ));
        end = end - 1;
    }
    s.substring_char(start, end)
}

/// The position of the first `c` in `s`, if there is one.
pub fn position(s: &str, c: char) -> (res: Option<usize>)
    ensures
        match res {
            Some(i) => first_position(s@, c) == Some(i as int) && i < s@.len(),
            None => first_position(s@, c) is None,
        },
{
    let chars = chars_of(s);
    let len: usize = chars.len();
    let mut i: usize = 0;
    assert(s@.skip(0) == s@);
    while i < len
        invariant
            i <= len,
            len == chars@.len(),
            chars@ == s@,
            first_position(s@, c) == match first_position(s@.skip(i as int), c) {
                Some(k) => Some(k + i),
                None => None,
            },
        decreases len - i,
    {
        if chars[i] == c {
            return Some(i);
        }
        assert(s@.skip(i as int).drop_first() == s@.skip(i + 1));
        i = i + 1;
    }
    None
}

/// Whether `needle` stands in `hay` from position `at` on.
fn matches_at(hay: &Vec<char>, needle: &Vec<char>, at: usize) -> (yes: bool)
    requires
        at + needle@.len() <= hay@.len(),
    ensures
        yes == occurs_at(hay@, needle@, at as int),
{
    let hay_len: usize = hay.len();
    let mut i: usize = 0;
    while i < needle.len()
        invariant
            i <= needle@.len(),
            at + needle@.len() <= hay@.len(),
            hay@.len() == hay_len,
            hay@.subrange(at as int, at + i) == needle@.take(i as int),
        decreases needle@.len() - i,
    {
        if hay[at + i] != needle[i] {
            assert(hay@.subrange(at as int, at + needle@.len())[i as int] != needle@[i as int]);
            return false;
        }
        assert(hay@.subrange(at as int, at + i + 1) == hay@.subrange(at as int, at + i).push(
            hay@[at + i],
        ));
        assert(needle@.take(i + 1) == needle@.take(i as int).push(needle@[i as int]));
        i = i + 1;
    }
    assert(needle@.take(needle@.len() as int) == needle@);
    true
}

/// Whether `needle` stands somewhere in `hay`.
pub fn contains(hay: &str, needle: &str) -> (yes: bool)
    ensures
        yes == contains_text(hay@, needle@),
{
    let hay_chars = chars_of(hay);
    let needle_chars = chars_of(needle);
    if needle_chars.len() > hay_chars.len() {
        return false;
    }
    let last: usize = hay_chars.len() - needle_chars.len();
    let mut at: usize = 0;
    loop
        invariant
            hay_chars@ == hay@,
            needle_chars@ == needle@,
            last + needle@.len() == hay@.len(),
            at <= last,
            forall|k: int| 0 <= k < at ==> !occurs_at(hay@, needle@, k),
        decreases last - at,
    {
        if matches_at(&hay_chars, &needle_chars, at) {
            return true;
        }
        if at == last {
            return false;
        }
        at = at + 1;
    }
}

/// A decimal digit as text.
fn digit_text(d: u64) -> (res: &'static str)
    requires
        d < 10,
    ensures
        res@ == seq![digit_char(d as int)],
{
    proof {
        reveal_strlit("0");
        reveal_strlit("1");
        reveal_strlit("2");
        reveal_strlit("3");
        reveal_strlit("4");
        reveal_strlit("5");
        reveal_strlit("6");
        reveal_strlit("7");
        reveal_strlit("8");
        reveal_strlit("9");
    }
    match d {
        0 => "0",
        1 => "1",
        2 => "2",
        3 => "3",
        4 => "4",
        5 => "5",
        6 => "6",
        7 => "7",
        8 => "8",
        _ => "9",
    }
}

/// The decimal text of `n`.
pub fn decimal_text(n: u64) -> (res: String)
    ensures
        res@ == decimal(n as nat),
    decreases n,
{
    if n < 10 {
        digit_text(n).to_string()
    } else {
        decimal_text(n / 10).concat(digit_text(n % 10))
    }
}

/// The decimal text of `n`, with a minus sign where it is negative.
pub fn signed_decimal_text(n: i32) -> (res: String)
    ensures
        res@ == signed_decimal(n as int),
{
    if n < 0 {
        proof {
            reveal_strlit("-");
        }
        let magnitude: i64 = -(n as i64);
        "-".to_string().concat(decimal_text(magnitude as u64).as_str())
    } else {
        decimal_text(n as u64)
    }
}

/// A run of digits is no longer than the text, and goes on as far as digits do.
proof fn lemma_digit_run(s: Seq<char>, n: int)
    requires
        0 <= n <= s.len(),
        all_digits(s.take(n)),
    ensures
        digit_run(s) == n + digit_run(s.skip(n)),
        digit_run(s) <= s.len(),
    decreases s.len(),
{
    if n > 0 {
        assert(is_digit(s.take(n)[0]));
        let rest = s.drop_first();
        assert forall|k: int| 0 <= k < n - 1 implies is_digit(#[trigger] rest.take(n - 1)[k]) by {
            assert(rest.take(n - 1)[k] == s.take(n)[k + 1]);
        }
        lemma_digit_run(rest, n - 1);
        assert(rest.skip(n - 1) =~= s.skip(n));
    } else {
        assert(s.skip(0) =~= s);
        if s.len() > 0 && is_digit(s[0]) {
            assert(all_digits(s.drop_first().take(0)));
            lemma_digit_run(s.drop_first(), 0);
        }
    }
}

/// Reads an unsigned 32-bit number in decimal: an optional plus sign, then at
/// least one digit and nothing else.
pub fn parse_u32(s: &str) -> (res: Result<u32, NumberError>)
    ensures
        res == parsed_u32(s@),
{
    let chars = chars_of(s);
    let len: usize = chars.len();
    if len == 0 {
        return Err(NumberError::Empty);
    }
    let start: usize = if chars[0] == '+' {
        1
    } else {
        0
    };
    let ghost digits = without_plus(s@);
    assert(digits =~= s@.skip(start as int));
    proof {
        assert(digits.take(0) =~= Seq::<char>::empty());
    }
    let mut i: usize = start;
    let mut value: u64 = 0;
    while i < len
        invariant
            start <= i <= len,
            0 < len,
            len == chars@.len(),
            chars@ == s@,
            digits == s@.skip(start as int),
            digits == without_plus(s@),
            all_digits(digits.take(i - start)),
            value == digits_value(digits.take(i - start)),
            value <= u32::MAX,
        decreases len - i,
    {
        let c: char = chars[i];
        let ghost before = digits.take(i - start);
        assert(digits[i - start] == c);
        if c < '0' || c > '9' {
            proof {
                lemma_digit_run(digits, i - start);
                assert(digits.skip(i - start)[0] == c);
            }
            return Err(NumberError::InvalidDigit);
        }
        let ghost after = digits.take(i + 1 - start);
        assert(after.drop_last() == before);
        assert(after.last() == c);
        value = value * 10 + (c as u64 - '0' as u64);
        assert(value == digits_value(after));
        assert(all_digits(after)) by {
            assert forall|k: int| 0 <= k < after.len() implies is_digit(#[trigger] after[k]) by {
                if k < before.len() {
                    assert(after[k] == before[k]);
                }
            }
        }
        if value > u32::MAX as u64 {
            proof {
                lemma_digit_run(digits, i + 1 - start);
                let run = digits.take(digit_run(digits) as int);
                assert(run.take(i + 1 - start) =~= after);
                lemma_digits_value_prefix(run, i + 1 - start);
            }
            return Err(NumberError::PosOverflow);
        }
        i = i + 1;
    }
    proof {
        lemma_digit_run(digits, digits.len() as int);
        assert(digits.take(digits.len() as int) =~= digits);
    }
    if start == len {
        return Err(NumberError::InvalidDigit);
    }
    Ok(value as u32)
}

/// A number is at least as large as what a prefix of its digits denotes.
proof fn lemma_digits_value_prefix(s: Seq<char>, n: int)
    requires
        0 <= n <= s.len(),
    ensures
        digits_value(s.take(n)) <= digits_value(s),
    decreases s.len() - n,
{
    if n == s.len() {
        assert(s.take(n) == s);
    } else {
        lemma_digits_value_prefix(s, n + 1);
        assert(s.take(n + 1).drop_last() == s.take(n));
    }
}

/// The decimal text of a number is made of digits, and denotes the number.
pub proof fn decimal_denotes(n: nat)
    ensures
        decimal(n).len() > 0,
        all_digits(decimal(n)),
        digits_value(decimal(n)) == n,
    decreases n,
{
    if n < 10 {
        assert(decimal(n).drop_last() == Seq::<char>::empty());
        assert(digits_value(Seq::<char>::empty()) == 0);
    } else {
        decimal_denotes(n / 10);
        assert(decimal(n).drop_last() == decimal(n / 10));
        assert forall|i: int| 0 <= i < decimal(n).len() implies is_digit(
            #[trigger] decimal(n)[i],
        ) by {
            if i < decimal(n / 10).len() {
                assert(decimal(n)[i] == decimal(n / 10)[i]);
            }
        }
    }
}

/// Reading back the decimal text of a 32-bit number gives the number.
pub proof fn parse_of_decimal(n: u32)
    ensures
        parsed_u32(decimal(n as nat)) == Ok::<u32, NumberError>(n),
{
    let text = decimal(n as nat);
    decimal_denotes(n as nat);
    assert(is_digit(text[0]));
    assert(without_plus(text) == text);
    assert(text.take(text.len() as int) =~= text);
    lemma_digit_run(text, text.len() as int);
}

/// White space is told by the code of a character.
pub proof fn white_space_has_these_codes(c: char)
    ensures
        is_white_space(c) <==> ({
            let code = c as u32;
            ||| 9 <= code <= 13
            ||| code == 32
            ||| code == 0x85
            ||| code == 0xa0
            ||| code == 0x1680
            ||| 0x2000 <= code <= 0x200a
            ||| 0x2028 <= code <= 0x2029
            ||| code == 0x202f
            ||| code == 0x205f
            ||| code == 0x3000
        }),
{
}

/// White space before a text is taken off.
proof fn lemma_trim_start(before: Seq<char>, s: Seq<char>)
    requires
        forall|i: int| 0 <= i < before.len() ==> is_white_space(#[trigger] before[i]),
    ensures
        trim_start_of(before + s) == trim_start_of(s),
    decreases before.len(),
{
    if before.len() == 0 {
        assert(before + s =~= s);
    } else {
        let rest = before.drop_first();
        assert forall|i: int| 0 <= i < rest.len() implies is_white_space(#[trigger] rest[i]) by {
            assert(rest[i] == before[i + 1]);
        }
        assert(is_white_space(before[0]));
        assert((before + s).drop_first() =~= rest + s);
        lemma_trim_start(rest, s);
    }
}

/// White space behind a text is taken off.
proof fn lemma_trim_end(s: Seq<char>, after: Seq<char>)
    requires
        forall|i: int| 0 <= i < after.len() ==> is_white_space(#[trigger] after[i]),
    ensures
        trim_end_of(s + after) == trim_end_of(s),
    decreases after.len(),
{
    if after.len() == 0 {
        assert(s + after =~= s);
    } else {
        let rest = after.drop_last();
        assert forall|i: int| 0 <= i < rest.len() implies is_white_space(#[trigger] rest[i]) by {
            assert(rest[i] == after[i]);
        }
        assert(is_white_space(after[after.len() - 1]));
        assert((s + after).drop_last() =~= s + rest);
        lemma_trim_end(s, rest);
    }
}

/// Trimming takes off all white space around a text, however much there is, and
/// nothing of the text itself.
pub proof fn trim_takes_off_white_space(before: Seq<char>, s: Seq<char>, after: Seq<char>)
    requires
        forall|i: int| 0 <= i < before.len() ==> is_white_space(#[trigger] before[i]),
        forall|i: int| 0 <= i < after.len() ==> is_white_space(#[trigger] after[i]),
        s.len() > 0 ==> !is_white_space(s[0]) && !is_white_space(s[s.len() - 1]),
    ensures
        trimmed(before + s + after) == s,
{
    assert(before + s + after =~= before + (s + after));
    lemma_trim_start(before, s + after);
    if s.len() == 0 {
        assert(s + after =~= after + Seq::<char>::empty());
        lemma_trim_start(after, Seq::empty());
        assert(trimmed(before + s + after) =~= s);
    } else {
        assert((s + after)[0] == s[0]);
        lemma_trim_end(s, after);
    }
}

/// The first position of a character holds it, and none before does; a text
/// without the character has no such position.
pub proof fn first_position_is_the_first(s: Seq<char>, c: char)
    ensures
        match first_position(s, c) {
            Some(at) => 0 <= at < s.len() && s[at] == c && forall|i: int|
                0 <= i < at ==> #[trigger] s[i] != c,
            None => !s.contains(c),
        },
    decreases s.len(),
{
    if s.len() > 0 && s[0] != c {
        let rest = s.drop_first();
        first_position_is_the_first(rest, c);
        match first_position(rest, c) {
            Some(at) => {
                assert forall|i: int| 0 <= i < at + 1 implies #[trigger] s[i] != c by {
                    if i > 0 {
                        assert(rest[i - 1] == s[i]);
                    }
                }
            },
            None => {
                if s.contains(c) {
                    let i = choose|i: int| 0 <= i < s.len() && s[i] == c;
                    assert(rest[i - 1] == c);
                }
            },
        }
    }
}

/// A text stands in every text that is put together around it.
pub proof fn text_is_contained_anywhere(a: Seq<char>, m: Seq<char>, b: Seq<char>)
    ensures
        contains_text(a + m + b, m),
{
    assert((a + m + b).subrange(a.len() as int, (a.len() + m.len()) as int) =~= m);
    assert(occurs_at(a + m + b, m, a.len() as int));
}

/// A text that stands in another leaves what is before it and what is behind it.
pub proof fn contained_text_splits(hay: Seq<char>, needle: Seq<char>)
    requires
        contains_text(hay, needle),
    ensures
        exists|at: int|
            0 <= at <= hay.len() - needle.len() && hay == #[trigger] hay.take(at) + needle
                + hay.skip(at + needle.len()),
{
    let at = choose|at: int| occurs_at(hay, needle, at);
    assert(hay =~= hay.take(at) + needle + hay.skip(at + needle.len())) by {
        let mid = hay.subrange(at, at + needle.len());
        assert forall|i: int| 0 <= i < needle.len() implies hay[at + i] == needle[i] by {
            assert(mid[i] == needle[i]);
        }
    }
}

/// Digits are told by the code of a character, and what they denote grows by one
/// place with each.
pub proof fn digits_denote_by_places(s: Seq<char>, c: char)
    ensures
        is_digit(c) <==> 48 <= c as u32 <= 57,
        all_digits(Seq::empty()),
        all_digits(s.push(c)) <==> all_digits(s) && 48 <= c as u32 <= 57,
        digits_value(Seq::<char>::empty()) == 0,
        is_digit(c) ==> digits_value(s.push(c)) == 10 * digits_value(s) + (c as u32 - 48),
{
    let longer = s.push(c);
    assert(longer.drop_last() =~= s);
    assert(longer[s.len() as int] == c);
    if all_digits(longer) {
        assert forall|i: int| 0 <= i < s.len() implies is_digit(#[trigger] s[i]) by {
            assert(longer[i] == s[i]);
        }
    }
}

/// The decimal text of a number has no leading zero, unless it is that of zero.
pub proof fn decimal_has_no_leading_zero(n: nat)
    ensures
        decimal(n)[0] == '0' ==> n == 0 && decimal(n).len() == 1,
    decreases n,
{
    decimal_denotes(n);
    if n >= 10 {
        decimal_denotes(n / 10);
        decimal_has_no_leading_zero(n / 10);
        assert(decimal(n)[0] == decimal(n / 10)[0]);
    }
}

/// The text of a signed number is its sign, where it is negative, and the digits
/// of its size.
pub proof fn signed_decimal_denotes(n: int)
    ensures
        n >= 0 ==> all_digits(signed_decimal(n)) && digits_value(signed_decimal(n)) == n,
        n < 0 ==> signed_decimal(n)[0] == '-' && all_digits(signed_decimal(n).skip(1))
            && digits_value(signed_decimal(n).skip(1)) == -n,
        n < 0 ==> signed_decimal(n).skip(1) == decimal((-n) as nat),
{
    if n >= 0 {
        decimal_denotes(n as nat);
    } else {
        decimal_denotes((-n) as nat);
        assert(signed_decimal(n).skip(1) =~= decimal((-n) as nat));
    }
}

/// Digits are read as the number that they denote, if it has 32 bits, with or
/// without a plus sign and however many zeros stand first.
pub proof fn digits_are_read(digits: Seq<char>)
    requires
        digits.len() > 0,
        all_digits(digits),
    ensures
        digits_value(digits) <= 0xffff_ffff ==> parsed_u32(digits) == Ok::<u32, NumberError>(
            digits_value(digits) as u32,
        ),
        digits_value(digits) > 0xffff_ffff ==> parsed_u32(digits) == Err::<u32, NumberError>(
            NumberError::PosOverflow,
        ),
        parsed_u32(seq!['+'] + digits) == parsed_u32(digits),
{
    assert(is_digit(digits[0]));
    assert(digits.take(digits.len() as int) =~= digits);
    lemma_digit_run(digits, digits.len() as int);
    assert((seq!['+'] + digits).drop_first() =~= digits);
}

/// A text is no number where something else follows its digits; only digits
/// that denote too much already are reported as such. A text without digits is
/// none either.
pub proof fn other_texts_are_refused(digits: Seq<char>, c: char, tail: Seq<char>)
    requires
        all_digits(digits),
        !is_digit(c),
    ensures
        ({
            let refused = Err::<u32, NumberError>(
                if digits_value(digits) > 0xffff_ffff {
                    NumberError::PosOverflow
                } else {
                    NumberError::InvalidDigit
                },
            );
            &&& digits.len() > 0 || c != '+' ==> parsed_u32(digits + seq![c] + tail) == refused
            &&& parsed_u32(seq!['+'] + (digits + seq![c] + tail)) == refused
        }),
        parsed_u32(Seq::empty()) == Err::<u32, NumberError>(NumberError::Empty),
        parsed_u32(seq!['+']) == Err::<u32, NumberError>(NumberError::InvalidDigit),
{
    let text = digits + seq![c] + tail;
    assert(text.take(digits.len() as int) =~= digits);
    lemma_digit_run(text, digits.len() as int);
    assert(text.skip(digits.len() as int)[0] == c);
    assert(digit_run(text) == digits.len());
    assert((seq!['+'] + text).drop_first() =~= text);
    if digits.len() > 0 {
        assert(is_digit(digits[0]));
        assert(text[0] == digits[0]);
    }
    let empty = Seq::<char>::empty();
    assert(seq!['+'].drop_first() =~= empty);
    assert(empty.take(0) =~= empty);
}

} // verus!
