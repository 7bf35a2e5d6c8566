//! Text: characters, case, decimal and hexadecimal numbers, separators.
use vstd::prelude::*;
use vstd::string::*;

verus! {

pub open spec fn digit_char(digit: nat) -> char {
    (48 + digit) as char
}

/// A digit of base 16, in lower case.
pub open spec fn hex_char(digit: nat) -> char {
    if digit < 10 {
        (48 + digit) as char
    } else {
        (87 + digit) as char
    }
}

/// The decimal digits of `n`.
pub open spec fn decimal(n: nat) -> Seq<char>
    decreases n,
{
    if n < 10 {
        seq![digit_char(n)]
    } else {
        decimal(n / 10).push(digit_char(n % 10))
    }
}

/// The last `width` hexadecimal digits of `n`.
pub open spec fn hex(n: nat, width: nat) -> Seq<char>
    decreases width,
{
    if width == 0 {
        seq![]
    } else {
        hex(n / 16, (width - 1) as nat).push(hex_char(n % 16))
    }
}

pub open spec fn is_upper(c: char) -> bool {
    'A' <= c <= 'Z'
}

pub open spec fn is_lower(c: char) -> bool {
    'a' <= c <= 'z'
}

pub open spec fn is_digit(c: char) -> bool {
    '0' <= c <= '9'
}

/// An ASCII letter or digit.
pub open spec fn is_alphanumeric(c: char) -> bool {
    is_upper(c) || is_lower(c) || is_digit(c)
}

pub open spec fn upper(c: char) -> char {
    if is_lower(c) {
        ((c as u32) - 32) as char
    } else {
        c
    }
}

pub open spec fn lower(c: char) -> char {
    if is_upper(c) {
        ((c as u32) + 32) as char
    } else {
        c
    }
}

pub open spec fn lowered(s: Seq<char>) -> Seq<char> {
    Seq::new(s.len(), |i: int| lower(s[i]))
}

/// Whether `part` stands somewhere in `s`.
pub open spec fn has_part(s: Seq<char>, part: Seq<char>) -> bool {
    exists|at: int| part_at(s, part, at)
}

pub open spec fn part_at(s: Seq<char>, part: Seq<char>, at: int) -> bool {
    0 <= at && at + part.len() <= s.len() && s.subrange(at, at + part.len()) == part
}

/// The pieces of `s` between the separators.
pub open spec fn split(s: Seq<char>, separator: char) -> Seq<Seq<char>>
    decreases s.len(),
{
    if s.len() == 0 {
        seq![seq![]]
    } else {
        let front = split(s.drop_last(), separator);
        if s.last() == separator {
            front.push(seq![])
        } else {
            front.update(front.len() - 1, front.last().push(s.last()))
        }
    }
}

/// The pieces joined by a separator.
pub open spec fn join(pieces: Seq<Seq<char>>, separator: Seq<char>) -> Seq<char>
    decreases pieces.len(),
{
    if pieces.len() == 0 {
        seq![]
    } else if pieces.len() == 1 {
        pieces[0]
    } else {
        join(pieces.drop_last(), separator) + separator + pieces.last()
    }
}

/// What Rust's `Debug` format makes of a text: quoted, with escapes.
pub uninterp spec fn debug_text(s: Seq<char>) -> Seq<char>;

/// `std::fmt::Debug` of `str`, through `format!`: the result is the same function of the
/// text in every call.
#[verifier::external_body]
pub(crate) fn quoted(s: &str) -> (text: String)
    ensures
        text@ == debug_text(s@),
{
    format!("{s:?}")
}

/// `String::push` of std: the character is appended.
#[verifier::external_body]
pub(crate) fn push_char(out: &mut String, c: char)
    ensures
        final(out)@ == old(out)@.push(c),
{
    out.push(c);
}

pub fn is_upper_char(c: char) -> (yes: bool)
    ensures
        yes == is_upper(c),
{
    c >= 'A' && c <= 'Z'
}

pub fn is_lower_char(c: char) -> (yes: bool)
    ensures
        yes == is_lower(c),
{
    c >= 'a' && c <= 'z'
}

pub fn is_digit_char(c: char) -> (yes: bool)
    ensures
        yes == is_digit(c),
{
    c >= '0' && c <= '9'
}

pub fn is_alphanumeric_char(c: char) -> (yes: bool)
    ensures
        yes == is_alphanumeric(c),
{
    is_upper_char(c) || is_lower_char(c) || is_digit_char(c)
}

pub fn upper_char(c: char) -> (r: char)
    ensures
        r == upper(c),
{
    if is_lower_char(c) {
        ((c as u8) - 32) as char
    } else {
        c
    }
}

pub fn lower_char(c: char) -> (r: char)
    ensures
        r == lower(c),
{
    if is_upper_char(c) {
        ((c as u8) + 32) as char
    } else {
        c
    }
}

/// The characters of `s`.
pub fn chars_of(s: &str) -> (chars: Vec<char>)
    ensures
        chars@ == s@,
{
    let mut chars: Vec<char> = Vec::new();
    for c in iter: s.chars()
        invariant
            iter.seq() == s@,
            chars@ == iter.seq().subrange(0, iter.index() as int),
    {
        chars.push(c);
        assert(chars@ =~= iter.seq().subrange(0, iter.index() + 1));
    }
    assert(chars@ =~= s@);
    chars
}

fn digit_text(digit: u8) -> (text: &'static str)
    requires
        digit < 16,
    ensures
        text@ == seq![hex_char(digit as nat)],
{
    proof {
        reveal_strlit("0");
        reveal_strlit("1");
        reveal_strlit("2");
        reveal_strlit("3");
        reveal_strlit("4");
        reveal_strlit("5");
        reveal_strlit("6");
        reveal_strlit("7");
        reveal_strlit("8");
        reveal_strlit("9");
        reveal_strlit("a");
        reveal_strlit("b");
        reveal_strlit("c");
        reveal_strlit("d");
        reveal_strlit("e");
        reveal_strlit("f");
    }
    match digit {
        0 => "0",
        1 => "1",
        2 => "2",
        3 => "3",
        4 => "4",
        5 => "5",
        6 => "6",
        7 => "7",
        8 => "8",
        9 => "9",
        10 => "a",
        11 => "b",
        12 => "c",
        13 => "d",
        14 => "e",
        _ => "f",
    }
}

pub fn push_decimal(out: &mut String, n: u128)
    ensures
        final(out)@ == old(out)@ + decimal(n as nat),
    decreases n,
{
    if n >= 10 {
        push_decimal(out, n / 10);
    }
    out.append(digit_text((n % 10) as u8));
    assert(out@ =~= old(out)@ + decimal(n as nat));
}

pub fn push_hex(out: &mut String, n: u64, width: u32)
    ensures
        final(out)@ == old(out)@ + hex(n as nat, width as nat),
    decreases width,
{
    if width > 0 {
        push_hex(out, n / 16, width - 1);
        out.append(digit_text((n % 16) as u8));
    }
    assert(out@ =~= old(out)@ + hex(n as nat, width as nat));
}

/// `prefix` followed by a number.
pub fn numbered(prefix: &str, n: u64) -> (text: String)
    ensures
        text@ == prefix@ + decimal(n as nat),
{
    let mut text: String = prefix.to_owned();
    push_decimal(&mut text, n as u128);
    text
}

/// Whether two texts are the same.
pub fn same_chars(a: &Vec<char>, b: &Vec<char>) -> (same: bool)
    ensures
        same == (a@ == b@),
{
    if a.len() != b.len() {
        return false;
    }
    let mut i: usize = 0;
    while i < a.len()
        invariant
            i <= a@.len(),
            a@.len() == b@.len(),
            forall|j: int| 0 <= j < i ==> a@[j] == b@[j],
        decreases a@.len() - i,
    {
        if a[i] != b[i] {
            return false;
        }
        i = i + 1;
    }
    assert(a@ =~= b@);
    true
}

pub fn same_text(a: &str, b: &str) -> (same: bool)
    ensures
        same == (a@ == b@),
{
    same_chars(&chars_of(a), &chars_of(b))
}

pub open spec fn uppered(s: Seq<char>) -> Seq<char> {
    Seq::new(s.len(), |i: int| upper(s[i]))
}

/// The characters of `s` in upper case, as far as they are ASCII letters.
pub fn upper_chars(s: &str) -> (chars: Vec<char>)
    ensures
        chars@ == uppered(s@),
{
    let all: Vec<char> = chars_of(s);
    let mut chars: Vec<char> = Vec::new();
    let mut i: usize = 0;
    while i < all.len()
        invariant
            i <= all@.len(),
            all@ == s@,
            chars@ == uppered(s@).subrange(0, i as int),
        decreases all@.len() - i,
    {
        chars.push(upper_char(all[i]));
        i = i + 1;
        assert(uppered(s@).subrange(0, i as int) =~= uppered(s@).subrange(0, i - 1).push(
            upper(s@[i - 1]),
        ));
    }
    assert(chars@ =~= uppered(s@));
    chars
}

/// The characters of `s` in lower case, as far as they are ASCII letters.
pub fn lower_chars(s: &str) -> (chars: Vec<char>)
    ensures
        chars@ == lowered(s@),
{
    let all: Vec<char> = chars_of(s);
    let mut chars: Vec<char> = Vec::new();
    let mut i: usize = 0;
    while i < all.len()
        invariant
            i <= all@.len(),
            all@ == s@,
            chars@ == lowered(s@).subrange(0, i as int),
        decreases all@.len() - i,
    {
        chars.push(lower_char(all[i]));
        i = i + 1;
        assert(lowered(s@).subrange(0, i as int) =~= lowered(s@).subrange(0, i - 1).push(
            lower(s@[i - 1]),
        ));
    }
    assert(chars@ =~= lowered(s@));
    chars
}

/// The decimal digits of a number, with its sign where it is negative.
pub open spec fn signed_decimal(n: int) -> Seq<char> {
    if n < 0 {
        "-"@ + decimal((-n) as nat)
    } else {
        decimal(n as nat)
    }
}

pub fn push_signed(out: &mut String, n: i64)
    ensures
        final(out)@ == old(out)@ + signed_decimal(n as int),
{
    if n < 0 {
        out.append("-");
        let magnitude: i128 = -(n as i128);
        push_decimal(out, magnitude as u128);
        assert(out@ =~= old(out)@ + signed_decimal(n as int));
    } else {
        push_decimal(out, n as u128);
    }
}

/// The texts that the strings hold.
pub open spec fn texts(strings: Seq<String>) -> Seq<Seq<char>> {
    Seq::new(strings.len(), |i: int| strings[i]@)
}

/// A character with the Unicode property White_Space.
pub open spec fn is_space(c: char) -> bool {
    ||| '\u{9}' <= c <= '\u{d}'
    ||| c == ' '
    ||| c == '\u{85}'
    ||| c == '\u{a0}'
    ||| c == '\u{1680}'
    ||| '\u{2000}' <= c <= '\u{200a}'
    ||| c == '\u{2028}'
    ||| c == '\u{2029}'
    ||| c == '\u{202f}'
    ||| c == '\u{205f}'
    ||| c == '\u{3000}'
}

pub fn is_space_char(c: char) -> (yes: bool)
    ensures
        yes == is_space(c),
{
    (c >= '\u{9}' && c <= '\u{d}') || c == ' ' || c == '\u{85}' || c == '\u{a0}' || c
        == '\u{1680}' || (c >= '\u{2000}' && c <= '\u{200a}') || c == '\u{2028}' || c == '\u{2029}'
        || c == '\u{202f}' || c == '\u{205f}' || c == '\u{3000}'
}

/// `s` without the spaces it starts with.
pub open spec fn trimmed_start(s: Seq<char>) -> Seq<char>
    decreases s.len(),
{
    if s.len() > 0 && is_space(s[0]) {
        trimmed_start(s.skip(1))
    } else {
        s
    }
}

/// `s` without the spaces it ends with.
pub open spec fn trimmed_end(s: Seq<char>) -> Seq<char>
    decreases s.len(),
{
    if s.len() > 0 && is_space(s.last()) {
        trimmed_end(s.drop_last())
    } else {
        s
    }
}

pub open spec fn trimmed(s: Seq<char>) -> Seq<char> {
    trimmed_end(trimmed_start(s))
}

/// `s` without the spaces around it.
pub fn trim(s: &str) -> (text: String)
    ensures
        text@ == trimmed(s@),
{
    let chars: Vec<char> = chars_of(s);
    let mut from: usize = 0;
    assert(s@.skip(0) =~= s@);
    while from < chars.len() && is_space_char(chars[from])
        invariant
            from <= chars@.len(),
            chars@ == s@,
            trimmed_start(s@) == trimmed_start(s@.skip(from as int)),
        decreases chars@.len() - from,
    {
        assert(s@.skip(from as int).skip(1) =~= s@.skip(from + 1));
        from = from + 1;
    }
    assert(trimmed_start(s@) == s@.skip(from as int));
    let mut to: usize = chars.len();
    assert(s@.subrange(from as int, to as int) =~= s@.skip(from as int));
    while to > from && is_space_char(chars[to - 1])
        invariant
            from <= to <= chars@.len(),
            chars@ == s@,
            trimmed_start(s@) == s@.skip(from as int),
            trimmed(s@) == trimmed_end(s@.subrange(from as int, to as int)),
        decreases to - from,
    {
        assert(s@.subrange(from as int, to as int).drop_last() =~= s@.subrange(
            from as int,
            to - 1,
        ));
        to = to - 1;
    }
    s.substring_char(from, to).to_owned()
}

/// The pieces of `s` between the separators.
pub fn split_at_each(s: &str, separator: char) -> (pieces: Vec<String>)
    ensures
        texts(pieces@) == split(s@, separator),
{
    let chars: Vec<char> = chars_of(s);
    let mut pieces: Vec<String> = Vec::new();
    let mut start: usize = 0;
    let mut i: usize = 0;
    proof {
        assert(s@.take(0) =~= seq![]);
        assert(split(s@.take(0), separator) =~= texts(pieces@).push(s@.subrange(0, 0)));
    }
    while i < chars.len()
        invariant
            start <= i <= chars@.len(),
            chars@ == s@,
            split(s@.take(i as int), separator) == texts(pieces@).push(
                s@.subrange(start as int, i as int),
            ),
        decreases chars@.len() - i,
    {
        let ghost before = texts(pieces@);
        proof {
            assert(s@.take(i + 1).drop_last() =~= s@.take(i as int));
            assert(s@.take(i + 1).last() == s@[i as int]);
        }
        if chars[i] == separator {
            pieces.push(s.substring_char(start, i).to_owned());
            assert(texts(pieces@) =~= before.push(s@.subrange(start as int, i as int)));
            start = i + 1;
            assert(s@.subrange(start as int, i + 1) =~= seq![]);
        } else {
            assert(s@.subrange(start as int, i + 1) =~= s@.subrange(start as int, i as int).push(
                s@[i as int],
            ));
            assert(before.push(s@.subrange(start as int, i as int)).update(
                before.len() as int,
                s@.subrange(start as int, i + 1),
            ) =~= before.push(s@.subrange(start as int, i + 1)));
        }
        i = i + 1;
    }
    let ghost before = texts(pieces@);
    pieces.push(s.substring_char(start, i).to_owned());
    assert(texts(pieces@) =~= before.push(s@.subrange(start as int, i as int)));
    assert(s@.take(i as int) =~= s@);
    pieces
}

/// Why a text is no number.
#[derive(Clone, Copy, Debug, PartialEq, Eq, Structural)]
pub enum NumberError {
    Empty,
    InvalidDigit,
    TooLarge,
}

impl NumberError {
    pub open spec fn wording(self) -> Seq<char> {
        match self {
            NumberError::Empty => "cannot parse integer from empty string"@,
            NumberError::InvalidDigit => "invalid digit found in string"@,
            NumberError::TooLarge => "number too large to fit in target type"@,
        }
    }

    pub fn message(self) -> (message: &'static str)
        ensures
            message@ == self.wording(),
    {
        match self {
            NumberError::Empty => "cannot parse integer from empty string",
            NumberError::InvalidDigit => "invalid digit found in string",
            NumberError::TooLarge => "number too large to fit in target type",
        }
    }
}

/// The value of a digit in base `radix`.
pub open spec fn digit_of(c: char, radix: nat) -> Option<nat> {
    let value = if is_digit(c) {
        (c as nat - 48) as nat
    } else if 'a' <= c <= 'f' {
        (c as nat - 87) as nat
    } else if 'A' <= c <= 'F' {
        (c as nat - 55) as nat
    } else {
        radix
    };
    if value < radix {
        Some(value)
    } else {
        None
    }
}

fn digit_value(c: char, radix: u64) -> (value: Option<u64>)
    requires
        radix <= 16,
    ensures
        match value {
            Some(value) => digit_of(c, radix as nat) == Some(value as nat) && value < radix,
            None => digit_of(c, radix as nat) is None,
        },
{
    let value: u64 = if is_digit_char(c) {
        (c as u8 - 48) as u64
    } else if c >= 'a' && c <= 'f' {
        (c as u8 - 87) as u64
    } else if c >= 'A' && c <= 'F' {
        (c as u8 - 55) as u64
    } else {
        radix
    };
    if value < radix {
        Some(value)
    } else {
        None
    }
}

/// The number that the digits stand for, up to `limit`. The first fault from the left
/// counts.
pub open spec fn digits_value(s: Seq<char>, radix: nat, limit: nat) -> Result<nat, NumberError>
    decreases s.len(),
{
    if s.len() == 0 {
        Ok(0)
    } else {
        match digits_value(s.drop_last(), radix, limit) {
            Ok(front) => match digit_of(s.last(), radix) {
                Some(digit) => if front * radix + digit > limit {
                    Err(NumberError::TooLarge)
                } else {
                    Ok(front * radix + digit)
                },
                None => Err(NumberError::InvalidDigit),
            },
            Err(error) => Err(error),
        }
    }
}

/// The number that a text stands for: digits, with or without a plus sign.
pub open spec fn number_of(s: Seq<char>, radix: nat, limit: nat) -> Result<nat, NumberError> {
    let digits = if s.len() > 0 && s[0] == '+' {
        s.skip(1)
    } else {
        s
    };
    if s.len() == 0 {
        Err(NumberError::Empty)
    } else if digits.len() == 0 {
        Err(NumberError::InvalidDigit)
    } else {
        digits_value(digits, radix, limit)
    }
}

proof fn fault_stays(s: Seq<char>, radix: nat, limit: nat, count: int)
    requires
        0 <= count <= s.len(),
        digits_value(s.take(count), radix, limit) is Err,
    ensures
        digits_value(s, radix, limit) == digits_value(s.take(count), radix, limit),
    decreases s.len() - count,
{
    if count < s.len() {
        assert(s.take(count + 1).drop_last() =~= s.take(count));
        fault_stays(s, radix, limit, count + 1);
    } else {
        assert(s.take(count) =~= s);
    }
}

/// Reads a number of at most `limit` in base `radix`.
pub fn parse_number(s: &str, radix: u64, limit: u64) -> (result: Result<u64, NumberError>)
    requires
        radix <= 16,
    ensures
        match result {
            Ok(value) => number_of(s@, radix as nat, limit as nat) == Ok::<nat, NumberError>(
                value as nat,
            ) && value <= limit,
            Err(error) => number_of(s@, radix as nat, limit as nat) == Err::<nat, NumberError>(
                error,
            ),
        },
{
    let chars: Vec<char> = chars_of(s);
    if chars.len() == 0 {
        return Err(NumberError::Empty);
    }
    let start: usize = if chars[0] == '+' {
        1
    } else {
        0
    };
    if start == chars.len() {
        return Err(NumberError::InvalidDigit);
    }
    let ghost digits = s@.skip(start as int);
    assert(s@.skip(0) =~= s@);
    let mut value: u64 = 0;
    let mut i: usize = start;
    assert(digits.take(0) =~= seq![]);
    while i < chars.len()
        invariant
            radix <= 16,
            start <= i <= chars@.len(),
            start < chars@.len(),
            start == if s@[0] == '+' {
                1int
            } else {
                0int
            },
            chars@ == s@,
            digits == s@.skip(start as int),
            start == 0 ==> digits == s@,
            value <= limit,
            digits_value(digits.take(i - start), radix as nat, limit as nat) == Ok::<
                nat,
                NumberError,
            >(value as nat),
        decreases chars@.len() - i,
    {
        let c: char = chars[i];
        proof {
            assert(digits.take(i - start + 1).drop_last() =~= digits.take(i - start));
            assert(digits.take(i - start + 1).last() == c);
        }
        let digit: u64 = match digit_value(c, radix) {
            Some(digit) => digit,
            None => {
                proof {
                    fault_stays(digits, radix as nat, limit as nat, i - start + 1);
                }
                return Err(NumberError::InvalidDigit);
            },
        };
        assert(value * radix <= 0xffff_ffff_ffff_ffff * 16) by (nonlinear_arith)
            requires
                value <= 0xffff_ffff_ffff_ffff,
                radix <= 16,
        ;
        let next: u128 = value as u128 * radix as u128 + digit as u128;
        if next > limit as u128 {
            proof {
                fault_stays(digits, radix as nat, limit as nat, i - start + 1);
            }
            return Err(NumberError::TooLarge);
        }
        value = next as u64;
        i = i + 1;
    }
    assert(digits.take(i - start) =~= digits);
    Ok(value)
}

/// `s` without `prefix` at its start, however often it stands there.
pub open spec fn without_prefix(s: Seq<char>, prefix: Seq<char>) -> Seq<char>
    decreases s.len(),
{
    if prefix.len() > 0 && part_at(s, prefix, 0) {
        without_prefix(s.skip(prefix.len() as int), prefix)
    } else {
        s
    }
}

fn stands_at(s: &Vec<char>, part: &Vec<char>, at: usize) -> (stands: bool)
    requires
        at <= s@.len(),
    ensures
        stands == part_at(s@, part@, at as int),
{
    if part.len() > s.len() - at {
        return false;
    }
    let mut i: usize = 0;
    while i < part.len()
        invariant
            i <= part@.len(),
            at + part@.len() <= s.len(),
            forall|j: int| 0 <= j < i ==> s@[at + j] == part@[j],
        decreases part@.len() - i,
    {
        if s[at + i] != part[i] {
            assert(s@.subrange(at as int, at + part@.len())[i as int] != part@[i as int]);
            return false;
        }
        i = i + 1;
    }
    assert(s@.subrange(at as int, at + part@.len()) =~= part@);
    true
}

/// Whether `part` stands somewhere in `s`.
pub fn contains(s: &Vec<char>, part: &str) -> (found: bool)
    ensures
        found == has_part(s@, part@),
{
    let wanted: Vec<char> = chars_of(part);
    let mut at: usize = 0;
    while at <= s.len()
        invariant
            at <= s@.len() + 1,
            wanted@ == part@,
            forall|j: int| 0 <= j < at ==> !part_at(s@, part@, j),
        decreases s@.len() + 1 - at,
    {
        if stands_at(s, &wanted, at) {
            return true;
        }
        if at == s.len() {
            return false;
        }
        at = at + 1;
    }
    false
}

pub fn starts_with(s: &str, prefix: &str) -> (starts: bool)
    ensures
        starts == part_at(s@, prefix@, 0),
{
    stands_at(&chars_of(s), &chars_of(prefix), 0)
}

pub fn ends_with(s: &str, suffix: &str) -> (ends: bool)
    ensures
        ends == part_at(s@, suffix@, s@.len() - suffix@.len()),
{
    let chars: Vec<char> = chars_of(s);
    let wanted: Vec<char> = chars_of(suffix);
    if wanted.len() > chars.len() {
        return false;
    }
    stands_at(&chars, &wanted, chars.len() - wanted.len())
}

/// `s` without `prefix` at its start, however often it stands there.
pub fn trim_prefix(s: &str, prefix: &str) -> (text: String)
    ensures
        text@ == without_prefix(s@, prefix@),
{
    let chars: Vec<char> = chars_of(s);
    let wanted: Vec<char> = chars_of(prefix);
    let total: usize = chars.len();
    let mut at: usize = 0;
    assert(s@.skip(0) =~= s@);
    while wanted.len() > 0 && stands_at(&chars, &wanted, at)
        invariant
            at <= total == chars@.len(),
            chars@ == s@,
            wanted@ == prefix@,
            without_prefix(s@, prefix@) == without_prefix(s@.skip(at as int), prefix@),
        decreases chars@.len() - at,
    {
        proof {
            skipped_part(s@, prefix@, at as int);
            assert(s@.skip(at as int).skip(prefix@.len() as int) =~= s@.skip(
                at + prefix@.len(),
            ));
        }
        at = at + wanted.len();
    }
    proof {
        skipped_part(s@, prefix@, at as int);
    }
    s.substring_char(at, total).to_owned()
}

proof fn skipped_part(s: Seq<char>, part: Seq<char>, at: int)
    requires
        0 <= at <= s.len(),
    ensures
        part_at(s.skip(at), part, 0) == part_at(s, part, at),
        s.subrange(at, s.len() as int) == s.skip(at),
{
    if at + part.len() <= s.len() {
        assert(s.skip(at).subrange(0, part.len() as int) =~= s.subrange(at, at + part.len()));
    }
    assert(s.subrange(at, s.len() as int) =~= s.skip(at));
}

/// A number that was read is within its limit.
pub proof fn number_in_range(s: Seq<char>, radix: nat, limit: nat)
    ensures
        number_of(s, radix, limit) matches Ok(value) ==> value <= limit,
{
    digits_in_range(s, radix, limit);
    if s.len() > 0 {
        digits_in_range(s.skip(1), radix, limit);
    }
}

proof fn digits_in_range(s: Seq<char>, radix: nat, limit: nat)
    ensures
        digits_value(s, radix, limit) matches Ok(value) ==> value <= limit,
    decreases s.len(),
{
    if s.len() > 0 {
        digits_in_range(s.drop_last(), radix, limit);
    }
}

/// The pieces joined by a separator.
pub fn joined(pieces: &Vec<String>, separator: &str) -> (text: String)
    ensures
        text@ == join(texts(pieces@), separator@),
{
    let mut text: String = String::new();
    let mut i: usize = 0;
    let ghost all = texts(pieces@);
    assert(all.take(0) =~= seq![]);
    assert(text@ =~= join(all.take(0), separator@));
    while i < pieces.len()
        invariant
            i <= pieces@.len(),
            all == texts(pieces@),
            text@ == join(all.take(i as int), separator@),
            i == 0 ==> text@.len() == 0,
        decreases pieces@.len() - i,
    {
        proof {
            assert(all.take(i + 1).drop_last() =~= all.take(i as int));
            assert(all.take(i + 1).last() == pieces@[i as int]@);
        }
        let ghost before = text@;
        if i > 0 {
            text.append(separator);
        }
        text.append(pieces[i].as_str());
        proof {
            if i == 0 {
                assert(text@ =~= pieces@[0]@);
            }
        }
        i = i + 1;
    }
    assert(all.take(i as int) =~= all);
    text
}

/// A control character: of ASCII, or of the block behind it.
pub open spec fn is_control(c: char) -> bool {
    c <= '\u{1f}' || '\u{7f}' <= c <= '\u{9f}'
}

/// `s` with spaces in place of control characters.
pub open spec fn without_controls(s: Seq<char>) -> Seq<char> {
    Seq::new(
        s.len(),
        |i: int|
            if is_control(s[i]) {
                ' '
            } else {
                s[i]
            },
    )
}

/// The first `limit` characters of `s`.
pub open spec fn first_chars(s: Seq<char>, limit: nat) -> Seq<char> {
    if s.len() > limit {
        s.take(limit as int)
    } else {
        s
    }
}

/// A text of others made fit for one line: no spaces around it, no control characters, at
/// most `limit` characters.
pub fn tame(s: &str, limit: usize) -> (text: String)
    ensures
        text@ == first_chars(without_controls(trimmed(s@)), limit as nat),
{
    let chars: Vec<char> = chars_of(trim(s).as_str());
    let ghost all = without_controls(trimmed(s@));
    let mut text: String = String::new();
    let mut i: usize = 0;
    assert(text@ =~= all.take(0));
    while i < chars.len() && i < limit
        invariant
            i <= chars@.len(),
            i <= limit,
            chars@ == trimmed(s@),
            all == without_controls(trimmed(s@)),
            text@ == all.take(i as int),
        decreases chars@.len() - i,
    {
        let c: char = chars[i];
        if c <= '\u{1f}' || (c >= '\u{7f}' && c <= '\u{9f}') {
            push_char(&mut text, ' ');
        } else {
            push_char(&mut text, c);
        }
        i = i + 1;
        assert(all.take(i as int) =~= all.take(i - 1).push(all[i - 1]));
    }
    if i == chars.len() {
        assert(all.take(i as int) =~= all);
    }
    text
}

/// The letters of ASCII: the lower case stands 32 behind the upper, and nothing else changes
/// its case.
pub proof fn cases_of_letters(c: char)
    ensures
        is_upper(c) == (65 <= c as u32 <= 90),
        is_lower(c) == (97 <= c as u32 <= 122),
        is_digit(c) == (48 <= c as u32 <= 57),
        is_alphanumeric(c) == (is_upper(c) || is_lower(c) || is_digit(c)),
        is_lower(c) ==> upper(c) as u32 == c as u32 - 32,
        !is_lower(c) ==> upper(c) == c,
        is_upper(c) ==> lower(c) as u32 == c as u32 + 32,
        !is_upper(c) ==> lower(c) == c,
{
}

/// A number that is written in decimal is read back, where it is within the limit.
pub proof fn decimal_is_read_back(n: nat, limit: nat)
    ensures
        n <= limit ==> number_of(decimal(n), 10, limit) == Ok::<nat, NumberError>(n),
        n > limit ==> number_of(decimal(n), 10, limit) == Err::<nat, NumberError>(
            NumberError::TooLarge,
        ),
        decimal(n).len() > 0,
        forall|i: int| 0 <= i < decimal(n).len() ==> is_digit(#[trigger] decimal(n)[i]),
        n >= 10 ==> decimal(n).last() as u32 == 48 + n % 10,
        n < 10 ==> decimal(n) == seq![(48 + n) as char],
{
    digits_are_read_back(n, limit);
    assert(decimal(n)[0] != '+') by {
        assert(is_digit(decimal(n)[0]));
    }
}

proof fn digits_are_read_back(n: nat, limit: nat)
    ensures
        n <= limit ==> digits_value(decimal(n), 10, limit) == Ok::<nat, NumberError>(n),
        n > limit ==> digits_value(decimal(n), 10, limit) == Err::<nat, NumberError>(
            NumberError::TooLarge,
        ),
        decimal(n).len() > 0,
        forall|i: int| 0 <= i < decimal(n).len() ==> is_digit(#[trigger] decimal(n)[i]),
    decreases n,
{
    let s = decimal(n);
    if n < 10 {
        assert(s.drop_last() =~= seq![]);
        reveal_with_fuel(digits_value, 2);
        assert(digit_of(s.last(), 10) == Some(n));
    } else {
        digits_are_read_back(n / 10, limit);
        let front = decimal(n / 10);
        assert(s.drop_last() =~= front);
        assert(digit_of(s.last(), 10) == Some(n % 10));
        assert forall|i: int| 0 <= i < s.len() implies is_digit(#[trigger] s[i]) by {
            if i < front.len() {
                assert(s[i] == front[i]);
            }
        }
    }
}

/// Trimming takes away spaces at the ends, all of them, and nothing else.
pub proof fn trimming_takes_the_outer_spaces(s: Seq<char>)
    ensures
        exists|from: int, to: int|
            0 <= from <= to <= s.len() && trimmed(s) == #[trigger] s.subrange(from, to) && (forall|
                i: int,
            |
                (0 <= i < from || to <= i < s.len()) ==> is_space(#[trigger] s[i])),
        trimmed(s).len() > 0 ==> !is_space(trimmed(s)[0]) && !is_space(trimmed(s).last()),
{
    let from = start_trimmed(s);
    let rest = trimmed_start(s);
    let n = end_trimmed(rest);
    assert(trimmed(s) =~= s.subrange(from, from + n));
    assert forall|i: int| (0 <= i < from || from + n <= i < s.len()) implies is_space(
        #[trigger] s[i],
    ) by {
        if i >= from + n {
            assert(rest[i - from] == s[i]);
        }
    }
    if trimmed(s).len() > 0 {
        assert(trimmed(s)[0] == rest[0]);
    }
}

proof fn start_trimmed(s: Seq<char>) -> (from: int)
    ensures
        0 <= from <= s.len(),
        trimmed_start(s) == s.subrange(from, s.len() as int),
        forall|i: int| 0 <= i < from ==> is_space(#[trigger] s[i]),
        from < s.len() ==> !is_space(s[from]),
    decreases s.len(),
{
    if s.len() > 0 && is_space(s[0]) {
        let rest = s.skip(1);
        let from = start_trimmed(rest);
        assert(trimmed_start(s) =~= s.subrange(from + 1, s.len() as int));
        assert forall|i: int| 0 <= i < from + 1 implies is_space(#[trigger] s[i]) by {
            if i > 0 {
                assert(rest[i - 1] == s[i]);
            }
        }
        from + 1
    } else {
        assert(s.subrange(0, s.len() as int) =~= s);
        0
    }
}

proof fn end_trimmed(s: Seq<char>) -> (to: int)
    ensures
        0 <= to <= s.len(),
        trimmed_end(s) == s.take(to),
        forall|i: int| to <= i < s.len() ==> is_space(#[trigger] s[i]),
        to > 0 ==> !is_space(s[to - 1]),
    decreases s.len(),
{
    if s.len() > 0 && is_space(s.last()) {
        let rest = s.drop_last();
        let to = end_trimmed(rest);
        assert(trimmed_end(s) =~= s.take(to));
        assert forall|i: int| to <= i < s.len() implies is_space(#[trigger] s[i]) by {
            if i < rest.len() {
                assert(rest[i] == s[i]);
            }
        }
        to
    } else {
        assert(s.take(s.len() as int) =~= s);
        s.len() as int
    }
}

/// The pieces of a text, put together with the separator, give the text, and no piece holds
/// the separator.
pub proof fn pieces_make_the_text(s: Seq<char>, separator: char)
    ensures
        join(split(s, separator), seq![separator]) == s,
        split(s, separator).len() > 0,
        forall|i: int|
            0 <= i < split(s, separator).len() ==> !(#[trigger] split(s, separator)[i]).contains(
                separator,
            ),
    decreases s.len(),
{
    let pieces = split(s, separator);
    if s.len() == 0 {
        assert(pieces =~= seq![Seq::<char>::empty()]);
        assert(join(pieces, seq![separator]) =~= s);
    } else {
        pieces_make_the_text(s.drop_last(), separator);
        let front = split(s.drop_last(), separator);
        assert(s =~= s.drop_last().push(s.last()));
        if s.last() == separator {
            assert(pieces.drop_last() =~= front);
            assert(join(pieces, seq![separator]) =~= s);
        } else {
            let n = front.len() - 1;
            assert(pieces.drop_last() =~= front.drop_last());
            assert(pieces.last() == front.last().push(s.last()));
            assert(join(pieces, seq![separator]) =~= s);
            assert forall|i: int| 0 <= i < pieces.len() implies !(#[trigger] pieces[i]).contains(
                separator,
            ) by {
                assert(!front[i].contains(separator));
                if i == n {
                    let piece = pieces[i];
                    if piece.contains(separator) {
                        let k = choose|k: int| 0 <= k < piece.len() && piece[k] == separator;
                        assert(front[i][k] == separator);
                    }
                }
            }
        }
    }
}

/// Sixteen to the power `width`.
pub open spec fn hex_range(width: nat) -> nat
    decreases width,
{
    if width == 0 {
        1
    } else {
        16 * hex_range((width - 1) as nat)
    }
}

/// A number that is written in hexadecimal digits is read back, where they are enough for it.
pub proof fn hex_is_read_back(n: nat, width: nat, limit: nat)
    requires
        n < hex_range(width),
        n <= limit,
    ensures
        hex(n, width).len() == width,
        width > 0 ==> number_of(hex(n, width), 16, limit) == Ok::<nat, NumberError>(n),
        forall|i: int|
            0 <= i < width ==> is_digit(#[trigger] hex(n, width)[i]) || 'a' <= hex(n, width)[i]
                <= 'f',
{
    hex_digits_are_read_back(n, width, limit);
    if width > 0 {
        assert(hex(n, width)[0] != '+') by {
            let c = hex(n, width)[0];
            assert(is_digit(c) || 'a' <= c <= 'f');
        }
    }
}

proof fn hex_digits_are_read_back(n: nat, width: nat, limit: nat)
    requires
        n < hex_range(width),
        n <= limit,
    ensures
        hex(n, width).len() == width,
        digits_value(hex(n, width), 16, limit) == Ok::<nat, NumberError>(n),
        forall|i: int|
            0 <= i < width ==> is_digit(#[trigger] hex(n, width)[i]) || 'a' <= hex(n, width)[i]
                <= 'f',
    decreases width,
{
    if width > 0 {
        hex_digits_are_read_back(n / 16, (width - 1) as nat, limit);
        let front = hex(n / 16, (width - 1) as nat);
        let all = hex(n, width);
        assert(all.drop_last() =~= front);
        assert(digit_of(hex_char(n % 16), 16) == Some(n % 16));
        assert forall|i: int| 0 <= i < width implies is_digit(#[trigger] all[i]) || 'a' <= all[i]
            <= 'f' by {
            if i < width - 1 {
                assert(all[i] == front[i]);
            }
        }
    }
}

/// Each digit more counts the number so far once for every unit of the base, and itself; a
/// letter counts from ten on, in either case; whatever is no digit of the base is refused.
pub proof fn digits_are_places(s: Seq<char>, c: char, radix: nat, limit: nat)
    requires
        s.len() > 0,
        s != seq!['+'],
        2 <= radix <= 16,
    ensures
        ({
            let value = if 48 <= c as u32 <= 57 {
                c as int - 48
            } else if 97 <= c as u32 <= 102 {
                c as int - 97 + 10
            } else if 65 <= c as u32 <= 70 {
                c as int - 65 + 10
            } else {
                16
            };
            match number_of(s, radix, limit) {
                Ok(front) => number_of(s.push(c), radix, limit) == if value >= radix {
                    Err::<nat, NumberError>(NumberError::InvalidDigit)
                } else if front * radix + value > limit {
                    Err(NumberError::TooLarge)
                } else {
                    Ok((front * radix + value) as nat)
                },
                Err(error) => number_of(s.push(c), radix, limit) == Err::<nat, NumberError>(error),
            }
        }),
{
    let longer = s.push(c);
    if s[0] == '+' {
        if s.len() == 1 {
            assert(s =~= seq!['+']);
        }
        assert(longer.skip(1) =~= s.skip(1).push(c));
        assert(longer.skip(1).drop_last() =~= s.skip(1));
    } else {
        assert(longer.drop_last() =~= s);
    }
}

/// Nothing of a tamed text breaks its line: each character is that of the text, or a space in
/// place of a control character, and there are no more than the limit.
pub proof fn tamed_texts_stay_on_a_line(s: Seq<char>, limit: nat, i: int)
    ensures
        ({
            let tamed = first_chars(without_controls(s), limit);
            &&& tamed.len() <= limit && tamed.len() <= s.len()
            &&& tamed.len() == limit || tamed.len() == s.len()
            &&& 0 <= i < tamed.len() ==> if (s[i] as int) < 32 || 127 <= s[i] as int <= 159 {
                tamed[i] == ' '
            } else {
                tamed[i] == s[i]
            }
        }),
{
}

/// A negative number is its magnitude behind a minus.
pub proof fn signs_are_written(n: int)
    ensures
        n >= 0 ==> signed_decimal(n) == decimal(n as nat),
        n < 0 ==> signed_decimal(n)[0] == '-' && signed_decimal(n).skip(1) == decimal(-n as nat),
{
    reveal_strlit("-");
    if n < 0 {
        assert(signed_decimal(n).skip(1) =~= decimal(-n as nat));
    }
}

} // verus!
