//! Searching, splitting and reading texts.
use crate::text::{characters, dec_text, digit_char, hex, hex_text, text_of};
use vstd::prelude::*;

verus! {

/// A part stands in a sequence at a position.
pub open spec fn occurs_at<T>(whole: Seq<T>, part: Seq<T>, index: int) -> bool {
    0 <= index && index + part.len() <= whole.len() && whole.subrange(index, index + part.len())
        == part
}

/// A part stands somewhere in a sequence.
pub open spec fn occurs<T>(whole: Seq<T>, part: Seq<T>) -> bool {
    exists|index: int| occurs_at(whole, part, index)
}

/// The first position at which a part stands.
pub open spec fn first_at<T>(whole: Seq<T>, part: Seq<T>, index: int) -> bool {
    occurs_at(whole, part, index) && forall|earlier: int|
        earlier < index ==> !#[trigger] occurs_at(whole, part, earlier)
}

/// Where bytes first stand in a stretch of bytes, if they do.
pub open spec fn search_result<T>(whole: Seq<T>, part: Seq<T>, found: Option<usize>) -> bool {
    match found {
        Some(index) => first_at(whole, part, index as int),
        None => !occurs(whole, part),
    }
}

fn bytes_at(whole: &[u8], part: &[u8], index: usize) -> (found: bool)
    requires
        index <= whole@.len(),
        part@.len() <= whole@.len() - index,
    ensures
        found == occurs_at(whole@, part@, index as int),
{
    let mut offset: usize = 0;
    while offset < part.len()
        invariant
            offset <= part@.len(),
            index + part@.len() <= whole.len(),
            forall|i: int| 0 <= i < offset ==> whole@[index + i] == #[trigger] part@[i],
        decreases part.len() - offset,
    {
        if whole[index + offset] != part[offset] {
            proof {
                let window = whole@.subrange(index as int, index + part@.len());
                assert(window[offset as int] != part@[offset as int]);
            }
            return false;
        }
        offset = offset + 1;
    }
    proof {
        assert(whole@.subrange(index as int, index + part@.len()) =~= part@);
    }
    true
}

/// Finds bytes in a stretch of bytes.
pub fn find_bytes(whole: &[u8], part: &[u8]) -> (found: Option<usize>)
    ensures
        search_result(whole@, part@, found),
{
    if part.len() > whole.len() {
        return None;
    }
    let last: usize = whole.len() - part.len();
    let mut index: usize = 0;
    while index < last
        invariant
            index <= last,
            last == whole@.len() - part@.len(),
            forall|earlier: int| earlier < index ==> !#[trigger] occurs_at(whole@, part@, earlier),
        decreases last - index,
    {
        if bytes_at(whole, part, index) {
            return Some(index);
        }
        index = index + 1;
    }
    if bytes_at(whole, part, last) {
        Some(last)
    } else {
        None
    }
}

fn chars_at(whole: &[char], part: &[char], index: usize) -> (found: bool)
    requires
        index <= whole@.len(),
        part@.len() <= whole@.len() - index,
    ensures
        found == occurs_at(whole@, part@, index as int),
{
    let mut offset: usize = 0;
    while offset < part.len()
        invariant
            offset <= part@.len(),
            index + part@.len() <= whole.len(),
            forall|i: int| 0 <= i < offset ==> whole@[index + i] == #[trigger] part@[i],
        decreases part.len() - offset,
    {
        if whole[index + offset] != part[offset] {
            proof {
                let window = whole@.subrange(index as int, index + part@.len());
                assert(window[offset as int] != part@[offset as int]);
            }
            return false;
        }
        offset = offset + 1;
    }
    proof {
        assert(whole@.subrange(index as int, index + part@.len()) =~= part@);
    }
    true
}

/// Finds a text in another one, both given by their characters.
pub fn find_chars(whole: &[char], part: &[char]) -> (found: Option<usize>)
    ensures
        search_result(whole@, part@, found),
{
    if part.len() > whole.len() {
        return None;
    }
    let last: usize = whole.len() - part.len();
    let mut index: usize = 0;
    while index < last
        invariant
            index <= last,
            last == whole@.len() - part@.len(),
            forall|earlier: int| earlier < index ==> !#[trigger] occurs_at(whole@, part@, earlier),
        decreases last - index,
    {
        if chars_at(whole, part, index) {
            return Some(index);
        }
        index = index + 1;
    }
    if chars_at(whole, part, last) {
        Some(last)
    } else {
        None
    }
}

/// Whether a text begins with another one.
pub fn starts_with_chars(whole: &[char], part: &[char]) -> (begins: bool)
    ensures
        begins == begins_with(whole@, part@),
{
    part.len() <= whole.len() && chars_at(whole, part, 0)
}

/// Whether bytes begin with given ones.
pub fn starts_with_bytes(whole: &[u8], part: &[u8]) -> (begins: bool)
    ensures
        begins == begins_with(whole@, part@),
{
    part.len() <= whole.len() && bytes_at(whole, part, 0)
}

/// A text begins with another one.
pub open spec fn begins_with<T>(whole: Seq<T>, part: Seq<T>) -> bool {
    occurs_at(whole, part, 0)
}

/// The character with an ASCII capital letter made small.
pub open spec fn lower_char(c: char) -> char {
    if 'A' <= c <= 'Z' {
        ((c as u8) + 32) as char
    } else {
        c
    }
}

/// The text with ASCII capital letters made small.
pub open spec fn lower_text(text: Seq<char>) -> Seq<char> {
    Seq::new(text.len(), |i: int| lower_char(text[i]))
}

/// Makes ASCII capital letters small.
pub fn lower_characters(text: &str) -> (lowered: Vec<char>)
    ensures
        lowered@ == lower_text(text@),
{
    let chars = characters(text);
    let mut lowered: Vec<char> = Vec::new();
    let mut index: usize = 0;
    while index < chars.len()
        invariant
            index <= chars.len(),
            chars@ == text@,
            lowered@ == lower_text(text@.take(index as int)),
        decreases chars.len() - index,
    {
        let c: char = chars[index];
        if 'A' <= c && c <= 'Z' {
            lowered.push((c as u8 + 32) as char);
        } else {
            lowered.push(c);
        }
        proof {
            assert(lowered@ =~= lower_text(text@.take(index + 1)));
        }
        index = index + 1;
    }
    proof {
        assert(text@.take(index as int) =~= text@);
    }
    lowered
}

/// How many characters stand before the first separator, or before the end.
pub open spec fn length_before(text: Seq<char>, separator: char) -> nat
    decreases text.len(),
{
    if text.len() == 0 || text[0] == separator {
        0
    } else {
        1 + length_before(text.drop_first(), separator)
    }
}

/// The pieces between separators; a text without one is a single piece.
pub open spec fn split_text(text: Seq<char>, separator: char) -> Seq<Seq<char>>
    decreases text.len(),
{
    let length = length_before(text, separator);
    if length >= text.len() {
        seq![text]
    } else {
        seq![text.take(length as int)] + split_text(text.skip(length as int + 1), separator)
    }
}

/// The length before a separator is the first position of one.
pub proof fn lemma_length_before(text: Seq<char>, separator: char)
    ensures
        length_before(text, separator) <= text.len(),
        length_before(text, separator) < text.len() ==> text[length_before(text, separator) as int]
            == separator,
        forall|i: int| 0 <= i < length_before(text, separator) ==> #[trigger] text[i] != separator,
    decreases text.len(),
{
    if text.len() > 0 && text[0] != separator {
        let rest = text.drop_first();
        lemma_length_before(rest, separator);
        assert forall|i: int| 0 <= i < length_before(text, separator) implies #[trigger] text[i]
            != separator by {
            if i > 0 {
                assert(rest[i - 1] != separator);
            }
        }
    }
}

/// A position before which no separator stands, and at which one stands or the
/// text ends, is the length before it.
pub proof fn lemma_length_before_unique(text: Seq<char>, separator: char, length: int)
    requires
        0 <= length <= text.len(),
        length < text.len() ==> text[length] == separator,
        forall|i: int| 0 <= i < length ==> #[trigger] text[i] != separator,
    ensures
        length_before(text, separator) == length,
{
    lemma_length_before(text, separator);
    let found = length_before(text, separator);
    if found < length {
        assert(text[found as int] != separator);
    } else if length < found {
        assert(text[length] != separator);
    }
}

/// The position of the first separator from a position on, or the end.
pub fn separator_from(chars: &[char], start: usize, separator: char) -> (position: usize)
    requires
        start <= chars@.len(),
    ensures
        start <= position <= chars@.len(),
        position - start == length_before(chars@.skip(start as int), separator),
{
    let mut position: usize = start;
    while position < chars.len() && chars[position] != separator
        invariant
            start <= position <= chars@.len(),
            forall|i: int| start <= i < position ==> #[trigger] chars@[i] != separator,
        decreases chars.len() - position,
    {
        position = position + 1;
    }
    proof {
        let text = chars@.skip(start as int);
        assert forall|i: int| 0 <= i < position - start implies #[trigger] text[i] != separator by {
            assert(chars@[start + i] != separator);
        }
        lemma_length_before_unique(text, separator, position - start);
    }
    position
}

/// The characters from one position up to another one, as a text.
pub fn text_between(chars: &[char], start: usize, end: usize) -> (text: String)
    requires
        start <= end <= chars@.len(),
    ensures
        text@ == chars@.subrange(start as int, end as int),
{
    text_of(vstd::slice::slice_subrange(chars, start, end))
}

/// Splits a text at a separator.
pub fn split_at_separator(text: &str, separator: char) -> (pieces: Vec<String>)
    ensures
        crate::text_map::texts(pieces@) == split_text(text@, separator),
{
    let chars = characters(text);
    let mut pieces: Vec<String> = Vec::new();
    let mut start: usize = 0;
    let mut done: bool = false;
    proof {
        assert(text@.skip(0) =~= text@);
        assert(crate::text_map::texts(pieces@) + split_text(text@, separator) =~= split_text(
            text@,
            separator,
        ));
    }
    while !done
        invariant
            start <= chars@.len(),
            chars@ == text@,
            !done ==> split_text(text@, separator) == crate::text_map::texts(pieces@) + split_text(
                text@.skip(start as int),
                separator,
            ),
            done ==> split_text(text@, separator) == crate::text_map::texts(pieces@),
        decreases
                chars@.len() - start,
                if done {
                    0int
                } else {
                    1int
                },
    {
        let position: usize = separator_from(chars.as_slice(), start, separator);
        let ghost before = pieces@;
        let ghost rest = text@.skip(start as int);
        pieces.push(text_between(chars.as_slice(), start, position));
        proof {
            assert(rest.take(position - start) =~= text@.subrange(start as int, position as int));
            assert(crate::text_map::texts(pieces@) =~= crate::text_map::texts(before).push(
                text@.subrange(start as int, position as int),
            ));
        }
        if position < chars.len() {
            proof {
                assert(rest.skip(position - start + 1) =~= text@.skip(position + 1));
                assert(crate::text_map::texts(before) + split_text(rest, separator)
                    =~= crate::text_map::texts(pieces@) + split_text(
                    text@.skip(position + 1),
                    separator,
                ));
            }
            start = position + 1;
        } else {
            proof {
                assert(rest =~= text@.subrange(start as int, position as int));
                assert(crate::text_map::texts(before) + split_text(rest, separator)
                    =~= crate::text_map::texts(pieces@));
            }
            done = true;
        }
    }
    pieces
}

/// The characters that Unicode counts as white space.
pub open spec fn white_space(c: char) -> bool {
    ||| '\u{9}' <= c <= '\u{d}'
    ||| c == ' '
    ||| c == '\u{85}'
    ||| c == '\u{a0}'
    ||| c == '\u{1680}'
    ||| '\u{2000}' <= c <= '\u{200a}'
    ||| c == '\u{2028}'
    ||| c == '\u{2029}'
    ||| c == '\u{202f}'
    ||| c == '\u{205f}'
    ||| c == '\u{3000}'
}

fn is_white_space(c: char) -> (white: bool)
    ensures
        white == white_space(c),
{
    ('\u{9}' <= c && c <= '\u{d}') || c == ' ' || c == '\u{85}' || c == '\u{a0}' || c == '\u{1680}'
        || ('\u{2000}' <= c && c <= '\u{200a}') || c == '\u{2028}' || c == '\u{2029}' || c
        == '\u{202f}' || c == '\u{205f}' || c == '\u{3000}'
}

/// The text without white space in front.
pub open spec fn without_leading_space(text: Seq<char>) -> Seq<char>
    decreases text.len(),
{
    if text.len() > 0 && white_space(text[0]) {
        without_leading_space(text.drop_first())
    } else {
        text
    }
}

/// The text without white space at its end.
pub open spec fn without_trailing_space(text: Seq<char>) -> Seq<char>
    decreases text.len(),
{
    if text.len() > 0 && white_space(text.last()) {
        without_trailing_space(text.drop_last())
    } else {
        text
    }
}

/// The text without white space at either end.
pub open spec fn trimmed(text: Seq<char>) -> Seq<char> {
    without_trailing_space(without_leading_space(text))
}

/// Takes away white space in front of a text.
pub fn trim_start_chars(chars: &[char]) -> (start: usize)
    ensures
        start <= chars@.len(),
        chars@.skip(start as int) == without_leading_space(chars@),
{
    let mut start: usize = 0;
    proof {
        assert(chars@.skip(0) =~= chars@);
    }
    while start < chars.len() && is_white_space(chars[start])
        invariant
            start <= chars@.len(),
            without_leading_space(chars@.skip(start as int)) == without_leading_space(chars@),
        decreases chars.len() - start,
    {
        proof {
            assert(chars@.skip(start as int).drop_first() =~= chars@.skip(start + 1));
        }
        start = start + 1;
    }
    start
}

/// Takes away white space at both ends of a text.
pub fn trim_text(text: &str) -> (result: String)
    ensures
        result@ == trimmed(text@),
{
    let chars = characters(text);
    let start: usize = trim_start_chars(chars.as_slice());
    let mut end: usize = chars.len();
    let ghost body = chars@.skip(start as int);
    proof {
        assert(chars@.subrange(start as int, end as int) =~= body);
    }
    while start < end && is_white_space(chars[end - 1])
        invariant
            start <= end <= chars@.len(),
            without_trailing_space(chars@.subrange(start as int, end as int))
                == without_trailing_space(body),
        decreases end,
    {
        proof {
            assert(chars@.subrange(start as int, end as int).drop_last() =~= chars@.subrange(
                start as int,
                end - 1,
            ));
        }
        end = end - 1;
    }
    text_between(chars.as_slice(), start, end)
}

/// The value of a digit, in either case of letters.
pub open spec fn digit_value(c: char, radix: nat) -> Option<nat> {
    let code = c as nat;
    let value: nat = if '0' <= c <= '9' {
        (code - 0x30) as nat
    } else if 'a' <= c <= 'z' {
        (code - 0x57) as nat
    } else if 'A' <= c <= 'Z' {
        (code - 0x37) as nat
    } else {
        36
    };
    if value < radix {
        Some(value)
    } else {
        None
    }
}

/// The value of a sequence of digits; of none it is zero.
pub open spec fn digits_value(digits: Seq<char>, radix: nat) -> Option<nat>
    decreases digits.len(),
{
    if digits.len() == 0 {
        Some(0)
    } else {
        match (digits_value(digits.drop_last(), radix), digit_value(digits.last(), radix)) {
            (Some(value), Some(digit)) => Some(value * radix + digit),
            _ => None,
        }
    }
}

/// The number that a text stands for: digits, at least one, after an optional
/// plus sign, with a value that does not exceed a limit.
pub open spec fn number_of(text: Seq<char>, radix: nat, limit: nat) -> Option<nat> {
    let digits = if text.len() > 0 && text[0] == '+' {
        text.skip(1)
    } else {
        text
    };
    if digits.len() == 0 {
        None
    } else {
        match digits_value(digits, radix) {
            Some(value) => if value <= limit {
                Some(value)
            } else {
                None
            },
            None => None,
        }
    }
}

fn digit_of(c: char) -> (value: u8)
    ensures
        value <= 36,
        forall|radix: nat|
            radix <= 36 ==> #[trigger] digit_value(c, radix) == (if value < radix {
                Some(value as nat)
            } else {
                None
            }),
{
    if '0' <= c && c <= '9' {
        c as u8 - 0x30
    } else if 'a' <= c && c <= 'z' {
        c as u8 - 0x57
    } else if 'A' <= c && c <= 'Z' {
        c as u8 - 0x37
    } else {
        36
    }
}

/// More digits do not make a number smaller.
proof fn lemma_prefix_value(digits: Seq<char>, length: int, radix: nat)
    requires
        0 <= length <= digits.len(),
        radix >= 1,
        digits_value(digits, radix) is Some,
    ensures
        digits_value(digits.take(length), radix) is Some,
        digits_value(digits.take(length), radix)->0 <= digits_value(digits, radix)->0,
    decreases digits.len(),
{
    if length == digits.len() {
        assert(digits.take(length) =~= digits);
    } else {
        let shorter = digits.drop_last();
        lemma_prefix_value(shorter, length, radix);
        assert(shorter.take(length) =~= digits.take(length));
        let value = digits_value(shorter, radix)->0;
        assert(value <= value * radix) by (nonlinear_arith)
            requires
                radix >= 1,
        ;
    }
}

/// Reads a number from characters.
pub fn read_number(chars: &[char], radix: u8, limit: u32) -> (number: Option<u32>)
    requires
        2 <= radix <= 36,
    ensures
        match (number, number_of(chars@, radix as nat, limit as nat)) {
            (Some(number), Some(value)) => number == value,
            (None, None) => true,
            _ => false,
        },
{
    let start: usize = if chars.len() > 0 && chars[0] == '+' {
        1
    } else {
        0
    };
    let ghost digits = chars@.skip(start as int);
    proof {
        assert(chars@.skip(0) =~= chars@);
    }
    if start == chars.len() {
        return None;
    }
    let mut value: u64 = 0;
    let mut index: usize = start;
    proof {
        assert(digits.take(0) =~= seq![]);
    }
    while index < chars.len()
        invariant
            start <= index <= chars@.len(),
            start <= 1,
            digits == chars@.skip(start as int),
            2 <= radix <= 36,
            value <= limit,
            digits_value(digits.take(index - start), radix as nat) == Some(value as nat),
            number_of(chars@, radix as nat, limit as nat) == (match digits_value(
                digits,
                radix as nat,
            ) {
                Some(value) => if value <= limit {
                    Some(value)
                } else {
                    None
                },
                None => None,
            }),
        decreases chars.len() - index,
    {
        let digit: u8 = digit_of(chars[index]);
        let ghost longer = digits.take(index - start + 1);
        proof {
            assert(longer.drop_last() =~= digits.take(index - start));
            assert(longer.last() == chars@[index as int]);
            if digits_value(digits, radix as nat) is Some {
                lemma_prefix_value(digits, index - start + 1, radix as nat);
            }
            assert(value * radix <= 0xffff_ffff * 36) by (nonlinear_arith)
                requires
                    value <= 0xffff_ffff,
                    radix <= 36,
            ;
        }
        if digit >= radix {
            return None;
        }
        value = value * radix as u64 + digit as u64;
        if value > limit as u64 {
            return None;
        }
        index = index + 1;
    }
    proof {
        assert(digits.take(index - start) =~= digits);
    }
    Some(value as u32)
}

/// A digit's character has the digit's value.
proof fn lemma_digit_char(digit: nat, upper: bool, radix: nat)
    requires
        digit < radix <= 16,
    ensures
        digit_value(digit_char(digit, upper), radix) == Some(digit),
        digit_char(digit, upper) != '+',
{
}

proof fn lemma_dec_value(n: nat)
    ensures
        dec_text(n).len() >= 1,
        dec_text(n)[0] != '+',
        digits_value(dec_text(n), 10) == Some(n),
    decreases n,
{
    lemma_digit_char(n % 10, false, 10);
    if n < 10 {
        assert(dec_text(n).drop_last() =~= seq![]);
        assert(digits_value(dec_text(n).drop_last(), 10) == Some(0nat));
    } else {
        lemma_dec_value(n / 10);
        assert(dec_text(n).drop_last() =~= dec_text(n / 10));
    }
}

proof fn lemma_hex_value(n: nat, width: nat, upper: bool)
    ensures
        hex_text(n, width, upper).len() >= 1,
        hex_text(n, width, upper)[0] != '+',
        digits_value(hex_text(n, width, upper), 16) == Some(n),
    decreases n, width,
{
    let text = hex_text(n, width, upper);
    lemma_digit_char(n % 16, upper, 16);
    if n < 16 && width <= 1 {
        assert(text.drop_last() =~= seq![]);
        assert(digits_value(text.drop_last(), 16) == Some(0nat));
    } else {
        let shorter: nat = if width == 0 {
            0
        } else {
            (width - 1) as nat
        };
        lemma_hex_value(n / 16, shorter, upper);
        assert(text.drop_last() =~= hex_text(n / 16, shorter, upper));
    }
}

/// Reading a number gives back the one that was written, in decimal and, with
/// any padding and either case of letters, in hexadecimal.
pub proof fn written_numbers_read_back(n: nat, width: nat, upper: bool, limit: nat)
    requires
        n <= limit,
    ensures
        number_of(dec_text(n), 10, limit) == Some(n),
        number_of(hex_text(n, width, upper), 16, limit) == Some(n),
{
    lemma_dec_value(n);
    lemma_hex_value(n, width, upper);
}

/// A number that is read up to a limit stays within it.
pub proof fn lemma_number_limit(text: Seq<char>, radix: nat, limit: nat)
    ensures
        number_of(text, radix, limit) matches Some(number) ==> number <= limit,
{
}

/// A character as it stands in an escaped ASCII text: itself if it is printable
/// and not a quote or a backslash, a short escape for these, for tab, carriage
/// return and line feed, and a Unicode escape otherwise.
pub open spec fn escaped_char(c: char) -> Seq<char> {
    if c == '\t' {
        seq!['\\', 't']
    } else if c == '\r' {
        seq!['\\', 'r']
    } else if c == '\n' {
        seq!['\\', 'n']
    } else if c == '\'' || c == '"' || c == '\\' {
        seq!['\\', c]
    } else if ' ' <= c <= '~' {
        seq![c]
    } else {
        seq!['\\', 'u', '{'] + hex_text(c as nat, 1, false) + seq!['}']
    }
}

/// The escaped form of a text.
pub open spec fn escaped_text(text: Seq<char>) -> Seq<char>
    decreases text.len(),
{
    if text.len() == 0 {
        seq![]
    } else {
        escaped_text(text.drop_last()) + escaped_char(text.last())
    }
}

/// Appends the escaped form of a character.
pub fn push_escaped(text: &mut String, c: char)
    ensures
        final(text)@ == old(text)@ + escaped_char(c),
{
    if c == '\t' {
        text.push('\\');
        text.push('t');
    } else if c == '\r' {
        text.push('\\');
        text.push('r');
    } else if c == '\n' {
        text.push('\\');
        text.push('n');
    } else if c == '\'' || c == '"' || c == '\\' {
        text.push('\\');
        text.push(c);
    } else if ' ' <= c && c <= '~' {
        text.push(c);
    } else {
        text.push('\\');
        text.push('u');
        text.push('{');
        text.append(hex(c as u64, 1, false).as_str());
        text.push('}');
    }
    proof {
        assert(text@ =~= old(text)@ + escaped_char(c));
    }
}

/// Escapes a text.
pub fn escape_text(text: &str) -> (escaped: String)
    ensures
        escaped@ == escaped_text(text@),
{
    let chars = characters(text);
    let mut escaped = String::new();
    let mut index: usize = 0;
    proof {
        assert(text@.take(0) =~= seq![]);
    }
    while index < chars.len()
        invariant
            index <= chars.len(),
            chars@ == text@,
            escaped@ == escaped_text(text@.take(index as int)),
        decreases chars.len() - index,
    {
        push_escaped(&mut escaped, chars[index]);
        proof {
            assert(text@.take(index + 1).drop_last() =~= text@.take(index as int));
        }
        index = index + 1;
    }
    proof {
        assert(text@.take(index as int) =~= text@);
    }
    escaped
}

/// The value of a hexadecimal digit.
pub open spec fn nibble(byte: u8) -> Option<u8> {
    if 0x30 <= byte <= 0x39 {
        Some((byte - 0x30) as u8)
    } else if 0x41 <= byte <= 0x46 {
        Some((byte - 0x37) as u8)
    } else if 0x61 <= byte <= 0x66 {
        Some((byte - 0x57) as u8)
    } else {
        None
    }
}

/// Reads a hexadecimal digit.
pub fn nibble_of(byte: u8) -> (value: Option<u8>)
    ensures
        value == nibble(byte),
        value matches Some(digit) ==> digit < 16,
{
    if 0x30 <= byte && byte <= 0x39 {
        Some(byte - 0x30)
    } else if 0x41 <= byte && byte <= 0x46 {
        Some(byte - 0x37)
    } else if 0x61 <= byte && byte <= 0x66 {
        Some(byte - 0x57)
    } else {
        None
    }
}

/// The byte that two hexadecimal digits at an offset stand for: no sign, no blank.
pub open spec fn hex_pair(bytes: Seq<u8>, index: int) -> Option<u8> {
    match (nibble(bytes[index]), nibble(bytes[index + 1])) {
        (Some(high), Some(low)) => Some((high * 16 + low) as u8),
        _ => None,
    }
}

/// Reads two hexadecimal digits at an offset.
pub fn hex_pair_of(bytes: &[u8], index: usize) -> (value: Option<u8>)
    requires
        index + 1 < bytes@.len(),
    ensures
        value == hex_pair(bytes@, index as int),
{
    match (nibble_of(bytes[index]), nibble_of(bytes[index + 1])) {
        (Some(high), Some(low)) => Some(high * 16 + low),
        _ => None,
    }
}

/// A stretch of a text that separators, or the ends of the text, stand around, and
/// within which none stands.
pub open spec fn is_piece(text: Seq<char>, separator: char, start: int, end: int) -> bool {
    &&& 0 <= start <= end <= text.len()
    &&& start == 0 || text[start - 1] == separator
    &&& end == text.len() || text[end] == separator
    &&& forall|i: int| start <= i < end ==> #[trigger] text[i] != separator
}

/// How many separators stand before a position.
pub open spec fn separators_before(text: Seq<char>, separator: char, position: int) -> nat
    decreases position,
{
    if position <= 0 {
        0
    } else if text[position - 1] == separator {
        separators_before(text, separator, position - 1) + 1
    } else {
        separators_before(text, separator, position - 1)
    }
}

proof fn lemma_separators_after(text: Seq<char>, separator: char, position: int)
    requires
        0 <= position <= text.len(),
    ensures
        ({
            let first = length_before(text, separator);
            &&& position <= first ==> separators_before(text, separator, position) == 0
            &&& position > first ==> separators_before(text, separator, position) == 1
                + separators_before(text.skip(first as int + 1), separator, position - first - 1)
        }),
    decreases position,
{
    lemma_length_before(text, separator);
    let first = length_before(text, separator) as int;
    if position > 0 {
        lemma_separators_after(text, separator, position - 1);
        if position <= first {
            assert(text[position - 1] != separator);
        } else if position == first + 1 {
            assert(text[position - 1] == separator);
        } else {
            assert(text.skip(first + 1)[position - first - 2] == text[position - 1]);
        }
    }
}

/// No fewer separators stand before a later position than before an earlier one.
pub proof fn lemma_separators_grow(text: Seq<char>, separator: char, start: int, end: int)
    requires
        0 <= start <= end,
    ensures
        separators_before(text, separator, start) <= separators_before(text, separator, end),
        start < end && text[end - 1] == separator ==> separators_before(text, separator, start)
            < separators_before(text, separator, end),
    decreases end,
{
    if start < end {
        lemma_separators_grow(text, separator, start, end - 1);
    }
}

/// A text is split at each separator and nowhere else: every stretch between two of
/// them, or between one and an end of the text, is a piece of its own, and as many
/// pieces come before it as separators.
pub proof fn texts_are_split_at_separators(
    text: Seq<char>,
    separator: char,
    start: int,
    end: int,
)
    requires
        is_piece(text, separator, start, end),
    ensures
        separators_before(text, separator, start) < split_text(text, separator).len(),
        split_text(text, separator)[separators_before(text, separator, start) as int]
            == text.subrange(start, end),
    decreases text.len(),
{
    lemma_length_before(text, separator);
    lemma_separators_after(text, separator, start);
    let first = length_before(text, separator) as int;
    if start <= first {
        if start > 0 {
            assert(text[start - 1] != separator);
        }
        if end < first {
            assert(text[end] != separator);
        } else if first < end {
            assert(text[first] != separator);
        }
        assert(text.subrange(start, end) =~= text.take(first));
        assert(first == text.len() ==> text.take(first) =~= text);
    } else {
        let rest = text.skip(first + 1);
        assert forall|i: int| start - first - 1 <= i < end - first - 1 implies #[trigger] rest[i]
            != separator by {
            assert(text[i + first + 1] != separator);
        }
        if start > first + 1 {
            assert(rest[start - first - 2] == text[start - 1]);
        }
        texts_are_split_at_separators(rest, separator, start - first - 1, end - first - 1);
        assert(rest.subrange(start - first - 1, end - first - 1) =~= text.subrange(start, end));
    }
}

/// Every piece that a text is split into stands between separators, or between one
/// and an end of the text. There is one piece more than there are separators.
pub proof fn pieces_stand_between_separators(
    text: Seq<char>,
    separator: char,
    index: int,
) -> (bounds: (int, int))
    requires
        0 <= index < split_text(text, separator).len(),
    ensures
        is_piece(text, separator, bounds.0, bounds.1),
        separators_before(text, separator, bounds.0) == index,
        split_text(text, separator)[index] == text.subrange(bounds.0, bounds.1),
        split_text(text, separator).len() == separators_before(
            text,
            separator,
            text.len() as int,
        ) + 1,
    decreases text.len(),
{
    lemma_length_before(text, separator);
    let first = length_before(text, separator) as int;
    lemma_separators_after(text, separator, text.len() as int);
    if index == 0 {
        assert(text.subrange(0, first) =~= text.take(first));
        assert(first == text.len() ==> text.take(first) =~= text);
        if first < text.len() {
            let rest = text.skip(first + 1);
            let bounds = pieces_stand_between_separators(rest, separator, 0);
        }
        (0, first)
    } else {
        let rest = text.skip(first + 1);
        let bounds = pieces_stand_between_separators(rest, separator, index - 1);
        let start = bounds.0 + first + 1;
        let end = bounds.1 + first + 1;
        lemma_separators_after(text, separator, start);
        assert(rest.subrange(bounds.0, bounds.1) =~= text.subrange(start, end));
        assert forall|i: int| start <= i < end implies #[trigger] text[i] != separator by {
            assert(rest[i - first - 1] != separator);
        }
        if bounds.0 > 0 {
            assert(rest[bounds.0 - 1] == separator);
        }
        (start, end)
    }
}

/// Small letters are made of the capital letters from `A` to `Z`, place by place,
/// and every other character is kept.
pub proof fn capitals_are_made_small(text: Seq<char>, index: int)
    requires
        0 <= index < text.len(),
    ensures
        lower_text(text).len() == text.len(),
        65 <= text[index] as int <= 90 ==> lower_text(text)[index] as int == text[index] as int
            + 32,
        !(65 <= text[index] as int <= 90) ==> lower_text(text)[index] == text[index],
{
}

proof fn lemma_leading_space(text: Seq<char>) -> (start: int)
    ensures
        0 <= start <= text.len(),
        without_leading_space(text) == text.skip(start),
        forall|i: int| 0 <= i < start ==> white_space(#[trigger] text[i]),
        start < text.len() ==> !white_space(text[start]),
    decreases text.len(),
{
    if text.len() > 0 && white_space(text[0]) {
        let rest = text.drop_first();
        let start = lemma_leading_space(rest) + 1;
        assert(rest.skip(start - 1) =~= text.skip(start));
        assert forall|i: int| 0 <= i < start implies white_space(#[trigger] text[i]) by {
            if i > 0 {
                assert(rest[i - 1] == text[i]);
            }
        }
        start
    } else {
        assert(text.skip(0) =~= text);
        0
    }
}

proof fn lemma_trailing_space(text: Seq<char>) -> (end: int)
    ensures
        0 <= end <= text.len(),
        without_trailing_space(text) == text.take(end),
        forall|i: int| end <= i < text.len() ==> white_space(#[trigger] text[i]),
        end > 0 ==> !white_space(text[end - 1]),
    decreases text.len(),
{
    if text.len() > 0 && white_space(text.last()) {
        let rest = text.drop_last();
        let end = lemma_trailing_space(rest);
        assert(rest.take(end) =~= text.take(end));
        assert forall|i: int| end <= i < text.len() implies white_space(#[trigger] text[i]) by {
            if i < rest.len() {
                assert(rest[i] == text[i]);
            }
        }
        end
    } else {
        assert(text.take(text.len() as int) =~= text);
        text.len() as int
    }
}

/// Trimming takes away the white space at both ends and nothing else: a text that
/// neither begins nor ends with white space is what is left of it between any white
/// space.
pub proof fn white_space_is_trimmed(front: Seq<char>, text: Seq<char>, back: Seq<char>)
    requires
        forall|i: int| 0 <= i < front.len() ==> white_space(#[trigger] front[i]),
        forall|i: int| 0 <= i < back.len() ==> white_space(#[trigger] back[i]),
        text.len() > 0 ==> !white_space(text[0]) && !white_space(text[text.len() - 1]),
    ensures
        trimmed(front + text + back) == text,
        without_leading_space(front + text) == text,
{
    let both = front + text;
    let begun = lemma_leading_space(both);
    if begun < front.len() {
        assert(both[begun] == front[begun]);
    } else if begun > front.len() {
        assert(both[front.len() as int] == text[0]);
    }
    assert(both.skip(front.len() as int) =~= text);
    let whole = front + text + back;
    let start = lemma_leading_space(whole);
    let rest = whole.skip(start);
    let end = lemma_trailing_space(rest);
    if text.len() > 0 {
        assert(whole[front.len() as int] == text[0]);
        if start < front.len() {
            assert(whole[start] == front[start]);
        }
        assert(start == front.len());
        assert(rest =~= text + back);
        assert(rest[text.len() - 1] == text[text.len() - 1]);
        if end > text.len() {
            assert(rest[end - 1] == back[end - 1 - text.len()]);
        }
        assert(rest.take(end) =~= text);
    } else {
        assert(whole =~= front + back);
        if start < whole.len() {
            if start < front.len() {
                assert(whole[start] == front[start]);
            } else {
                assert(whole[start] == back[start - front.len()]);
            }
        }
        assert(rest.take(end) =~= text);
    }
}

/// How numbers are read, digit by digit: one more digit makes the number so many
/// times larger as there are digits, and adds its own value. Nothing is read from an
/// empty text, a sign alone, a character that is no digit, or past the limit.
pub proof fn numbers_are_read_digit_by_digit(
    text: Seq<char>,
    c: char,
    digit: nat,
    radix: nat,
    limit: nat,
)
    requires
        radix == 10 || radix == 16,
        (48 <= c as int <= 57 && digit == c as int - 48) || (97 <= c as int <= 122 && digit
            == c as int - 87) || (65 <= c as int <= 90 && digit == c as int - 55) || (!(48
            <= c as int <= 57) && !(97 <= c as int <= 122) && !(65 <= c as int <= 90) && digit
            == 99),
        c != '+',
    ensures
        number_of(seq![], radix, limit) is None,
        number_of(seq!['+'], radix, limit) is None,
        number_of(seq![c], radix, limit) == (if digit < radix && digit <= limit {
            Some(digit)
        } else {
            None
        }),
        text.len() > 0 && text != seq!['+'] ==> number_of(text.push(c), radix, limit) == (
        match number_of(text, radix, limit) {
            Some(value) => if digit < radix && value * radix + digit <= limit {
                Some(value * radix + digit)
            } else {
                None
            },
            None => None,
        }),
        text.len() > 0 && text[0] != '+' ==> number_of(seq!['+'] + text, radix, limit) == number_of(
            text,
            radix,
            limit,
        ),
{
    let empty = Seq::<char>::empty();
    assert(seq!['+'].skip(1) =~= empty);
    assert(seq![c].drop_last() =~= empty);
    assert(digits_value(empty, radix) == Some(0nat));
    assert(0 * radix + digit == digit);
    assert(digits_value(seq![c], radix) == digit_value(c, radix));
    if text.len() > 0 && text != seq!['+'] {
        let digits = if text[0] == '+' {
            text.skip(1)
        } else {
            text
        };
        if digits.len() == 0 {
            assert(text =~= seq!['+']);
        }
        let longer = text.push(c);
        let more = if text[0] == '+' {
            longer.skip(1)
        } else {
            longer
        };
        assert(more =~= digits.push(c));
        assert(more.drop_last() =~= digits);
        if digits_value(more, radix) is Some {
            lemma_prefix_value(more, digits.len() as int, radix);
            assert(more.take(digits.len() as int) =~= digits);
        }
    }
    if text.len() > 0 {
        assert((seq!['+'] + text).skip(1) =~= text);
    }
}

/// An escaped text is the escaped characters one after the other.
pub proof fn texts_are_escaped_character_by_character(text: Seq<char>, c: char)
    ensures
        escaped_text(seq![]) == Seq::<char>::empty(),
        c as int == 9 ==> escaped_text(text.push(c)) == escaped_text(text) + seq!['\\', 't'],
        c as int == 10 ==> escaped_text(text.push(c)) == escaped_text(text) + seq!['\\', 'n'],
        c as int == 13 ==> escaped_text(text.push(c)) == escaped_text(text) + seq!['\\', 'r'],
        c as int == 34 || c as int == 39 || c as int == 92 ==> escaped_text(text.push(c))
            == escaped_text(text) + seq!['\\', c],
        32 <= c as int <= 126 && c as int != 34 && c as int != 39 && c as int != 92
            ==> escaped_text(text.push(c)) == escaped_text(text).push(c),
        c as int > 126 || (c as int <= 31 && c as int != 9 && c as int != 10 && c as int != 13)
            ==> escaped_text(text.push(c)) == escaped_text(text) + (seq!['\\', 'u', '{'] + hex_text(
            c as nat,
            1,
            false,
        ) + seq!['}']),
{
    assert(text.push(c).drop_last() =~= text);
    assert(escaped_text(text) + seq![c] =~= escaped_text(text).push(c));
}

} // verus!
