//! Text models and the small formatting and parsing functions the library needs.
//!
//! A text is modelled by its sequence of characters. The executable functions
//! of this module build or take apart `String` values, and each of them states
//! its result over that model.
use vstd::prelude::*;
use vstd::utf8::{decode_utf8, valid_utf8};

verus! {

/// Specifies `String::push`: it appends one character to the text.
pub assume_specification[ String::push ](text: &mut String, character: char)
    ensures
        final(text)@ == old(text)@.push(character),
;

/// What `{:?}` writes for a text, quotes and escapes among it.
pub uninterp spec fn debug_quoted(text: Seq<char>) -> Seq<char>;

/// The character is printable ASCII and stands for itself between double quotes.
pub open spec fn plain_in_quotes(c: char) -> bool {
    ' ' <= c <= '~' && c != '"' && c != '\\'
}

/// Formats a text with `{:?}`, the `Debug` form that `std` gives to `str`.
///
/// The result is a function of the text. Of a text in printable ASCII without
/// double quotes and backslashes it is the text itself between double quotes.
#[verifier::external_body]
pub(crate) fn debug_text(text: &str) -> (quoted: String)
    ensures
        quoted@ == debug_quoted(text@),
        (forall|i: int| 0 <= i < text@.len() ==> plain_in_quotes(#[trigger] text@[i])) ==> quoted@
            == seq!['"'] + text@ + seq!['"'],
{
    format!("{text:?}")
}

/// Decodes bytes with `std::str::from_utf8`: the text that the bytes encode if
/// they are well-formed UTF-8, and `None` if they are not.
#[verifier::external_body]
pub(crate) fn text_from_utf8(bytes: &[u8]) -> (text: Option<String>)
    ensures
        text is Some <==> valid_utf8(bytes@),
        text matches Some(decoded) ==> decoded@ == decode_utf8(bytes@),
{
    std::str::from_utf8(bytes).ok().map(str::to_owned)
}

/// The character for one digit, `0` to `9` and then `a` to `f` or `A` to `F`.
pub open spec fn digit_char(digit: nat, upper: bool) -> char {
    if digit < 10 {
        (0x30 + digit) as char
    } else if upper {
        (0x37 + digit) as char
    } else {
        (0x57 + digit) as char
    }
}

/// The decimal text of a number, without leading zeros.
pub open spec fn dec_text(n: nat) -> Seq<char>
    decreases n,
{
    if n < 10 {
        seq![digit_char(n, false)]
    } else {
        dec_text(n / 10).push(digit_char(n % 10, false))
    }
}

/// The hexadecimal text of a number, padded with zeros to `width` digits.
pub open spec fn hex_text(n: nat, width: nat, upper: bool) -> Seq<char>
    decreases n, width,
{
    if n < 16 && width <= 1 {
        seq![digit_char(n, upper)]
    } else {
        let shorter = if width == 0 {
            0
        } else {
            (width - 1) as nat
        };
        hex_text(n / 16, shorter, upper).push(digit_char(n % 16, upper))
    }
}

/// The digit's character.
pub(crate) fn digit(value: u8, upper: bool) -> (c: char)
    requires
        value < 16,
    ensures
        c == digit_char(value as nat, upper),
{
    if value < 10 {
        (0x30u8 + value) as char
    } else if upper {
        (0x37u8 + value) as char
    } else {
        (0x57u8 + value) as char
    }
}

/// Formats a number in decimal.
pub fn dec(n: u64) -> (text: String)
    ensures
        text@ == dec_text(n as nat),
    decreases n,
{
    if n < 10 {
        let mut text = String::new();
        text.push(digit(n as u8, false));
        proof {
            assert(text@ =~= dec_text(n as nat));
        }
        text
    } else {
        let mut text = dec(n / 10);
        text.push(digit((n % 10) as u8, false));
        text
    }
}

/// Formats a number in hexadecimal with at least `width` digits.
pub fn hex(n: u64, width: u8, upper: bool) -> (text: String)
    ensures
        text@ == hex_text(n as nat, width as nat, upper),
    decreases n, width,
{
    if n < 16 && width <= 1 {
        let mut text = String::new();
        text.push(digit(n as u8, upper));
        proof {
            assert(text@ =~= hex_text(n as nat, width as nat, upper));
        }
        text
    } else {
        let shorter: u8 = if width == 0 {
            0
        } else {
            width - 1
        };
        let mut text = hex(n / 16, shorter, upper);
        text.push(digit((n % 16) as u8, upper));
        text
    }
}

/// `0x` and the number in lower-case hexadecimal with at least `width` digits.
pub open spec fn prefixed_hex(n: nat, width: nat) -> Seq<char> {
    "0x"@ + hex_text(n, width, false)
}

/// Formats a number as `0x` with lower-case digits.
pub fn hex_lower(n: u64, width: u8) -> (text: String)
    ensures
        text@ == prefixed_hex(n as nat, width as nat),
{
    let mut text = String::from_str("0x");
    text.append(hex(n, width, false).as_str());
    text
}

/// The characters of a text.
pub fn characters(text: &str) -> (chars: Vec<char>)
    ensures
        chars@ == text@,
{
    let mut chars: Vec<char> = Vec::new();
    for character in iterator: text.chars()
        invariant
            chars@ == iterator.seq().take(iterator.index()),
            iterator.seq() == text@,
    {
        chars.push(character);
        proof {
            assert(iterator.seq().take(iterator.index() + 1) =~= iterator.seq().take(
                iterator.index(),
            ).push(character));
        }
    }
    proof {
        assert(text@.take(text@.len() as int) =~= text@);
    }
    chars
}

/// Builds the text made of the given characters.
pub fn text_of(chars: &[char]) -> (text: String)
    ensures
        text@ == chars@,
{
    let mut text = String::new();
    let mut index: usize = 0;
    while index < chars.len()
        invariant
            index <= chars.len(),
            text@ == chars@.take(index as int),
        decreases chars.len() - index,
    {
        text.push(chars[index]);
        proof {
            assert(chars@.take(index + 1) =~= chars@.take(index as int).push(chars@[index as int]));
        }
        index = index + 1;
    }
    proof {
        assert(chars@.take(chars.len() as int) =~= chars@);
    }
    text
}

/// Whether two texts are the same.
pub fn same_text(left: &str, right: &str) -> (same: bool)
    ensures
        same == (left@ == right@),
{
    let owned = left.to_owned();
    let other = right.to_owned();
    owned == other
}

/// How numbers are written: the digits stand in the order of their weight, with no
/// zero in front of a decimal number and with as many as the width asks for in front
/// of a hexadecimal one.
pub proof fn numbers_are_written_digit_by_digit(n: nat, digit: nat, width: nat, upper: bool)
    ensures
        digit < 10 ==> dec_text(digit) == seq![(48 + digit) as char],
        digit < 10 && n > 0 ==> dec_text((10 * n + digit) as nat) == dec_text(n).push(
            (48 + digit) as char,
        ),
        digit < 10 && width <= 1 ==> hex_text(digit, width, upper) == seq![(48 + digit) as char],
        10 <= digit < 16 && width <= 1 ==> hex_text(digit, width, upper) == seq![
            (if upper {
                (65 + digit - 10) as char
            } else {
                (97 + digit - 10) as char
            }),
        ],
        digit < 10 && (n > 0 || width > 0) ==> hex_text(
            (16 * n + digit) as nat,
            (width + 1) as nat,
            upper,
        ) == hex_text(n, width, upper).push((48 + digit) as char),
        10 <= digit < 16 && (n > 0 || width > 0) ==> hex_text(
            (16 * n + digit) as nat,
            (width + 1) as nat,
            upper,
        ) == hex_text(n, width, upper).push(
            if upper {
                (65 + digit - 10) as char
            } else {
                (97 + digit - 10) as char
            },
        ),
{
    if digit < 10 {
        assert((10 * n + digit) / 10 == n && (10 * n + digit) % 10 == digit);
    }
    if digit < 16 {
        assert((16 * n + digit) / 16 == n && (16 * n + digit) % 16 == digit);
    }
    assert(digit < 10 ==> dec_text(digit) =~= seq![(48 + digit) as char]);
}

} // verus!
