//! Lists of texts, and the texts made of them.
use crate::text::{dec, dec_text, digit, digit_char, hex, hex_text};
use crate::text_map::texts;
use vstd::prelude::*;

verus! {

/// Several texts with a separator between each two.
pub open spec fn joined(parts: Seq<Seq<char>>, separator: Seq<char>) -> Seq<char>
    decreases parts.len(),
{
    if parts.len() == 0 {
        seq![]
    } else if parts.len() == 1 {
        parts[0]
    } else {
        joined(parts.drop_last(), separator) + separator + parts.last()
    }
}

/// Joins texts with a separator.
pub fn join(parts: &[String], separator: &str) -> (text: String)
    ensures
        text@ == joined(texts(parts@), separator@),
{
    let mut text = String::new();
    let mut index: usize = 0;
    proof {
        assert(texts(parts@).take(0) =~= seq![]);
        assert(text@ =~= joined(texts(parts@).take(0), separator@));
    }
    while index < parts.len()
        invariant
            index <= parts@.len(),
            text@ == joined(texts(parts@).take(index as int), separator@),
        decreases parts.len() - index,
    {
        let ghost before = text@;
        proof {
            let longer = texts(parts@).take(index + 1);
            assert(longer.drop_last() =~= texts(parts@).take(index as int));
            assert(longer.last() == parts@[index as int]@);
        }
        if index > 0 {
            text.append(separator);
        }
        text.append(parts[index].as_str());
        proof {
            assert(text@ =~= joined(texts(parts@).take(index + 1), separator@));
        }
        index = index + 1;
    }
    proof {
        assert(texts(parts@).take(index as int) =~= texts(parts@));
    }
    text
}

/// Appends a text to a list.
pub fn push_field(fields: &mut Vec<String>, field: String)
    ensures
        texts(final(fields)@) == texts(old(fields)@).push(field@),
        final(fields)@ == old(fields)@.push(field),
{
    fields.push(field);
    proof {
        assert(texts(fields@) =~= texts(old(fields)@).push(field@));
    }
}

/// Appends a text made of a name and a value to a list.
pub fn push_pair(fields: &mut Vec<String>, name: &str, value: &str)
    ensures
        texts(final(fields)@) == texts(old(fields)@).push(name@ + value@),
{
    push_field(fields, String::from_str(name).concat(value));
}

/// Appends a name with a number in decimal to a list.
pub fn push_dec(fields: &mut Vec<String>, name: &str, value: u64)
    ensures
        texts(final(fields)@) == texts(old(fields)@).push(name@ + dec_text(value as nat)),
{
    push_field(fields, String::from_str(name).concat(dec(value).as_str()));
}

/// Appends a name with a byte in upper-case hexadecimal to a list.
pub fn push_byte(fields: &mut Vec<String>, name: &str, value: u8)
    ensures
        texts(final(fields)@) == texts(old(fields)@).push(name@ + hex_text(value as nat, 2, true)),
{
    push_field(fields, String::from_str(name).concat(hex(value as u64, 2, true).as_str()));
}

/// Appends a name with a 16-bit number in upper-case hexadecimal to a list.
pub fn push_word(fields: &mut Vec<String>, name: &str, value: u16)
    ensures
        texts(final(fields)@) == texts(old(fields)@).push(name@ + hex_text(value as nat, 4, true)),
{
    push_field(fields, String::from_str(name).concat(hex(value as u64, 4, true).as_str()));
}

/// Appends the texts of another list.
pub fn append_fields(fields: &mut Vec<String>, more: Vec<String>)
    ensures
        texts(final(fields)@) == texts(old(fields)@) + texts(more@),
{
    let mut more = more;
    let ghost added = more@;
    fields.append(&mut more);
    proof {
        assert(texts(fields@) =~= texts(old(fields)@) + texts(added));
    }
}

/// The words for a truth value.
pub open spec fn truth_text(value: bool) -> Seq<char> {
    if value {
        "true"@
    } else {
        "false"@
    }
}

/// Formats a truth value.
pub fn truth(value: bool) -> (text: &'static str)
    ensures
        text@ == truth_text(value),
{
    if value {
        "true"
    } else {
        "false"
    }
}

/// The binary text of a number, padded with zeros to `width` digits.
pub open spec fn bin_text(n: nat, width: nat) -> Seq<char>
    decreases n, width,
{
    if n < 2 && width <= 1 {
        seq![digit_char(n, false)]
    } else {
        let shorter = if width == 0 {
            0
        } else {
            (width - 1) as nat
        };
        bin_text(n / 2, shorter).push(digit_char(n % 2, false))
    }
}

/// Formats a number in binary with at least `width` digits.
pub fn bin(n: u64, width: u8) -> (text: String)
    ensures
        text@ == bin_text(n as nat, width as nat),
    decreases n, width,
{
    if n < 2 && width <= 1 {
        let mut text = String::new();
        text.push(digit(n as u8, false));
        proof {
            assert(text@ =~= bin_text(n as nat, width as nat));
        }
        text
    } else {
        let shorter: u8 = if width == 0 {
            0
        } else {
            width - 1
        };
        let mut text = bin(n / 2, shorter);
        text.push(digit((n % 2) as u8, false));
        text
    }
}

/// The texts of bytes in upper-case hexadecimal.
pub open spec fn byte_texts(bytes: Seq<u8>) -> Seq<Seq<char>> {
    Seq::new(bytes.len(), |i: int| hex_text(bytes[i] as nat, 2, true))
}

/// Bytes in upper-case hexadecimal, one directly behind the other.
pub open spec fn hex_run_text(bytes: Seq<u8>) -> Seq<char> {
    joined(byte_texts(bytes), ""@)
}

/// Bytes in upper-case hexadecimal, separated by single spaces.
pub open spec fn hex_bytes_text(bytes: Seq<u8>) -> Seq<char> {
    joined(byte_texts(bytes), " "@)
}

fn format_bytes(bytes: &[u8]) -> (parts: Vec<String>)
    ensures
        texts(parts@) == byte_texts(bytes@),
{
    let mut parts: Vec<String> = Vec::new();
    let mut index: usize = 0;
    while index < bytes.len()
        invariant
            index <= bytes@.len(),
            texts(parts@) == byte_texts(bytes@).take(index as int),
        decreases bytes.len() - index,
    {
        push_field(&mut parts, hex(bytes[index] as u64, 2, true));
        index = index + 1;
    }
    proof {
        assert(texts(parts@) =~= byte_texts(bytes@));
    }
    parts
}

/// Formats bytes in upper-case hexadecimal, separated by single spaces.
pub fn format_hex_bytes(bytes: &[u8]) -> (text: String)
    ensures
        text@ == hex_bytes_text(bytes@),
{
    join(format_bytes(bytes).as_slice(), " ")
}

/// Formats bytes in upper-case hexadecimal, one directly behind the other.
pub fn hex_encode(bytes: &[u8]) -> (text: String)
    ensures
        text@ == hex_run_text(bytes@),
{
    join(format_bytes(bytes).as_slice(), "")
}

/// Texts are joined in their order, with the separator between each two and nowhere
/// else.
pub proof fn texts_are_joined_one_by_one(
    parts: Seq<Seq<char>>,
    part: Seq<char>,
    separator: Seq<char>,
)
    ensures
        joined(seq![], separator) == Seq::<char>::empty(),
        joined(seq![part], separator) == part,
        parts.len() > 0 ==> joined(parts.push(part), separator) == joined(parts, separator)
            + separator + part,
{
    assert(parts.push(part).drop_last() =~= parts);
}

/// Bytes are shown in their order, each by two capital hexadecimal digits, the more
/// significant one first, with a space between each two.
pub proof fn bytes_are_shown_one_by_one(bytes: Seq<u8>, byte: u8)
    ensures
        hex_bytes_text(seq![]) == Seq::<char>::empty(),
        hex_bytes_text(seq![byte]) == capital_pair(byte),
        bytes.len() > 0 ==> hex_bytes_text(bytes.push(byte)) == hex_bytes_text(bytes) + seq![' ']
            + capital_pair(byte),
        hex_run_text(seq![]) == Seq::<char>::empty(),
        hex_run_text(bytes.push(byte)) == hex_run_text(bytes) + capital_pair(byte),
{
    reveal_with_fuel(hex_text, 3);
    reveal_strlit(" ");
    reveal_strlit("");
    assert(" "@ =~= seq![' ']);
    assert(""@ =~= seq![]);
    assert(hex_text(byte as nat, 2, true) =~= capital_pair(byte));
    assert(byte_texts(seq![byte]) =~= seq![capital_pair(byte)]);
    assert(byte_texts(bytes.push(byte)) =~= byte_texts(bytes).push(capital_pair(byte)));
    assert(byte_texts(bytes.push(byte)).drop_last() =~= byte_texts(bytes));
    if bytes.len() == 0 {
        assert(hex_run_text(bytes.push(byte)) =~= hex_run_text(bytes) + capital_pair(byte));
    } else {
        assert(hex_run_text(bytes) + Seq::<char>::empty() =~= hex_run_text(bytes));
    }
}

/// The two capital hexadecimal digits of a byte.
pub open spec fn capital_pair(byte: u8) -> Seq<char> {
    seq![capital_digit((byte / 16) as int), capital_digit((byte % 16) as int)]
}

/// A capital hexadecimal digit.
pub open spec fn capital_digit(digit: int) -> char {
    if digit < 10 {
        (48 + digit) as char
    } else {
        (65 + digit - 10) as char
    }
}

/// Binary numbers are written with the most significant digit first, and with zeros in
/// front up to the width.
pub proof fn binary_digits_stand_in_order(n: nat, width: nat)
    ensures
        width <= 1 ==> bin_text(0, width) == seq!['0'] && bin_text(1, width) == seq!['1'],
        n > 0 || width > 0 ==> bin_text(2 * n, width + 1) == bin_text(n, width).push('0')
            && bin_text(2 * n + 1, width + 1) == bin_text(n, width).push('1'),
{
    assert((2 * n) / 2 == n && (2 * n) % 2 == 0);
    assert((2 * n + 1) / 2 == n && (2 * n + 1) % 2 == 1);
}

} // verus!
