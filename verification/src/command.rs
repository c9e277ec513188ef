//! Epson control commands and the replies to EEPROM reads.
use crate::epson::{AddressWidth, EpsonSpec, SpecView};
use crate::scan::{find_bytes, first_at, hex_pair, hex_pair_of, nibble, occurs};
use crate::text::{
    debug_quoted, debug_text, dec, dec_text, hex_lower, prefixed_hex, text_from_utf8,
};
use vstd::prelude::*;
use vstd::utf8::{decode_utf8, valid_utf8};

verus! {

/// A decoded EEPROM read response.
#[derive(Clone, Copy, Debug, PartialEq, Eq, Structural)]
pub struct EepromReadReply {
    pub address: u16,
    pub value: u8,
}

/// An invalid command input or malformed printer reply.
#[derive(Clone, Debug, PartialEq, Eq)]
pub enum CommandError {
    PayloadTooLong { length: usize },
    AddressOutOfRange { width: AddressWidth, address: u16 },
    MissingWriteKey,
    InvalidReadReply { reason: String },
}

/// The contents of a command error.
pub enum CommandErrorView {
    PayloadTooLong { length: nat },
    AddressOutOfRange { width: AddressWidth, address: u16 },
    MissingWriteKey,
    InvalidReadReply { reason: Seq<char> },
}

impl View for CommandError {
    type V = CommandErrorView;

    open spec fn view(&self) -> CommandErrorView {
        match *self {
            CommandError::PayloadTooLong { length } => CommandErrorView::PayloadTooLong {
                length: length as nat,
            },
            CommandError::AddressOutOfRange { width, address } =>
                CommandErrorView::AddressOutOfRange { width, address },
            CommandError::MissingWriteKey => CommandErrorView::MissingWriteKey,
            CommandError::InvalidReadReply { reason } => CommandErrorView::InvalidReadReply {
                reason: reason@,
            },
        }
    }
}

/// The little-endian bytes of a 16-bit number.
pub open spec fn le_bytes(value: u16) -> Seq<u8> {
    seq![(value % 256) as u8, (value / 256) as u8]
}

/// A command: its two bytes, the length of its payload and the payload.
pub open spec fn command_bytes(command: Seq<u8>, payload: Seq<u8>) -> Result<
    Seq<u8>,
    CommandErrorView,
> {
    if payload.len() > 0xffff {
        Err(CommandErrorView::PayloadTooLong { length: payload.len() })
    } else {
        Ok(command + le_bytes(payload.len() as u16) + payload)
    }
}

/// The byte rotated to the right by one bit.
pub open spec fn rotated(command: u8) -> u8 {
    (command / 2 + (command % 2) * 128) as u8
}

/// A factory command: the read key, the command with its complement and its
/// rotation as a check, and the payload, behind two bars.
pub open spec fn factory_bytes(read_key: u16, command: u8, payload: Seq<u8>) -> Result<
    Seq<u8>,
    CommandErrorView,
> {
    command_bytes(
        seq![0x7cu8, 0x7cu8],
        le_bytes(read_key) + seq![command, (255 - command) as u8, rotated(command)] + payload,
    )
}

/// An address in the bytes of a width.
pub open spec fn address_bytes(width: AddressWidth, address: u16) -> Result<
    Seq<u8>,
    CommandErrorView,
> {
    match width {
        AddressWidth::One => if address > 0xff {
            Err(CommandErrorView::AddressOutOfRange { width, address })
        } else {
            Ok(seq![address as u8])
        },
        AddressWidth::Two => Ok(le_bytes(address)),
    }
}

/// The request to read an address.
pub open spec fn read_request(settings: SpecView, address: u16) -> Result<
    Seq<u8>,
    CommandErrorView,
> {
    match address_bytes(settings.read_address_width, address) {
        Err(error) => Err(error),
        Ok(payload) => factory_bytes(settings.read_key, 0x41, payload),
    }
}

/// The request to write an address.
pub open spec fn write_request(settings: SpecView, address: u16, value: u8) -> Result<
    Seq<u8>,
    CommandErrorView,
> {
    match (settings.write_key, address_bytes(settings.write_address_width, address)) {
        (None, _) => Err(CommandErrorView::MissingWriteKey),
        (_, Err(error)) => Err(error),
        (Some(key), Ok(address)) => factory_bytes(settings.read_key, 0x42, address.push(value) + key),
    }
}

/// Encodes a two-byte Epson control command and its little-endian payload size.
pub fn encode_command(command: [u8; 2], payload: &[u8]) -> (encoded: Result<Vec<u8>, CommandError>)
    ensures
        match (encoded, command_bytes(command@, payload@)) {
            (Ok(encoded), Ok(expected)) => encoded@ == expected,
            (Err(error), Err(expected)) => error@ == expected,
            _ => false,
        },
{
    if payload.len() > 0xffff {
        return Err(CommandError::PayloadTooLong { length: payload.len() });
    }
    let length: u16 = payload.len() as u16;
    let mut encoded: Vec<u8> = Vec::new();
    encoded.push(command[0]);
    encoded.push(command[1]);
    encoded.push((length % 256) as u8);
    encoded.push((length / 256) as u8);
    encoded.extend_from_slice(payload);
    proof {
        assert(encoded@ =~= command@ + le_bytes(length) + payload@);
    }
    Ok(encoded)
}

/// Encodes an Epson factory command, such as EEPROM read (`A`) or write (`B`).
pub fn encode_factory_command(read_key: u16, command: u8, payload: &[u8]) -> (encoded: Result<
    Vec<u8>,
    CommandError,
>)
    ensures
        match (encoded, factory_bytes(read_key, command, payload@)) {
            (Ok(encoded), Ok(expected)) => encoded@ == expected,
            (Err(error), Err(expected)) => error@ == expected,
            _ => false,
        },
{
    let check_byte: u8 = ((command >> 1) & 0x7f) | ((command << 7) & 0x80);
    let complement: u8 = !command;
    proof {
        assert((((command >> 1) & 0x7f) | ((command << 7) & 0x80)) == (command / 2 + (command % 2)
            * 128) as u8) by (bit_vector);
        assert(!command == (255 - command) as u8) by (bit_vector);
    }
    let mut factory_payload: Vec<u8> = Vec::new();
    factory_payload.push((read_key % 256) as u8);
    factory_payload.push((read_key / 256) as u8);
    factory_payload.push(command);
    factory_payload.push(complement);
    factory_payload.push(check_byte);
    factory_payload.extend_from_slice(payload);
    let bars: [u8; 2] = [0x7c, 0x7c];
    proof {
        assert(factory_payload@ =~= le_bytes(read_key) + seq![
            command,
            (255 - command) as u8,
            rotated(command),
        ] + payload@);
        assert(bars@ =~= seq![0x7cu8, 0x7cu8]);
    }
    encode_command(bars, factory_payload.as_slice())
}

fn encode_address(width: AddressWidth, address: u16) -> (encoded: Result<Vec<u8>, CommandError>)
    ensures
        match (encoded, address_bytes(width, address)) {
            (Ok(encoded), Ok(expected)) => encoded@ == expected,
            (Err(error), Err(expected)) => error@ == expected,
            _ => false,
        },
{
    let mut encoded: Vec<u8> = Vec::new();
    match width {
        AddressWidth::One => {
            if address > 0xff {
                return Err(CommandError::AddressOutOfRange { width, address });
            }
            encoded.push(address as u8);
        },
        AddressWidth::Two => {
            encoded.push((address % 256) as u8);
            encoded.push((address / 256) as u8);
        },
    }
    proof {
        assert(encoded@ =~= address_bytes(width, address)->Ok_0);
    }
    Ok(encoded)
}

/// Encodes the request to read an address.
pub fn encode_eeprom_read(settings: &EpsonSpec, address: u16) -> (encoded: Result<
    Vec<u8>,
    CommandError,
>)
    ensures
        match (encoded, read_request(settings@, address)) {
            (Ok(encoded), Ok(expected)) => encoded@ == expected,
            (Err(error), Err(expected)) => error@ == expected,
            _ => false,
        },
{
    match encode_address(settings.read_address_width, address) {
        Err(error) => Err(error),
        Ok(payload) => encode_factory_command(settings.read_key, 0x41, payload.as_slice()),
    }
}

/// Encodes the request to write an address.
pub fn encode_eeprom_write(settings: &EpsonSpec, address: u16, value: u8) -> (encoded: Result<
    Vec<u8>,
    CommandError,
>)
    ensures
        match (encoded, write_request(settings@, address, value)) {
            (Ok(encoded), Ok(expected)) => encoded@ == expected,
            (Err(error), Err(expected)) => error@ == expected,
            _ => false,
        },
{
    match &settings.write_key {
        None => Err(CommandError::MissingWriteKey),
        Some(write_key) => match encode_address(settings.write_address_width, address) {
            Err(error) => Err(error),
            Ok(encoded) => {
                let mut payload = encoded;
                let ghost location = payload@;
                payload.push(value);
                payload.extend_from_slice(write_key.as_slice());
                proof {
                    assert(payload@ =~= location.push(value) + write_key@);
                }
                encode_factory_command(settings.read_key, 0x42, payload.as_slice())
            },
        },
    }
}

/// The bytes that mark the record in a read response.
pub open spec fn record_marker() -> Seq<u8> {
    seq![0x45u8, 0x45u8, 0x3au8]
}

/// A malformed read response.
pub open spec fn invalid_reply(reason: Seq<char>) -> Result<EepromReadReply, CommandErrorView> {
    Err(CommandErrorView::InvalidReadReply { reason })
}

/// The address and value in the six digits of a record.
pub open spec fn record_reply(digits: Seq<u8>, width: AddressWidth) -> Result<
    EepromReadReply,
    CommandErrorView,
> {
    match (hex_pair(digits, 0), hex_pair(digits, 2), hex_pair(digits, 4)) {
        (Some(first), Some(second), Some(third)) => match width {
            AddressWidth::One => Ok(
                EepromReadReply { address: first as u16, value: second },
            ),
            AddressWidth::Two => Ok(
                EepromReadReply { address: (first * 256 + second) as u16, value: third },
            ),
        },
        _ => invalid_reply("invalid EEPROM hex: "@ + debug_quoted(decode_utf8(digits))),
    }
}

/// The reply in a response whose record marker stands at a position.
pub open spec fn marked_reply(response: Seq<u8>, marker: int, width: AddressWidth) -> Result<
    EepromReadReply,
    CommandErrorView,
> {
    let end = marker + 9;
    if response.len() < end || (response.len() > end && 0x80 <= response[end] <= 0xbf) {
        invalid_reply("EEPROM response has fewer than six hex digits"@)
    } else if response.len() == end || response[end] != 0x3b {
        invalid_reply("EEPROM response is missing terminating semicolon"@)
    } else {
        record_reply(response.subrange(marker + 3, end), width)
    }
}

/// The reply that a response stands for: the record behind the first marker, if
/// the response is UTF-8 and has one.
pub open spec fn reply_of(response: Seq<u8>, width: AddressWidth) -> Result<
    EepromReadReply,
    CommandErrorView,
> {
    if !valid_utf8(response) {
        invalid_reply("response is not UTF-8 ASCII"@)
    } else if !occurs(response, record_marker()) {
        invalid_reply("missing EE: marker"@)
    } else {
        marked_reply(
            response,
            choose|marker: int| first_at(response, record_marker(), marker),
            width,
        )
    }
}

/// There is at most one first position.
pub proof fn lemma_first_at_unique<T>(whole: Seq<T>, part: Seq<T>, left: int, right: int)
    requires
        first_at(whole, part, left),
        first_at(whole, part, right),
    ensures
        left == right,
{
    if left < right {
        assert(!crate::scan::occurs_at(whole, part, left));
    } else if right < left {
        assert(!crate::scan::occurs_at(whole, part, right));
    }
}

/// The digits of a record that ends before a semicolon are UTF-8 by themselves.
proof fn lemma_digits_utf8(response: Seq<u8>, marker: int)
    requires
        valid_utf8(response),
        first_at(response, record_marker(), marker),
        marker + 9 < response.len(),
        response[marker + 9] == 0x3b,
    ensures
        valid_utf8(response.subrange(marker + 3, marker + 9)),
{
    let window = response.subrange(marker, marker + 3);
    assert(window =~= record_marker());
    assert(window[2] == 0x3a);
    vstd::utf8::is_char_boundary_iff_not_is_continuation_byte(response, marker + 9);
    vstd::utf8::valid_utf8_split(response, marker + 9);
    let front = response.subrange(0, marker + 9);
    vstd::utf8::is_char_boundary_iff_not_is_continuation_byte(front, marker + 2);
    vstd::utf8::valid_utf8_split(front, marker + 2);
    let tail = front.subrange(marker + 2, front.len() as int);
    assert(tail[0] == 0x3a);
    assert(valid_utf8(tail));
    assert(vstd::utf8::pop_first_scalar(tail) =~= response.subrange(marker + 3, marker + 9));
}

/// Parses the ASCII `EE:XXXXXX;` record in an Epson EEPROM read response.
///
/// A response with one-byte addresses carries the address in the first two of
/// its six digits and the value in the next two; the last two are not used.
pub fn parse_eeprom_read_reply(response: &[u8], address_width: AddressWidth) -> (reply: Result<
    EepromReadReply,
    CommandError,
>)
    ensures
        match (reply, reply_of(response@, address_width)) {
            (Ok(reply), Ok(expected)) => reply == expected,
            (Err(error), Err(expected)) => error@ == expected,
            _ => false,
        },
{
    if text_from_utf8(response).is_none() {
        return Err(
            CommandError::InvalidReadReply {
                reason: String::from_str("response is not UTF-8 ASCII"),
            },
        );
    }
    let pattern: [u8; 3] = [0x45, 0x45, 0x3a];
    proof {
        assert(pattern@ =~= record_marker());
    }
    let marker: usize = match find_bytes(response, &pattern) {
        Some(marker) => marker,
        None => return Err(
            CommandError::InvalidReadReply { reason: String::from_str("missing EE: marker") },
        ),
    };
    proof {
        let chosen = choose|marker: int| first_at(response@, record_marker(), marker);
        assert(first_at(response@, record_marker(), marker as int));
        lemma_first_at_unique(response@, record_marker(), marker as int, chosen);
    }
    let behind: usize = response.len() - marker;
    if behind < 9 || (behind > 9 && 0x80 <= response[marker + 9] && response[marker + 9] <= 0xbf) {
        return Err(
            CommandError::InvalidReadReply {
                reason: String::from_str("EEPROM response has fewer than six hex digits"),
            },
        );
    }
    if behind == 9 || response[marker + 9] != 0x3b {
        return Err(
            CommandError::InvalidReadReply {
                reason: String::from_str("EEPROM response is missing terminating semicolon"),
            },
        );
    }
    let digits = vstd::slice::slice_subrange(response, marker + 3, marker + 9);
    proof {
        lemma_digits_utf8(response@, marker as int);
    }
    decode_record(digits, address_width)
}

fn decode_record(digits: &[u8], address_width: AddressWidth) -> (reply: Result<
    EepromReadReply,
    CommandError,
>)
    requires
        digits@.len() == 6,
        valid_utf8(digits@),
    ensures
        match (reply, record_reply(digits@, address_width)) {
            (Ok(reply), Ok(expected)) => reply == expected,
            (Err(error), Err(expected)) => error@ == expected,
            _ => false,
        },
{
    let first = hex_pair_of(digits, 0);
    let second = hex_pair_of(digits, 2);
    let third = hex_pair_of(digits, 4);
    match (first, second, third) {
        (Some(first), Some(second), Some(third)) => match address_width {
            AddressWidth::One => Ok(EepromReadReply { address: first as u16, value: second }),
            AddressWidth::Two => Ok(
                EepromReadReply { address: first as u16 * 256 + second as u16, value: third },
            ),
        },
        _ => {
            let text = match text_from_utf8(digits) {
                Some(text) => text,
                None => String::new(),
            };
            Err(
                CommandError::InvalidReadReply {
                    reason: String::from_str("invalid EEPROM hex: ").concat(
                        debug_text(text.as_str()).as_str(),
                    ),
                },
            )
        },
    }
}

/// A response in UTF-8 is a reply exactly when six hexadecimal digits and a
/// semicolon stand behind its first marker. One-byte addresses take the first
/// two digits as the address and the next two as the value; two-byte addresses
/// take the first four, high byte first, and the last two.
pub proof fn replies_carry_six_digits(response: Seq<u8>, marker: int, width: AddressWidth)
    requires
        valid_utf8(response),
        first_at(response, record_marker(), marker),
    ensures
        reply_of(response, width) is Ok <==> {
            &&& marker + 9 < response.len()
            &&& response[marker + 9] == 0x3b
            &&& forall|index: int|
                marker + 3 <= index < marker + 9 ==> nibble(#[trigger] response[index]) is Some
        },
        reply_of(response, width) matches Ok(reply) ==> match (
            hex_pair(response, marker + 3),
            hex_pair(response, marker + 5),
            hex_pair(response, marker + 7),
        ) {
            (Some(first), Some(second), Some(third)) => match width {
                AddressWidth::One => reply.address == first && reply.value == second,
                AddressWidth::Two => reply.address == 256 * first + second && reply.value == third,
            },
            _ => false,
        },
{
    let chosen = choose|index: int| first_at(response, record_marker(), index);
    lemma_first_at_unique(response, record_marker(), chosen, marker);
    if marker + 9 < response.len() && response[marker + 9] == 0x3b {
        let digits = response.subrange(marker + 3, marker + 9);
        assert(digits[0] == response[marker + 3] && digits[1] == response[marker + 4]);
        assert(digits[2] == response[marker + 5] && digits[3] == response[marker + 6]);
        assert(digits[4] == response[marker + 7] && digits[5] == response[marker + 8]);
    }
}

/// The name of an address width.
pub open spec fn width_name(width: AddressWidth) -> Seq<char> {
    match width {
        AddressWidth::One => "One"@,
        AddressWidth::Two => "Two"@,
    }
}

/// The words for a command error.
pub open spec fn command_error_text(error: CommandErrorView) -> Seq<char> {
    match error {
        CommandErrorView::PayloadTooLong { length } => "Epson payload exceeds u16 length: "@
            + dec_text(length) + " bytes"@,
        CommandErrorView::AddressOutOfRange { width, address } => "address "@ + prefixed_hex(
            address as nat,
            4,
        ) + " does not fit "@ + width_name(width) + " width"@,
        CommandErrorView::MissingWriteKey => "model has no EEPROM write key"@,
        CommandErrorView::InvalidReadReply { reason } => "invalid EEPROM read reply: "@ + reason,
    }
}

impl CommandError {
    /// Describes the error.
    pub fn message(&self) -> (text: String)
        ensures
            text@ == command_error_text(self@),
    {
        match self {
            CommandError::PayloadTooLong { length } => String::from_str(
                "Epson payload exceeds u16 length: ",
            ).concat(dec(*length as u64).as_str()).concat(" bytes"),
            CommandError::AddressOutOfRange { width, address } => {
                let name: &'static str = match width {
                    AddressWidth::One => "One",
                    AddressWidth::Two => "Two",
                };
                String::from_str("address ").concat(hex_lower(*address as u64, 4).as_str()).concat(
                    " does not fit ",
                ).concat(name).concat(" width")
            },
            CommandError::MissingWriteKey => String::from_str("model has no EEPROM write key"),
            CommandError::InvalidReadReply { reason } => String::from_str(
                "invalid EEPROM read reply: ",
            ).concat(reason.as_str()),
        }
    }
}

/// Requests to read different addresses differ.
pub proof fn read_requests_tell_addresses_apart(settings: SpecView, left: u16, right: u16)
    requires
        read_request(settings, left) is Ok,
        read_request(settings, left) == read_request(settings, right),
    ensures
        left == right,
{
    let a = read_request(settings, left)->Ok_0;
    let b = read_request(settings, right)->Ok_0;
    assert(a[9] == b[9]);
    if settings.read_address_width == AddressWidth::Two {
        assert(a[10] == b[10]);
    }
}

/// Requests to write different addresses or different values differ.
pub proof fn write_requests_tell_updates_apart(
    settings: SpecView,
    left: (u16, u8),
    right: (u16, u8),
)
    requires
        write_request(settings, left.0, left.1) is Ok,
        write_request(settings, left.0, left.1) == write_request(settings, right.0, right.1),
    ensures
        left == right,
{
    let width = settings.write_address_width;
    let key = settings.write_key->Some_0;
    let a = write_request(settings, left.0, left.1)->Ok_0;
    let b = write_request(settings, right.0, right.1)->Ok_0;
    let from = address_bytes(width, left.0)->Ok_0;
    let to = address_bytes(width, right.0)->Ok_0;
    assert forall|i: int| 0 <= i <= from.len() implies a[9 + i] == #[trigger] (from.push(left.1)
        + key)[i] by {}
    assert forall|i: int| 0 <= i <= to.len() implies b[9 + i] == #[trigger] (to.push(right.1)
        + key)[i] by {}
    assert(from.len() == to.len());
    assert((from.push(left.1) + key)[0] == (to.push(right.1) + key)[0]);
    assert((from.push(left.1) + key)[1] == (to.push(right.1) + key)[1]);
    assert(from[0] == to[0]);
    if width == AddressWidth::Two {
        assert((from.push(left.1) + key)[2] == (to.push(right.1) + key)[2]);
        assert(from[1] == to[1]);
    }
}

/// Every byte of a request to read: two bars, the length of what follows, the
/// read key and the letter `A` with its complement and its check, and the
/// address; all numbers have their less significant byte first.
pub proof fn read_requests_byte_by_byte(settings: SpecView, address: u16)
    ensures
        read_request(settings, address) is Ok <==> settings.read_address_width == AddressWidth::Two
            || address < 256,
        read_request(settings, address) matches Ok(bytes) ==> {
            let width: int = if settings.read_address_width == AddressWidth::One {
                1
            } else {
                2
            };
            &&& bytes.len() == 9 + width
            &&& bytes[0] == 0x7c && bytes[1] == 0x7c
            &&& bytes[2] == 5 + width && bytes[3] == 0
            &&& bytes[4] + 256 * bytes[5] == settings.read_key
            &&& bytes[6] == 0x41 && bytes[7] == 0xbe && bytes[8] == 0xa0
            &&& (width == 1 ==> bytes[9] == address)
            &&& (width == 2 ==> bytes[9] + 256 * bytes[10] == address)
        },
{
}

/// Every byte of a request to write: as a request to read, with the letter `B`,
/// and behind the address the value and then the write key, byte by byte.
pub proof fn write_requests_byte_by_byte(settings: SpecView, address: u16, value: u8)
    ensures
        write_request(settings, address, value) is Ok <==> {
            &&& settings.write_address_width == AddressWidth::Two || address < 256
            &&& settings.write_key matches Some(key) && key.len() + 6 + (
            if settings.write_address_width == AddressWidth::One {
                1int
            } else {
                2int
            }) <= 0xffff
        },
        write_request(settings, address, value) matches Ok(bytes) ==> (settings.write_key matches
            Some(key) && ({
            let width: int = if settings.write_address_width == AddressWidth::One {
                1
            } else {
                2
            };
            &&& bytes.len() == 10 + width + key.len()
            &&& bytes[0] == 0x7c && bytes[1] == 0x7c
            &&& bytes[2] + 256 * bytes[3] == 6 + width + key.len()
            &&& bytes[4] + 256 * bytes[5] == settings.read_key
            &&& bytes[6] == 0x42 && bytes[7] == 0xbd && bytes[8] == 0x21
            &&& (width == 1 ==> bytes[9] == address)
            &&& (width == 2 ==> bytes[9] + 256 * bytes[10] == address)
            &&& bytes[9 + width] == value
            &&& forall|i: int| 0 <= i < key.len() ==> bytes[10 + width + i] == #[trigger] key[i]
        })),
{
    assert(rotated(0x42) == 0x21);
}

/// Every byte of a command: its two letters, the length of its payload with the
/// less significant byte first, and the payload.
pub proof fn commands_byte_by_byte(command: Seq<u8>, payload: Seq<u8>)
    requires
        command.len() == 2,
    ensures
        command_bytes(command, payload) is Ok <==> payload.len() <= 0xffff,
        command_bytes(command, payload) matches Ok(bytes) ==> {
            &&& bytes.len() == 4 + payload.len()
            &&& bytes[0] == command[0] && bytes[1] == command[1]
            &&& bytes[2] + 256 * bytes[3] == payload.len()
            &&& forall|i: int| 0 <= i < payload.len() ==> bytes[4 + i] == #[trigger] payload[i]
        },
{
}

/// The byte is a hexadecimal digit of a value.
pub open spec fn is_digit_of(byte: u8, value: int) -> bool {
    ||| 0 <= value <= 9 && byte == 0x30 + value
    ||| 10 <= value <= 15 && (byte == 0x41 + value - 10 || byte == 0x61 + value - 10)
}

/// What a read reply says: with six digits and a semicolon behind its first
/// marker, a two-byte address is the first four digits and the value the last
/// two; a one-byte address is the first two and the value the next two.
pub proof fn replies_say_what_their_digits_say(
    response: Seq<u8>,
    marker: int,
    digits: Seq<int>,
    reply: EepromReadReply,
    width: AddressWidth,
)
    requires
        valid_utf8(response),
        0 <= marker,
        marker + 9 < response.len(),
        response[marker] == 0x45 && response[marker + 1] == 0x45 && response[marker + 2] == 0x3a,
        forall|i: int|
            0 <= i < marker ==> !(#[trigger] response[i] == 0x45 && response[i + 1] == 0x45
                && response[i + 2] == 0x3a),
        response[marker + 9] == 0x3b,
        digits.len() == 6,
        forall|i: int| 0 <= i < 6 ==> is_digit_of(response[marker + 3 + i], #[trigger] digits[i]),
        reply_of(response, width) == Ok::<EepromReadReply, CommandErrorView>(reply)
            || reply_of(response, width) is Err,
    ensures
        reply_of(response, width) is Ok,
        width == AddressWidth::Two ==> reply.address == 4096 * digits[0] + 256 * digits[1] + 16
            * digits[2] + digits[3] && reply.value == 16 * digits[4] + digits[5],
        width == AddressWidth::One ==> reply.address == 16 * digits[0] + digits[1] && reply.value
            == 16 * digits[2] + digits[3],
{
    lemma_marker_first(response, marker);
    replies_carry_six_digits(response, marker, width);
    assert(is_digit_of(response[marker + 3 + 0], digits[0]));
    assert(is_digit_of(response[marker + 3 + 1], digits[1]));
    assert(is_digit_of(response[marker + 3 + 2], digits[2]));
    assert(is_digit_of(response[marker + 3 + 3], digits[3]));
    assert(is_digit_of(response[marker + 3 + 4], digits[4]));
    assert(is_digit_of(response[marker + 3 + 5], digits[5]));
    assert forall|index: int| marker + 3 <= index < marker + 9 implies nibble(
        #[trigger] response[index],
    ) is Some by {
        let i = index - marker - 3;
        assert(is_digit_of(response[marker + 3 + i], digits[i]));
    }
}

/// The first place of the three bytes of the marker is where the marker is found.
pub proof fn lemma_marker_first(response: Seq<u8>, marker: int)
    requires
        0 <= marker,
        marker + 3 <= response.len(),
        response[marker] == 0x45 && response[marker + 1] == 0x45 && response[marker + 2] == 0x3a,
        forall|i: int|
            0 <= i < marker ==> !(#[trigger] response[i] == 0x45 && response[i + 1] == 0x45
                && response[i + 2] == 0x3a),
    ensures
        first_at(response, record_marker(), marker),
        occurs(response, record_marker()),
{
    assert(response.subrange(marker, marker + 3) =~= record_marker());
    assert forall|i: int| 0 <= i < marker implies !#[trigger] crate::scan::occurs_at(
        response,
        record_marker(),
        i,
    ) by {
        let window = response.subrange(i, i + 3);
        if window == record_marker() {
            assert(window[0] == 0x45 && window[1] == 0x45 && window[2] == 0x3a);
            assert(response[i] == 0x45 && response[i + 1] == 0x45 && response[i + 2] == 0x3a);
        }
    }
    assert(crate::scan::occurs_at(response, record_marker(), marker));
}

/// What is told of a request that cannot be made.
pub proof fn refused_requests_are_put_into_words(address: u16, length: nat)
    ensures
        command_error_text(
            CommandErrorView::AddressOutOfRange { width: AddressWidth::One, address },
        ) == "address "@ + ("0x"@ + crate::text::hex_text(address as nat, 4, false))
            + " does not fit "@ + "One"@ + " width"@,
        command_error_text(
            CommandErrorView::AddressOutOfRange { width: AddressWidth::Two, address },
        ) == "address "@ + ("0x"@ + crate::text::hex_text(address as nat, 4, false))
            + " does not fit "@ + "Two"@ + " width"@,
        command_error_text(CommandErrorView::PayloadTooLong { length })
            == "Epson payload exceeds u16 length: "@ + crate::text::dec_text(length) + " bytes"@,
{
}

} // verus!
