//! How values, fields and results are shown, and how typed values are read.
use crate::epson::{
    confidence_label, encoding_label, encoding_length, EepromFieldConfidence,
    EepromFieldEncoding, EpsonSpec,
};
use crate::fields::{
    format_hex_bytes, hex_bytes_text, join, joined, push_field, push_pair,
};
use crate::report::string_text;
use crate::scan::{
    number_of, read_number, trim_text, trimmed, white_space, white_space_is_trimmed,
    written_numbers_read_back,
};
use crate::session::{
    image_size_message, image_size_text, model_range_length, range_length,
    restore_eeprom_updates, CleanupView, UsbCleanupStatus, UsbSessionCleanup,
};
use crate::text::{
    characters, debug_quoted, debug_text, dec, dec_text, hex, hex_text, same_text, text_from_utf8,
    text_of,
};
use crate::text_map::texts;
use vstd::prelude::*;
use vstd::utf8::{decode_utf8, valid_utf8};

verus! {

/// A field of a loaded EEPROM image.
#[derive(Clone, Debug, PartialEq, Eq)]
pub struct EepromFileField {
    pub address: usize,
    pub end_address: usize,
    pub label: String,
    pub encoding: EepromFieldEncoding,
    pub confidence: Option<EepromFieldConfidence>,
    pub evidence_note: Option<String>,
    pub sensitive: bool,
}

/// The contents of a field of an image.
pub struct FileFieldView {
    pub address: usize,
    pub end_address: usize,
    pub label: Seq<char>,
    pub encoding: EepromFieldEncoding,
    pub confidence: Option<EepromFieldConfidence>,
    pub evidence_note: Option<Seq<char>>,
    pub sensitive: bool,
}

impl View for EepromFileField {
    type V = FileFieldView;

    open spec fn view(&self) -> FileFieldView {
        FileFieldView {
            address: self.address,
            end_address: self.end_address,
            label: self.label@,
            encoding: self.encoding,
            confidence: self.confidence,
            evidence_note: string_text(self.evidence_note),
            sensitive: self.sensitive,
        }
    }
}

impl FileFieldView {
    /// The field is as long as its encoding needs it.
    pub open spec fn consistent(self) -> bool {
        encoding_length(self.encoding) matches Some(length) ==> self.end_address - self.address + 1
            == length
    }
}

/// A cleanup that went well in both stages.
pub open spec fn clean(cleanup: UsbSessionCleanup) -> bool {
    cleanup.d4_shutdown@ == CleanupView::Succeeded && cleanup.usb_close@ == CleanupView::Succeeded
}

/// Whether a cleanup went well in both stages.
pub fn cleanup_is_successful(cleanup: &UsbSessionCleanup) -> (successful: bool)
    ensures
        successful == clean(*cleanup),
{
    let shut_down: bool = match &cleanup.d4_shutdown {
        UsbCleanupStatus::Succeeded => true,
        _ => false,
    };
    let closed: bool = match &cleanup.usb_close {
        UsbCleanupStatus::Succeeded => true,
        _ => false,
    };
    shut_down && closed
}

/// The words for the status of a cleanup stage.
pub open spec fn cleanup_text(status: CleanupView) -> Seq<char> {
    match status {
        CleanupView::NotAttempted => "not attempted"@,
        CleanupView::Succeeded => "succeeded"@,
        CleanupView::Failed(error) => "failed ("@ + error + ")"@,
    }
}

/// Describes the status of a cleanup stage.
pub fn cleanup_status_label(status: &UsbCleanupStatus) -> (label: String)
    ensures
        label@ == cleanup_text(status@),
{
    match status {
        UsbCleanupStatus::NotAttempted => String::from_str("not attempted"),
        UsbCleanupStatus::Succeeded => String::from_str("succeeded"),
        UsbCleanupStatus::Failed(error) => String::from_str("failed (").concat(
            error.as_str(),
        ).concat(")"),
    }
}

/// The lines on a cleanup.
pub open spec fn cleanup_lines(cleanup: UsbSessionCleanup) -> Seq<Seq<char>> {
    seq![
        "D4 shutdown: "@ + cleanup_text(cleanup.d4_shutdown@) + "."@,
        "USB cleanup: "@ + cleanup_text(cleanup.usb_close@) + "."@,
    ]
}

/// Describes a cleanup.
pub fn cleanup_report_lines(cleanup: &UsbSessionCleanup) -> (lines: Vec<String>)
    ensures
        texts(lines@) == cleanup_lines(*cleanup),
{
    let mut lines: Vec<String> = Vec::new();
    proof {
        assert(texts(lines@) =~= seq![]);
    }
    push_field(
        &mut lines,
        String::from_str("D4 shutdown: ").concat(
            cleanup_status_label(&cleanup.d4_shutdown).as_str(),
        ).concat("."),
    );
    push_field(
        &mut lines,
        String::from_str("USB cleanup: ").concat(
            cleanup_status_label(&cleanup.usb_close).as_str(),
        ).concat("."),
    );
    lines
}

/// Where an address stands in an image that begins at another one.
pub fn eeprom_image_offset(start_address: usize, byte_count: usize, address: usize) -> (offset:
    Option<usize>)
    ensures
        offset == if start_address <= address && address - start_address < byte_count {
            Some((address - start_address) as usize)
        } else {
            None
        },
{
    if start_address <= address && address - start_address < byte_count {
        Some(address - start_address)
    } else {
        None
    }
}

/// `0x` and an address in upper-case hexadecimal.
pub open spec fn address_text(address: nat) -> Seq<char> {
    "0x"@ + hex_text(address, 4, true)
}

/// Shows an address.
pub fn address_label(address: usize) -> (label: String)
    ensures
        label@ == address_text(address as nat),
{
    String::from_str("0x").concat(hex(address as u64, 4, true).as_str())
}

/// `0x` and a byte in upper-case hexadecimal.
pub open spec fn byte_text(value: u8) -> Seq<char> {
    "0x"@ + hex_text(value as nat, 2, true)
}

/// Shows a byte.
pub fn byte_label(value: u8) -> (label: String)
    ensures
        label@ == byte_text(value),
{
    String::from_str("0x").concat(hex(value as u64, 2, true).as_str())
}

/// The addresses of a field as they are shown.
pub open spec fn field_address_text(field: FileFieldView) -> Seq<char> {
    if field.address == field.end_address {
        address_text(field.address as nat)
    } else {
        address_text(field.address as nat) + ".."@ + address_text(field.end_address as nat)
    }
}

/// Shows the addresses of a field.
pub fn eeprom_field_address_label(field: &EepromFileField) -> (label: String)
    ensures
        label@ == field_address_text(field@),
{
    if field.address == field.end_address {
        address_label(field.address)
    } else {
        address_label(field.address).concat("..").concat(address_label(field.end_address).as_str())
    }
}

/// The bytes of a field in an image, if the image holds all of them.
pub open spec fn field_bytes(field: FileFieldView, image_start: usize, bytes: Seq<u8>) -> Option<
    Seq<u8>,
> {
    let offset = field.address - image_start;
    let length = field.end_address - field.address + 1;
    if 0 <= offset < bytes.len() && length > 0 && offset + length <= bytes.len() {
        Some(bytes.subrange(offset, offset + length))
    } else {
        None
    }
}

/// The bytes of a field in an image, if the image holds all of them.
pub fn eeprom_field_bytes<'a>(
    field: &EepromFileField,
    image_start_address: usize,
    bytes: &'a [u8],
) -> (found: Option<&'a [u8]>)
    ensures
        match (found, field_bytes(field@, image_start_address, bytes@)) {
            (Some(found), Some(expected)) => found@ == expected,
            (None, None) => true,
            _ => false,
        },
{
    let offset: usize = match eeprom_image_offset(
        image_start_address,
        bytes.len(),
        field.address,
    ) {
        Some(offset) => offset,
        None => return None,
    };
    if field.end_address < field.address {
        return None;
    }
    let span: usize = field.end_address - field.address;
    if span >= bytes.len() - offset {
        return None;
    }
    Some(vstd::slice::slice_subrange(bytes, offset, offset + span + 1))
}

/// The character for a byte in a dump.
pub open spec fn dump_char(byte: u8) -> char {
    if 0x20 <= byte <= 0x7e {
        byte as char
    } else {
        '.'
    }
}

/// The character for a byte in a dump.
pub fn ascii_cell(byte: u8) -> (cell: char)
    ensures
        cell == dump_char(byte),
{
    if 0x20 <= byte && byte <= 0x7e {
        byte as char
    } else {
        '.'
    }
}

/// The characters for bytes in a dump.
pub open spec fn dump_text(bytes: Seq<u8>) -> Seq<char> {
    Seq::new(bytes.len(), |i: int| dump_char(bytes[i]))
}

/// The characters for bytes in a dump.
pub fn ascii_dump_line(bytes: &[u8]) -> (line: String)
    ensures
        line@ == dump_text(bytes@),
{
    let mut line = String::new();
    let mut index: usize = 0;
    while index < bytes.len()
        invariant
            index <= bytes@.len(),
            line@ == dump_text(bytes@.take(index as int)),
        decreases bytes.len() - index,
    {
        line.push(ascii_cell(bytes[index]));
        proof {
            assert(line@ =~= dump_text(bytes@.take(index + 1)));
        }
        index = index + 1;
    }
    proof {
        assert(bytes@.take(index as int) =~= bytes@);
    }
    line
}

/// The number that bytes stand for, the least significant one first.
pub open spec fn le_number(bytes: Seq<u8>) -> nat
    decreases bytes.len(),
{
    if bytes.len() == 0 {
        0
    } else {
        bytes[0] as nat + 256 * le_number(bytes.drop_first())
    }
}

/// The decoded value of bytes.
pub open spec fn decoded_text(encoding: EepromFieldEncoding, bytes: Seq<u8>) -> Seq<char> {
    match encoding {
        EepromFieldEncoding::U8 => number_text(le_number(bytes), 2),
        EepromFieldEncoding::U16Le => number_text(le_number(bytes), 4),
        EepromFieldEncoding::U32Le => number_text(le_number(bytes), 8),
        EepromFieldEncoding::Ascii => debug_quoted(dump_text(bytes)),
        EepromFieldEncoding::RawBytes => hex_bytes_text(bytes),
    }
}

/// A number in decimal and in hexadecimal.
pub open spec fn number_text(number: nat, width: nat) -> Seq<char> {
    dec_text(number) + " (0x"@ + hex_text(number, width, true) + ")"@
}

fn number_label(number: u64, width: u8) -> (label: String)
    ensures
        label@ == number_text(number as nat, width as nat),
{
    dec(number).concat(" (0x").concat(hex(number, width, true).as_str()).concat(")")
}

/// The value of a field as it is shown: hidden if it is sensitive, and
/// unavailable if the image does not hold it.
pub open spec fn field_value_text(
    field: FileFieldView,
    image_start: usize,
    bytes: Seq<u8>,
) -> Seq<char> {
    if field.sensitive {
        "Hidden (sensitive)"@
    } else {
        match field_bytes(field, image_start, bytes) {
            None => "Unavailable"@,
            Some(found) => decoded_text(field.encoding, found),
        }
    }
}

fn le_value_of(bytes: &[u8]) -> (value: u64)
    requires
        bytes@.len() <= 4,
    ensures
        value == le_number(bytes@),
        value < 0x1_0000_0000,
{
    let mut value: u64 = 0;
    let mut index: usize = bytes.len();
    proof {
        assert(bytes@.skip(index as int) =~= seq![]);
    }
    while index > 0
        invariant
            index <= bytes@.len() <= 4,
            value == le_number(bytes@.skip(index as int)),
            index == 4 ==> value < 1,
            index == 3 ==> value < 0x100,
            index == 2 ==> value < 0x1_0000,
            index == 1 ==> value < 0x100_0000,
            index == 0 ==> value < 0x1_0000_0000,
        decreases index,
    {
        index = index - 1;
        proof {
            assert(bytes@.skip(index as int).drop_first() =~= bytes@.skip(index + 1));
        }
        value = value * 256 + bytes[index] as u64;
    }
    proof {
        assert(bytes@.skip(0) =~= bytes@);
    }
    value
}

/// Shows the value of a field.
pub fn eeprom_field_value(field: &EepromFileField, image_start_address: usize, bytes: &[u8]) -> (
    value: String)
    requires
        field@.consistent(),
    ensures
        value@ == field_value_text(field@, image_start_address, bytes@),
{
    if field.sensitive {
        return String::from_str("Hidden (sensitive)");
    }
    let found = match eeprom_field_bytes(field, image_start_address, bytes) {
        Some(found) => found,
        None => return String::from_str("Unavailable"),
    };
    match field.encoding {
        EepromFieldEncoding::U8 => number_label(le_value_of(found), 2),
        EepromFieldEncoding::U16Le => number_label(le_value_of(found), 4),
        EepromFieldEncoding::U32Le => number_label(le_value_of(found), 8),
        EepromFieldEncoding::Ascii => debug_text(ascii_dump_line(found).as_str()),
        EepromFieldEncoding::RawBytes => format_hex_bytes(found),
    }
}

/// The value of a sensitive field is shown the same whatever the image holds.
pub proof fn sensitive_values_stay_hidden(
    field: FileFieldView,
    start: usize,
    bytes: Seq<u8>,
    other_start: usize,
    other: Seq<u8>,
)
    requires
        field.sensitive,
    ensures
        field_value_text(field, start, bytes) == field_value_text(field, other_start, other),
{
}

/// The lines of the tooltip of a field.
pub open spec fn tooltip_lines(field: FileFieldView) -> Seq<Seq<char>> {
    let place = seq![
        "Read-only field: "@ + field_address_text(field),
        "Encoding: "@ + encoding_label(field.encoding),
    ];
    let graded = match field.confidence {
        Some(confidence) => place.push("Confidence: "@ + confidence_label(confidence)),
        None => place,
    };
    let noted = match field.evidence_note {
        Some(note) => graded.push("Evidence: "@ + note),
        None => graded,
    };
    if field.sensitive {
        noted.push("Decoded value is hidden by default because it is sensitive."@)
    } else {
        noted
    }
}

/// Describes a field.
pub fn eeprom_field_tooltip(field: &EepromFileField) -> (tooltip: String)
    ensures
        tooltip@ == joined(tooltip_lines(field@), "\n"@),
{
    let mut lines: Vec<String> = Vec::new();
    proof {
        assert(texts(lines@) =~= seq![]);
    }
    push_pair(&mut lines, "Read-only field: ", eeprom_field_address_label(field).as_str());
    push_pair(&mut lines, "Encoding: ", field.encoding.label());
    assert(texts(lines@) == seq![
        "Read-only field: "@ + field_address_text(field@),
        "Encoding: "@ + encoding_label(field.encoding),
    ]);
    if let Some(confidence) = field.confidence {
        push_pair(&mut lines, "Confidence: ", confidence.label());
    }
    if let Some(note) = &field.evidence_note {
        push_pair(&mut lines, "Evidence: ", note.as_str());
    }
    if field.sensitive {
        push_field(
            &mut lines,
            String::from_str("Decoded value is hidden by default because it is sensitive."),
        );
    }
    assert(texts(lines@) == tooltip_lines(field@));
    join(lines.as_slice(), "\n")
}

/// The end of a text that is too long, behind a mark.
pub open spec fn truncated(text: Seq<char>, maximum: nat) -> Seq<char> {
    if text.len() <= maximum {
        text
    } else {
        let kept: int = if maximum == 0 {
            0
        } else {
            maximum - 1
        };
        seq!['…'] + text.skip(text.len() - kept)
    }
}

/// Shortens a text to its end.
pub fn end_truncate(value: &str, maximum_characters: usize) -> (shortened: String)
    ensures
        shortened@ == truncated(value@, maximum_characters as nat),
{
    let chars = characters(value);
    if chars.len() <= maximum_characters {
        return value.to_owned();
    }
    let kept: usize = maximum_characters.saturating_sub(1);
    let end = text_of(
        vstd::slice::slice_subrange(chars.as_slice(), chars.len() - kept, chars.len()),
    );
    let mut shortened = String::new();
    shortened.push('…');
    shortened.append(end.as_str());
    proof {
        assert(shortened@ =~= truncated(value@, maximum_characters as nat));
    }
    shortened
}

/// Whether a typed confirmation is the required one, to the letter.
pub fn confirmation_matches(provided: &str, required: &str) -> (matches: bool)
    ensures
        matches == (provided@ == required@),
{
    same_text(provided, required)
}

/// A text begins with `0x` or `0X`.
pub open spec fn hexadecimal_mark(text: Seq<char>) -> bool {
    text.len() >= 2 && text[0] == '0' && (text[1] == 'x' || text[1] == 'X')
}

/// The number that a typed text stands for, up to a limit.
pub open spec fn typed_number(text: Seq<char>, limit: nat) -> Option<nat> {
    let typed = trimmed(text);
    if hexadecimal_mark(typed) {
        number_of(typed.skip(2), 16, limit)
    } else {
        number_of(typed, 10, limit)
    }
}

/// Why a typed text is no number: the words for nothing, for bad digits behind
/// a mark, and for bad digits without one.
pub open spec fn typed_refusal(
    text: Seq<char>,
    missing: Seq<char>,
    bad_hexadecimal: Seq<char>,
    bad_decimal: Seq<char>,
) -> Seq<char> {
    let typed = trimmed(text);
    if typed.len() == 0 {
        missing
    } else if hexadecimal_mark(typed) {
        bad_hexadecimal
    } else {
        bad_decimal
    }
}

fn read_typed(
    value: &str,
    limit: u32,
    missing: &'static str,
    bad_hexadecimal: &'static str,
    bad_decimal: &'static str,
) -> (number: Result<u32, String>)
    ensures
        match (number, typed_number(value@, limit as nat)) {
            (Ok(number), Some(expected)) => number == expected,
            (Err(message), None) => message@ == typed_refusal(
                value@,
                missing@,
                bad_hexadecimal@,
                bad_decimal@,
            ),
            _ => false,
        },
{
    let typed = trim_text(value);
    let chars = characters(typed.as_str());
    if chars.len() == 0 {
        return Err(String::from_str(missing));
    }
    if chars.len() >= 2 && chars[0] == '0' && (chars[1] == 'x' || chars[1] == 'X') {
        let digits = vstd::slice::slice_subrange(chars.as_slice(), 2, chars.len());
        proof {
            assert(digits@ =~= trimmed(value@).skip(2));
        }
        match read_number(digits, 16, limit) {
            Some(number) => Ok(number),
            None => Err(String::from_str(bad_hexadecimal)),
        }
    } else {
        match read_number(chars.as_slice(), 10, limit) {
            Some(number) => Ok(number),
            None => Err(String::from_str(bad_decimal)),
        }
    }
}

/// Reads a typed address.
pub fn parse_u16_input(value: &str) -> (number: Result<u16, String>)
    ensures
        match (number, typed_number(value@, 0xffff)) {
            (Ok(number), Some(expected)) => number == expected,
            (Err(message), None) => message@ == typed_refusal(
                value@,
                "Enter an EEPROM address."@,
                "Invalid hexadecimal EEPROM address."@,
                "Invalid decimal EEPROM address."@,
            ),
            _ => false,
        },
{
    match read_typed(
        value,
        0xffff,
        "Enter an EEPROM address.",
        "Invalid hexadecimal EEPROM address.",
        "Invalid decimal EEPROM address.",
    ) {
        Ok(number) => Ok(number as u16),
        Err(message) => Err(message),
    }
}

/// Reads a typed byte.
pub fn parse_u8_input(value: &str) -> (number: Result<u8, String>)
    ensures
        match (number, typed_number(value@, 0xff)) {
            (Ok(number), Some(expected)) => number == expected,
            (Err(message), None) => message@ == typed_refusal(
                value@,
                "Enter an EEPROM byte value."@,
                "Invalid hexadecimal EEPROM byte value."@,
                "Invalid decimal EEPROM byte value."@,
            ),
            _ => false,
        },
{
    match read_typed(
        value,
        0xff,
        "Enter an EEPROM byte value.",
        "Invalid hexadecimal EEPROM byte value.",
        "Invalid decimal EEPROM byte value.",
    ) {
        Ok(number) => Ok(number as u8),
        Err(message) => Err(message),
    }
}

/// The most characters of a status response that are shown.
pub const MAX_STATUS_CHARACTERS: usize = 1_024;

/// A status response as it is shown.
pub open spec fn status_display(bytes: Seq<u8>) -> Seq<char> {
    if !valid_utf8(bytes) {
        "Binary status response is not shown."@
    } else {
        let text = trimmed(decode_utf8(bytes));
        if text.len() > MAX_STATUS_CHARACTERS {
            text.take(MAX_STATUS_CHARACTERS as int) + "… (truncated)"@
        } else {
            text
        }
    }
}

/// Shows a status response.
pub fn display_status_response(bytes: &[u8]) -> (display: String)
    ensures
        display@ == status_display(bytes@),
{
    match text_from_utf8(bytes) {
        None => String::from_str("Binary status response is not shown."),
        Some(text) => {
            let text = trim_text(text.as_str());
            let chars = characters(text.as_str());
            if chars.len() > MAX_STATUS_CHARACTERS {
                let front = vstd::slice::slice_subrange(
                    chars.as_slice(),
                    0,
                    MAX_STATUS_CHARACTERS,
                );
                proof {
                    assert(front@ =~= chars@.take(MAX_STATUS_CHARACTERS as int));
                }
                text_of(front).concat("… (truncated)")
            } else {
                text
            }
        },
    }
}

/// The most values that are shown.
pub const DISPLAY_LIMIT: usize = 16;

/// An address with its value.
pub open spec fn value_text(value: (u16, u8)) -> Seq<char> {
    address_text(value.0 as nat) + "="@ + byte_text(value.1)
}

/// Values as they are shown: the first few, and how many there are.
pub open spec fn values_text(values: Seq<(u16, u8)>) -> Seq<char> {
    if values.len() > DISPLAY_LIMIT {
        joined(Seq::new(DISPLAY_LIMIT as nat, |i: int| value_text(values[i])), ", "@) + ", … ("@
            + dec_text(values.len()) + " byte(s) total)"@
    } else if values.len() == 0 {
        "none"@
    } else {
        joined(Seq::new(values.len(), |i: int| value_text(values[i])), ", "@)
    }
}

/// Shows values.
pub fn format_current_values(values: &[(u16, u8)]) -> (text: String)
    ensures
        text@ == values_text(values@),
{
    if values.len() == 0 {
        return String::from_str("none");
    }
    let shown: usize = if values.len() > DISPLAY_LIMIT {
        DISPLAY_LIMIT
    } else {
        values.len()
    };
    let mut parts: Vec<String> = Vec::new();
    let ghost expected = Seq::new(shown as nat, |i: int| value_text(values@[i]));
    while parts.len() < shown
        invariant
            parts@.len() <= shown <= values@.len(),
            expected == Seq::new(shown as nat, |i: int| value_text(values@[i])),
            texts(parts@) == expected.take(parts@.len() as int),
        decreases shown - parts.len(),
    {
        let index: usize = parts.len();
        push_field(
            &mut parts,
            address_label(values[index].0 as usize).concat("=").concat(
                byte_label(values[index].1).as_str(),
            ),
        );
    }
    proof {
        assert(texts(parts@) =~= expected);
    }
    let visible = join(parts.as_slice(), ", ");
    if values.len() > DISPLAY_LIMIT {
        visible.concat(", … (").concat(dec(values.len() as u64).as_str()).concat(" byte(s) total)")
    } else {
        visible
    }
}

/// Shows updates.
pub fn format_updates(updates: &[(u16, u8)]) -> (text: String)
    ensures
        text@ == values_text(updates@),
{
    format_current_values(updates)
}

/// The number of bytes that a restore image must have.
pub fn expected_restore_image_length(settings: &EpsonSpec) -> (length: usize)
    ensures
        length == range_length(settings@),
{
    model_range_length(settings)
}

/// Checks the size of a restore image before it is read.
pub fn validate_restore_image_size(settings: &EpsonSpec, actual_size: u64) -> (valid: Result<
    usize,
    String,
>)
    ensures
        match valid {
            Ok(length) => actual_size == range_length(settings@) && length == actual_size,
            Err(message) => actual_size != range_length(settings@) && message@ == image_size_text(
                settings@,
                actual_size as nat,
            ),
        },
{
    let expected: usize = expected_restore_image_length(settings);
    if actual_size != expected as u64 {
        return Err(image_size_message(settings, actual_size));
    }
    Ok(expected)
}

/// What a look at a file gave: whether it is a regular one, and its size.
pub struct FileFacts {
    pub is_file: bool,
    pub size: u64,
}

/// A restore image that fits the model.
pub struct ValidatedRestoreImage {
    pub bytes: Vec<u8>,
    pub update_count: usize,
}

/// Judges a restore image before it is opened.
pub fn preflight_stat(path: &str, settings: &EpsonSpec, facts: Result<FileFacts, String>) -> (
    judged: Result<usize, String>)
    ensures
        match facts {
            Err(error) => judged matches Err(message) && message@
                == "Could not stat selected restore image "@ + path@ + ": "@ + error@,
            Ok(facts) => if !facts.is_file {
                judged matches Err(message) && message@ == "Selected restore image "@ + path@
                    + " is not a regular file"@
            } else if facts.size != range_length(settings@) {
                judged matches Err(message) && message@ == image_size_text(
                    settings@,
                    facts.size as nat,
                )
            } else {
                judged matches Ok(length) && length == range_length(settings@)
            },
        },
{
    match facts {
        Err(error) => Err(
            String::from_str("Could not stat selected restore image ").concat(path).concat(
                ": ",
            ).concat(error.as_str()),
        ),
        Ok(facts) => if !facts.is_file {
            Err(
                String::from_str("Selected restore image ").concat(path).concat(
                    " is not a regular file",
                ),
            )
        } else {
            validate_restore_image_size(settings, facts.size)
        },
    }
}

/// The words for a restore image that could not be opened.
pub fn preflight_open_failure(path: &str, error: &str) -> (message: String)
    ensures
        message@ == "Could not open selected restore image "@ + path@ + ": "@ + error@,
{
    String::from_str("Could not open selected restore image ").concat(path).concat(": ").concat(
        error,
    )
}

/// Judges a restore image again once it is open.
pub fn preflight_opened(path: &str, settings: &EpsonSpec, facts: Result<FileFacts, String>) -> (
    judged: Result<usize, String>)
    ensures
        match facts {
            Err(error) => judged matches Err(message) && message@
                == "Could not stat selected restore image "@ + path@ + " after opening it: "@
                + error@,
            Ok(facts) => if !facts.is_file {
                judged matches Err(message) && message@ == "Selected restore image "@ + path@
                    + " changed to a non-regular file"@
            } else if facts.size != range_length(settings@) {
                judged matches Err(message) && message@ == image_size_text(
                    settings@,
                    facts.size as nat,
                )
            } else {
                judged matches Ok(limit) && limit == range_length(settings@) + 1
            },
        },
{
    match facts {
        Err(error) => Err(
            String::from_str("Could not stat selected restore image ").concat(path).concat(
                " after opening it: ",
            ).concat(error.as_str()),
        ),
        Ok(facts) => if !facts.is_file {
            Err(
                String::from_str("Selected restore image ").concat(path).concat(
                    " changed to a non-regular file",
                ),
            )
        } else {
            match validate_restore_image_size(settings, facts.size) {
                Err(message) => Err(message),
                Ok(length) => Ok(length + 1),
            }
        },
    }
}

/// Judges a restore image by what was read of it.
pub fn preflight_read(path: &str, settings: &EpsonSpec, bytes: Result<Vec<u8>, String>) -> (judged:
    Result<ValidatedRestoreImage, String>)
    ensures
        match bytes {
            Err(error) => judged matches Err(message) && message@
                == "Could not read selected restore image "@ + path@ + ": "@ + error@,
            Ok(bytes) => if bytes@.len() != range_length(settings@) {
                judged matches Err(message) && message@ == image_size_text(
                    settings@,
                    bytes@.len(),
                )
            } else {
                judged matches Ok(image) && image.bytes@ == bytes@ && image.update_count
                    == bytes@.len()
            },
        },
{
    match bytes {
        Err(error) => Err(
            String::from_str("Could not read selected restore image ").concat(path).concat(
                ": ",
            ).concat(error.as_str()),
        ),
        Ok(bytes) => match restore_eeprom_updates(settings, bytes.as_slice()) {
            Err(message) => Err(message),
            Ok(updates) => Ok(ValidatedRestoreImage { bytes, update_count: updates.len() }),
        },
    }
}

/// The bytes of a field are those that stand at its addresses in the image, from the
/// first to the last, and there are none where the image lacks one of them.
pub proof fn field_bytes_stand_at_their_addresses(
    field: EepromFileField,
    image_start: usize,
    bytes: Seq<u8>,
)
    ensures
        field_bytes(field@, image_start, bytes) is Some <==> image_start <= field.address
            <= field.end_address && field.end_address < image_start + bytes.len(),
        field_bytes(field@, image_start, bytes) matches Some(found) ==> found.len()
            == field.end_address - field.address + 1 && (forall|address: int|
            field.address <= address <= field.end_address ==> found[address - field.address]
                == #[trigger] bytes[address - image_start]),
{
}

/// Numbers of a field have their least significant byte first, whatever their length.
pub proof fn numbers_grow_byte_by_byte(bytes: Seq<u8>)
    ensures
        bytes.len() == 1 ==> le_number(bytes) == bytes[0],
        bytes.len() == 2 ==> le_number(bytes) == bytes[0] + 256 * bytes[1],
        bytes.len() == 4 ==> le_number(bytes) == bytes[0] + 256 * bytes[1] + 65536 * bytes[2]
            + 16777216 * bytes[3],
{
    reveal_with_fuel(le_number, 5);
    if bytes.len() > 0 {
        let second = bytes.drop_first();
        if second.len() > 0 {
            let third = second.drop_first();
            if third.len() > 0 {
                let fourth = third.drop_first();
                assert(third[0] == bytes[2]);
                if fourth.len() > 0 {
                    assert(fourth[0] == bytes[3]);
                    assert(fourth.drop_first().len() + 4 == bytes.len());
                }
            }
        }
    }
}

/// What is shown of a field that is not sensitive: its number in decimal and in
/// hexadecimal digits, two for each byte, its text with a point for what cannot be
/// shown, or its bytes. Of a sensitive field nothing is shown.
pub proof fn fields_are_shown_by_their_bytes(
    field: EepromFileField,
    image_start: usize,
    bytes: Seq<u8>,
)
    requires
        field@.consistent(),
        image_start <= field.address <= field.end_address,
        field.end_address < image_start + bytes.len(),
    ensures
        ({
            let place: int = field.address - image_start;
            let shown = field_value_text(field@, image_start, bytes);
            &&& field.sensitive ==> shown == "Hidden (sensitive)"@
            &&& !field.sensitive && field.encoding == EepromFieldEncoding::U8 ==> shown == dec_text(
                bytes[place] as nat,
            ) + " (0x"@ + hex_text(bytes[place] as nat, 2, true) + ")"@
            &&& !field.sensitive && field.encoding == EepromFieldEncoding::U16Le ==> {
                let number: nat = (bytes[place] + 256 * bytes[place + 1]) as nat;
                shown == dec_text(number) + " (0x"@ + hex_text(number, 4, true) + ")"@
            }
            &&& !field.sensitive && field.encoding == EepromFieldEncoding::U32Le ==> {
                let number: nat = (bytes[place] + 256 * bytes[place + 1] + 65536 * bytes[place + 2]
                    + 16777216 * bytes[place + 3]) as nat;
                shown == dec_text(number) + " (0x"@ + hex_text(number, 8, true) + ")"@
            }
            &&& !field.sensitive && field.encoding == EepromFieldEncoding::RawBytes ==> shown
                == hex_bytes_text(
                bytes.subrange(place, place + field.end_address - field.address + 1),
            )
            &&& !field.sensitive && field.encoding == EepromFieldEncoding::Ascii ==> exists|
                text: Seq<char>,
            |
                #![trigger debug_quoted(text)]
                shown == debug_quoted(text) && text.len() == field.end_address - field.address + 1
                    && forall|i: int|
                    0 <= i < text.len() ==> (if 0x20 <= bytes[place + i] <= 0x7e {
                        (#[trigger] text[i]) as int == bytes[place + i] as int
                    } else {
                        text[i] == '.'
                    })
        }),
{
    let place: int = field.address - image_start;
    let length: int = field.end_address - field.address + 1;
    let found = bytes.subrange(place, place + length);
    assert(field_bytes(field@, image_start, bytes) == Some(found));
    numbers_grow_byte_by_byte(found);
    let text = dump_text(found);
    assert forall|i: int| 0 <= i < text.len() implies (if 0x20 <= bytes[place + i] <= 0x7e {
        (#[trigger] text[i]) as int == bytes[place + i] as int
    } else {
        text[i] == '.'
    }) by {
        assert(found[i] == bytes[place + i]);
    }
    assert(debug_quoted(text) == debug_quoted(dump_text(found)));
}

/// A typed number may stand between white space; behind `0x` or `0X` it is
/// hexadecimal, and decimal otherwise.
pub proof fn typed_numbers_are_read(
    front: Seq<char>,
    number: nat,
    width: nat,
    upper: bool,
    mark: bool,
    back: Seq<char>,
    limit: nat,
)
    requires
        forall|i: int| 0 <= i < front.len() ==> white_space(#[trigger] front[i]),
        forall|i: int| 0 <= i < back.len() ==> white_space(#[trigger] back[i]),
    ensures
        typed_number(
            front + (seq![
                '0',
                if mark {
                    'X'
                } else {
                    'x'
                },
            ] + hex_text(number, width, upper)) + back,
            limit,
        ) == (if number <= limit {
            Some(number)
        } else {
            None
        }),
        typed_number(front + dec_text(number) + back, limit) == (if number <= limit {
            Some(number)
        } else {
            None
        }),
        typed_number(front + back, limit) is None,
{
    lemma_hexadecimal_ends(number, width, upper);
    lemma_decimal_ends(number);
    let sign = if mark {
        'X'
    } else {
        'x'
    };
    let digits = hex_text(number, width, upper);
    let marked = seq!['0', sign] + digits;
    assert(marked[0] == '0' && marked[1] == sign);
    assert(marked[marked.len() - 1] == digits[digits.len() - 1]);
    white_space_is_trimmed(front, marked, back);
    assert(marked.skip(2) =~= digits);
    white_space_is_trimmed(front, dec_text(number), back);
    white_space_is_trimmed(front, seq![], back);
    assert(front + Seq::<char>::empty() + back =~= front + back);
    let larger: nat = if number <= limit {
        limit
    } else {
        number
    };
    written_numbers_read_back(number, width, upper, larger);
}

proof fn lemma_hexadecimal_ends(number: nat, width: nat, upper: bool)
    ensures
        hex_text(number, width, upper).len() > 0,
        !white_space(hex_text(number, width, upper)[hex_text(number, width, upper).len() - 1]),
    decreases number, width,
{
}

proof fn lemma_decimal_ends(number: nat)
    ensures
        dec_text(number).len() > 0,
        !white_space(dec_text(number)[0]),
        !white_space(dec_text(number)[dec_text(number).len() - 1]),
        dec_text(number).len() > 1 ==> '0' <= dec_text(number)[1] <= '9',
    decreases number,
{
    if number >= 10 {
        lemma_decimal_ends(number / 10);
        assert(dec_text(number)[0] == dec_text(number / 10)[0]);
        if dec_text(number / 10).len() > 1 {
            assert(dec_text(number)[1] == dec_text(number / 10)[1]);
        }
    }
}

/// A text that is too long is shown by its end, behind a mark that counts as one of
/// its characters; any other is shown whole.
pub proof fn ends_of_long_texts_are_shown(text: Seq<char>, maximum: nat)
    requires
        maximum > 0,
    ensures
        text.len() <= maximum ==> truncated(text, maximum) == text,
        text.len() > maximum ==> truncated(text, maximum).len() == maximum && truncated(
            text,
            maximum,
        )[0] == '…' && forall|i: int|
            1 <= i < maximum ==> #[trigger] truncated(text, maximum)[maximum - i]
                == text[text.len() - i],
{
}

/// Values are shown in their order, each address before its value, and no more than
/// sixteen of them, behind which the number of all is told.
pub proof fn values_are_shown_in_order(values: Seq<(u16, u8)>, value: (u16, u8))
    ensures
        values_text(seq![]) == "none"@,
        values_text(seq![value]) == "0x"@ + hex_text(value.0 as nat, 4, true) + "="@ + ("0x"@
            + hex_text(value.1 as nat, 2, true)),
        0 < values.len() < 16 ==> values_text(values.push(value)) == values_text(values) + ", "@ + (
        "0x"@ + hex_text(value.0 as nat, 4, true) + "="@ + ("0x"@ + hex_text(
            value.1 as nat,
            2,
            true,
        ))),
        values.len() > 16 ==> values_text(values) == values_text(values.take(16)) + ", … ("@
            + dec_text(values.len()) + " byte(s) total)"@,
{
    assert(Seq::new(1, |i: int| value_text(seq![value][i])) =~= seq![value_text(value)]);
    let longer = values.push(value);
    if 0 < values.len() < 16 {
        let shown = Seq::new(longer.len(), |i: int| value_text(longer[i]));
        assert(shown.drop_last() =~= Seq::new(values.len(), |i: int| value_text(values[i])));
        assert(shown.last() == value_text(value));
    }
    if values.len() > 16 {
        assert(Seq::new(16, |i: int| value_text(values[i])) =~= Seq::new(
            16,
            |i: int| value_text(values.take(16)[i]),
        ));
    }
}

/// A status response is shown without the white space around it, and by its first
/// 1024 characters where it is longer; one that is no text is not shown.
pub proof fn status_responses_are_shown(
    bytes: Seq<u8>,
    front: Seq<char>,
    text: Seq<char>,
    back: Seq<char>,
)
    requires
        valid_utf8(bytes),
        decode_utf8(bytes) == front + text + back,
        forall|i: int| 0 <= i < front.len() ==> white_space(#[trigger] front[i]),
        forall|i: int| 0 <= i < back.len() ==> white_space(#[trigger] back[i]),
        text.len() > 0 ==> !white_space(text[0]) && !white_space(text[text.len() - 1]),
    ensures
        text.len() <= 1024 ==> status_display(bytes) == text,
        text.len() > 1024 ==> status_display(bytes).take(1024) == text.take(1024)
            && status_display(bytes).len() > 1024,
{
    white_space_is_trimmed(front, text, back);
    reveal_strlit("… (truncated)");
    if text.len() > 1024 {
        assert(status_display(bytes).take(1024) =~= text.take(1024));
    }
}

/// What is told of the cleanup: of the conversation first, and of a failure its words.
pub proof fn cleanups_are_described(cleanup: UsbSessionCleanup, error: Seq<char>)
    ensures
        cleanup_lines(cleanup).len() == 2,
        cleanup.d4_shutdown@ == CleanupView::Failed(error) ==> cleanup_lines(cleanup)[0]
            == "D4 shutdown: "@ + ("failed ("@ + error + ")"@) + "."@,
        cleanup.d4_shutdown@ == CleanupView::Succeeded ==> cleanup_lines(cleanup)[0]
            == "D4 shutdown: "@ + "succeeded"@ + "."@,
        cleanup.d4_shutdown@ == CleanupView::NotAttempted ==> cleanup_lines(cleanup)[0]
            == "D4 shutdown: "@ + "not attempted"@ + "."@,
        cleanup.usb_close@ == CleanupView::Failed(error) ==> cleanup_lines(cleanup)[1]
            == "USB cleanup: "@ + ("failed ("@ + error + ")"@) + "."@,
        cleanup.usb_close@ == CleanupView::Succeeded ==> cleanup_lines(cleanup)[1]
            == "USB cleanup: "@ + "succeeded"@ + "."@,
        clean(cleanup) <==> cleanup.d4_shutdown is Succeeded && cleanup.usb_close is Succeeded,
{
}

/// The addresses of a field are shown from the first to the last, and once where it is one
/// alone; what is known of it follows.
pub proof fn fields_are_described(field: EepromFileField, note: Seq<char>)
    requires
        field@.evidence_note == Some(note),
        field.confidence is None,
        !field.sensitive,
    ensures
        field.address == field.end_address ==> field_address_text(field@) == "0x"@ + hex_text(
            field.address as nat,
            4,
            true,
        ),
        field.address != field.end_address ==> field_address_text(field@) == ("0x"@ + hex_text(
            field.address as nat,
            4,
            true,
        )) + ".."@ + ("0x"@ + hex_text(field.end_address as nat, 4, true)),
        tooltip_lines(field@) == seq![
            "Read-only field: "@ + field_address_text(field@),
            "Encoding: "@ + encoding_label(field.encoding),
            "Evidence: "@ + note,
        ],
{
    assert(tooltip_lines(field@) =~= seq![
        "Read-only field: "@ + field_address_text(field@),
        "Encoding: "@ + encoding_label(field.encoding),
        "Evidence: "@ + note,
    ]);
}

} // verus!
