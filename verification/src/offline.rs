//! Offline analysis of captured bytes.
use crate::command::{le_bytes, read_request, rotated, write_request};
use crate::epson::{AddressWidth, SpecView};
use crate::fields::{hex_encode, hex_run_text, join, joined, push_field};
use crate::json::{
    json_content, json_contents, json_list, json_number, json_object, json_string, json_text,
    json_to_text, json_with, Json,
};
use crate::report::tells;
use crate::summary::le_value;
use crate::text::{dec, dec_text, hex, hex_text};
use crate::text_map::texts;
use crate::transaction::ascii_text;
use serde_json::Value;
use vstd::prelude::*;

verus! {

/// The largest file that is analyzed.
pub const MAX_OFFLINE_BINARY_BYTES: u64 = 67_108_864;

/// The fewest printable characters in a row that are reported.
pub const SHORTEST_RUN: usize = 8;

/// Something found in captured bytes.
#[derive(Clone, Debug, PartialEq, Eq)]
pub enum BinaryFinding {
    EepromRead { offset: usize, read_key: u16, address: u16 },
    EepromWrite { offset: usize, read_key: u16, address: u16, value: u8, write_key: Vec<u8> },
    InvalidFactoryRequest { offset: usize, reason: &'static str },
    PrintableAscii { offset: usize, value: String },
}

/// The contents of a finding.
pub enum FindingView {
    EepromRead { offset: nat, read_key: u16, address: u16 },
    EepromWrite { offset: nat, read_key: u16, address: u16, value: u8, write_key: Seq<u8> },
    InvalidFactoryRequest { offset: nat, reason: Seq<char> },
    PrintableAscii { offset: nat, value: Seq<char> },
}

impl View for BinaryFinding {
    type V = FindingView;

    open spec fn view(&self) -> FindingView {
        match *self {
            BinaryFinding::EepromRead { offset, read_key, address } => FindingView::EepromRead {
                offset: offset as nat,
                read_key,
                address,
            },
            BinaryFinding::EepromWrite { offset, read_key, address, value, write_key } =>
                FindingView::EepromWrite {
                offset: offset as nat,
                read_key,
                address,
                value,
                write_key: write_key@,
            },
            BinaryFinding::InvalidFactoryRequest { offset, reason } =>
                FindingView::InvalidFactoryRequest { offset: offset as nat, reason: reason@ },
            BinaryFinding::PrintableAscii { offset, value } => FindingView::PrintableAscii {
                offset: offset as nat,
                value: value@,
            },
        }
    }
}

/// The contents of several findings.
pub open spec fn finding_views(findings: Seq<BinaryFinding>) -> Seq<FindingView> {
    Seq::new(findings.len(), |i: int| findings[i]@)
}

/// A factory request of an operation stands at an offset: two bars, and behind
/// a length and a key the operation with its complement and its check.
pub open spec fn request_at(bytes: Seq<u8>, offset: int, operation: u8) -> bool {
    &&& 0 <= offset
    &&& offset + 9 <= bytes.len()
    &&& bytes[offset] == 0x7c
    &&& bytes[offset + 1] == 0x7c
    &&& bytes[offset + 6] == operation
    &&& bytes[offset + 7] == 255 - operation
    &&& bytes[offset + 8] == rotated(operation)
}

/// What a factory request at an offset amounts to.
pub open spec fn request_finding(bytes: Seq<u8>, offset: int) -> FindingView {
    let declared = le_value(bytes[offset + 2], bytes[offset + 3]);
    let start = offset + 9;
    let end = start + declared - 5;
    let is_read = request_at(bytes, offset, 0x41);
    if declared < 5 {
        FindingView::InvalidFactoryRequest {
            offset: offset as nat,
            reason: "declared factory payload is shorter than its five-byte header"@,
        }
    } else if end > usize::MAX {
        FindingView::InvalidFactoryRequest {
            offset: offset as nat,
            reason: "declared factory payload length overflows"@,
        }
    } else if end > bytes.len() {
        FindingView::InvalidFactoryRequest {
            offset: offset as nat,
            reason: "factory request payload is truncated"@,
        }
    } else if is_read && declared < 7 {
        FindingView::InvalidFactoryRequest {
            offset: offset as nat,
            reason: "EEPROM read request has fewer than two address bytes"@,
        }
    } else if !is_read && declared < 8 {
        FindingView::InvalidFactoryRequest {
            offset: offset as nat,
            reason: "EEPROM write request has fewer than address and value bytes"@,
        }
    } else {
        let read_key = le_value(bytes[offset + 4], bytes[offset + 5]);
        let address = le_value(bytes[start], bytes[start + 1]);
        if is_read {
            FindingView::EepromRead { offset: offset as nat, read_key, address }
        } else {
            FindingView::EepromWrite {
                offset: offset as nat,
                read_key,
                address,
                value: bytes[start + 2],
                write_key: bytes.subrange(start + 3, end),
            }
        }
    }
}

/// The factory requests from an offset on.
pub open spec fn requests_from(bytes: Seq<u8>, offset: int) -> Seq<FindingView>
    decreases bytes.len() - offset,
{
    if offset < 0 || offset + 9 > bytes.len() {
        seq![]
    } else if request_at(bytes, offset, 0x41) || request_at(bytes, offset, 0x42) {
        seq![request_finding(bytes, offset)] + requests_from(bytes, offset + 9)
    } else {
        requests_from(bytes, offset + 1)
    }
}

/// The byte is a printable ASCII character.
pub open spec fn printable(byte: u8) -> bool {
    0x20 <= byte <= 0x7e
}

/// Where a run of printable characters ends.
pub open spec fn run_end(bytes: Seq<u8>, offset: int) -> int
    decreases bytes.len() - offset,
{
    if 0 <= offset < bytes.len() && printable(bytes[offset]) {
        run_end(bytes, offset + 1)
    } else {
        offset
    }
}

/// The printable runs from an offset on that are long enough.
pub open spec fn runs_from(bytes: Seq<u8>, offset: int) -> Seq<FindingView>
    decreases bytes.len() - offset,
{
    if offset < 0 || offset >= bytes.len() {
        seq![]
    } else if !printable(bytes[offset]) {
        runs_from(bytes, offset + 1)
    } else {
        let end = run_end(bytes, offset);
        if end <= offset || end > bytes.len() {
            seq![]
        } else if end - offset >= SHORTEST_RUN {
            seq![
                FindingView::PrintableAscii {
                    offset: offset as nat,
                    value: ascii_text(bytes.subrange(offset, end)),
                },
            ] + runs_from(bytes, end)
        } else {
            runs_from(bytes, end)
        }
    }
}

/// Everything found in captured bytes: the factory requests, and then the
/// printable runs if they are wanted.
pub open spec fn findings_in(bytes: Seq<u8>, include_ascii: bool) -> Seq<FindingView> {
    if include_ascii {
        requests_from(bytes, 0) + runs_from(bytes, 0)
    } else {
        requests_from(bytes, 0)
    }
}

proof fn lemma_run_end(bytes: Seq<u8>, offset: int)
    requires
        0 <= offset <= bytes.len(),
    ensures
        offset <= run_end(bytes, offset) <= bytes.len(),
        forall|i: int| offset <= i < run_end(bytes, offset) ==> printable(#[trigger] bytes[i]),
        run_end(bytes, offset) < bytes.len() ==> !printable(bytes[run_end(bytes, offset)]),
    decreases bytes.len() - offset,
{
    if offset < bytes.len() && printable(bytes[offset]) {
        lemma_run_end(bytes, offset + 1);
    }
}

fn request_found(bytes: &[u8], offset: usize, operation: u8) -> (found: bool)
    requires
        offset + 9 <= bytes.len(),
    ensures
        found == request_at(bytes@, offset as int, operation),
{
    let expected: u8 = operation / 2 + (operation % 2) * 128;
    bytes[offset] == 0x7c && bytes[offset + 1] == 0x7c && bytes[offset + 6] == operation
        && bytes[offset + 7] == 255 - operation && bytes[offset + 8] == expected
}

fn le_number_at(bytes: &[u8], offset: usize) -> (value: u16)
    requires
        offset + 2 <= bytes.len(),
    ensures
        value == le_value(bytes@[offset as int], bytes@[offset + 1]),
{
    bytes[offset + 1] as u16 * 256 + bytes[offset] as u16
}

fn read_finding(bytes: &[u8], offset: usize, is_read: bool) -> (finding: BinaryFinding)
    requires
        offset + 9 <= bytes.len(),
        is_read == request_at(bytes@, offset as int, 0x41),
    ensures
        finding@ == request_finding(bytes@, offset as int),
{
    let declared: usize = le_number_at(bytes, offset + 2) as usize;
    if declared < 5 {
        return BinaryFinding::InvalidFactoryRequest {
            offset,
            reason: "declared factory payload is shorter than its five-byte header",
        };
    }
    let payload_length: usize = declared - 5;
    let payload_start: usize = offset + 9;
    let payload_end: usize = match payload_start.checked_add(payload_length) {
        None => {
            return BinaryFinding::InvalidFactoryRequest {
                offset,
                reason: "declared factory payload length overflows",
            };
        },
        Some(payload_end) => payload_end,
    };
    if payload_end > bytes.len() {
        return BinaryFinding::InvalidFactoryRequest {
            offset,
            reason: "factory request payload is truncated",
        };
    }
    if is_read && payload_length < 2 {
        return BinaryFinding::InvalidFactoryRequest {
            offset,
            reason: "EEPROM read request has fewer than two address bytes",
        };
    }
    if !is_read && payload_length < 3 {
        return BinaryFinding::InvalidFactoryRequest {
            offset,
            reason: "EEPROM write request has fewer than address and value bytes",
        };
    }
    let read_key: u16 = le_number_at(bytes, offset + 4);
    let address: u16 = le_number_at(bytes, payload_start);
    if is_read {
        BinaryFinding::EepromRead { offset, read_key, address }
    } else {
        BinaryFinding::EepromWrite {
            offset,
            read_key,
            address,
            value: bytes[payload_start + 2],
            write_key: vstd::slice::slice_to_vec(
                vstd::slice::slice_subrange(bytes, payload_start + 3, payload_end),
            ),
        }
    }
}

fn find_requests(bytes: &[u8]) -> (findings: Vec<BinaryFinding>)
    ensures
        finding_views(findings@) == requests_from(bytes@, 0),
{
    let mut findings: Vec<BinaryFinding> = Vec::new();
    let mut offset: usize = 0;
    proof {
        assert(finding_views(findings@) + requests_from(bytes@, 0) =~= requests_from(bytes@, 0));
    }
    while offset <= bytes.len() && bytes.len() - offset >= 9
        invariant
            offset <= bytes@.len(),
            finding_views(findings@) + requests_from(bytes@, offset as int) == requests_from(
                bytes@,
                0,
            ),
        decreases bytes.len() - offset,
    {
        let is_read: bool = request_found(bytes, offset, 0x41);
        if is_read || request_found(bytes, offset, 0x42) {
            let ghost before = finding_views(findings@);
            let finding = read_finding(bytes, offset, is_read);
            findings.push(finding);
            proof {
                assert(finding_views(findings@) =~= before.push(finding@));
                assert(before + (seq![finding@] + requests_from(bytes@, offset + 9)) =~= before.push(
                    finding@,
                ) + requests_from(bytes@, offset + 9));
            }
            offset = offset + 9;
        } else {
            offset = offset + 1;
        }
    }
    proof {
        assert(finding_views(findings@) + requests_from(bytes@, offset as int) =~= finding_views(
            findings@,
        ));
    }
    findings
}

fn text_of_bytes(bytes: &[u8], start: usize, end: usize) -> (text: String)
    requires
        start <= end <= bytes@.len(),
    ensures
        text@ == ascii_text(bytes@.subrange(start as int, end as int)),
{
    let mut text = String::new();
    let mut index: usize = start;
    while index < end
        invariant
            start <= index <= end <= bytes@.len(),
            text@ == ascii_text(bytes@.subrange(start as int, index as int)),
        decreases end - index,
    {
        text.push(bytes[index] as char);
        proof {
            assert(text@ =~= ascii_text(bytes@.subrange(start as int, index + 1)));
        }
        index = index + 1;
    }
    text
}

fn find_runs(bytes: &[u8]) -> (findings: Vec<BinaryFinding>)
    ensures
        finding_views(findings@) == runs_from(bytes@, 0),
{
    let mut findings: Vec<BinaryFinding> = Vec::new();
    let mut offset: usize = 0;
    proof {
        assert(finding_views(findings@) + runs_from(bytes@, 0) =~= runs_from(bytes@, 0));
    }
    while offset < bytes.len()
        invariant
            offset <= bytes@.len(),
            finding_views(findings@) + runs_from(bytes@, offset as int) == runs_from(bytes@, 0),
        decreases bytes.len() - offset,
    {
        if bytes[offset] < 0x20 || bytes[offset] > 0x7e {
            offset = offset + 1;
        } else {
            let start: usize = offset;
            while offset < bytes.len() && 0x20 <= bytes[offset] && bytes[offset] <= 0x7e
                invariant
                    start <= offset <= bytes@.len(),
                    start < bytes@.len(),
                    printable(bytes@[start as int]),
                    run_end(bytes@, start as int) == run_end(bytes@, offset as int),
                decreases bytes.len() - offset,
            {
                offset = offset + 1;
            }
            proof {
                lemma_run_end(bytes@, start as int);
                assert(run_end(bytes@, offset as int) == offset);
                assert(run_end(bytes@, start as int) == run_end(bytes@, start + 1));
                lemma_run_end(bytes@, start + 1);
            }
            if offset - start >= SHORTEST_RUN {
                let ghost before = finding_views(findings@);
                let finding = BinaryFinding::PrintableAscii {
                    offset: start,
                    value: text_of_bytes(bytes, start, offset),
                };
                findings.push(finding);
                proof {
                    assert(finding_views(findings@) =~= before.push(finding@));
                    assert(before + (seq![finding@] + runs_from(bytes@, offset as int))
                        =~= before.push(finding@) + runs_from(bytes@, offset as int));
                }
            }
        }
    }
    proof {
        assert(finding_views(findings@) + runs_from(bytes@, offset as int) =~= finding_views(
            findings@,
        ));
    }
    findings
}

/// Safely recognizes Epson factory-request signatures in already captured local
/// bytes. It never decodes or executes arbitrary input.
pub fn analyze_binary_bytes(bytes: &[u8], include_ascii: bool) -> (findings: Vec<BinaryFinding>)
    ensures
        finding_views(findings@) == findings_in(bytes@, include_ascii),
{
    let mut findings = find_requests(bytes);
    if include_ascii {
        let ghost requests = findings@;
        let mut runs = find_runs(bytes);
        let ghost added = runs@;
        findings.append(&mut runs);
        proof {
            assert(finding_views(findings@) =~= finding_views(requests) + finding_views(added));
        }
    }
    findings
}

/// A name with the extension of packet captures.
pub open spec fn capture_extension(extension: Seq<char>) -> bool {
    crate::scan::lower_text(extension) == "pcapng"@
}

/// Whether printable runs are looked for: of packet captures only on request.
pub fn ascii_wanted(include_ascii: bool, extension: Option<&str>) -> (wanted: bool)
    ensures
        wanted == (include_ascii || !(extension matches Some(extension) && capture_extension(
            extension@,
        ))),
{
    if include_ascii {
        return true;
    }
    match extension {
        None => true,
        Some(extension) => {
            let lowered = crate::text::text_of(
                crate::scan::lower_characters(extension).as_slice(),
            );
            !crate::text::same_text(lowered.as_str(), "pcapng")
        },
    }
}

/// Refuses what cannot be analyzed: anything but a regular file, and a file
/// above the limit.
pub fn refuse_offline_input(input_file: &str, is_file: bool, length: u64) -> (refusal: Option<
    String,
>)
    ensures
        match refusal {
            Some(message) => {
                ||| !is_file && message@ == "offline binary analysis requires a regular file: "@
                    + input_file@
                ||| is_file && length > MAX_OFFLINE_BINARY_BYTES && message@
                    == "refusing to analyze "@ + input_file@ + ": "@ + dec_text(length as nat)
                    + " bytes exceeds the "@ + dec_text(MAX_OFFLINE_BINARY_BYTES as nat)
                    + "-byte offline limit"@
            },
            None => is_file && length <= MAX_OFFLINE_BINARY_BYTES,
        },
{
    if !is_file {
        return Some(
            String::from_str("offline binary analysis requires a regular file: ").concat(
                input_file,
            ),
        );
    }
    if length > MAX_OFFLINE_BINARY_BYTES {
        return Some(
            String::from_str("refusing to analyze ").concat(input_file).concat(": ").concat(
                dec(length).as_str(),
            ).concat(" bytes exceeds the ").concat(dec(MAX_OFFLINE_BINARY_BYTES).as_str()).concat(
                "-byte offline limit",
            ),
        );
    }
    None
}

/// The JSON object for a finding.
pub open spec fn finding_json(finding: FindingView) -> Json {
    match finding {
        FindingView::EepromRead { offset, read_key, address } => Json::Object(
            Map::empty().insert("kind"@, Json::Text("eeprom_read"@)).insert(
                "offset"@,
                Json::Number(offset),
            ).insert("read_key"@, Json::Text(hex_text(read_key as nat, 4, true))).insert(
                "address"@,
                Json::Text(hex_text(address as nat, 4, true)),
            ),
        ),
        FindingView::EepromWrite { offset, read_key, address, value, write_key } => Json::Object(
            Map::empty().insert("kind"@, Json::Text("eeprom_write"@)).insert(
                "offset"@,
                Json::Number(offset),
            ).insert("read_key"@, Json::Text(hex_text(read_key as nat, 4, true))).insert(
                "address"@,
                Json::Text(hex_text(address as nat, 4, true)),
            ).insert("value"@, Json::Text(hex_text(value as nat, 2, true))).insert(
                "write_key_hex"@,
                Json::Text(hex_run_text(write_key)),
            ),
        ),
        FindingView::InvalidFactoryRequest { offset, reason } => Json::Object(
            Map::empty().insert("kind"@, Json::Text("invalid_factory_request"@)).insert(
                "offset"@,
                Json::Number(offset),
            ).insert("reason"@, Json::Text(reason)),
        ),
        FindingView::PrintableAscii { offset, value } => Json::Object(
            Map::empty().insert("kind"@, Json::Text("printable_ascii"@)).insert(
                "offset"@,
                Json::Number(offset),
            ).insert("value"@, Json::Text(value)),
        ),
    }
}

/// The line for a finding.
pub open spec fn finding_line(finding: FindingView) -> Seq<char> {
    match finding {
        FindingView::EepromRead { offset, read_key, address } => "offset:"@ + hex_text(
            offset,
            8,
            true,
        ) + " rkey:"@ + hex_text(read_key as nat, 4, false) + " READ addr:"@ + hex_text(
            address as nat,
            4,
            false,
        ),
        FindingView::EepromWrite { offset, read_key, address, value, write_key } => "offset:"@
            + hex_text(offset, 8, true) + " rkey:"@ + hex_text(read_key as nat, 4, false)
            + " WRITE addr:"@ + hex_text(address as nat, 4, false) + " val:"@ + hex_text(
            value as nat,
            2,
            false,
        ) + " wkey:"@ + hex_run_text(write_key),
        FindingView::InvalidFactoryRequest { offset, reason } => "offset:"@ + hex_text(
            offset,
            8,
            true,
        ) + " INVALID "@ + reason,
        FindingView::PrintableAscii { offset, value } => "offset:"@ + hex_text(offset, 8, true)
            + " ASCII "@ + value,
    }
}

/// The report on findings, as JSON or in lines.
pub open spec fn findings_report(
    input_file: Seq<char>,
    findings: Seq<FindingView>,
    as_json: bool,
) -> Seq<char> {
    if as_json {
        json_text(
            Json::Object(
                Map::empty().insert("mode"@, Json::Text("offline"@)).insert(
                    "input_file"@,
                    Json::Text(input_file),
                ).insert(
                    "findings"@,
                    Json::List(Seq::new(findings.len(), |i: int| finding_json(findings[i]))),
                ),
            ),
        )
    } else {
        joined(Seq::new(findings.len(), |i: int| finding_line(findings[i])), "\n"@)
    }
}

fn finding_value(finding: &BinaryFinding) -> (value: Value)
    ensures
        json_content(value) == finding_json(finding@),
{
    match finding {
        BinaryFinding::EepromRead { offset, read_key, address } => {
            let object = json_with(json_object(), "kind", json_string("eeprom_read"));
            let object = json_with(object, "offset", json_number(*offset as u64));
            let object = json_with(
                object,
                "read_key",
                json_string(hex(*read_key as u64, 4, true).as_str()),
            );
            json_with(object, "address", json_string(hex(*address as u64, 4, true).as_str()))
        },
        BinaryFinding::EepromWrite { offset, read_key, address, value, write_key } => {
            let object = json_with(json_object(), "kind", json_string("eeprom_write"));
            let object = json_with(object, "offset", json_number(*offset as u64));
            let object = json_with(
                object,
                "read_key",
                json_string(hex(*read_key as u64, 4, true).as_str()),
            );
            let object = json_with(
                object,
                "address",
                json_string(hex(*address as u64, 4, true).as_str()),
            );
            let object = json_with(
                object,
                "value",
                json_string(hex(*value as u64, 2, true).as_str()),
            );
            json_with(
                object,
                "write_key_hex",
                json_string(hex_encode(write_key.as_slice()).as_str()),
            )
        },
        BinaryFinding::InvalidFactoryRequest { offset, reason } => {
            let object = json_with(json_object(), "kind", json_string("invalid_factory_request"));
            let object = json_with(object, "offset", json_number(*offset as u64));
            json_with(object, "reason", json_string(reason))
        },
        BinaryFinding::PrintableAscii { offset, value } => {
            let object = json_with(json_object(), "kind", json_string("printable_ascii"));
            let object = json_with(object, "offset", json_number(*offset as u64));
            json_with(object, "value", json_string(value.as_str()))
        },
    }
}

fn finding_text(finding: &BinaryFinding) -> (text: String)
    ensures
        text@ == finding_line(finding@),
{
    match finding {
        BinaryFinding::EepromRead { offset, read_key, address } => String::from_str(
            "offset:",
        ).concat(hex(*offset as u64, 8, true).as_str()).concat(" rkey:").concat(
            hex(*read_key as u64, 4, false).as_str(),
        ).concat(" READ addr:").concat(hex(*address as u64, 4, false).as_str()),
        BinaryFinding::EepromWrite { offset, read_key, address, value, write_key } =>
            String::from_str("offset:").concat(hex(*offset as u64, 8, true).as_str()).concat(
            " rkey:",
        ).concat(hex(*read_key as u64, 4, false).as_str()).concat(" WRITE addr:").concat(
            hex(*address as u64, 4, false).as_str(),
        ).concat(" val:").concat(hex(*value as u64, 2, false).as_str()).concat(" wkey:").concat(
            hex_encode(write_key.as_slice()).as_str(),
        ),
        BinaryFinding::InvalidFactoryRequest { offset, reason } => String::from_str(
            "offset:",
        ).concat(hex(*offset as u64, 8, true).as_str()).concat(" INVALID ").concat(reason),
        BinaryFinding::PrintableAscii { offset, value } => String::from_str("offset:").concat(
            hex(*offset as u64, 8, true).as_str(),
        ).concat(" ASCII ").concat(value.as_str()),
    }
}

/// Reports findings, as JSON or in lines.
pub fn render_binary_findings(input_file: &str, findings: &[BinaryFinding], as_json: bool) -> (text:
    String)
    ensures
        text@ == findings_report(input_file@, finding_views(findings@), as_json),
{
    let ghost views = finding_views(findings@);
    if as_json {
        let mut values: Vec<Value> = Vec::new();
        while values.len() < findings.len()
            invariant
                values@.len() <= findings@.len(),
                forall|i: int|
                    0 <= i < values@.len() ==> json_content(#[trigger] values@[i]) == finding_json(
                        findings@[i]@,
                    ),
            decreases findings.len() - values.len(),
        {
            let index: usize = values.len();
            values.push(finding_value(&findings[index]));
        }
        let ghost made = values@;
        let object = json_with(json_object(), "mode", json_string("offline"));
        let object = json_with(object, "input_file", json_string(input_file));
        let object = json_with(object, "findings", json_list(values));
        proof {
            assert(json_contents(made) =~= Seq::new(
                views.len(),
                |i: int| finding_json(views[i]),
            ));
        }
        return json_to_text(&object);
    }
    let mut lines: Vec<String> = Vec::new();
    let ghost expected = Seq::new(views.len(), |i: int| finding_line(views[i]));
    while lines.len() < findings.len()
        invariant
            lines@.len() <= findings@.len(),
            views == finding_views(findings@),
            expected == Seq::new(views.len(), |i: int| finding_line(views[i])),
            texts(lines@) == expected.take(lines@.len() as int),
        decreases findings.len() - lines.len(),
    {
        let index: usize = lines.len();
        push_field(&mut lines, finding_text(&findings[index]));
    }
    proof {
        assert(texts(lines@) =~= expected);
    }
    join(lines.as_slice(), "\n")
}

proof fn lemma_le_bytes(value: u16)
    ensures
        le_value(le_bytes(value)[0], le_bytes(value)[1]) == value,
{
}

/// A read request with a two-byte address that stands at the front of captured
/// bytes is found there, with its key and its address.
pub proof fn read_requests_are_found(settings: SpecView, address: u16, rest: Seq<u8>)
    requires
        settings.read_address_width == AddressWidth::Two,
    ensures
        read_request(settings, address) is Ok,
        requests_from(read_request(settings, address)->Ok_0 + rest, 0).len() > 0,
        requests_from(read_request(settings, address)->Ok_0 + rest, 0)[0]
            == (FindingView::EepromRead { offset: 0, read_key: settings.read_key, address }),
{
    let request = read_request(settings, address)->Ok_0;
    let bytes = request + rest;
    lemma_le_bytes(settings.read_key);
    lemma_le_bytes(address);
    lemma_le_bytes(7);
    assert(request.len() == 11);
    assert(request_at(bytes, 0, 0x41));
}

/// A write request with a two-byte address that stands at the front of captured
/// bytes is found there, with its keys, its address and its value.
pub proof fn write_requests_are_found(settings: SpecView, address: u16, value: u8, rest: Seq<u8>)
    requires
        settings.write_address_width == AddressWidth::Two,
        write_request(settings, address, value) is Ok,
    ensures
        requests_from(write_request(settings, address, value)->Ok_0 + rest, 0).len() > 0,
        requests_from(write_request(settings, address, value)->Ok_0 + rest, 0)[0]
            == (FindingView::EepromWrite {
            offset: 0,
            read_key: settings.read_key,
            address,
            value,
            write_key: settings.write_key->0,
        }),
{
    let key = settings.write_key->0;
    let request = write_request(settings, address, value)->Ok_0;
    let bytes = request + rest;
    let declared = (8 + key.len()) as u16;
    lemma_le_bytes(settings.read_key);
    lemma_le_bytes(address);
    lemma_le_bytes(declared);
    assert(request.len() == 12 + key.len());
    assert(request_at(bytes, 0, 0x42));
    assert(bytes.subrange(12, 12 + key.len() as int) =~= key);
}

/// Every printable run that is reported is long enough and printable throughout.
pub proof fn reported_runs_are_printable(bytes: Seq<u8>, offset: int, index: int)
    requires
        0 <= offset,
        0 <= index < runs_from(bytes, offset).len(),
    ensures
        runs_from(bytes, offset)[index] matches FindingView::PrintableAscii { offset: start, value }
            && value.len() >= SHORTEST_RUN && start + value.len() <= bytes.len() && (forall|i: int|
            start <= i < start + value.len() ==> printable(#[trigger] bytes[i])),
    decreases bytes.len() - offset,
{
    if !printable(bytes[offset]) {
        reported_runs_are_printable(bytes, offset + 1, index);
    } else {
        lemma_run_end(bytes, offset);
        let end = run_end(bytes, offset);
        if end - offset >= SHORTEST_RUN {
            if index > 0 {
                reported_runs_are_printable(bytes, end, index - 1);
            }
        } else {
            reported_runs_are_printable(bytes, end, index);
        }
    }
}

/// The findings hold a printable text at an offset, in one place alone.
pub open spec fn reported_once(
    findings: Seq<FindingView>,
    offset: nat,
    place: int,
) -> bool {
    &&& 0 <= place < findings.len()
    &&& findings[place] matches FindingView::PrintableAscii { offset: at, .. } && at == offset
    &&& forall|other: int|
        0 <= other < findings.len() && other != place ==> !(
        #[trigger] findings[other] matches FindingView::PrintableAscii { offset: at, .. } && at
            == offset)
}

/// The runs that are found from an offset on begin there or later, in ascending
/// order, and each of them is printable, long enough and cannot be longer.
proof fn lemma_runs_from(bytes: Seq<u8>, offset: int, index: int)
    requires
        0 <= offset,
        0 <= index < runs_from(bytes, offset).len(),
    ensures
        runs_from(bytes, offset)[index] matches FindingView::PrintableAscii { offset: start, value }
            && offset <= start && start + value.len() <= bytes.len() && value.len() >= 8 && (
        forall|i: int|
            0 <= i < value.len() ==> value[i] as int == bytes[start + i] as int && printable(
                #[trigger] bytes[start + i],
            )) && (start + value.len() < bytes.len() ==> !printable(
            bytes[start + value.len() as int],
        )) && (start > offset ==> !printable(bytes[start - 1])),
        forall|later: int|
            index < later < runs_from(bytes, offset).len() ==> (
            runs_from(bytes, offset)[index] matches FindingView::PrintableAscii {
                offset: start,
                ..
            } && #[trigger] runs_from(bytes, offset)[later] matches FindingView::PrintableAscii {
                offset: next,
                ..
            } && start < next),
    decreases bytes.len() - offset,
{
    if !printable(bytes[offset]) {
        lemma_runs_from(bytes, offset + 1, index);
        assert(runs_from(bytes, offset) == runs_from(bytes, offset + 1));
        let first = runs_from(bytes, offset)[index]->PrintableAscii_offset;
        assert(first == offset + 1 ==> bytes[first - 1] == bytes[offset]);
    } else {
        lemma_run_end(bytes, offset);
        let end = run_end(bytes, offset);
        let rest = runs_from(bytes, end);
        if end - offset >= SHORTEST_RUN {
            if index > 0 {
                lemma_runs_from(bytes, end, index - 1);
                let first = rest[index - 1]->PrintableAscii_offset;
                assert(printable(bytes[first + 0int]));
                assert(runs_from(bytes, offset)[index] == rest[index - 1]);
            } else {
                let value = ascii_text(bytes.subrange(offset, end));
                assert forall|i: int| 0 <= i < value.len() implies value[i] as int == bytes[offset
                    + i] as int && printable(#[trigger] bytes[offset + i]) by {
                    assert(bytes.subrange(offset, end)[i] == bytes[offset + i]);
                }
                assert forall|later: int| 0 < later < runs_from(bytes, offset).len() implies
                    #[trigger] runs_from(bytes, offset)[later] matches FindingView::PrintableAscii {
                    offset: next,
                    ..
                } && offset < next by {
                    lemma_runs_from(bytes, end, later - 1);
                    assert(runs_from(bytes, offset)[later] == rest[later - 1]);
                }
            }
            assert forall|later: int| 0 < index < later < runs_from(bytes, offset).len() implies
                #[trigger] runs_from(bytes, offset)[later] == rest[later - 1] by {}
        } else {
            lemma_runs_from(bytes, end, index);
            assert(runs_from(bytes, offset) == rest);
            let first = rest[index]->PrintableAscii_offset;
            assert(printable(bytes[first + 0int]));
        }
    }
}

/// A run that is as long as it can be and long enough is found from every offset
/// up to it that is no place within a run.
proof fn lemma_run_is_found(bytes: Seq<u8>, offset: int, start: int, end: int) -> (place: int)
    requires
        0 <= offset <= start,
        start + 8 <= end <= bytes.len(),
        forall|i: int| start <= i < end ==> printable(#[trigger] bytes[i]),
        start > 0 ==> !printable(bytes[start - 1]),
        end < bytes.len() ==> !printable(bytes[end]),
    ensures
        0 <= place < runs_from(bytes, offset).len(),
        runs_from(bytes, offset)[place] == (FindingView::PrintableAscii {
            offset: start as nat,
            value: ascii_text(bytes.subrange(start, end)),
        }),
    decreases bytes.len() - offset,
{
    if !printable(bytes[offset]) {
        lemma_run_is_found(bytes, offset + 1, start, end)
    } else {
        lemma_run_end(bytes, offset);
        let reached = run_end(bytes, offset);
        if offset == start {
            if reached < end {
                assert(printable(bytes[reached]));
            } else if reached > end {
                assert(printable(bytes[end]));
            }
            assert(runs_from(bytes, offset)[0] == (FindingView::PrintableAscii {
                offset: start as nat,
                value: ascii_text(bytes.subrange(start, end)),
            }));
            0
        } else {
            if reached > start - 1 {
                assert(printable(bytes[start - 1]));
            }
            let place = lemma_run_is_found(bytes, reached, start, end);
            if reached - offset >= SHORTEST_RUN {
                assert(runs_from(bytes, offset)[place + 1] == runs_from(bytes, reached)[place]);
                place + 1
            } else {
                place
            }
        }
    }
}

proof fn lemma_requests_are_no_text(bytes: Seq<u8>, offset: int, index: int)
    requires
        0 <= index < requests_from(bytes, offset).len(),
    ensures
        !(requests_from(bytes, offset)[index] is PrintableAscii),
    decreases bytes.len() - offset,
{
    if request_at(bytes, offset, 0x41) || request_at(bytes, offset, 0x42) {
        if index > 0 {
            lemma_requests_are_no_text(bytes, offset + 9, index - 1);
        }
    } else {
        lemma_requests_are_no_text(bytes, offset + 1, index);
    }
}

/// Every stretch of at least eight printable characters that neither begins nor
/// ends within a longer one is reported where printable text is wanted: in one
/// place alone, with its offset and its characters.
pub proof fn every_printable_run_is_reported(bytes: Seq<u8>, start: int, end: int)
    requires
        0 <= start,
        start + 8 <= end <= bytes.len(),
        forall|i: int| start <= i < end ==> 0x20 <= #[trigger] bytes[i] <= 0x7e,
        start == 0 || bytes[start - 1] < 0x20 || bytes[start - 1] > 0x7e,
        end == bytes.len() || bytes[end] < 0x20 || bytes[end] > 0x7e,
    ensures
        exists|place: int|
            #![trigger reported_once(findings_in(bytes, true), start as nat, place)]
            reported_once(findings_in(bytes, true), start as nat, place) && (findings_in(
                bytes,
                true,
            )[place] matches FindingView::PrintableAscii { value, .. } && value.len() == end - start
                && forall|i: int|
                0 <= i < value.len() ==> (#[trigger] value[i]) as int == bytes[start + i] as int),
{
    let requests = requests_from(bytes, 0);
    let runs = runs_from(bytes, 0);
    let found = findings_in(bytes, true);
    assert forall|i: int| start <= i < end implies printable(#[trigger] bytes[i]) by {}
    let at = lemma_run_is_found(bytes, 0, start, end);
    let place = requests.len() + at;
    assert(found[place] == runs[at]);
    let value = ascii_text(bytes.subrange(start, end));
    assert forall|i: int| 0 <= i < value.len() implies (#[trigger] value[i]) as int == bytes[start
        + i] as int by {
        assert(bytes.subrange(start, end)[i] == bytes[start + i]);
    }
    assert forall|other: int| 0 <= other < found.len() && other != place implies !(
    #[trigger] found[other] matches FindingView::PrintableAscii { offset, .. } && offset
        == start as nat) by {
        if other < requests.len() {
            lemma_requests_are_no_text(bytes, 0, other);
        } else {
            let index = other - requests.len();
            assert(found[other] == runs[index]);
            lemma_runs_from(bytes, 0, index);
            lemma_runs_from(bytes, 0, at);
        }
    }
    assert(reported_once(found, start as nat, place));
}

/// Every printable text that is reported stands in the bytes at its offset, has
/// at least eight characters, and neither begins nor ends within a longer one.
/// Without the wish for printable text there is none.
pub proof fn reported_texts_are_whole_runs(bytes: Seq<u8>, wanted: bool, place: int)
    requires
        0 <= place < findings_in(bytes, wanted).len(),
    ensures
        findings_in(bytes, wanted)[place] matches FindingView::PrintableAscii { offset, value } ==> {
            &&& wanted
            &&& value.len() >= 8
            &&& offset + value.len() <= bytes.len()
            &&& forall|i: int|
                0 <= i < value.len() ==> (#[trigger] value[i]) as int == bytes[offset + i] as int
                    && 0x20 <= value[i] as int <= 0x7e
            &&& offset == 0 || !(0x20 <= bytes[offset - 1] <= 0x7e)
            &&& offset + value.len() == bytes.len() || !(0x20 <= bytes[(offset
                + value.len()) as int] <= 0x7e)
        },
{
    let requests = requests_from(bytes, 0);
    if place < requests.len() {
        lemma_requests_are_no_text(bytes, 0, place);
    } else {
        lemma_runs_from(bytes, 0, place - requests.len());
        let text = runs_from(bytes, 0)[place - requests.len()];
        if let FindingView::PrintableAscii { offset, value } = text {
            assert forall|i: int| 0 <= i < value.len() implies (#[trigger] value[i]) as int
                == bytes[offset + i] as int && 0x20 <= value[i] as int <= 0x7e by {
                assert(printable(bytes[offset + i]));
            }
        }
    }
}

/// A factory request stands at an offset: two bars, an operation `A` or `B` with
/// its complement and its check six bytes further.
pub open spec fn framed_at(bytes: Seq<u8>, offset: int) -> bool {
    &&& offset + 9 <= bytes.len()
    &&& bytes[offset] == 0x7c && bytes[offset + 1] == 0x7c
    &&& (bytes[offset + 6] == 0x41 && bytes[offset + 7] == 0xbe && bytes[offset + 8] == 0xa0) || (
    bytes[offset + 6] == 0x42 && bytes[offset + 7] == 0xbd && bytes[offset + 8] == 0x21)
}

/// The offset at which something was found.
pub open spec fn found_offset(finding: FindingView) -> nat {
    match finding {
        FindingView::EepromRead { offset, .. } => offset,
        FindingView::EepromWrite { offset, .. } => offset,
        FindingView::InvalidFactoryRequest { offset, .. } => offset,
        FindingView::PrintableAscii { offset, .. } => offset,
    }
}

/// What a finding says of the request at its offset, byte by byte.
pub open spec fn finding_tells(bytes: Seq<u8>, finding: FindingView) -> bool {
    let at = found_offset(finding) as int;
    let declared = bytes[at + 2] + 256 * bytes[at + 3];
    match finding {
        FindingView::EepromRead { read_key, address, .. } => {
            &&& bytes[at + 6] == 0x41
            &&& declared >= 7
            &&& at + 4 + declared <= bytes.len()
            &&& read_key == bytes[at + 4] + 256 * bytes[at + 5]
            &&& address == bytes[at + 9] + 256 * bytes[at + 10]
        },
        FindingView::EepromWrite { read_key, address, value, write_key, .. } => {
            &&& bytes[at + 6] == 0x42
            &&& declared >= 8
            &&& at + 4 + declared <= bytes.len()
            &&& read_key == bytes[at + 4] + 256 * bytes[at + 5]
            &&& address == bytes[at + 9] + 256 * bytes[at + 10]
            &&& value == bytes[at + 11]
            &&& write_key.len() == declared - 8
            &&& forall|i: int|
                0 <= i < write_key.len() ==> #[trigger] write_key[i] == bytes[at + 12 + i]
        },
        FindingView::InvalidFactoryRequest { .. } => {
            ||| declared < 5
            ||| at + 4 + declared > bytes.len()
            ||| bytes[at + 6] == 0x41 && declared < 7
            ||| bytes[at + 6] == 0x42 && declared < 8
        },
        FindingView::PrintableAscii { .. } => false,
    }
}

proof fn lemma_request_told(bytes: Seq<u8>, offset: int)
    requires
        0 <= offset,
        request_at(bytes, offset, 0x41) || request_at(bytes, offset, 0x42),
        bytes.len() <= usize::MAX,
    ensures
        found_offset(request_finding(bytes, offset)) == offset,
        finding_tells(bytes, request_finding(bytes, offset)),
        framed_at(bytes, offset),
{
    assert(rotated(0x41) == 0xa0);
    assert(rotated(0x42) == 0x21);
}

/// Every request that is found stands at its offset, and what is told of it is
/// what its bytes say: the key, the address, the value and the write key.
pub proof fn found_requests_say_what_their_bytes_say(bytes: Seq<u8>, offset: int, index: int)
    requires
        0 <= offset,
        0 <= index < requests_from(bytes, offset).len(),
        bytes.len() <= usize::MAX,
    ensures
        offset <= found_offset(requests_from(bytes, offset)[index]),
        framed_at(bytes, found_offset(requests_from(bytes, offset)[index]) as int),
        finding_tells(bytes, requests_from(bytes, offset)[index]),
    decreases bytes.len() - offset,
{
    if request_at(bytes, offset, 0x41) || request_at(bytes, offset, 0x42) {
        if index == 0 {
            lemma_request_told(bytes, offset);
        } else {
            found_requests_say_what_their_bytes_say(bytes, offset + 9, index - 1);
        }
    } else {
        found_requests_say_what_their_bytes_say(bytes, offset + 1, index);
    }
}

/// Every request is found, wherever it stands, unless one that was found before
/// it stands less than nine bytes earlier.
pub proof fn every_request_is_found(bytes: Seq<u8>, offset: int, at: int) -> (place: int)
    requires
        0 <= offset <= at,
        framed_at(bytes, at),
        forall|earlier: int|
            at - 9 < earlier < at && offset <= earlier ==> !#[trigger] framed_at(bytes, earlier),
    ensures
        0 <= place < requests_from(bytes, offset).len(),
        found_offset(requests_from(bytes, offset)[place]) == at,
    decreases bytes.len() - offset,
{
    assert(rotated(0x41) == 0xa0);
    assert(rotated(0x42) == 0x21);
    if offset == at {
        assert(requests_from(bytes, offset)[0] == request_finding(bytes, offset));
        0
    } else if request_at(bytes, offset, 0x41) || request_at(bytes, offset, 0x42) {
        assert(framed_at(bytes, offset));
        let place = every_request_is_found(bytes, offset + 9, at);
        assert(requests_from(bytes, offset)[place + 1] == requests_from(bytes, offset + 9)[place]);
        place + 1
    } else {
        every_request_is_found(bytes, offset + 1, at)
    }
}

proof fn lemma_members_differ()
    ensures
        "address"@ != "kind"@,
        "address"@ != "offset"@,
        "address"@ != "read_key"@,
        "address"@ != "reason"@,
        "address"@ != "value"@,
        "address"@ != "write_key_hex"@,
        "kind"@ != "offset"@,
        "kind"@ != "read_key"@,
        "kind"@ != "reason"@,
        "kind"@ != "value"@,
        "kind"@ != "write_key_hex"@,
        "offset"@ != "read_key"@,
        "offset"@ != "reason"@,
        "offset"@ != "value"@,
        "offset"@ != "write_key_hex"@,
        "read_key"@ != "reason"@,
        "read_key"@ != "value"@,
        "read_key"@ != "write_key_hex"@,
        "reason"@ != "value"@,
        "reason"@ != "write_key_hex"@,
        "value"@ != "write_key_hex"@,
        "findings"@ != "input_file"@,
        "findings"@ != "mode"@,
        "input_file"@ != "mode"@,
{
    reveal_strlit("address");
    reveal_strlit("kind");
    reveal_strlit("offset");
    reveal_strlit("read_key");
    reveal_strlit("reason");
    reveal_strlit("value");
    reveal_strlit("write_key_hex");
    assert("address"@.len() != "kind"@.len());
    assert("address"@.len() != "offset"@.len());
    assert("address"@.len() != "read_key"@.len());
    assert("address"@.len() != "reason"@.len());
    assert("address"@.len() != "value"@.len());
    assert("address"@.len() != "write_key_hex"@.len());
    assert("kind"@.len() != "offset"@.len());
    assert("kind"@.len() != "read_key"@.len());
    assert("kind"@.len() != "reason"@.len());
    assert("kind"@.len() != "value"@.len());
    assert("kind"@.len() != "write_key_hex"@.len());
    assert("offset"@.len() != "read_key"@.len());
    assert("offset"@[0] != "reason"@[0]);
    assert("offset"@.len() != "value"@.len());
    assert("offset"@.len() != "write_key_hex"@.len());
    assert("read_key"@.len() != "reason"@.len());
    assert("read_key"@.len() != "value"@.len());
    assert("read_key"@.len() != "write_key_hex"@.len());
    assert("reason"@.len() != "value"@.len());
    assert("reason"@.len() != "write_key_hex"@.len());
    assert("value"@.len() != "write_key_hex"@.len());
    reveal_strlit("findings");
    reveal_strlit("input_file");
    reveal_strlit("mode");
    assert("findings"@.len() != "input_file"@.len());
    assert("findings"@.len() != "mode"@.len());
    assert("input_file"@.len() != "mode"@.len());
}

/// What is told of a finding: where it stands and what was found there, each number by
/// itself.
pub proof fn findings_are_described(finding: BinaryFinding)
    ensures
        match finding {
            BinaryFinding::EepromRead { offset, read_key, address } => {
                &&& finding_line(finding@) == "offset:"@ + hex_text(offset as nat, 8, true)
                    + " rkey:"@ + hex_text(read_key as nat, 4, false) + " READ addr:"@ + hex_text(
                    address as nat,
                    4,
                    false,
                )
                &&& finding_json(finding@) matches Json::Object(members) && members["offset"@]
                    == Json::Number(offset as nat) && members["read_key"@] == Json::Text(
                    hex_text(read_key as nat, 4, true),
                ) && members["address"@] == Json::Text(hex_text(address as nat, 4, true))
            },
            BinaryFinding::EepromWrite { offset, read_key, address, value, write_key } => {
                &&& finding_line(finding@) == "offset:"@ + hex_text(offset as nat, 8, true)
                    + " rkey:"@ + hex_text(read_key as nat, 4, false) + " WRITE addr:"@ + hex_text(
                    address as nat,
                    4,
                    false,
                ) + " val:"@ + hex_text(value as nat, 2, false) + " wkey:"@ + hex_run_text(
                    write_key@,
                )
                &&& finding_json(finding@) matches Json::Object(members) && members["offset"@]
                    == Json::Number(offset as nat) && members["read_key"@] == Json::Text(
                    hex_text(read_key as nat, 4, true),
                ) && members["address"@] == Json::Text(hex_text(address as nat, 4, true))
                    && members["value"@] == Json::Text(hex_text(value as nat, 2, true))
                    && members["write_key_hex"@] == Json::Text(hex_run_text(write_key@))
            },
            BinaryFinding::InvalidFactoryRequest { offset, reason } => {
                &&& finding_line(finding@) == "offset:"@ + hex_text(offset as nat, 8, true)
                    + " INVALID "@ + reason@
                &&& finding_json(finding@) matches Json::Object(members) && members["offset"@]
                    == Json::Number(offset as nat) && members["reason"@] == Json::Text(reason@)
            },
            BinaryFinding::PrintableAscii { offset, value } => {
                &&& finding_line(finding@) == "offset:"@ + hex_text(offset as nat, 8, true)
                    + " ASCII "@ + value@
                &&& finding_json(finding@) matches Json::Object(members) && members["offset"@]
                    == Json::Number(offset as nat) && members["value"@] == Json::Text(value@)
            },
        },
{
    lemma_members_differ();
}

/// Findings are reported in their order, one line for each, or one object.
pub proof fn findings_are_reported_in_order(
    input_file: Seq<char>,
    findings: Seq<FindingView>,
    finding: FindingView,
)
    ensures
        findings_report(input_file, seq![finding], false) == finding_line(finding),
        findings.len() > 0 ==> findings_report(input_file, findings.push(finding), false)
            == findings_report(input_file, findings, false) + "\n"@ + finding_line(finding),
        exists|members: Map<Seq<char>, Json>| #[trigger]
            tells(findings_report(input_file, findings, true), members) && members["input_file"@] == Json::Text(input_file) && (
            members["findings"@] matches Json::List(items) && items.len() == findings.len()
                && forall|i: int|
                0 <= i < items.len() ==> #[trigger] items[i] == finding_json(findings[i])),
{
    lemma_members_differ();
    assert(Seq::new(seq![finding].len(), |i: int| finding_line(seq![finding][i])) =~= seq![
        finding_line(finding),
    ]);
    let longer = findings.push(finding);
    let lines = Seq::new(longer.len(), |i: int| finding_line(longer[i]));
    assert(lines.drop_last() =~= Seq::new(findings.len(), |i: int| finding_line(findings[i])));
    let members = Map::<Seq<char>, Json>::empty().insert(
        "mode"@,
        Json::Text("offline"@),
    ).insert("input_file"@, Json::Text(input_file)).insert(
        "findings"@,
        Json::List(Seq::new(findings.len(), |i: int| finding_json(findings[i]))),
    );
    assert(tells(findings_report(input_file, findings, true), members));
}

/// What is known of findings stands in the order of the findings: the requests before the
/// printable texts, and each of both in ascending order of the offsets.
pub proof fn findings_stand_in_order(
    findings: Seq<BinaryFinding>,
    bytes: Seq<u8>,
    wanted: bool,
    earlier: int,
    later: int,
)
    requires
        finding_views(findings) == findings_in(bytes, wanted),
        0 <= earlier < later < findings.len(),
        bytes.len() <= usize::MAX,
    ensures
        findings[earlier] is PrintableAscii ==> findings[later] is PrintableAscii,
        findings[later] !is PrintableAscii || findings[earlier] is PrintableAscii ==> found_offset(
            findings[earlier]@,
        ) < found_offset(findings[later]@),
{
    let requests = requests_from(bytes, 0);
    let runs = runs_from(bytes, 0);
    assert(finding_views(findings).len() == findings.len());
    assert(finding_views(findings)[earlier] == findings[earlier]@);
    assert(finding_views(findings)[later] == findings[later]@);
    assert(findings_in(bytes, wanted)[earlier] == findings[earlier]@);
    assert(findings_in(bytes, wanted)[later] == findings[later]@);
    if earlier < requests.len() {
        lemma_requests_are_no_text(bytes, 0, earlier);
    } else {
        lemma_runs_from(bytes, 0, earlier - requests.len());
    }
    if later < requests.len() {
        lemma_requests_are_no_text(bytes, 0, later);
        lemma_requests_ascend(bytes, 0, earlier, later);
    } else {
        lemma_runs_from(bytes, 0, later - requests.len());
        if earlier >= requests.len() {
            assert(runs[later - requests.len()] matches FindingView::PrintableAscii { .. });
        }
    }
}

proof fn lemma_requests_ascend(bytes: Seq<u8>, offset: int, earlier: int, later: int)
    requires
        0 <= offset,
        0 <= earlier < later < requests_from(bytes, offset).len(),
        bytes.len() <= usize::MAX,
    ensures
        found_offset(requests_from(bytes, offset)[earlier]) < found_offset(
            requests_from(bytes, offset)[later],
        ),
    decreases bytes.len() - offset,
{
    if request_at(bytes, offset, 0x41) || request_at(bytes, offset, 0x42) {
        if earlier == 0 {
            lemma_request_told(bytes, offset);
            found_requests_say_what_their_bytes_say(bytes, offset + 9, later - 1);
        } else {
            lemma_requests_ascend(bytes, offset + 9, earlier - 1, later - 1);
        }
    } else {
        lemma_requests_ascend(bytes, offset + 1, earlier, later);
    }
}

} // verus!
