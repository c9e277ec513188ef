//! One-line summaries of recorded transfers.
use crate::command::{
    is_digit_of, le_bytes, lemma_first_at_unique, lemma_marker_first, record_marker, reply_of,
    rotated, write_request, CommandErrorView,
};
use crate::epson::{AddressWidth, SpecView};
use crate::fields::{
    append_fields, bin, bin_text, format_hex_bytes, hex_bytes_text, join, joined, push_byte,
    push_dec, push_field, push_pair, push_word, truth, truth_text,
};
use crate::packet::{
    header_of, packet_bytes, PacketError, PacketHeader, PacketView, HEADER_LENGTH,
};
use crate::reassembly::{
    direction_label, DebugTrafficDirection, ReassembledTransfer, ReassembledTransferKind,
    ReassembledView,
};
use crate::scan::{
    begins_with, escaped_char, find_bytes, first_at, hex_pair, hex_pair_of, occurs, occurs_at,
    push_escaped, starts_with_bytes,
};
use crate::text::{dec, dec_text, hex_text};
use crate::text_map::texts;
use crate::transaction::{
    all_ascii, message_of, MessageView, ProtocolRevision, TransactionMessage,
};
use vstd::prelude::*;
use vstd::utf8::valid_utf8;

verus! {

/// The name of a revision.
pub open spec fn revision_name(revision: ProtocolRevision) -> Seq<char> {
    match revision {
        ProtocolRevision::V10 => "V10"@,
        ProtocolRevision::V20 => "V20"@,
    }
}

/// The name of a revision.
pub fn revision_label(revision: ProtocolRevision) -> (label: &'static str)
    ensures
        label@ == revision_name(revision),
{
    match revision {
        ProtocolRevision::V10 => "V10",
        ProtocolRevision::V20 => "V20",
    }
}

/// The other revision.
pub open spec fn other_revision(revision: ProtocolRevision) -> ProtocolRevision {
    match revision {
        ProtocolRevision::V10 => ProtocolRevision::V20,
        ProtocolRevision::V20 => ProtocolRevision::V10,
    }
}

/// The other revision.
pub fn alternate_revision(revision: ProtocolRevision) -> (other: ProtocolRevision)
    ensures
        other == other_revision(revision),
{
    match revision {
        ProtocolRevision::V10 => ProtocolRevision::V20,
        ProtocolRevision::V20 => ProtocolRevision::V10,
    }
}

/// The fields for the sockets that a message speaks of.
pub open spec fn socket_fields(peer_socket: u8, source_socket: u8) -> Seq<Seq<char>> {
    seq![
        "transaction_peer_socket="@ + dec_text(peer_socket as nat),
        "transaction_source_socket="@ + dec_text(source_socket as nat),
    ]
}

/// The field for the result of a reply.
pub open spec fn result_field(result: u8) -> Seq<char> {
    "result=0x"@ + hex_text(result as nat, 2, true)
}

/// The fields of a transaction message.
pub open spec fn message_fields(message: MessageView) -> Seq<Seq<char>> {
    match message {
        MessageView::Init { revision } => seq![
            "transaction=init"@,
            "requested_revision="@ + revision_name(revision),
        ],
        MessageView::InitReply { result, revision } => seq![
            "transaction=init_reply"@,
            result_field(result),
            "negotiated_revision="@ + revision_name(revision),
        ],
        MessageView::OpenChannel {
            peer_socket,
            source_socket,
            max_packet_size,
            max_service_size,
            max_credit,
            initial_credit,
        } => {
            let fields = seq!["transaction=open_channel"@] + socket_fields(
                peer_socket,
                source_socket,
            ) + seq![
                "max_packet_size="@ + dec_text(max_packet_size as nat),
                "max_service_size="@ + dec_text(max_service_size as nat),
                "max_credit="@ + dec_text(max_credit as nat),
            ];
            match initial_credit {
                Some(credit) => fields.push("initial_credit="@ + dec_text(credit as nat)),
                None => fields,
            }
        },
        MessageView::OpenChannelReply {
            result,
            peer_socket,
            source_socket,
            max_packet_size,
            max_service_size,
            max_credit,
            granted_credit,
        } => seq!["transaction=open_channel_reply"@, result_field(result)] + socket_fields(
            peer_socket,
            source_socket,
        ) + seq![
            "max_packet_size="@ + dec_text(max_packet_size as nat),
            "max_service_size="@ + dec_text(max_service_size as nat),
            "max_credit="@ + dec_text(max_credit as nat),
            "granted_credit="@ + dec_text(granted_credit as nat),
        ],
        MessageView::CloseChannel { peer_socket, source_socket } => seq![
            "transaction=close_channel"@,
        ] + socket_fields(peer_socket, source_socket),
        MessageView::CloseChannelReply { result, peer_socket, source_socket } => seq![
            "transaction=close_channel_reply"@,
            result_field(result),
        ] + socket_fields(peer_socket, source_socket),
        MessageView::Credit { peer_socket, source_socket, added_credit } => seq![
            "transaction=credit"@,
        ] + socket_fields(peer_socket, source_socket) + seq![
            "added_credit="@ + dec_text(added_credit as nat),
        ],
        MessageView::CreditReply { result, peer_socket, source_socket } => seq![
            "transaction=credit_reply"@,
            result_field(result),
        ] + socket_fields(peer_socket, source_socket),
        MessageView::CreditRequest { peer_socket, source_socket, max_credit } => seq![
            "transaction=credit_request"@,
        ] + socket_fields(peer_socket, source_socket) + seq![
            "max_credit="@ + dec_text(max_credit as nat),
        ],
        MessageView::CreditRequestReply { result, peer_socket, source_socket, added_credit } =>
            seq!["transaction=credit_request_reply"@, result_field(result)] + socket_fields(
            peer_socket,
            source_socket,
        ) + seq!["added_credit="@ + dec_text(added_credit as nat)],
        MessageView::Exit => seq!["transaction=exit"@],
        MessageView::ExitReply { result } => seq![
            "transaction=exit_reply"@,
            result_field(result),
        ],
        MessageView::GetSocketId { service_name } => seq![
            "transaction=get_socket_id"@,
            "service_name="@ + service_name,
        ],
        MessageView::GetSocketIdReply { result, socket_id, service_name } => seq![
            "transaction=get_socket_id_reply"@,
            result_field(result),
            "socket_id="@ + dec_text(socket_id as nat),
        ] + service_fields(service_name),
        MessageView::GetServiceName { socket_id } => seq![
            "transaction=get_service_name"@,
            "socket_id="@ + dec_text(socket_id as nat),
        ],
        MessageView::GetServiceNameReply { result, socket_id, service_name } => seq![
            "transaction=get_service_name_reply"@,
            result_field(result),
            "socket_id="@ + dec_text(socket_id as nat),
        ] + service_fields(service_name),
        MessageView::Error { peer_socket, source_socket, error_code } => seq![
            "transaction=error"@,
        ] + socket_fields(peer_socket, source_socket) + seq![
            "error_code=0x"@ + hex_text(error_code as nat, 2, true),
        ],
    }
}

/// The field for a service name, where there is one.
pub open spec fn service_fields(service_name: Seq<char>) -> Seq<Seq<char>> {
    if service_name.len() > 0 {
        seq!["service_name="@ + service_name]
    } else {
        seq![]
    }
}

/// The message in a payload and the revision under which it was understood: the
/// given one if possible, and the other one if not.
pub open spec fn understood(payload: Seq<u8>, revision: ProtocolRevision) -> Option<
    (MessageView, ProtocolRevision),
> {
    match message_of(payload, revision) {
        Ok(message) => Some((message, revision)),
        Err(_) => match message_of(payload, other_revision(revision)) {
            Ok(message) => Some((message, other_revision(revision))),
            Err(_) => None,
        },
    }
}

/// The revision that holds after a message: the one that it announces, or the
/// one before.
pub open spec fn revision_after(message: MessageView, revision: ProtocolRevision) -> ProtocolRevision {
    match message {
        MessageView::Init { revision } => revision,
        MessageView::InitReply { revision, .. } => revision,
        _ => revision,
    }
}

/// The fields of a transaction-channel payload, and the revision after it.
pub open spec fn transaction_summary(payload: Seq<u8>, revision: ProtocolRevision) -> (
    Seq<Seq<char>>,
    ProtocolRevision,
) {
    match understood(payload, revision) {
        None => (
            seq!["transaction=unknown revision_tried="@ + revision_name(revision)],
            revision,
        ),
        Some((message, used)) => (
            seq!["revision="@ + revision_name(used)] + message_fields(message),
            revision_after(message, revision),
        ),
    }
}

fn push_sockets(fields: &mut Vec<String>, peer_socket: u8, source_socket: u8)
    ensures
        texts(final(fields)@) == texts(old(fields)@) + socket_fields(peer_socket, source_socket),
{
    push_dec(fields, "transaction_peer_socket=", peer_socket as u64);
    push_dec(fields, "transaction_source_socket=", source_socket as u64);
    proof {
        assert(texts(fields@) =~= texts(old(fields)@) + socket_fields(peer_socket, source_socket));
    }
}

fn push_service(fields: &mut Vec<String>, service_name: &String)
    ensures
        texts(final(fields)@) == texts(old(fields)@) + service_fields(service_name@),
{
    if service_name.as_str().unicode_len() > 0 {
        push_pair(fields, "service_name=", service_name.as_str());
    }
    proof {
        assert(texts(fields@) =~= texts(old(fields)@) + service_fields(service_name@));
    }
}

/// Lists the fields of a transaction message.
pub fn message_field_list(message: &TransactionMessage) -> (fields: Vec<String>)
    ensures
        texts(fields@) == message_fields(message@),
{
    let mut fields: Vec<String> = Vec::new();
    proof {
        assert(texts(fields@) =~= seq![]);
    }
    match message {
        TransactionMessage::Init { revision } => {
            push_field(&mut fields, String::from_str("transaction=init"));
            push_pair(&mut fields, "requested_revision=", revision_label(*revision));
        },
        TransactionMessage::InitReply { result, revision } => {
            push_field(&mut fields, String::from_str("transaction=init_reply"));
            push_byte(&mut fields, "result=0x", *result);
            push_pair(&mut fields, "negotiated_revision=", revision_label(*revision));
        },
        TransactionMessage::OpenChannel {
            peer_socket,
            source_socket,
            max_packet_size,
            max_service_size,
            max_credit,
            initial_credit,
        } => {
            push_field(&mut fields, String::from_str("transaction=open_channel"));
            push_sockets(&mut fields, *peer_socket, *source_socket);
            push_dec(&mut fields, "max_packet_size=", *max_packet_size as u64);
            push_dec(&mut fields, "max_service_size=", *max_service_size as u64);
            push_dec(&mut fields, "max_credit=", *max_credit as u64);
            if let Some(credit) = initial_credit {
                push_dec(&mut fields, "initial_credit=", *credit as u64);
            }
        },
        TransactionMessage::OpenChannelReply {
            result,
            peer_socket,
            source_socket,
            max_packet_size,
            max_service_size,
            max_credit,
            granted_credit,
        } => {
            push_field(&mut fields, String::from_str("transaction=open_channel_reply"));
            push_byte(&mut fields, "result=0x", *result);
            push_sockets(&mut fields, *peer_socket, *source_socket);
            push_dec(&mut fields, "max_packet_size=", *max_packet_size as u64);
            push_dec(&mut fields, "max_service_size=", *max_service_size as u64);
            push_dec(&mut fields, "max_credit=", *max_credit as u64);
            push_dec(&mut fields, "granted_credit=", *granted_credit as u64);
        },
        TransactionMessage::CloseChannel { peer_socket, source_socket } => {
            push_field(&mut fields, String::from_str("transaction=close_channel"));
            push_sockets(&mut fields, *peer_socket, *source_socket);
        },
        TransactionMessage::CloseChannelReply { result, peer_socket, source_socket } => {
            push_field(&mut fields, String::from_str("transaction=close_channel_reply"));
            push_byte(&mut fields, "result=0x", *result);
            push_sockets(&mut fields, *peer_socket, *source_socket);
        },
        TransactionMessage::Credit { peer_socket, source_socket, added_credit } => {
            push_field(&mut fields, String::from_str("transaction=credit"));
            push_sockets(&mut fields, *peer_socket, *source_socket);
            push_dec(&mut fields, "added_credit=", *added_credit as u64);
        },
        TransactionMessage::CreditReply { result, peer_socket, source_socket } => {
            push_field(&mut fields, String::from_str("transaction=credit_reply"));
            push_byte(&mut fields, "result=0x", *result);
            push_sockets(&mut fields, *peer_socket, *source_socket);
        },
        TransactionMessage::CreditRequest { peer_socket, source_socket, max_credit } => {
            push_field(&mut fields, String::from_str("transaction=credit_request"));
            push_sockets(&mut fields, *peer_socket, *source_socket);
            push_dec(&mut fields, "max_credit=", *max_credit as u64);
        },
        TransactionMessage::CreditRequestReply {
            result,
            peer_socket,
            source_socket,
            added_credit,
        } => {
            push_field(&mut fields, String::from_str("transaction=credit_request_reply"));
            push_byte(&mut fields, "result=0x", *result);
            push_sockets(&mut fields, *peer_socket, *source_socket);
            push_dec(&mut fields, "added_credit=", *added_credit as u64);
        },
        TransactionMessage::Exit => {
            push_field(&mut fields, String::from_str("transaction=exit"));
        },
        TransactionMessage::ExitReply { result } => {
            push_field(&mut fields, String::from_str("transaction=exit_reply"));
            push_byte(&mut fields, "result=0x", *result);
        },
        TransactionMessage::GetSocketId { service_name } => {
            push_field(&mut fields, String::from_str("transaction=get_socket_id"));
            push_pair(&mut fields, "service_name=", service_name.as_str());
        },
        TransactionMessage::GetSocketIdReply { result, socket_id, service_name } => {
            push_field(&mut fields, String::from_str("transaction=get_socket_id_reply"));
            push_byte(&mut fields, "result=0x", *result);
            push_dec(&mut fields, "socket_id=", *socket_id as u64);
            push_service(&mut fields, service_name);
        },
        TransactionMessage::GetServiceName { socket_id } => {
            push_field(&mut fields, String::from_str("transaction=get_service_name"));
            push_dec(&mut fields, "socket_id=", *socket_id as u64);
        },
        TransactionMessage::GetServiceNameReply { result, socket_id, service_name } => {
            push_field(&mut fields, String::from_str("transaction=get_service_name_reply"));
            push_byte(&mut fields, "result=0x", *result);
            push_dec(&mut fields, "socket_id=", *socket_id as u64);
            push_service(&mut fields, service_name);
        },
        TransactionMessage::Error { peer_socket, source_socket, error_code } => {
            push_field(&mut fields, String::from_str("transaction=error"));
            push_sockets(&mut fields, *peer_socket, *source_socket);
            push_byte(&mut fields, "error_code=0x", *error_code);
        },
    }
    proof {
        assert(texts(fields@) =~= message_fields(message@));
    }
    fields
}

/// Lists the fields of a transaction-channel payload, and keeps track of the
/// revision that the messages announce.
pub fn transaction_fields(payload: &[u8], revision: ProtocolRevision) -> (summary: (
    Vec<String>,
    ProtocolRevision,
))
    ensures
        texts(summary.0@) == transaction_summary(payload@, revision).0,
        summary.1 == transaction_summary(payload@, revision).1,
{
    let mut fields: Vec<String> = Vec::new();
    proof {
        assert(texts(fields@) =~= seq![]);
    }
    let mut used = revision;
    let mut parsed = TransactionMessage::decode(payload, revision);
    if parsed.is_err() {
        used = alternate_revision(revision);
        parsed = TransactionMessage::decode(payload, used);
    }
    match parsed {
        Err(_) => {
            push_pair(
                &mut fields,
                "transaction=unknown revision_tried=",
                revision_label(revision),
            );
            (fields, revision)
        },
        Ok(message) => {
            push_pair(&mut fields, "revision=", revision_label(used));
            append_fields(&mut fields, message_field_list(&message));
            let after = match message {
                TransactionMessage::Init { revision } => revision,
                TransactionMessage::InitReply { result: _, revision } => revision,
                _ => revision,
            };
            (fields, after)
        },
    }
}

/// How a byte of a response is shown.
pub open spec fn shown_byte(byte: u8) -> Seq<char> {
    if 0x20 <= byte <= 0x7e {
        seq![byte as char]
    } else if byte == 0x0d {
        seq!['\\', 'r']
    } else if byte == 0x0a {
        seq!['\\', 'n']
    } else if byte == 0x09 {
        seq!['\\', 't']
    } else {
        seq!['.']
    }
}

/// How bytes of a response are shown.
pub open spec fn shown_bytes(bytes: Seq<u8>) -> Seq<char>
    decreases bytes.len(),
{
    if bytes.len() == 0 {
        seq![]
    } else {
        shown_bytes(bytes.drop_last()) + shown_byte(bytes.last())
    }
}

/// The most bytes of a response that are shown.
pub const SHOWN_BYTES: usize = 80;

/// The first bytes of a response, with a mark where there are more.
pub open spec fn response_text(bytes: Seq<u8>) -> Seq<char> {
    if bytes.len() > SHOWN_BYTES {
        shown_bytes(bytes.take(SHOWN_BYTES as int)).push('…')
    } else {
        shown_bytes(bytes)
    }
}

/// Shows the first bytes of a response.
pub fn ascii_summary(bytes: &[u8]) -> (value: String)
    ensures
        value@ == response_text(bytes@),
{
    let mut value = String::new();
    let mut index: usize = 0;
    proof {
        assert(bytes@.take(0) =~= seq![]);
    }
    while index < bytes.len() && index < SHOWN_BYTES
        invariant
            index <= bytes@.len(),
            index <= SHOWN_BYTES,
            value@ == shown_bytes(bytes@.take(index as int)),
        decreases bytes.len() - index,
    {
        let byte: u8 = bytes[index];
        let ghost before = value@;
        if 0x20 <= byte && byte <= 0x7e {
            value.push(byte as char);
        } else if byte == 0x0d {
            value.push('\\');
            value.push('r');
        } else if byte == 0x0a {
            value.push('\\');
            value.push('n');
        } else if byte == 0x09 {
            value.push('\\');
            value.push('t');
        } else {
            value.push('.');
        }
        proof {
            assert(bytes@.take(index + 1).drop_last() =~= bytes@.take(index as int));
            assert(value@ =~= before + shown_byte(byte));
        }
        index = index + 1;
    }
    if bytes.len() > SHOWN_BYTES {
        value.push('…');
    } else {
        proof {
            assert(bytes@.take(index as int) =~= bytes@);
        }
    }
    value
}

/// The address and the value of an EEPROM record behind a marker, if it is complete.
pub open spec fn record_at(payload: Seq<u8>, marker: int) -> Option<(u16, u8)> {
    if payload.len() <= marker + 9 || payload[marker + 9] != 0x3b {
        None
    } else {
        match (
            hex_pair(payload, marker + 3),
            hex_pair(payload, marker + 5),
            hex_pair(payload, marker + 7),
        ) {
            (Some(high), Some(low), Some(value)) => Some(((high * 256 + low) as u16, value)),
            _ => None,
        }
    }
}

/// The EEPROM record in a response, if there is one.
pub open spec fn response_record(payload: Seq<u8>) -> Option<(u16, u8)> {
    if occurs(payload, record_marker()) {
        record_at(payload, choose|marker: int| first_at(payload, record_marker(), marker))
    } else {
        None
    }
}

/// The fields of a response in ASCII.
pub open spec fn response_fields(payload: Seq<u8>) -> Seq<Seq<char>> {
    let fields = seq!["response=ascii"@, "ascii="@ + response_text(payload)];
    match response_record(payload) {
        None => fields,
        Some((address, value)) => fields.push(
            "eeprom_address=0x"@ + hex_text(address as nat, 4, true),
        ).push("eeprom_value=0x"@ + hex_text(value as nat, 2, true)),
    }
}

fn find_record(payload: &[u8]) -> (record: Option<(u16, u8)>)
    ensures
        record == response_record(payload@),
{
    let marker_bytes: [u8; 3] = [0x45, 0x45, 0x3a];
    proof {
        assert(marker_bytes@ =~= record_marker());
    }
    let marker: usize = match find_bytes(payload, &marker_bytes) {
        None => return None,
        Some(marker) => marker,
    };
    proof {
        let chosen = choose|index: int| first_at(payload@, record_marker(), index);
        assert(first_at(payload@, record_marker(), marker as int));
        lemma_first_at_unique(payload@, record_marker(), chosen, marker as int);
    }
    if payload.len() - marker <= 9 || payload[marker + 9] != 0x3b {
        return None;
    }
    match (
        hex_pair_of(payload, marker + 3),
        hex_pair_of(payload, marker + 5),
        hex_pair_of(payload, marker + 7),
    ) {
        (Some(high), Some(low), Some(value)) => Some((high as u16 * 256 + low as u16, value)),
        _ => None,
    }
}

/// Lists the fields of a response in ASCII.
pub fn ascii_response_fields(payload: &[u8]) -> (fields: Vec<String>)
    ensures
        texts(fields@) == response_fields(payload@),
{
    let mut fields: Vec<String> = Vec::new();
    proof {
        assert(texts(fields@) =~= seq![]);
    }
    push_field(&mut fields, String::from_str("response=ascii"));
    push_pair(&mut fields, "ascii=", ascii_summary(payload).as_str());
    if let Some((address, value)) = find_record(payload) {
        push_word(&mut fields, "eeprom_address=0x", address);
        push_byte(&mut fields, "eeprom_value=0x", value);
    }
    fields
}

/// How the two bytes of a command are shown.
pub open spec fn command_name(command: Seq<u8>) -> Seq<char> {
    if command.len() == 2 && 0x21 <= command[0] <= 0x7e && 0x21 <= command[1] <= 0x7e {
        seq![command[0] as char, command[1] as char]
    } else {
        hex_bytes_text(command)
    }
}

/// Shows the two bytes of a command.
pub fn command_label(command: &[u8]) -> (label: String)
    ensures
        label@ == command_name(command@),
{
    if command.len() == 2 && 0x21 <= command[0] && command[0] <= 0x7e && 0x21 <= command[1]
        && command[1] <= 0x7e {
        let mut label = String::new();
        label.push(command[0] as char);
        label.push(command[1] as char);
        proof {
            assert(label@ =~= command_name(command@));
        }
        label
    } else {
        format_hex_bytes(command)
    }
}

/// The number that two bytes stand for, the less significant one first.
pub open spec fn le_value(low: u8, high: u8) -> u16 {
    (high * 256 + low) as u16
}

fn le_number(low: u8, high: u8) -> (value: u16)
    ensures
        value == le_value(low, high),
{
    high as u16 * 256 + low as u16
}

/// The field for a stretch of factory bytes that ends too early.
pub open spec fn factory_truncated(length: nat) -> Seq<char> {
    "factory=truncated factory_bytes="@ + dec_text(length)
}

/// The fields for the complement of a factory operation, where there is one.
pub open spec fn complement_fields(factory: Seq<u8>) -> Seq<Seq<char>> {
    if factory.len() > 3 {
        seq![
            "operation_complement=0x"@ + hex_text(factory[3] as nat, 2, true),
            "complement_valid="@ + truth_text(factory[3] == 255 - factory[2]),
        ]
    } else {
        seq![]
    }
}

/// The fields for the check of a factory operation, where there is one.
pub open spec fn check_fields(factory: Seq<u8>) -> Seq<Seq<char>> {
    if factory.len() > 4 {
        seq![
            "check=0x"@ + hex_text(factory[4] as nat, 2, true),
            "check_valid="@ + truth_text(factory[4] == rotated(factory[2])),
        ]
    } else {
        seq![]
    }
}

/// The fields for what a factory operation is about. Of a write they tell the
/// length of the key, and nothing else of it.
pub open spec fn operation_fields(operation: u8, body: Seq<u8>) -> Seq<Seq<char>> {
    if operation == 0x41 {
        let bytes = seq!["address_bytes="@ + hex_bytes_text(body)];
        if body.len() == 2 {
            bytes.push("address=0x"@ + hex_text(le_value(body[0], body[1]) as nat, 4, true))
        } else {
            bytes
        }
    } else if operation == 0x42 {
        if body.len() >= 3 {
            seq![
                "address_bytes="@ + hex_bytes_text(body.take(2)),
                "address=0x"@ + hex_text(le_value(body[0], body[1]) as nat, 4, true),
                "value=0x"@ + hex_text(body[2] as nat, 2, true),
                "write_key_length="@ + dec_text((body.len() - 3) as nat),
            ]
        } else {
            seq!["factory_write=truncated body_bytes="@ + dec_text(body.len())]
        }
    } else {
        seq!["factory_body_length="@ + dec_text(body.len())]
    }
}

/// The bytes of a factory command behind its check.
pub open spec fn factory_body(factory: Seq<u8>) -> Seq<u8> {
    if factory.len() > 5 {
        factory.skip(5)
    } else {
        seq![]
    }
}

/// The fields of a factory command.
pub open spec fn factory_fields(factory: Seq<u8>) -> Seq<Seq<char>> {
    if factory.len() < 2 {
        seq![factory_truncated(factory.len())]
    } else {
        let key = seq![
            "factory_key=0x"@ + hex_text(le_value(factory[0], factory[1]) as nat, 4, true),
        ];
        if factory.len() < 3 {
            key.push(factory_truncated(factory.len()))
        } else {
            key.push("operation="@ + escaped_char(factory[2] as char)) + complement_fields(factory)
                + check_fields(factory) + operation_fields(factory[2], factory_body(factory))
        }
    }
}

fn push_check(fields: &mut Vec<String>, factory: &[u8])
    requires
        factory@.len() > 2,
    ensures
        texts(final(fields)@) == texts(old(fields)@) + complement_fields(factory@) + check_fields(
            factory@,
        ),
{
    if factory.len() > 3 {
        push_byte(fields, "operation_complement=0x", factory[3]);
        push_pair(fields, "complement_valid=", truth(factory[3] == 255 - factory[2]));
    }
    proof {
        assert(texts(fields@) =~= texts(old(fields)@) + complement_fields(factory@));
    }
    let ghost middle = texts(fields@);
    if factory.len() > 4 {
        let operation: u8 = factory[2];
        let expected: u8 = operation / 2 + (operation % 2) * 128;
        push_byte(fields, "check=0x", factory[4]);
        push_pair(fields, "check_valid=", truth(factory[4] == expected));
    }
    proof {
        assert(texts(fields@) =~= middle + check_fields(factory@));
    }
}

fn push_operation(fields: &mut Vec<String>, operation: u8, body: &[u8])
    ensures
        texts(final(fields)@) == texts(old(fields)@) + operation_fields(operation, body@),
{
    if operation == 0x41 {
        push_pair(fields, "address_bytes=", format_hex_bytes(body).as_str());
        if body.len() == 2 {
            push_word(fields, "address=0x", le_number(body[0], body[1]));
        }
    } else if operation == 0x42 {
        if body.len() >= 3 {
            let address = vstd::slice::slice_subrange(body, 0, 2);
            proof {
                assert(address@ =~= body@.take(2));
            }
            push_pair(fields, "address_bytes=", format_hex_bytes(address).as_str());
            push_word(fields, "address=0x", le_number(body[0], body[1]));
            push_byte(fields, "value=0x", body[2]);
            push_dec(fields, "write_key_length=", (body.len() - 3) as u64);
        } else {
            push_dec(fields, "factory_write=truncated body_bytes=", body.len() as u64);
        }
    } else {
        push_dec(fields, "factory_body_length=", body.len() as u64);
    }
    proof {
        assert(texts(fields@) =~= texts(old(fields)@) + operation_fields(operation, body@));
    }
}

/// Lists the fields of a factory command.
pub fn factory_command_fields(factory: &[u8]) -> (fields: Vec<String>)
    ensures
        texts(fields@) == factory_fields(factory@),
{
    let mut fields: Vec<String> = Vec::new();
    proof {
        assert(texts(fields@) =~= seq![]);
    }
    if factory.len() < 2 {
        push_dec(&mut fields, "factory=truncated factory_bytes=", factory.len() as u64);
        return fields;
    }
    push_word(&mut fields, "factory_key=0x", le_number(factory[0], factory[1]));
    if factory.len() < 3 {
        push_dec(&mut fields, "factory=truncated factory_bytes=", factory.len() as u64);
        return fields;
    }
    let operation: u8 = factory[2];
    let mut shown = String::from_str("operation=");
    push_escaped(&mut shown, operation as char);
    push_field(&mut fields, shown);
    push_check(&mut fields, factory);
    let body: &[u8] = if factory.len() > 5 {
        vstd::slice::slice_subrange(factory, 5, factory.len())
    } else {
        vstd::slice::slice_subrange(factory, 0, 0)
    };
    proof {
        assert(body@ =~= factory_body(factory@));
    }
    push_operation(&mut fields, operation, body);
    fields
}

/// The smaller of two lengths.
pub open spec fn shorter(left: nat, right: nat) -> nat {
    if left < right {
        left
    } else {
        right
    }
}

/// The payload is a response in ASCII.
pub open spec fn ascii_response(payload: Seq<u8>) -> bool {
    all_ascii(payload) && (begins_with(payload, seq![0x40u8]) || begins_with(
        payload,
        record_marker(),
    ))
}

/// The fields for the payload of a command, behind the command and its length.
pub open spec fn command_fields(command: Seq<u8>, declared: nat, body: Seq<u8>) -> Seq<Seq<char>> {
    let fields = seq![
        "command="@ + command_name(command),
        "payload_length="@ + dec_text(declared),
    ];
    let measured = if body.len() != declared {
        fields.push("payload_actual_length="@ + dec_text(body.len()))
    } else {
        fields
    };
    if command == seq![0x7cu8, 0x7cu8] {
        measured + factory_fields(body.take(shorter(body.len(), declared) as int))
    } else if all_ascii(body) {
        measured.push("payload_ascii="@ + response_text(body))
    } else {
        measured
    }
}

/// The fields of a payload on a service channel.
pub open spec fn control_fields(payload: Seq<u8>) -> Seq<Seq<char>> {
    if ascii_response(payload) {
        response_fields(payload)
    } else if payload.len() < 2 {
        seq!["payload=raw payload_bytes="@ + dec_text(payload.len())]
    } else if payload.len() < 4 {
        seq![
            "command="@ + command_name(payload.take(2)) + " payload=truncated payload_bytes="@
                + dec_text(payload.len()),
        ]
    } else {
        command_fields(
            payload.take(2),
            le_value(payload[2], payload[3]) as nat,
            payload.skip(4),
        )
    }
}

fn is_ascii_bytes(bytes: &[u8]) -> (ascii: bool)
    ensures
        ascii == all_ascii(bytes@),
{
    let mut index: usize = 0;
    while index < bytes.len()
        invariant
            index <= bytes@.len(),
            forall|i: int| 0 <= i < index ==> #[trigger] bytes@[i] < 0x80,
        decreases bytes.len() - index,
    {
        if bytes[index] >= 0x80 {
            return false;
        }
        index = index + 1;
    }
    true
}

/// Lists the fields of a payload on a service channel.
pub fn control_payload_fields(payload: &[u8]) -> (fields: Vec<String>)
    ensures
        texts(fields@) == control_fields(payload@),
{
    let at_sign: [u8; 1] = [0x40];
    let marker: [u8; 3] = [0x45, 0x45, 0x3a];
    proof {
        assert(at_sign@ =~= seq![0x40u8]);
        assert(marker@ =~= record_marker());
    }
    if is_ascii_bytes(payload) && (starts_with_bytes(payload, &at_sign) || starts_with_bytes(
        payload,
        &marker,
    )) {
        return ascii_response_fields(payload);
    }
    let mut fields: Vec<String> = Vec::new();
    proof {
        assert(texts(fields@) =~= seq![]);
    }
    if payload.len() < 2 {
        push_dec(&mut fields, "payload=raw payload_bytes=", payload.len() as u64);
        return fields;
    }
    let command = vstd::slice::slice_subrange(payload, 0, 2);
    proof {
        assert(command@ =~= payload@.take(2));
    }
    if payload.len() < 4 {
        push_field(
            &mut fields,
            String::from_str("command=").concat(command_label(command).as_str()).concat(
                " payload=truncated payload_bytes=",
            ).concat(dec(payload.len() as u64).as_str()),
        );
        return fields;
    }
    let declared: usize = le_number(payload[2], payload[3]) as usize;
    let body = vstd::slice::slice_subrange(payload, 4, payload.len());
    proof {
        assert(body@ =~= payload@.skip(4));
    }
    push_pair(&mut fields, "command=", command_label(command).as_str());
    push_dec(&mut fields, "payload_length=", declared as u64);
    if body.len() != declared {
        push_dec(&mut fields, "payload_actual_length=", body.len() as u64);
    }
    if command[0] == 0x7c && command[1] == 0x7c {
        proof {
            assert(command@ =~= seq![0x7cu8, 0x7cu8]);
        }
        let length: usize = if body.len() < declared {
            body.len()
        } else {
            declared
        };
        let factory = vstd::slice::slice_subrange(body, 0, length);
        proof {
            assert(factory@ =~= body@.take(shorter(body@.len(), declared as nat) as int));
        }
        append_fields(&mut fields, factory_command_fields(factory));
    } else {
        proof {
            assert(command@ != seq![0x7cu8, 0x7cu8]) by {
                if command@ == seq![0x7cu8, 0x7cu8] {
                    assert(command@[0] == 0x7c && command@[1] == 0x7c);
                }
            }
        }
        if is_ascii_bytes(body) {
            push_pair(&mut fields, "payload_ascii=", ascii_summary(body).as_str());
        }
    }
    fields
}

/// The fields of a packet header.
pub open spec fn header_fields(direction: DebugTrafficDirection, header: PacketHeader) -> Seq<
    Seq<char>,
> {
    seq![
        direction_label(direction) + " d4=packet"@,
        match direction {
            DebugTrafficDirection::Tx => "request_response=request"@,
            DebugTrafficDirection::Rx => "request_response=response"@,
        },
        "peer_socket="@ + dec_text(header.peer_socket as nat),
        "source_socket="@ + dec_text(header.source_socket as nat),
        "total_length="@ + dec_text(header.length as nat),
        "payload_length="@ + dec_text((header.length - HEADER_LENGTH) as nat),
        "credit="@ + dec_text(header.credit as nat),
        "control=0x"@ + hex_text(header.control as nat, 2, true),
        "control_bits=0b"@ + bin_text(header.control as nat, 2),
    ]
}

/// The words for bytes that could not be framed.
pub open spec fn unframed_text(direction: DebugTrafficDirection, length: nat) -> Seq<char> {
    direction_label(direction) + " transfer=raw framing=unrecognized bytes="@ + dec_text(length)
}

/// The summary of a packet, and the revision after it.
pub open spec fn packet_summary(
    direction: DebugTrafficDirection,
    bytes: Seq<u8>,
    revision: ProtocolRevision,
) -> (Seq<char>, ProtocolRevision) {
    match header_of(bytes) {
        Err(_) => (unframed_text(direction, bytes.len()), revision),
        Ok(header) => {
            let payload = bytes.skip(HEADER_LENGTH as int);
            if header.peer_socket == 0 && header.source_socket == 0 {
                let transaction = transaction_summary(payload, revision);
                (
                    joined(header_fields(direction, header) + transaction.0, " "@),
                    transaction.1,
                )
            } else {
                (
                    joined(header_fields(direction, header) + control_fields(payload), " "@),
                    revision,
                )
            }
        },
    }
}

/// The summary of a transfer, and the revision after it.
pub open spec fn transfer_summary(transfer: ReassembledView, revision: ProtocolRevision) -> (
    Seq<char>,
    ProtocolRevision,
) {
    let label = direction_label(transfer.direction);
    let length = dec_text(transfer.bytes.len());
    match transfer.kind {
        ReassembledTransferKind::EmptyRead => (
            label + " usb_bulk_in=empty observation=timeout_like"@,
            revision,
        ),
        ReassembledTransferKind::Raw => if transfer.bytes.len() == 0 {
            (label + " usb_bulk_out=empty"@, revision)
        } else {
            (unframed_text(transfer.direction, transfer.bytes.len()), revision)
        },
        ReassembledTransferKind::EntryCommand => (
            label + " epson_d4_entry=command bytes="@ + length,
            revision,
        ),
        ReassembledTransferKind::EntryReply => (
            label + " epson_d4_entry=reply result=recognized bytes="@ + length,
            revision,
        ),
        ReassembledTransferKind::D4Packet => packet_summary(
            transfer.direction,
            transfer.bytes,
            revision,
        ),
    }
}

fn unframed_summary(direction: DebugTrafficDirection, length: usize) -> (text: String)
    ensures
        text@ == unframed_text(direction, length as nat),
{
    String::from_str(direction.label()).concat(" transfer=raw framing=unrecognized bytes=").concat(
        dec(length as u64).as_str(),
    )
}

/// Sums up a packet.
pub fn d4_packet_summary(
    direction: DebugTrafficDirection,
    bytes: &[u8],
    revision: ProtocolRevision,
) -> (summary: (String, ProtocolRevision))
    ensures
        summary.0@ == packet_summary(direction, bytes@, revision).0,
        summary.1 == packet_summary(direction, bytes@, revision).1,
{
    let header = match PacketHeader::decode(bytes) {
        Err(_) => return (unframed_summary(direction, bytes.len()), revision),
        Ok(header) => header,
    };
    let payload = vstd::slice::slice_subrange(bytes, HEADER_LENGTH, bytes.len());
    proof {
        assert(payload@ =~= bytes@.skip(HEADER_LENGTH as int));
    }
    let mut fields: Vec<String> = Vec::new();
    proof {
        assert(texts(fields@) =~= seq![]);
    }
    push_pair(&mut fields, direction.label(), " d4=packet");
    let exchange: &'static str = match direction {
        DebugTrafficDirection::Tx => "request_response=request",
        DebugTrafficDirection::Rx => "request_response=response",
    };
    push_field(&mut fields, String::from_str(exchange));
    push_dec(&mut fields, "peer_socket=", header.peer_socket as u64);
    push_dec(&mut fields, "source_socket=", header.source_socket as u64);
    push_dec(&mut fields, "total_length=", header.length as u64);
    push_dec(&mut fields, "payload_length=", header.payload_length() as u64);
    push_dec(&mut fields, "credit=", header.credit as u64);
    push_byte(&mut fields, "control=0x", header.control);
    push_pair(&mut fields, "control_bits=0b", bin(header.control as u64, 2).as_str());
    proof {
        assert(texts(fields@) =~= header_fields(direction, header));
    }
    if header.peer_socket == 0 && header.source_socket == 0 {
        let (more, after) = transaction_fields(payload, revision);
        append_fields(&mut fields, more);
        (join(fields.as_slice(), " "), after)
    } else {
        append_fields(&mut fields, control_payload_fields(payload));
        (join(fields.as_slice(), " "), revision)
    }
}

/// Sums up a transfer.
pub fn summarize(transfer: &ReassembledTransfer, revision: ProtocolRevision) -> (summary: (
    String,
    ProtocolRevision,
))
    ensures
        summary.0@ == transfer_summary(transfer@, revision).0,
        summary.1 == transfer_summary(transfer@, revision).1,
{
    let label = String::from_str(transfer.direction.label());
    let length: u64 = transfer.bytes.len() as u64;
    match transfer.kind {
        ReassembledTransferKind::EmptyRead => (
            label.concat(" usb_bulk_in=empty observation=timeout_like"),
            revision,
        ),
        ReassembledTransferKind::Raw => if transfer.bytes.len() == 0 {
            (label.concat(" usb_bulk_out=empty"), revision)
        } else {
            (unframed_summary(transfer.direction, transfer.bytes.len()), revision)
        },
        ReassembledTransferKind::EntryCommand => (
            label.concat(" epson_d4_entry=command bytes=").concat(dec(length).as_str()),
            revision,
        ),
        ReassembledTransferKind::EntryReply => (
            label.concat(" epson_d4_entry=reply result=recognized bytes=").concat(
                dec(length).as_str(),
            ),
            revision,
        ),
        ReassembledTransferKind::D4Packet => d4_packet_summary(
            transfer.direction,
            transfer.bytes.as_slice(),
            revision,
        ),
    }
}

/// The summary of a factory write tells the length of the write key and nothing
/// else of it: payloads that differ in the key alone have the same fields.
pub proof fn write_keys_stay_hidden(left: Seq<u8>, right: Seq<u8>)
    requires
        left.len() == right.len(),
        left.len() >= 12,
        left.take(12) == right.take(12),
        left[0] == 0x7c,
        left[1] == 0x7c,
        left[6] == 0x42,
    ensures
        control_fields(left) == control_fields(right),
{
    assert forall|i: int| 0 <= i < 12 implies #[trigger] left[i] == #[trigger] right[i] by {
        assert(left.take(12)[i] == left[i]);
        assert(right.take(12)[i] == right[i]);
    }
    assert(!begins_with(left, seq![0x40u8])) by {
        if begins_with(left, seq![0x40u8]) {
            assert(left.subrange(0, 1)[0] == 0x40);
        }
    }
    assert(!begins_with(right, seq![0x40u8])) by {
        if begins_with(right, seq![0x40u8]) {
            assert(right.subrange(0, 1)[0] == 0x40);
        }
    }
    assert(!begins_with(left, record_marker())) by {
        if begins_with(left, record_marker()) {
            assert(left.subrange(0, 3)[0] == 0x45);
        }
    }
    assert(!begins_with(right, record_marker())) by {
        if begins_with(right, record_marker()) {
            assert(right.subrange(0, 3)[0] == 0x45);
        }
    }
    assert(left.take(2) =~= right.take(2));
    assert(left.take(2) =~= seq![0x7cu8, 0x7cu8]);
    let declared = le_value(left[2], left[3]) as nat;
    let length = shorter((left.len() - 4) as nat, declared) as int;
    let first = left.skip(4).take(length);
    let second = right.skip(4).take(length);
    assert(first.len() == second.len());
    assert forall|i: int| 0 <= i < 8 && i < length implies first[i] == second[i] by {
        assert(first[i] == left[i + 4]);
        assert(second[i] == right[i + 4]);
    }
    if length > 2 {
        assert(first[2] == 0x42);
        let left_body = factory_body(first);
        let right_body = factory_body(second);
        assert(left_body.len() == right_body.len());
        if left_body.len() >= 3 {
            assert(left_body[0] == first[5] && right_body[0] == second[5]);
            assert(left_body[1] == first[6] && right_body[1] == second[6]);
            assert(left_body[2] == first[7] && right_body[2] == second[7]);
            assert(left_body.take(2) =~= right_body.take(2));
        }
        assert(operation_fields(0x42, left_body) == operation_fields(0x42, right_body));
        assert(complement_fields(first) == complement_fields(second));
        assert(check_fields(first) == check_fields(second));
    }
    assert(factory_fields(first) == factory_fields(second));
}

/// The summary of a packet with a factory write tells the length of the write key
/// and nothing else of it, on whatever channel and in whatever direction the
/// packet goes: packets that differ in the key alone have the same summary.
pub proof fn packet_summaries_hide_write_keys(
    direction: DebugTrafficDirection,
    left: Seq<u8>,
    right: Seq<u8>,
    revision: ProtocolRevision,
)
    requires
        left.len() == right.len(),
        left.len() >= 18,
        left.take(18) == right.take(18),
        left[6] == 0x7c,
        left[7] == 0x7c,
        left[12] == 0x42,
    ensures
        packet_summary(direction, left, revision) == packet_summary(direction, right, revision),
{
    assert forall|i: int| 0 <= i < 18 implies #[trigger] left[i] == #[trigger] right[i] by {
        assert(left.take(18)[i] == left[i]);
        assert(right.take(18)[i] == right[i]);
    }
    let first = left.skip(HEADER_LENGTH as int);
    let second = right.skip(HEADER_LENGTH as int);
    assert(first.take(12) =~= second.take(12));
    write_keys_stay_hidden(first, second);
    assert(header_of(left) == header_of(right));
    assert(understood(first, revision) is None);
    assert(understood(second, revision) is None);
}

/// What the summary of a write with a two-byte address tells of it. Of the key it
/// is the length alone.
pub open spec fn write_fields(
    read_key: u16,
    address: u16,
    value: u8,
    key_length: nat,
) -> Seq<Seq<char>> {
    seq![
        "command=||"@,
        "payload_length="@ + dec_text(8 + key_length),
        "factory_key=0x"@ + hex_text(read_key as nat, 4, true),
        "operation=B"@,
        "operation_complement=0xBD"@,
        "complement_valid=true"@,
        "check=0x21"@,
        "check_valid=true"@,
        "address_bytes="@ + hex_bytes_text(le_bytes(address)),
        "address=0x"@ + hex_text(address as nat, 4, true),
        "value=0x"@ + hex_text(value as nat, 2, true),
        "write_key_length="@ + dec_text(key_length),
    ]
}

proof fn lemma_write_words()
    ensures
        "command="@ + command_name(seq![0x7cu8, 0x7cu8]) == "command=||"@,
        "operation="@ + escaped_char(0x42u8 as char) == "operation=B"@,
        "operation_complement=0x"@ + hex_text(0xbd, 2, true) == "operation_complement=0xBD"@,
        "complement_valid="@ + truth_text(true) == "complement_valid=true"@,
        "check=0x"@ + hex_text(0x21, 2, true) == "check=0x21"@,
        "check_valid="@ + truth_text(true) == "check_valid=true"@,
{
    reveal_with_fuel(hex_text, 3);
    reveal_strlit("command=");
    reveal_strlit("command=||");
    reveal_strlit("operation=");
    reveal_strlit("operation=B");
    reveal_strlit("operation_complement=0x");
    reveal_strlit("operation_complement=0xBD");
    reveal_strlit("complement_valid=");
    reveal_strlit("complement_valid=true");
    reveal_strlit("check=0x");
    reveal_strlit("check=0x21");
    reveal_strlit("check_valid=");
    reveal_strlit("check_valid=true");
    reveal_strlit("true");
    assert("command="@ + command_name(seq![0x7cu8, 0x7cu8]) =~= "command=||"@);
    assert("operation="@ + escaped_char(0x42u8 as char) =~= "operation=B"@);
    assert(hex_text(0xbd, 2, true) =~= seq!['B', 'D']);
    assert(hex_text(0x21, 2, true) =~= seq!['2', '1']);
    assert("operation_complement=0x"@ + hex_text(0xbd, 2, true) =~= "operation_complement=0xBD"@);
    assert("complement_valid="@ + truth_text(true) =~= "complement_valid=true"@);
    assert("check=0x"@ + hex_text(0x21, 2, true) =~= "check=0x21"@);
    assert("check_valid="@ + truth_text(true) =~= "check_valid=true"@);
}

proof fn lemma_write_fields(settings: SpecView, address: u16, value: u8, request: Seq<u8>)
    requires
        settings.write_address_width == AddressWidth::Two,
        write_request(settings, address, value) == Ok::<Seq<u8>, CommandErrorView>(request),
    ensures
        settings.write_key is Some,
        request.len() == 12 + settings.write_key->Some_0.len(),
        control_fields(request) == write_fields(
            settings.read_key,
            address,
            value,
            settings.write_key->Some_0.len(),
        ),
{
    let key = settings.write_key->Some_0;
    let body = request.skip(4);
    assert(request[0] == 0x7c && request[1] == 0x7c);
    assert(!begins_with(request, seq![0x40u8])) by {
        if begins_with(request, seq![0x40u8]) {
            assert(request.subrange(0, 1)[0] == 0x40);
        }
    }
    assert(!begins_with(request, record_marker())) by {
        if begins_with(request, record_marker()) {
            assert(request.subrange(0, 3)[0] == 0x45);
        }
    }
    assert(request.take(2) =~= seq![0x7cu8, 0x7cu8]);
    let declared = le_value(request[2], request[3]) as nat;
    assert(declared == body.len());
    assert(body.take(declared as int) =~= body);
    assert(le_value(body[0], body[1]) == settings.read_key);
    assert(body[2] == 0x42 && body[3] == 0xbd && body[4] == 0x21);
    assert(rotated(0x42) == 0x21);
    let rest = factory_body(body);
    assert(rest =~= (le_bytes(address).push(value) + key));
    assert(rest.take(2) =~= le_bytes(address));
    assert(le_value(rest[0], rest[1]) == address);
    lemma_write_words();
    assert(control_fields(request) =~= write_fields(
        settings.read_key,
        address,
        value,
        key.len(),
    ));
}

proof fn lemma_joined_end(parts: Seq<Seq<char>>, separator: Seq<char>)
    requires
        parts.len() >= 3,
    ensures
        joined(parts, separator) == joined(parts.take(parts.len() - 2), separator) + separator
            + parts[parts.len() - 2] + separator + parts.last(),
{
    reveal_with_fuel(joined, 3);
    let front = parts.drop_last();
    assert(front.drop_last() =~= parts.take(parts.len() - 2));
    assert(front.last() == parts[parts.len() - 2]);
}

/// The summary of a packet with a write request, word by word, for a two-byte
/// address and on any service channel: it says which byte is written where, and
/// of the key it says the length. So it is the same for every key of one length.
pub proof fn writes_are_summed_up(
    direction: DebugTrafficDirection,
    packet: PacketView,
    settings: SpecView,
    address: u16,
    value: u8,
    revision: ProtocolRevision,
)
    requires
        packet.well_formed(),
        packet.header.peer_socket != 0 || packet.header.source_socket != 0,
        settings.write_address_width == AddressWidth::Two,
        write_request(settings, address, value) == Ok::<Seq<u8>, CommandErrorView>(
            packet.payload,
        ),
    ensures
        settings.write_key matches Some(key) && ({
            let fields = header_fields(direction, packet.header) + write_fields(
                settings.read_key,
                address,
                value,
                key.len(),
            );
            &&& packet_summary(direction, packet_bytes(packet), revision) == (
                joined(fields, " "@),
                revision,
            )
            &&& joined(fields, " "@) == joined(fields.take(fields.len() - 2), " "@) + " "@ + (
            "value=0x"@ + hex_text(value as nat, 2, true)) + " "@ + ("write_key_length="@
                + dec_text(key.len()))
        }),
{
    lemma_write_fields(settings, address, value, packet.payload);
    let bytes = packet_bytes(packet);
    let fields = header_fields(direction, packet.header) + write_fields(
        settings.read_key,
        address,
        value,
        settings.write_key->Some_0.len(),
    );
    assert(header_of(bytes) == Ok::<PacketHeader, PacketError>(packet.header));
    assert(bytes.skip(HEADER_LENGTH as int) =~= packet.payload);
    lemma_joined_end(fields, " "@);
}

/// What the summary of a response shows of the record in it: where six digits and
/// a semicolon stand behind the first marker, the address is the first four digits
/// and the value the last two.
pub proof fn shown_records_say_what_their_digits_say(
    payload: Seq<u8>,
    marker: int,
    digits: Seq<int>,
)
    requires
        forall|i: int| 0 <= i < payload.len() ==> #[trigger] payload[i] < 0x80,
        payload.len() > 0,
        payload[0] == 0x40 || marker == 0,
        0 <= marker,
        marker + 9 < payload.len(),
        payload[marker] == 0x45 && payload[marker + 1] == 0x45 && payload[marker + 2] == 0x3a,
        forall|i: int|
            0 <= i < marker ==> !(#[trigger] payload[i] == 0x45 && payload[i + 1] == 0x45
                && payload[i + 2] == 0x3a),
        payload[marker + 9] == 0x3b,
        digits.len() == 6,
        forall|i: int| 0 <= i < 6 ==> is_digit_of(payload[marker + 3 + i], #[trigger] digits[i]),
    ensures
        control_fields(payload) == seq![
            "response=ascii"@,
            "ascii="@ + response_text(payload),
            "eeprom_address=0x"@ + hex_text(
                (4096 * digits[0] + 256 * digits[1] + 16 * digits[2] + digits[3]) as nat,
                4,
                true,
            ),
            "eeprom_value=0x"@ + hex_text((16 * digits[4] + digits[5]) as nat, 2, true),
        ],
{
    lemma_marker_first(payload, marker);
    let chosen = choose|index: int| first_at(payload, record_marker(), index);
    lemma_first_at_unique(payload, record_marker(), chosen, marker);
    assert(is_digit_of(payload[marker + 3 + 0], digits[0]));
    assert(is_digit_of(payload[marker + 3 + 1], digits[1]));
    assert(is_digit_of(payload[marker + 3 + 2], digits[2]));
    assert(is_digit_of(payload[marker + 3 + 3], digits[3]));
    assert(is_digit_of(payload[marker + 3 + 4], digits[4]));
    assert(is_digit_of(payload[marker + 3 + 5], digits[5]));
    assert(all_ascii(payload));
    if payload[0] == 0x40 {
        assert(payload.subrange(0, 1) =~= seq![0x40u8]);
        assert(begins_with(payload, seq![0x40u8]));
    } else {
        assert(payload.subrange(0, 3) =~= record_marker());
    }
    let address = 4096 * digits[0] + 256 * digits[1] + 16 * digits[2] + digits[3];
    let value = 16 * digits[4] + digits[5];
    assert(response_record(payload) matches Some(record) && record.0 == address && record.1
        == value);
    assert(control_fields(payload) =~= seq![
        "response=ascii"@,
        "ascii="@ + response_text(payload),
        "eeprom_address=0x"@ + hex_text(address as nat, 4, true),
        "eeprom_value=0x"@ + hex_text(value as nat, 2, true),
    ]);
}

/// The text that is shown of a response: as many characters as there are bytes,
/// but for line ends and tabs, up to eighty bytes, and a mark where more follow.
pub proof fn responses_are_shown_byte_by_byte(bytes: Seq<u8>, byte: u8)
    ensures
        response_text(seq![]) == Seq::<char>::empty(),
        bytes.len() < 80 ==> response_text(bytes.push(byte)) == response_text(bytes) + (
        if 0x20 <= byte <= 0x7e {
            seq![byte as char]
        } else if byte == 0x0d {
            seq!['\\', 'r']
        } else if byte == 0x0a {
            seq!['\\', 'n']
        } else if byte == 0x09 {
            seq!['\\', 't']
        } else {
            seq!['.']
        }),
        bytes.len() > 80 ==> response_text(bytes) == response_text(bytes.take(80)).push('…'),
{
    assert(bytes.push(byte).drop_last() =~= bytes);
}

/// The fields that a packet's header is shown by, told by its six bytes.
pub proof fn headers_are_shown_byte_by_byte(
    direction: DebugTrafficDirection,
    bytes: Seq<u8>,
    revision: ProtocolRevision,
)
    requires
        bytes.len() >= 6,
        256 * bytes[2] + bytes[3] >= 6,
        bytes[5] <= 3,
    ensures
        ({
            let length: int = 256 * bytes[2] + bytes[3];
            let header: Seq<Seq<char>> = seq![
                if direction == DebugTrafficDirection::Tx {
                    "TX d4=packet"@
                } else {
                    "RX d4=packet"@
                },
                if direction == DebugTrafficDirection::Tx {
                    "request_response=request"@
                } else {
                    "request_response=response"@
                },
                "peer_socket="@ + dec_text(bytes[0] as nat),
                "source_socket="@ + dec_text(bytes[1] as nat),
                "total_length="@ + dec_text(length as nat),
                "payload_length="@ + dec_text((length - 6) as nat),
                "credit="@ + dec_text(bytes[4] as nat),
                "control=0x"@ + hex_text(bytes[5] as nat, 2, true),
                "control_bits=0b"@ + (if bytes[5] == 0 {
                    seq!['0', '0']
                } else if bytes[5] == 1 {
                    seq!['0', '1']
                } else if bytes[5] == 2 {
                    seq!['1', '0']
                } else {
                    seq!['1', '1']
                }),
            ];
            let fields: Seq<Seq<char>> = if bytes[0] == 0 && bytes[1] == 0 {
                transaction_summary(bytes.skip(6), revision).0
            } else {
                control_fields(bytes.skip(6))
            };
            packet_summary(direction, bytes, revision).0 == joined(header + fields, " "@)
        }),
{
    reveal_with_fuel(bin_text, 3);
    reveal_strlit("TX d4=packet");
    reveal_strlit("RX d4=packet");
    reveal_strlit(" d4=packet");
    reveal_strlit("TX");
    reveal_strlit("RX");
    assert("TX"@ + " d4=packet"@ =~= "TX d4=packet"@);
    assert("RX"@ + " d4=packet"@ =~= "RX d4=packet"@);
    let header = header_of(bytes)->Ok_0;
    assert(bin_text(bytes[5] as nat, 2) =~= (if bytes[5] == 0 {
        seq!['0', '0']
    } else if bytes[5] == 1 {
        seq!['0', '1']
    } else if bytes[5] == 2 {
        seq!['1', '0']
    } else {
        seq!['1', '1']
    }));
    assert(header_fields(direction, header) =~= seq![
        if direction == DebugTrafficDirection::Tx {
            "TX d4=packet"@
        } else {
            "RX d4=packet"@
        },
        if direction == DebugTrafficDirection::Tx {
            "request_response=request"@
        } else {
            "request_response=response"@
        },
        "peer_socket="@ + dec_text(bytes[0] as nat),
        "source_socket="@ + dec_text(bytes[1] as nat),
        "total_length="@ + dec_text((256 * bytes[2] + bytes[3]) as nat),
        "payload_length="@ + dec_text((256 * bytes[2] + bytes[3] - 6) as nat),
        "credit="@ + dec_text(bytes[4] as nat),
        "control=0x"@ + hex_text(bytes[5] as nat, 2, true),
        "control_bits=0b"@ + bin_text(bytes[5] as nat, 2),
    ]);
}

/// What is shown of a transaction, told by the bytes of the payload: each number by
/// the bytes that it is made of.
#[verifier::spinoff_prover]
#[verifier::rlimit(40)]
pub proof fn transactions_are_shown_byte_by_byte(payload: Seq<u8>, revision: ProtocolRevision)
    requires
        payload.len() >= 12,
        payload[0] == 0x01 || payload[0] == 0x81 || payload[0] == 0x02 || payload[0] == 0x82
            || payload[0] == 0x03 || payload[0] == 0x83 || payload[0] == 0x04 || payload[0] == 0x84
            || payload[0] == 0x7f || payload[0] == 0x88 || payload[0] == 0x0a,
    ensures
        ({
            let fields = transaction_summary(payload, revision).0;
            let request: bool = payload[0] < 0x80;
            let peer: nat = (if request {
                payload[1]
            } else {
                payload[2]
            }) as nat;
            let source: nat = (if request {
                payload[2]
            } else {
                payload[3]
            }) as nat;
            let sockets = seq![
                "transaction_peer_socket="@ + dec_text(peer),
                "transaction_source_socket="@ + dec_text(source),
            ];
            let result = "result=0x"@ + hex_text(payload[1] as nat, 2, true);
            &&& transaction_summary(payload, revision).1 == revision
            &&& fields[0] == "revision="@ + revision_name(revision)
            &&& payload[0] == 0x01 ==> fields.skip(1) == seq!["transaction=open_channel"@] + sockets
                + seq![
                "max_packet_size="@ + dec_text((256 * payload[3] + payload[4]) as nat),
                "max_service_size="@ + dec_text((256 * payload[5] + payload[6]) as nat),
                "max_credit="@ + dec_text((256 * payload[7] + payload[8]) as nat),
            ] + (if revision == ProtocolRevision::V10 {
                seq!["initial_credit="@ + dec_text((256 * payload[9] + payload[10]) as nat)]
            } else {
                seq![]
            })
            &&& payload[0] == 0x81 ==> fields.skip(1) == seq![
                "transaction=open_channel_reply"@,
                result,
            ] + sockets + seq![
                "max_packet_size="@ + dec_text((256 * payload[4] + payload[5]) as nat),
                "max_service_size="@ + dec_text((256 * payload[6] + payload[7]) as nat),
                "max_credit="@ + dec_text((256 * payload[8] + payload[9]) as nat),
                "granted_credit="@ + dec_text((256 * payload[10] + payload[11]) as nat),
            ]
            &&& payload[0] == 0x02 ==> fields.skip(1) == seq!["transaction=close_channel"@]
                + sockets
            &&& payload[0] == 0x82 ==> fields.skip(1) == seq![
                "transaction=close_channel_reply"@,
                result,
            ] + sockets
            &&& payload[0] == 0x03 ==> fields.skip(1) == seq!["transaction=credit"@] + sockets
                + seq!["added_credit="@ + dec_text((256 * payload[3] + payload[4]) as nat)]
            &&& payload[0] == 0x83 ==> fields.skip(1) == seq![
                "transaction=credit_reply"@,
                result,
            ] + sockets
            &&& payload[0] == 0x04 && revision == ProtocolRevision::V20 ==> fields.skip(1) == seq![
                "transaction=credit_request"@,
            ] + sockets + seq!["max_credit="@ + dec_text((256 * payload[3] + payload[4]) as nat)]
            &&& payload[0] == 0x84 ==> fields.skip(1) == seq![
                "transaction=credit_request_reply"@,
                result,
            ] + sockets + seq![
                "added_credit="@ + dec_text((256 * payload[4] + payload[5]) as nat),
            ]
            &&& payload[0] == 0x88 ==> fields.skip(1) == seq!["transaction=exit_reply"@, result]
            &&& payload[0] == 0x0a ==> fields.skip(1) == seq![
                "transaction=get_service_name"@,
                "socket_id="@ + dec_text(payload[1] as nat),
            ]
            &&& payload[0] == 0x7f ==> fields.skip(1) == seq!["transaction=error"@] + sockets
                + seq!["error_code=0x"@ + hex_text(payload[3] as nat, 2, true)]
        }),
{
    let message = message_of(payload, revision)->Ok_0;
    let fields = transaction_summary(payload, revision).0;
    assert(fields == seq!["revision="@ + revision_name(revision)] + message_fields(message));
    assert(fields.skip(1) =~= message_fields(message));
    if payload[0] == 0x01 {
        let shown = message_fields(message);
        assert(revision == ProtocolRevision::V20 ==> shown + Seq::<Seq<char>>::empty() =~= shown);
        assert(revision == ProtocolRevision::V10 ==> shown =~= shown.drop_last() + seq![
            shown.last(),
        ]);
    }
}

/// The revision that a proposal or the answer to it names holds for what follows.
pub proof fn shown_revisions_follow_proposals(payload: Seq<u8>, revision: ProtocolRevision)
    requires
        (payload.len() >= 2 && payload[0] == 0x00 && (payload[1] == 0x10 || payload[1] == 0x20)) || (
        payload.len() >= 3 && payload[0] == 0x80 && (payload[2] == 0x10 || payload[2] == 0x20)),
    ensures
        ({
            let named: u8 = if payload[0] == 0x00 {
                payload[1]
            } else {
                payload[2]
            };
            let shown = transaction_summary(payload, revision);
            let other = if named == 0x10 {
                ProtocolRevision::V10
            } else {
                ProtocolRevision::V20
            };
            &&& shown.1 == other
            &&& payload[0] == 0x00 ==> shown.0.skip(1) == seq![
                "transaction=init"@,
                "requested_revision="@ + revision_name(other),
            ]
            &&& payload[0] == 0x80 ==> shown.0.skip(1) == seq![
                "transaction=init_reply"@,
                "result=0x"@ + hex_text(payload[1] as nat, 2, true),
                "negotiated_revision="@ + revision_name(other),
            ]
        }),
{
    let message = message_of(payload, revision)->Ok_0;
    assert(transaction_summary(payload, revision).0.skip(1) =~= message_fields(message));
}

/// What is shown of a factory request, told by its bytes: the key, the operation with
/// its complement and its check, and the address, with the less significant byte of
/// each number first. Of a write the value follows, and of the key only its length.
pub proof fn factory_requests_are_shown_byte_by_byte(payload: Seq<u8>)
    requires
        payload.len() >= 12,
        payload[0] == 0x7c,
        payload[1] == 0x7c,
        payload[2] + 256 * payload[3] == payload.len() - 4,
        payload[6] == 0x41 || payload[6] == 0x42,
    ensures
        ({
            let fields = control_fields(payload);
            let expected: u8 = if payload[6] == 0x41 {
                0xa0
            } else {
                0x21
            };
            &&& fields.len() >= 9
            &&& fields[1] == "payload_length="@ + dec_text((payload.len() - 4) as nat)
            &&& fields[2] == "factory_key=0x"@ + hex_text(
                (payload[4] + 256 * payload[5]) as nat,
                4,
                true,
            )
            &&& fields[4] == "operation_complement=0x"@ + hex_text(payload[7] as nat, 2, true)
            &&& fields[5] == "complement_valid="@ + (if payload[6] + payload[7] == 255 {
                "true"@
            } else {
                "false"@
            })
            &&& fields[6] == "check=0x"@ + hex_text(payload[8] as nat, 2, true)
            &&& fields[7] == "check_valid="@ + (if payload[8] == expected {
                "true"@
            } else {
                "false"@
            })
            &&& payload[6] == 0x41 ==> fields[8] == "address_bytes="@ + hex_bytes_text(
                payload.skip(9),
            )
            &&& payload[6] == 0x42 ==> {
                &&& fields.len() == 12
                &&& fields[8] == "address_bytes="@ + hex_bytes_text(seq![payload[9], payload[10]])
                &&& fields[9] == "address=0x"@ + hex_text(
                    (payload[9] + 256 * payload[10]) as nat,
                    4,
                    true,
                )
                &&& fields[10] == "value=0x"@ + hex_text(payload[11] as nat, 2, true)
                &&& fields[11] == "write_key_length="@ + dec_text((payload.len() - 12) as nat)
            }
        }),
{
    assert(rotated(0x41) == 0xa0);
    assert(rotated(0x42) == 0x21);
    let body = payload.skip(4);
    if begins_with(payload, seq![0x40u8]) {
        assert(payload.subrange(0, 1)[0] == payload[0]);
    }
    if begins_with(payload, record_marker()) {
        assert(payload.subrange(0, 3)[0] == payload[0]);
    }
    assert(payload.take(2) =~= seq![0x7cu8, 0x7cu8]);
    assert(body.take(body.len() as int) =~= body);
    assert(body.skip(5) =~= payload.skip(9));
    let rest = payload.skip(9);
    if payload[6] == 0x42 {
        assert(rest.take(2) =~= seq![payload[9], payload[10]]);
    }
}

/// What is shown of transfers that are no packets: what they are and how long they are.
pub proof fn other_transfers_are_described(transfer: ReassembledView, revision: ProtocolRevision)
    ensures
        ({
            let label = if transfer.direction == DebugTrafficDirection::Tx {
                "TX"@
            } else {
                "RX"@
            };
            let length = dec_text(transfer.bytes.len());
            let shown = transfer_summary(transfer, revision);
            &&& transfer.kind != ReassembledTransferKind::D4Packet ==> shown.1 == revision
            &&& transfer.kind == ReassembledTransferKind::EmptyRead ==> shown.0 == label
                + " usb_bulk_in=empty observation=timeout_like"@
            &&& transfer.kind == ReassembledTransferKind::Raw && transfer.bytes.len() == 0
                ==> shown.0 == label + " usb_bulk_out=empty"@
            &&& transfer.kind == ReassembledTransferKind::Raw && transfer.bytes.len() > 0
                ==> shown.0 == label + " transfer=raw framing=unrecognized bytes="@ + length
            &&& transfer.kind == ReassembledTransferKind::EntryCommand ==> shown.0 == label
                + " epson_d4_entry=command bytes="@ + length
            &&& transfer.kind == ReassembledTransferKind::EntryReply ==> shown.0 == label
                + " epson_d4_entry=reply result=recognized bytes="@ + length
        }),
{
}

/// What is shown of a command that is no factory request, told by its bytes: the two
/// letters of the command, the length that it declares, with the less significant byte
/// first, the length that it has where that is another one, and what stands behind where
/// that is a text.
pub proof fn other_commands_are_shown_byte_by_byte(payload: Seq<u8>)
    requires
        payload.len() >= 4,
        0x21 <= payload[0] <= 0x7e,
        0x21 <= payload[1] <= 0x7e,
        payload[0] != 0x7c,
        payload[0] != 0x40,
        payload[0] != 0x45,
    ensures
        ({
            let fields = control_fields(payload);
            let declared: int = payload[2] + 256 * payload[3];
            let extra: int = if declared == payload.len() - 4 {
                0
            } else {
                1
            };
            &&& fields.len() >= 2 + extra
            &&& fields[0] == "command="@ + seq![payload[0] as char, payload[1] as char]
            &&& fields[1] == "payload_length="@ + dec_text(declared as nat)
            &&& extra == 1 ==> fields[2] == "payload_actual_length="@ + dec_text(
                (payload.len() - 4) as nat,
            )
            &&& (forall|i: int| 4 <= i < payload.len() ==> #[trigger] payload[i] < 0x80)
                ==> fields.len() == 3 + extra && fields.last() == "payload_ascii="@ + response_text(
                payload.skip(4),
            )
            &&& fields.len() == 2 + extra || fields.len() == 3 + extra
        }),
{
    if begins_with(payload, seq![0x40u8]) {
        assert(payload.subrange(0, 1)[0] == payload[0]);
    }
    if begins_with(payload, record_marker()) {
        assert(payload.subrange(0, 3)[0] == payload[0]);
    }
    let command = payload.take(2);
    assert(command[0] == payload[0] && command[1] == payload[1]);
    let body = payload.skip(4);
    if forall|i: int| 4 <= i < payload.len() ==> #[trigger] payload[i] < 0x80 {
        assert forall|i: int| 0 <= i < body.len() implies #[trigger] body[i] < 0x80 by {
            assert(body[i] == payload[i + 4]);
        }
        assert(all_ascii(body));
    }
}

/// What is shown of a request to read a two-byte address, told by its bytes.
pub proof fn factory_reads_are_shown_byte_by_byte(payload: Seq<u8>)
    requires
        payload.len() == 11,
        payload[0] == 0x7c,
        payload[1] == 0x7c,
        payload[2] == 7,
        payload[3] == 0,
        payload[6] == 0x41,
    ensures
        ({
            let fields = control_fields(payload);
            &&& fields.len() == 10
            &&& fields[0] == "command="@ + seq!['|', '|']
            &&& fields[1] == "payload_length="@ + dec_text(7)
            &&& fields[2] == "factory_key=0x"@ + hex_text(
                (payload[4] + 256 * payload[5]) as nat,
                4,
                true,
            )
            &&& fields[3] == "operation="@ + seq!['A']
            &&& fields[4] == "operation_complement=0x"@ + hex_text(payload[7] as nat, 2, true)
            &&& fields[5] == "complement_valid="@ + (if payload[7] == 0xbe {
                "true"@
            } else {
                "false"@
            })
            &&& fields[6] == "check=0x"@ + hex_text(payload[8] as nat, 2, true)
            &&& fields[7] == "check_valid="@ + (if payload[8] == 0xa0 {
                "true"@
            } else {
                "false"@
            })
            &&& fields[8] == "address_bytes="@ + hex_bytes_text(seq![payload[9], payload[10]])
            &&& fields[9] == "address=0x"@ + hex_text(
                (payload[9] + 256 * payload[10]) as nat,
                4,
                true,
            )
        }),
{
    assert(rotated(0x41) == 0xa0);
    let body = payload.skip(4);
    if begins_with(payload, seq![0x40u8]) {
        assert(payload.subrange(0, 1)[0] == payload[0]);
    }
    if begins_with(payload, record_marker()) {
        assert(payload.subrange(0, 3)[0] == payload[0]);
    }
    assert(payload.take(2) =~= seq![0x7cu8, 0x7cu8]);
    assert(body.take(body.len() as int) =~= body);
    assert(body.skip(5) =~= seq![payload[9], payload[10]]);
}

/// What stands behind the declared length of a factory request is not looked at: the
/// fields are those of the request that ends there, and the length that it has is told
/// besides.
pub proof fn factory_requests_end_where_they_say(payload: Seq<u8>)
    requires
        payload.len() >= 4,
        payload[0] == 0x7c,
        payload[1] == 0x7c,
        payload[2] + 256 * payload[3] < payload.len() - 4,
    ensures
        ({
            let declared: int = payload[2] + 256 * payload[3];
            let whole = control_fields(payload);
            let ended = control_fields(payload.take(4 + declared));
            &&& whole.len() == ended.len() + 1
            &&& whole[0] == ended[0]
            &&& whole[1] == ended[1]
            &&& whole[2] == "payload_actual_length="@ + dec_text((payload.len() - 4) as nat)
            &&& whole.skip(3) == ended.skip(2)
        }),
{
    let declared: int = payload[2] + 256 * payload[3];
    let ending = payload.take(4 + declared);
    if begins_with(payload, seq![0x40u8]) {
        assert(payload.subrange(0, 1)[0] == payload[0]);
    }
    if begins_with(payload, record_marker()) {
        assert(payload.subrange(0, 3)[0] == payload[0]);
    }
    if begins_with(ending, seq![0x40u8]) {
        assert(ending.subrange(0, 1)[0] == ending[0]);
    }
    if begins_with(ending, record_marker()) {
        assert(ending.subrange(0, 3)[0] == ending[0]);
    }
    assert(payload.take(2) =~= seq![0x7cu8, 0x7cu8]);
    assert(ending.take(2) =~= seq![0x7cu8, 0x7cu8]);
    let body = payload.skip(4);
    let cut = ending.skip(4);
    assert(body.take(declared) =~= cut);
    assert(cut.take(declared) =~= cut);
    let whole = control_fields(payload);
    let ended = control_fields(ending);
    assert(whole.skip(3) =~= factory_fields(cut));
    assert(ended.skip(2) =~= factory_fields(cut));
}

/// A response without a marker shows no address and no value, and neither does one whose
/// record is cut short or holds another character than a digit where one is due.
pub proof fn broken_records_are_not_shown(payload: Seq<u8>, marker: int, place: int)
    requires
        forall|i: int| 0 <= i < payload.len() ==> #[trigger] payload[i] < 0x80,
        payload.len() > 0,
        payload[0] == 0x40,
        (forall|i: int|
            0 <= i && i + 2 < payload.len() ==> !(#[trigger] payload[i] == 0x45 && payload[i + 1]
                == 0x45 && payload[i + 2] == 0x3a)) || (0 <= marker && marker + 2 < payload.len()
            && payload[marker] == 0x45 && payload[marker + 1] == 0x45 && payload[marker + 2] == 0x3a
            && (forall|i: int|
            0 <= i < marker ==> !(#[trigger] payload[i] == 0x45 && payload[i + 1] == 0x45
                && payload[i + 2] == 0x3a)) && (marker + 9 >= payload.len() || payload[marker + 9]
            != 0x3b || (3 <= place < 9 && !(0x30 <= payload[marker + place] <= 0x39) && !(0x41
            <= payload[marker + place] <= 0x46) && !(0x61 <= payload[marker + place] <= 0x66)))),
    ensures
        control_fields(payload) == seq!["response=ascii"@, "ascii="@ + response_text(payload)],
{
    assert(all_ascii(payload));
    assert(payload.subrange(0, 1) =~= seq![0x40u8]);
    assert(begins_with(payload, seq![0x40u8]));
    if occurs(payload, record_marker()) {
        let chosen = choose|index: int| first_at(payload, record_marker(), index);
        if 0 <= marker && marker + 2 < payload.len() && payload[marker] == 0x45 && payload[marker
            + 1] == 0x45 && payload[marker + 2] == 0x3a && (forall|i: int|
            0 <= i < marker ==> !(#[trigger] payload[i] == 0x45 && payload[i + 1] == 0x45
                && payload[i + 2] == 0x3a)) {
            lemma_marker_first(payload, marker);
            lemma_first_at_unique(payload, record_marker(), chosen, marker);
        } else {
            let at = choose|at: int| occurs_at(payload, record_marker(), at);
            let part = payload.subrange(at, at + 3);
            assert(part[0] == payload[at] && part[1] == payload[at + 1] && part[2] == payload[at
                + 2]);
        }
    }
}

/// The record that is shown of a response is the one that is read from it where addresses
/// have two bytes, and there is none where nothing can be read.
pub proof fn shown_records_are_those_that_are_read(payload: Seq<u8>)
    requires
        valid_utf8(payload),
    ensures
        response_record(payload) == (match reply_of(payload, AddressWidth::Two) {
            Ok(reply) => Some((reply.address, reply.value)),
            Err(_) => None,
        }),
{
    if occurs(payload, record_marker()) {
        let marker = choose|marker: int| first_at(payload, record_marker(), marker);
        let at = choose|at: int| occurs_at(payload, record_marker(), at);
        lemma_some_first(payload, at);
        assert(first_at(payload, record_marker(), marker));
        assert(0 <= marker);
        let end = marker + 9;
        if payload.len() > end {
            let digits = payload.subrange(marker + 3, end);
            assert(digits[0] == payload[marker + 3] && digits[1] == payload[marker + 4]
                && digits[2] == payload[marker + 5] && digits[3] == payload[marker + 6]
                && digits[4] == payload[marker + 7] && digits[5] == payload[marker + 8]);
        }
    }
}

proof fn lemma_some_first(payload: Seq<u8>, at: int)
    requires
        occurs_at(payload, record_marker(), at),
    ensures
        exists|first: int| first_at(payload, record_marker(), first),
    decreases at,
{
    if exists|earlier: int|
        0 <= earlier < at && #[trigger] occurs_at(payload, record_marker(), earlier) {
        let earlier = choose|earlier: int|
            0 <= earlier < at && #[trigger] occurs_at(payload, record_marker(), earlier);
        lemma_some_first(payload, earlier);
    } else {
        assert(first_at(payload, record_marker(), at));
    }
}

/// The names of the revisions in a summary.
pub proof fn revisions_have_their_names(revision: ProtocolRevision)
    ensures
        revision_name(revision) == (if revision == ProtocolRevision::V10 {
            seq!['V', '1', '0']
        } else {
            seq!['V', '2', '0']
        }),
{
    reveal_strlit("V10");
    reveal_strlit("V20");
    assert("V10"@ =~= seq!['V', '1', '0']);
    assert("V20"@ =~= seq!['V', '2', '0']);
}

} // verus!
