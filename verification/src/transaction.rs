//! Messages of the IEEE 1284.4 transaction channel.
use crate::packet::{be_bytes, be_value};
use crate::text::{dec, hex_lower};
use vstd::prelude::*;
use vstd::utf8::is_ascii_chars;

verus! {

/// The longest payload of a transaction-channel packet.
pub const MAX_TRANSACTION_PAYLOAD_LENGTH: usize = 58;

/// The longest service name.
pub const MAX_SERVICE_NAME_LENGTH: usize = 40;

/// A protocol revision that both ends can agree on.
#[derive(Clone, Copy, Debug, PartialEq, Eq, Structural)]
pub enum ProtocolRevision {
    V10,
    V20,
}

/// A malformed transaction-channel message.
#[derive(Clone, Copy, Debug, PartialEq, Eq)]
pub enum TransactionParseError {
    Truncated { message: &'static str },
    UnknownCode { code: u8 },
    UnsupportedRevision { revision: u8 },
    NonAsciiServiceName,
    InvalidServiceName,
    MessageTooLarge { actual: usize },
}

/// The revision that a byte stands for.
pub open spec fn revision_of(byte: u8) -> Result<ProtocolRevision, TransactionParseError> {
    if byte == 0x10 {
        Ok(ProtocolRevision::V10)
    } else if byte == 0x20 {
        Ok(ProtocolRevision::V20)
    } else {
        Err(TransactionParseError::UnsupportedRevision { revision: byte })
    }
}

/// The byte that stands for a revision.
pub open spec fn revision_byte(revision: ProtocolRevision) -> u8 {
    match revision {
        ProtocolRevision::V10 => 0x10,
        ProtocolRevision::V20 => 0x20,
    }
}

impl ProtocolRevision {
    pub fn as_byte(self) -> (byte: u8)
        ensures
            byte == revision_byte(self),
    {
        match self {
            ProtocolRevision::V10 => 0x10,
            ProtocolRevision::V20 => 0x20,
        }
    }

    pub fn from_byte(revision: u8) -> (parsed: Result<Self, TransactionParseError>)
        ensures
            parsed == revision_of(revision),
    {
        if revision == 0x10 {
            Ok(ProtocolRevision::V10)
        } else if revision == 0x20 {
            Ok(ProtocolRevision::V20)
        } else {
            Err(TransactionParseError::UnsupportedRevision { revision })
        }
    }
}

/// An IEEE 1284.4 transaction-channel message.
#[derive(Clone, Debug, PartialEq, Eq)]
pub enum TransactionMessage {
    Init { revision: ProtocolRevision },
    InitReply { result: u8, revision: ProtocolRevision },
    OpenChannel {
        peer_socket: u8,
        source_socket: u8,
        max_packet_size: u16,
        max_service_size: u16,
        max_credit: u16,
        initial_credit: Option<u16>,
    },
    OpenChannelReply {
        result: u8,
        peer_socket: u8,
        source_socket: u8,
        max_packet_size: u16,
        max_service_size: u16,
        max_credit: u16,
        granted_credit: u16,
    },
    CloseChannel { peer_socket: u8, source_socket: u8 },
    CloseChannelReply { result: u8, peer_socket: u8, source_socket: u8 },
    Credit { peer_socket: u8, source_socket: u8, added_credit: u16 },
    CreditReply { result: u8, peer_socket: u8, source_socket: u8 },
    CreditRequest { peer_socket: u8, source_socket: u8, max_credit: u16 },
    CreditRequestReply { result: u8, peer_socket: u8, source_socket: u8, added_credit: u16 },
    Exit,
    ExitReply { result: u8 },
    GetSocketId { service_name: String },
    GetSocketIdReply { result: u8, socket_id: u8, service_name: String },
    GetServiceName { socket_id: u8 },
    GetServiceNameReply { result: u8, socket_id: u8, service_name: String },
    Error { peer_socket: u8, source_socket: u8, error_code: u8 },
}

/// The contents of a transaction-channel message.
pub enum MessageView {
    Init { revision: ProtocolRevision },
    InitReply { result: u8, revision: ProtocolRevision },
    OpenChannel {
        peer_socket: u8,
        source_socket: u8,
        max_packet_size: u16,
        max_service_size: u16,
        max_credit: u16,
        initial_credit: Option<u16>,
    },
    OpenChannelReply {
        result: u8,
        peer_socket: u8,
        source_socket: u8,
        max_packet_size: u16,
        max_service_size: u16,
        max_credit: u16,
        granted_credit: u16,
    },
    CloseChannel { peer_socket: u8, source_socket: u8 },
    CloseChannelReply { result: u8, peer_socket: u8, source_socket: u8 },
    Credit { peer_socket: u8, source_socket: u8, added_credit: u16 },
    CreditReply { result: u8, peer_socket: u8, source_socket: u8 },
    CreditRequest { peer_socket: u8, source_socket: u8, max_credit: u16 },
    CreditRequestReply { result: u8, peer_socket: u8, source_socket: u8, added_credit: u16 },
    Exit,
    ExitReply { result: u8 },
    GetSocketId { service_name: Seq<char> },
    GetSocketIdReply { result: u8, socket_id: u8, service_name: Seq<char> },
    GetServiceName { socket_id: u8 },
    GetServiceNameReply { result: u8, socket_id: u8, service_name: Seq<char> },
    Error { peer_socket: u8, source_socket: u8, error_code: u8 },
}

impl View for TransactionMessage {
    type V = MessageView;

    open spec fn view(&self) -> MessageView {
        match *self {
            TransactionMessage::Init { revision } => MessageView::Init { revision },
            TransactionMessage::InitReply { result, revision } => MessageView::InitReply {
                result,
                revision,
            },
            TransactionMessage::OpenChannel {
                peer_socket,
                source_socket,
                max_packet_size,
                max_service_size,
                max_credit,
                initial_credit,
            } => MessageView::OpenChannel {
                peer_socket,
                source_socket,
                max_packet_size,
                max_service_size,
                max_credit,
                initial_credit,
            },
            TransactionMessage::OpenChannelReply {
                result,
                peer_socket,
                source_socket,
                max_packet_size,
                max_service_size,
                max_credit,
                granted_credit,
            } => MessageView::OpenChannelReply {
                result,
                peer_socket,
                source_socket,
                max_packet_size,
                max_service_size,
                max_credit,
                granted_credit,
            },
            TransactionMessage::CloseChannel { peer_socket, source_socket } =>
                MessageView::CloseChannel { peer_socket, source_socket },
            TransactionMessage::CloseChannelReply { result, peer_socket, source_socket } =>
                MessageView::CloseChannelReply { result, peer_socket, source_socket },
            TransactionMessage::Credit { peer_socket, source_socket, added_credit } =>
                MessageView::Credit { peer_socket, source_socket, added_credit },
            TransactionMessage::CreditReply { result, peer_socket, source_socket } =>
                MessageView::CreditReply { result, peer_socket, source_socket },
            TransactionMessage::CreditRequest { peer_socket, source_socket, max_credit } =>
                MessageView::CreditRequest { peer_socket, source_socket, max_credit },
            TransactionMessage::CreditRequestReply {
                result,
                peer_socket,
                source_socket,
                added_credit,
            } => MessageView::CreditRequestReply {
                result,
                peer_socket,
                source_socket,
                added_credit,
            },
            TransactionMessage::Exit => MessageView::Exit,
            TransactionMessage::ExitReply { result } => MessageView::ExitReply { result },
            TransactionMessage::GetSocketId { service_name } => MessageView::GetSocketId {
                service_name: service_name@,
            },
            TransactionMessage::GetSocketIdReply { result, socket_id, service_name } =>
                MessageView::GetSocketIdReply { result, socket_id, service_name: service_name@ },
            TransactionMessage::GetServiceName { socket_id } => MessageView::GetServiceName {
                socket_id,
            },
            TransactionMessage::GetServiceNameReply { result, socket_id, service_name } =>
                MessageView::GetServiceNameReply { result, socket_id, service_name: service_name@ },
            TransactionMessage::Error { peer_socket, source_socket, error_code } =>
                MessageView::Error { peer_socket, source_socket, error_code },
        }
    }
}

/// The first byte of a message.
pub open spec fn message_code(message: MessageView) -> u8 {
    match message {
        MessageView::Init { .. } => 0x00,
        MessageView::InitReply { .. } => 0x80,
        MessageView::OpenChannel { .. } => 0x01,
        MessageView::OpenChannelReply { .. } => 0x81,
        MessageView::CloseChannel { .. } => 0x02,
        MessageView::CloseChannelReply { .. } => 0x82,
        MessageView::Credit { .. } => 0x03,
        MessageView::CreditReply { .. } => 0x83,
        MessageView::CreditRequest { .. } => 0x04,
        MessageView::CreditRequestReply { .. } => 0x84,
        MessageView::Exit => 0x08,
        MessageView::ExitReply { .. } => 0x88,
        MessageView::GetSocketId { .. } => 0x09,
        MessageView::GetSocketIdReply { .. } => 0x89,
        MessageView::GetServiceName { .. } => 0x0a,
        MessageView::GetServiceNameReply { .. } => 0x8a,
        MessageView::Error { .. } => 0x7f,
    }
}

/// The code of the reply to a message.
pub open spec fn message_reply_code(message: MessageView) -> u8 {
    let code = message_code(message);
    if code < 0x80 {
        (code + 0x80) as u8
    } else {
        code
    }
}

/// The character may stand in a service name.
pub open spec fn service_character(c: char) -> bool {
    'A' <= c <= 'Z' || '0' <= c <= '9' || c == '-'
}

/// The text is a service name: upper-case letters, digits and hyphens, a letter
/// first and no hyphen last.
pub open spec fn valid_service_name(name: Seq<char>) -> bool {
    &&& 1 <= name.len() <= MAX_SERVICE_NAME_LENGTH
    &&& forall|i: int| 0 <= i < name.len() ==> service_character(#[trigger] name[i])
    &&& 'A' <= name[0] <= 'Z'
    &&& name.last() != '-'
}

/// What keeps a text from being sent as a service name.
pub open spec fn service_name_error(name: Seq<char>) -> Option<TransactionParseError> {
    if !is_ascii_chars(name) {
        Some(TransactionParseError::NonAsciiServiceName)
    } else if !valid_service_name(name) {
        Some(TransactionParseError::InvalidServiceName)
    } else {
        None
    }
}

/// The bytes of an ASCII text.
pub open spec fn ascii_bytes(text: Seq<char>) -> Seq<u8> {
    Seq::new(text.len(), |i: int| text[i] as u8)
}

/// The text that ASCII bytes stand for.
pub open spec fn ascii_text(bytes: Seq<u8>) -> Seq<char> {
    Seq::new(bytes.len(), |i: int| bytes[i] as char)
}

/// Every byte is ASCII.
pub open spec fn all_ascii(bytes: Seq<u8>) -> bool {
    forall|i: int| 0 <= i < bytes.len() ==> #[trigger] bytes[i] < 0x80
}

/// The service name that a message sends, where it sends one.
pub open spec fn sent_service_name(message: MessageView) -> Option<Seq<char>> {
    match message {
        MessageView::GetSocketId { service_name } => Some(service_name),
        MessageView::GetSocketIdReply { result, service_name, .. } => if result == 0 {
            Some(service_name)
        } else {
            None
        },
        MessageView::GetServiceNameReply { result, service_name, .. } => if result == 0 {
            Some(service_name)
        } else {
            None
        },
        _ => None,
    }
}

/// The bytes that stand for a message under a revision.
pub open spec fn message_layout(message: MessageView, revision: ProtocolRevision) -> Seq<u8> {
    match message {
        MessageView::Init { revision } => seq![0x00u8, revision_byte(revision)],
        MessageView::InitReply { result, revision } => seq![0x80u8, result, revision_byte(revision)],
        MessageView::OpenChannel {
            peer_socket,
            source_socket,
            max_packet_size,
            max_service_size,
            max_credit,
            initial_credit,
        } => {
            let common = seq![0x01u8, peer_socket, source_socket] + be_bytes(max_packet_size)
                + be_bytes(max_service_size) + be_bytes(max_credit);
            if revision == ProtocolRevision::V10 {
                common + be_bytes(
                    match initial_credit {
                        Some(credit) => credit,
                        None => 0,
                    },
                )
            } else {
                common
            }
        },
        MessageView::OpenChannelReply {
            result,
            peer_socket,
            source_socket,
            max_packet_size,
            max_service_size,
            max_credit,
            granted_credit,
        } => seq![0x81u8, result, peer_socket, source_socket] + be_bytes(max_packet_size)
            + be_bytes(max_service_size) + be_bytes(max_credit) + be_bytes(granted_credit),
        MessageView::CloseChannel { peer_socket, source_socket } => if revision
            == ProtocolRevision::V10 {
            seq![0x02u8, peer_socket, source_socket, 0u8]
        } else {
            seq![0x02u8, peer_socket, source_socket]
        },
        MessageView::CloseChannelReply { result, peer_socket, source_socket } => seq![
            0x82u8,
            result,
            peer_socket,
            source_socket,
        ],
        MessageView::Credit { peer_socket, source_socket, added_credit } => seq![
            0x03u8,
            peer_socket,
            source_socket,
        ] + be_bytes(added_credit),
        MessageView::CreditReply { result, peer_socket, source_socket } => seq![
            0x83u8,
            result,
            peer_socket,
            source_socket,
        ],
        MessageView::CreditRequest { peer_socket, source_socket, max_credit } => if revision
            == ProtocolRevision::V10 {
            seq![0x04u8, peer_socket, source_socket] + be_bytes(0x0080) + be_bytes(0xffff)
        } else {
            seq![0x04u8, peer_socket, source_socket] + be_bytes(max_credit)
        },
        MessageView::CreditRequestReply { result, peer_socket, source_socket, added_credit } =>
            seq![0x84u8, result, peer_socket, source_socket] + be_bytes(added_credit),
        MessageView::Exit => seq![0x08u8],
        MessageView::ExitReply { result } => seq![0x88u8, result],
        MessageView::GetSocketId { service_name } => seq![0x09u8] + ascii_bytes(service_name),
        MessageView::GetSocketIdReply { result, socket_id, service_name } => seq![
            0x89u8,
            result,
            socket_id,
        ] + (if result == 0 {
            ascii_bytes(service_name)
        } else {
            seq![]
        }),
        MessageView::GetServiceName { socket_id } => seq![0x0au8, socket_id],
        MessageView::GetServiceNameReply { result, socket_id, service_name } => seq![
            0x8au8,
            result,
            socket_id,
        ] + (if result == 0 {
            ascii_bytes(service_name)
        } else {
            seq![]
        }),
        MessageView::Error { peer_socket, source_socket, error_code } => seq![
            0x7fu8,
            peer_socket,
            source_socket,
            error_code,
        ],
    }
}

/// The encoding of a message, or why it has none.
pub open spec fn message_bytes(message: MessageView, revision: ProtocolRevision) -> Result<
    Seq<u8>,
    TransactionParseError,
> {
    let name_error = match sent_service_name(message) {
        Some(name) => service_name_error(name),
        None => None,
    };
    match name_error {
        Some(error) => Err(error),
        None => Ok(message_layout(message, revision)),
    }
}

/// How many bytes must follow a message code, for the codes that there are.
pub open spec fn fields_length(code: u8, revision: ProtocolRevision) -> Option<nat> {
    if code == 0x08 || code == 0x09 {
        Some(0)
    } else if code == 0x00 || code == 0x88 || code == 0x0a {
        Some(1)
    } else if code == 0x80 || code == 0x02 || code == 0x89 || code == 0x8a {
        Some(2)
    } else if code == 0x82 || code == 0x83 || code == 0x7f {
        Some(3)
    } else if code == 0x03 {
        Some(4)
    } else if code == 0x04 {
        Some(
            if revision == ProtocolRevision::V10 {
                2
            } else {
                4
            },
        )
    } else if code == 0x84 {
        Some(5)
    } else if code == 0x01 {
        Some(
            if revision == ProtocolRevision::V10 {
                10
            } else {
                8
            },
        )
    } else if code == 0x81 {
        Some(11)
    } else {
        None
    }
}

/// The 16-bit number at a position.
pub open spec fn be_at(bytes: Seq<u8>, index: int) -> u16 {
    be_value(bytes[index], bytes[index + 1])
}

/// The message that bytes stand for under a revision, or what is wrong with them.
pub open spec fn message_of(bytes: Seq<u8>, revision: ProtocolRevision) -> Result<
    MessageView,
    TransactionParseError,
> {
    if bytes.len() == 0 {
        Err(TransactionParseError::Truncated { message: "transaction code" })
    } else {
        let code = bytes[0];
        match fields_length(code, revision) {
            None => Err(TransactionParseError::UnknownCode { code }),
            Some(length) => if bytes.len() < 1 + length {
                Err(TransactionParseError::Truncated { message: "transaction field" })
            } else {
                complete_message(bytes, revision)
            },
        }
    }
}

/// The message that bytes with a known code and all of its fields stand for.
pub open spec fn complete_message(bytes: Seq<u8>, revision: ProtocolRevision) -> Result<
    MessageView,
    TransactionParseError,
> {
    let code = bytes[0];
    if code == 0x00 {
        match revision_of(bytes[1]) {
            Ok(revision) => Ok(MessageView::Init { revision }),
            Err(error) => Err(error),
        }
    } else if code == 0x80 {
        match revision_of(bytes[2]) {
            Ok(revision) => Ok(MessageView::InitReply { result: bytes[1], revision }),
            Err(error) => Err(error),
        }
    } else if code == 0x01 {
        Ok(
            MessageView::OpenChannel {
                peer_socket: bytes[1],
                source_socket: bytes[2],
                max_packet_size: be_at(bytes, 3),
                max_service_size: be_at(bytes, 5),
                max_credit: be_at(bytes, 7),
                initial_credit: if revision == ProtocolRevision::V10 {
                    Some(be_at(bytes, 9))
                } else {
                    None
                },
            },
        )
    } else if code == 0x81 {
        Ok(
            MessageView::OpenChannelReply {
                result: bytes[1],
                peer_socket: bytes[2],
                source_socket: bytes[3],
                max_packet_size: be_at(bytes, 4),
                max_service_size: be_at(bytes, 6),
                max_credit: be_at(bytes, 8),
                granted_credit: be_at(bytes, 10),
            },
        )
    } else if code == 0x02 {
        Ok(MessageView::CloseChannel { peer_socket: bytes[1], source_socket: bytes[2] })
    } else if code == 0x82 {
        Ok(
            MessageView::CloseChannelReply {
                result: bytes[1],
                peer_socket: bytes[2],
                source_socket: bytes[3],
            },
        )
    } else if code == 0x03 {
        Ok(
            MessageView::Credit {
                peer_socket: bytes[1],
                source_socket: bytes[2],
                added_credit: be_at(bytes, 3),
            },
        )
    } else if code == 0x83 {
        Ok(
            MessageView::CreditReply {
                result: bytes[1],
                peer_socket: bytes[2],
                source_socket: bytes[3],
            },
        )
    } else if code == 0x04 {
        Ok(
            MessageView::CreditRequest {
                peer_socket: bytes[1],
                source_socket: bytes[2],
                max_credit: if revision == ProtocolRevision::V10 {
                    0
                } else {
                    be_at(bytes, 3)
                },
            },
        )
    } else if code == 0x84 {
        Ok(
            MessageView::CreditRequestReply {
                result: bytes[1],
                peer_socket: bytes[2],
                source_socket: bytes[3],
                added_credit: be_at(bytes, 4),
            },
        )
    } else if code == 0x08 {
        Ok(MessageView::Exit)
    } else if code == 0x88 {
        Ok(MessageView::ExitReply { result: bytes[1] })
    } else if code == 0x0a {
        Ok(MessageView::GetServiceName { socket_id: bytes[1] })
    } else if code == 0x7f {
        Ok(
            MessageView::Error {
                peer_socket: bytes[1],
                source_socket: bytes[2],
                error_code: bytes[3],
            },
        )
    } else {
        let name = bytes.skip(
            if code == 0x09 {
                1
            } else {
                3
            },
        );
        if !all_ascii(name) {
            Err(TransactionParseError::NonAsciiServiceName)
        } else if code == 0x09 {
            Ok(MessageView::GetSocketId { service_name: ascii_text(name) })
        } else if code == 0x89 {
            Ok(
                MessageView::GetSocketIdReply {
                    result: bytes[1],
                    socket_id: bytes[2],
                    service_name: ascii_text(name),
                },
            )
        } else {
            Ok(
                MessageView::GetServiceNameReply {
                    result: bytes[1],
                    socket_id: bytes[2],
                    service_name: ascii_text(name),
                },
            )
        }
    }
}

impl TransactionMessage {
    /// The first byte of the encoded message.
    pub fn code(&self) -> (code: u8)
        ensures
            code == message_code(self@),
    {
        match self {
            TransactionMessage::Init { .. } => 0x00,
            TransactionMessage::InitReply { .. } => 0x80,
            TransactionMessage::OpenChannel { .. } => 0x01,
            TransactionMessage::OpenChannelReply { .. } => 0x81,
            TransactionMessage::CloseChannel { .. } => 0x02,
            TransactionMessage::CloseChannelReply { .. } => 0x82,
            TransactionMessage::Credit { .. } => 0x03,
            TransactionMessage::CreditReply { .. } => 0x83,
            TransactionMessage::CreditRequest { .. } => 0x04,
            TransactionMessage::CreditRequestReply { .. } => 0x84,
            TransactionMessage::Exit => 0x08,
            TransactionMessage::ExitReply { .. } => 0x88,
            TransactionMessage::GetSocketId { .. } => 0x09,
            TransactionMessage::GetSocketIdReply { .. } => 0x89,
            TransactionMessage::GetServiceName { .. } => 0x0a,
            TransactionMessage::GetServiceNameReply { .. } => 0x8a,
            TransactionMessage::Error { .. } => 0x7f,
        }
    }

    /// The code of the reply to this message.
    pub fn reply_code(&self) -> (code: u8)
        ensures
            code == message_reply_code(self@),
    {
        let code: u8 = self.code();
        assert(code < 0x80 ==> code | 0x80 == code + 0x80) by (bit_vector);
        assert(code >= 0x80 ==> code | 0x80 == code) by (bit_vector);
        code | 0x80
    }

    /// Whether the message asks for something rather than replies.
    pub fn is_command(&self) -> (command: bool)
        ensures
            command == (message_code(self@) < 0x80),
    {
        self.code() < 0x80
    }

    /// Encodes the message under a revision.
    pub fn encode(&self, revision: ProtocolRevision) -> (encoded: Result<
        Vec<u8>,
        TransactionParseError,
    >)
        ensures
            match (encoded, message_bytes(self@, revision)) {
                (Ok(encoded), Ok(bytes)) => encoded@ == bytes && bytes.len()
                    <= MAX_TRANSACTION_PAYLOAD_LENGTH,
                (Err(error), Err(expected)) => error == expected,
                _ => false,
            },
    {
        let mut encoded: Vec<u8> = Vec::new();
        match self {
            TransactionMessage::Init { revision } => {
                push_bytes(&mut encoded, &[0x00, revision.as_byte()]);
            },
            TransactionMessage::InitReply { result, revision } => {
                push_bytes(&mut encoded, &[0x80, *result, revision.as_byte()]);
            },
            TransactionMessage::OpenChannel {
                peer_socket,
                source_socket,
                max_packet_size,
                max_service_size,
                max_credit,
                initial_credit,
            } => {
                push_bytes(&mut encoded, &[0x01, *peer_socket, *source_socket]);
                push_u16(&mut encoded, *max_packet_size);
                push_u16(&mut encoded, *max_service_size);
                push_u16(&mut encoded, *max_credit);
                if revision == ProtocolRevision::V10 {
                    match initial_credit {
                        Some(credit) => push_u16(&mut encoded, *credit),
                        None => push_u16(&mut encoded, 0),
                    }
                }
            },
            TransactionMessage::OpenChannelReply {
                result,
                peer_socket,
                source_socket,
                max_packet_size,
                max_service_size,
                max_credit,
                granted_credit,
            } => {
                push_bytes(&mut encoded, &[0x81, *result, *peer_socket, *source_socket]);
                push_u16(&mut encoded, *max_packet_size);
                push_u16(&mut encoded, *max_service_size);
                push_u16(&mut encoded, *max_credit);
                push_u16(&mut encoded, *granted_credit);
            },
            TransactionMessage::CloseChannel { peer_socket, source_socket } => {
                push_bytes(&mut encoded, &[0x02, *peer_socket, *source_socket]);
                if revision == ProtocolRevision::V10 {
                    encoded.push(0);
                }
            },
            TransactionMessage::CloseChannelReply { result, peer_socket, source_socket } => {
                push_bytes(&mut encoded, &[0x82, *result, *peer_socket, *source_socket]);
            },
            TransactionMessage::Credit { peer_socket, source_socket, added_credit } => {
                push_bytes(&mut encoded, &[0x03, *peer_socket, *source_socket]);
                push_u16(&mut encoded, *added_credit);
            },
            TransactionMessage::CreditReply { result, peer_socket, source_socket } => {
                push_bytes(&mut encoded, &[0x83, *result, *peer_socket, *source_socket]);
            },
            TransactionMessage::CreditRequest { peer_socket, source_socket, max_credit } => {
                push_bytes(&mut encoded, &[0x04, *peer_socket, *source_socket]);
                if revision == ProtocolRevision::V10 {
                    push_u16(&mut encoded, 0x0080);
                    push_u16(&mut encoded, 0xffff);
                } else {
                    push_u16(&mut encoded, *max_credit);
                }
            },
            TransactionMessage::CreditRequestReply {
                result,
                peer_socket,
                source_socket,
                added_credit,
            } => {
                push_bytes(&mut encoded, &[0x84, *result, *peer_socket, *source_socket]);
                push_u16(&mut encoded, *added_credit);
            },
            TransactionMessage::Exit => {
                encoded.push(0x08);
            },
            TransactionMessage::ExitReply { result } => {
                push_bytes(&mut encoded, &[0x88, *result]);
            },
            TransactionMessage::GetSocketId { service_name } => {
                encoded.push(0x09);
                match ascii(service_name.as_str()) {
                    Ok(name) => push_bytes(&mut encoded, name),
                    Err(error) => return Err(error),
                }
            },
            TransactionMessage::GetSocketIdReply { result, socket_id, service_name } => {
                push_bytes(&mut encoded, &[0x89, *result, *socket_id]);
                if *result == 0 {
                    match ascii(service_name.as_str()) {
                        Ok(name) => push_bytes(&mut encoded, name),
                        Err(error) => return Err(error),
                    }
                }
            },
            TransactionMessage::GetServiceName { socket_id } => {
                push_bytes(&mut encoded, &[0x0a, *socket_id]);
            },
            TransactionMessage::GetServiceNameReply { result, socket_id, service_name } => {
                push_bytes(&mut encoded, &[0x8a, *result, *socket_id]);
                if *result == 0 {
                    match ascii(service_name.as_str()) {
                        Ok(name) => push_bytes(&mut encoded, name),
                        Err(error) => return Err(error),
                    }
                }
            },
            TransactionMessage::Error { peer_socket, source_socket, error_code } => {
                push_bytes(&mut encoded, &[0x7f, *peer_socket, *source_socket, *error_code]);
            },
        }
        proof {
            assert(encoded@ =~= message_layout(self@, revision));
        }
        if encoded.len() > MAX_TRANSACTION_PAYLOAD_LENGTH {
            return Err(TransactionParseError::MessageTooLarge { actual: encoded.len() });
        }
        Ok(encoded)
    }

    /// Decodes a message under a revision.
    pub fn decode(bytes: &[u8], revision: ProtocolRevision) -> (message: Result<
        Self,
        TransactionParseError,
    >)
        ensures
            match (message, message_of(bytes@, revision)) {
                (Ok(message), Ok(expected)) => message@ == expected,
                (Err(error), Err(expected)) => error == expected,
                _ => false,
            },
    {
        if bytes.len() == 0 {
            return Err(TransactionParseError::Truncated { message: "transaction code" });
        }
        let code: u8 = bytes[0];
        match code {
            0x00 => {
                let revision = match ProtocolRevision::from_byte(byte(bytes, 1)?) {
                    Ok(revision) => revision,
                    Err(error) => return Err(error),
                };
                Ok(TransactionMessage::Init { revision })
            },
            0x80 => {
                let result: u8 = byte(bytes, 1)?;
                let revision = match ProtocolRevision::from_byte(byte(bytes, 2)?) {
                    Ok(revision) => revision,
                    Err(error) => return Err(error),
                };
                Ok(TransactionMessage::InitReply { result, revision })
            },
            0x01 => {
                let initial_credit: Option<u16> = if revision == ProtocolRevision::V10 {
                    Some(u16_at(bytes, 9)?)
                } else {
                    None
                };
                Ok(
                    TransactionMessage::OpenChannel {
                        peer_socket: byte(bytes, 1)?,
                        source_socket: byte(bytes, 2)?,
                        max_packet_size: u16_at(bytes, 3)?,
                        max_service_size: u16_at(bytes, 5)?,
                        max_credit: u16_at(bytes, 7)?,
                        initial_credit,
                    },
                )
            },
            0x81 => Ok(
                TransactionMessage::OpenChannelReply {
                    result: byte(bytes, 1)?,
                    peer_socket: byte(bytes, 2)?,
                    source_socket: byte(bytes, 3)?,
                    max_packet_size: u16_at(bytes, 4)?,
                    max_service_size: u16_at(bytes, 6)?,
                    max_credit: u16_at(bytes, 8)?,
                    granted_credit: u16_at(bytes, 10)?,
                },
            ),
            0x02 => Ok(
                TransactionMessage::CloseChannel {
                    peer_socket: byte(bytes, 1)?,
                    source_socket: byte(bytes, 2)?,
                },
            ),
            0x82 => Ok(
                TransactionMessage::CloseChannelReply {
                    result: byte(bytes, 1)?,
                    peer_socket: byte(bytes, 2)?,
                    source_socket: byte(bytes, 3)?,
                },
            ),
            0x03 => Ok(
                TransactionMessage::Credit {
                    peer_socket: byte(bytes, 1)?,
                    source_socket: byte(bytes, 2)?,
                    added_credit: u16_at(bytes, 3)?,
                },
            ),
            0x83 => Ok(
                TransactionMessage::CreditReply {
                    result: byte(bytes, 1)?,
                    peer_socket: byte(bytes, 2)?,
                    source_socket: byte(bytes, 3)?,
                },
            ),
            0x04 => Ok(
                TransactionMessage::CreditRequest {
                    peer_socket: byte(bytes, 1)?,
                    source_socket: byte(bytes, 2)?,
                    max_credit: if revision == ProtocolRevision::V10 {
                        0
                    } else {
                        u16_at(bytes, 3)?
                    },
                },
            ),
            0x84 => Ok(
                TransactionMessage::CreditRequestReply {
                    result: byte(bytes, 1)?,
                    peer_socket: byte(bytes, 2)?,
                    source_socket: byte(bytes, 3)?,
                    added_credit: u16_at(bytes, 4)?,
                },
            ),
            0x08 => Ok(TransactionMessage::Exit),
            0x88 => Ok(TransactionMessage::ExitReply { result: byte(bytes, 1)? }),
            0x09 => Ok(TransactionMessage::GetSocketId { service_name: ascii_from(bytes, 1)? }),
            0x89 => Ok(
                TransactionMessage::GetSocketIdReply {
                    result: byte(bytes, 1)?,
                    socket_id: byte(bytes, 2)?,
                    service_name: ascii_from(bytes, 3)?,
                },
            ),
            0x0a => Ok(TransactionMessage::GetServiceName { socket_id: byte(bytes, 1)? }),
            0x8a => Ok(
                TransactionMessage::GetServiceNameReply {
                    result: byte(bytes, 1)?,
                    socket_id: byte(bytes, 2)?,
                    service_name: ascii_from(bytes, 3)?,
                },
            ),
            0x7f => Ok(
                TransactionMessage::Error {
                    peer_socket: byte(bytes, 1)?,
                    source_socket: byte(bytes, 2)?,
                    error_code: byte(bytes, 3)?,
                },
            ),
            _ => Err(TransactionParseError::UnknownCode { code }),
        }
    }
}

fn push_bytes(encoded: &mut Vec<u8>, bytes: &[u8])
    ensures
        final(encoded)@ == old(encoded)@ + bytes@,
{
    encoded.extend_from_slice(bytes);
    proof {
        assert(encoded@ =~= old(encoded)@ + bytes@);
    }
}

fn push_u16(encoded: &mut Vec<u8>, value: u16)
    ensures
        final(encoded)@ == old(encoded)@ + be_bytes(value),
{
    encoded.push((value / 256) as u8);
    encoded.push((value % 256) as u8);
    proof {
        assert(encoded@ =~= old(encoded)@ + be_bytes(value));
    }
}

fn byte(bytes: &[u8], index: usize) -> (value: Result<u8, TransactionParseError>)
    ensures
        value == (if index < bytes@.len() {
            Ok(bytes@[index as int])
        } else {
            Err(TransactionParseError::Truncated { message: "transaction field" })
        }),
{
    if index < bytes.len() {
        Ok(bytes[index])
    } else {
        Err(TransactionParseError::Truncated { message: "transaction field" })
    }
}

fn u16_at(bytes: &[u8], index: usize) -> (value: Result<u16, TransactionParseError>)
    requires
        index < usize::MAX,
    ensures
        value == (if index + 1 < bytes@.len() {
            Ok(be_at(bytes@, index as int))
        } else {
            Err(TransactionParseError::Truncated { message: "transaction field" })
        }),
{
    let high: u8 = byte(bytes, index)?;
    let low: u8 = byte(bytes, index + 1)?;
    Ok(high as u16 * 256 + low as u16)
}

/// The bytes of a service name, if it is one.
fn ascii(value: &str) -> (bytes: Result<&[u8], TransactionParseError>)
    ensures
        match (bytes, service_name_error(value@)) {
            (Ok(bytes), None) => bytes@ == ascii_bytes(value@),
            (Err(error), Some(expected)) => error == expected,
            _ => false,
        },
{
    if !value.is_ascii() {
        return Err(TransactionParseError::NonAsciiServiceName);
    }
    let bytes: &[u8] = value.as_bytes();
    proof {
        assert(bytes@ =~= ascii_bytes(value@));
        assert(forall|i: int| 0 <= i < bytes@.len() ==> #[trigger] bytes@[i] == value@[i] as u8);
    }
    if bytes.len() == 0 || bytes.len() > MAX_SERVICE_NAME_LENGTH {
        return Err(TransactionParseError::InvalidServiceName);
    }
    let mut index: usize = 0;
    while index < bytes.len()
        invariant
            index <= bytes.len(),
            is_ascii_chars(value@),
            bytes@.len() == value@.len(),
            1 <= bytes@.len() <= MAX_SERVICE_NAME_LENGTH,
            forall|i: int| 0 <= i < bytes@.len() ==> #[trigger] bytes@[i] == value@[i] as u8,
            forall|i: int| 0 <= i < index ==> service_character(#[trigger] value@[i]),
            0 < index ==> 'A' <= value@[0] <= 'Z',
            index == bytes.len() ==> value@.last() != '-',
        decreases bytes.len() - index,
    {
        let character: u8 = bytes[index];
        let letter: bool = 0x41 <= character && character <= 0x5a;
        let digit: bool = 0x30 <= character && character <= 0x39;
        let hyphen: bool = character == 0x2d;
        proof {
            assert(value@[index as int] as u8 == character);
            assert(value@[index as int] as nat <= 0x7f);
            assert(service_character(value@[index as int]) == (letter || digit || hyphen));
        }
        if !(letter || digit || hyphen) || (index == 0 && !letter) || (index + 1 == bytes.len()
            && hyphen) {
            return Err(TransactionParseError::InvalidServiceName);
        }
        index = index + 1;
    }
    Ok(bytes)
}

/// The text from a position on, if it is ASCII. A position behind the end counts
/// as truncation.
fn ascii_from(bytes: &[u8], start: usize) -> (text: Result<String, TransactionParseError>)
    requires
        start <= bytes@.len(),
    ensures
        match text {
            Ok(text) => all_ascii(bytes@.skip(start as int)) && text@ == ascii_text(
                bytes@.skip(start as int),
            ),
            Err(error) => !all_ascii(bytes@.skip(start as int)) && error
                == TransactionParseError::NonAsciiServiceName,
        },
{
    let mut text = String::new();
    let mut index: usize = start;
    while index < bytes.len()
        invariant
            start <= index <= bytes.len(),
            text@ == ascii_text(bytes@.subrange(start as int, index as int)),
            all_ascii(bytes@.subrange(start as int, index as int)),
        decreases bytes.len() - index,
    {
        let character: u8 = bytes[index];
        if character >= 0x80 {
            proof {
                assert(bytes@.skip(start as int)[index - start] == character);
            }
            return Err(TransactionParseError::NonAsciiServiceName);
        }
        text.push(character as char);
        proof {
            let before = bytes@.subrange(start as int, index as int);
            let after = bytes@.subrange(start as int, index + 1);
            assert(after =~= before.push(character));
            assert(text@ =~= ascii_text(after));
            assert forall|i: int| 0 <= i < after.len() implies #[trigger] after[i] < 0x80 by {
                if i < before.len() {
                    assert(before[i] < 0x80);
                }
            }
        }
        index = index + 1;
    }
    proof {
        assert(bytes@.subrange(start as int, bytes.len() as int) =~= bytes@.skip(start as int));
    }
    Ok(text)
}

/// The words for a malformed message.
pub open spec fn transaction_error_text(error: TransactionParseError) -> Seq<char> {
    match error {
        TransactionParseError::Truncated { message } => "truncated "@ + message@,
        TransactionParseError::UnknownCode { code } => "unknown transaction code "@
            + crate::text::prefixed_hex(code as nat, 2),
        TransactionParseError::UnsupportedRevision { revision } =>
            "unsupported IEEE 1284.4 revision "@ + crate::text::prefixed_hex(revision as nat, 2),
        TransactionParseError::NonAsciiServiceName => "service name is not ASCII"@,
        TransactionParseError::InvalidServiceName => "invalid service name"@,
        TransactionParseError::MessageTooLarge { actual } =>
            "transaction payload exceeds 58 bytes: "@ + crate::text::dec_text(actual as nat),
    }
}

impl TransactionParseError {
    /// Describes the error.
    pub fn message(&self) -> (text: String)
        ensures
            text@ == transaction_error_text(*self),
    {
        match self {
            TransactionParseError::Truncated { message } => {
                String::from_str("truncated ").concat(message)
            },
            TransactionParseError::UnknownCode { code } => {
                String::from_str("unknown transaction code ").concat(
                    hex_lower(*code as u64, 2).as_str(),
                )
            },
            TransactionParseError::UnsupportedRevision { revision } => {
                String::from_str("unsupported IEEE 1284.4 revision ").concat(
                    hex_lower(*revision as u64, 2).as_str(),
                )
            },
            TransactionParseError::NonAsciiServiceName => {
                String::from_str("service name is not ASCII")
            },
            TransactionParseError::InvalidServiceName => String::from_str("invalid service name"),
            TransactionParseError::MessageTooLarge { actual } => {
                String::from_str("transaction payload exceeds 58 bytes: ").concat(
                    dec(*actual as u64).as_str(),
                )
            },
        }
    }
}

/// What is left of a message on the way through its encoding: revision 2.0 has
/// no initial credit in an open request, revision 1.0 has one in every open
/// request and a fixed limit in a credit request, and a failed name lookup is
/// answered without the name.
pub open spec fn conveyed(message: MessageView, revision: ProtocolRevision) -> MessageView {
    match message {
        MessageView::OpenChannel {
            peer_socket,
            source_socket,
            max_packet_size,
            max_service_size,
            max_credit,
            initial_credit,
        } => MessageView::OpenChannel {
            peer_socket,
            source_socket,
            max_packet_size,
            max_service_size,
            max_credit,
            initial_credit: if revision == ProtocolRevision::V20 {
                None
            } else if initial_credit is None {
                Some(0u16)
            } else {
                initial_credit
            },
        },
        MessageView::CreditRequest { peer_socket, source_socket, max_credit } =>
            MessageView::CreditRequest {
            peer_socket,
            source_socket,
            max_credit: if revision == ProtocolRevision::V10 {
                0
            } else {
                max_credit
            },
        },
        MessageView::GetSocketIdReply { result, socket_id, service_name } =>
            MessageView::GetSocketIdReply {
            result,
            socket_id,
            service_name: if result == 0 {
                service_name
            } else {
                seq![]
            },
        },
        MessageView::GetServiceNameReply { result, socket_id, service_name } =>
            MessageView::GetServiceNameReply {
            result,
            socket_id,
            service_name: if result == 0 {
                service_name
            } else {
                seq![]
            },
        },
        _ => message,
    }
}

/// A 16-bit number survives its two bytes, wherever they stand.
proof fn lemma_be_at(bytes: Seq<u8>, index: int, value: u16)
    requires
        0 <= index,
        index + 1 < bytes.len(),
        bytes[index] == (value / 256) as u8,
        bytes[index + 1] == (value % 256) as u8,
    ensures
        be_at(bytes, index) == value,
{
}

/// Decoding an encoded message gives back what its encoding conveys.
pub proof fn message_round_trip(message: MessageView, revision: ProtocolRevision)
    requires
        message_bytes(message, revision) is Ok,
    ensures
        message_of(message_bytes(message, revision)->Ok_0, revision) == Ok::<
            MessageView,
            TransactionParseError,
        >(conveyed(message, revision)),
{
    let bytes = message_layout(message, revision);
    match message {
        MessageView::OpenChannel {
            max_packet_size,
            max_service_size,
            max_credit,
            initial_credit,
            ..
        } => {
            lemma_be_at(bytes, 3, max_packet_size);
            lemma_be_at(bytes, 5, max_service_size);
            lemma_be_at(bytes, 7, max_credit);
            if revision == ProtocolRevision::V10 {
                lemma_be_at(
                    bytes,
                    9,
                    if initial_credit is Some {
                        initial_credit->0
                    } else {
                        0
                    },
                );
            }
        },
        MessageView::OpenChannelReply {
            max_packet_size,
            max_service_size,
            max_credit,
            granted_credit,
            ..
        } => {
            lemma_be_at(bytes, 4, max_packet_size);
            lemma_be_at(bytes, 6, max_service_size);
            lemma_be_at(bytes, 8, max_credit);
            lemma_be_at(bytes, 10, granted_credit);
        },
        MessageView::Credit { added_credit, .. } => {
            lemma_be_at(bytes, 3, added_credit);
        },
        MessageView::CreditRequest { max_credit, .. } => {
            if revision == ProtocolRevision::V20 {
                lemma_be_at(bytes, 3, max_credit);
            }
        },
        MessageView::CreditRequestReply { added_credit, .. } => {
            lemma_be_at(bytes, 4, added_credit);
        },
        MessageView::GetSocketId { service_name } => {
            lemma_name_at(bytes, 1, service_name);
        },
        MessageView::GetSocketIdReply { result, service_name, .. } => {
            lemma_name_at(
                bytes,
                3,
                if result == 0 {
                    service_name
                } else {
                    seq![]
                },
            );
        },
        MessageView::GetServiceNameReply { result, service_name, .. } => {
            lemma_name_at(
                bytes,
                3,
                if result == 0 {
                    service_name
                } else {
                    seq![]
                },
            );
        },
        _ => {},
    }
}

/// A name survives its bytes at the end of a message.
proof fn lemma_name_at(bytes: Seq<u8>, start: int, name: Seq<char>)
    requires
        0 <= start <= bytes.len(),
        is_ascii_chars(name),
        bytes.skip(start) =~= ascii_bytes(name),
    ensures
        all_ascii(bytes.skip(start)),
        ascii_text(bytes.skip(start)) == name,
{
    assert forall|i: int| 0 <= i < name.len() implies #[trigger] ascii_bytes(name)[i] < 0x80
        && ascii_bytes(name)[i] as char == name[i] by {
        assert(name[i] as nat <= 0x7f);
    }
    assert(ascii_text(ascii_bytes(name)) =~= name);
}

/// What each field of a decoded message stands for on the wire: bytes at fixed
/// offsets, 16-bit numbers with their more significant byte first, and names up
/// to the end, one byte for each character.
pub proof fn decoded_fields_stand_at_their_offsets(
    bytes: Seq<u8>,
    revision: ProtocolRevision,
    message: TransactionMessage,
)
    requires
        message_of(bytes, revision) == Ok::<MessageView, TransactionParseError>(message@),
    ensures
        match message {
            TransactionMessage::Init { revision } => {
                &&& bytes.len() >= 2
                &&& bytes[0] == 0x00
                &&& bytes[1] == (if revision == ProtocolRevision::V10 { 0x10int } else { 0x20int })
            },
            TransactionMessage::InitReply { result, revision } => {
                &&& bytes.len() >= 3
                &&& bytes[0] == 0x80
                &&& result == bytes[1]
                &&& bytes[2] == (if revision == ProtocolRevision::V10 { 0x10int } else { 0x20int })
            },
            TransactionMessage::OpenChannel {
                peer_socket,
                source_socket,
                max_packet_size,
                max_service_size,
                max_credit,
                initial_credit,
            } => {
                &&& bytes.len() >= (if revision == ProtocolRevision::V10 { 11int } else { 9int })
                &&& bytes[0] == 0x01
                &&& peer_socket == bytes[1]
                &&& source_socket == bytes[2]
                &&& max_packet_size == 256 * bytes[3] + bytes[4]
                &&& max_service_size == 256 * bytes[5] + bytes[6]
                &&& max_credit == 256 * bytes[7] + bytes[8]
                &&& revision == ProtocolRevision::V20 ==> initial_credit is None
                &&& revision == ProtocolRevision::V10 ==> (initial_credit matches Some(credit)
                    && credit == 256 * bytes[9] + bytes[10])
            },
            TransactionMessage::OpenChannelReply {
                result,
                peer_socket,
                source_socket,
                max_packet_size,
                max_service_size,
                max_credit,
                granted_credit,
            } => {
                &&& bytes.len() >= 12
                &&& bytes[0] == 0x81
                &&& result == bytes[1]
                &&& peer_socket == bytes[2]
                &&& source_socket == bytes[3]
                &&& max_packet_size == 256 * bytes[4] + bytes[5]
                &&& max_service_size == 256 * bytes[6] + bytes[7]
                &&& max_credit == 256 * bytes[8] + bytes[9]
                &&& granted_credit == 256 * bytes[10] + bytes[11]
            },
            TransactionMessage::CloseChannel { peer_socket, source_socket } => {
                &&& bytes.len() >= 3
                &&& bytes[0] == 0x02
                &&& peer_socket == bytes[1]
                &&& source_socket == bytes[2]
            },
            TransactionMessage::CloseChannelReply { result, peer_socket, source_socket } => {
                &&& bytes.len() >= 4
                &&& bytes[0] == 0x82
                &&& result == bytes[1]
                &&& peer_socket == bytes[2]
                &&& source_socket == bytes[3]
            },
            TransactionMessage::Credit { peer_socket, source_socket, added_credit } => {
                &&& bytes.len() >= 5
                &&& bytes[0] == 0x03
                &&& peer_socket == bytes[1]
                &&& source_socket == bytes[2]
                &&& added_credit == 256 * bytes[3] + bytes[4]
            },
            TransactionMessage::CreditReply { result, peer_socket, source_socket } => {
                &&& bytes.len() >= 4
                &&& bytes[0] == 0x83
                &&& result == bytes[1]
                &&& peer_socket == bytes[2]
                &&& source_socket == bytes[3]
            },
            TransactionMessage::CreditRequest { peer_socket, source_socket, max_credit } => {
                &&& bytes.len() >= (if revision == ProtocolRevision::V10 { 3int } else { 5int })
                &&& bytes[0] == 0x04
                &&& peer_socket == bytes[1]
                &&& source_socket == bytes[2]
                &&& revision == ProtocolRevision::V20 ==> max_credit == 256 * bytes[3] + bytes[4]
                &&& revision == ProtocolRevision::V10 ==> max_credit == 0
            },
            TransactionMessage::CreditRequestReply {
                result,
                peer_socket,
                source_socket,
                added_credit,
            } => {
                &&& bytes.len() >= 6
                &&& bytes[0] == 0x84
                &&& result == bytes[1]
                &&& peer_socket == bytes[2]
                &&& source_socket == bytes[3]
                &&& added_credit == 256 * bytes[4] + bytes[5]
            },
            TransactionMessage::Exit => {
                &&& bytes.len() >= 1
                &&& bytes[0] == 0x08
            },
            TransactionMessage::ExitReply { result } => {
                &&& bytes.len() >= 2
                &&& bytes[0] == 0x88
                &&& result == bytes[1]
            },
            TransactionMessage::GetSocketId { service_name } => {
                &&& bytes.len() >= 1
                &&& bytes[0] == 0x09
                &&& service_name@.len() == bytes.len() - 1
                &&& forall|i: int|
                    0 <= i < service_name@.len() ==> (#[trigger] service_name@[i]) as int == bytes[i + 1]
            },
            TransactionMessage::GetSocketIdReply { result, socket_id, service_name } => {
                &&& bytes.len() >= 3
                &&& bytes[0] == 0x89
                &&& result == bytes[1]
                &&& socket_id == bytes[2]
                &&& service_name@.len() == bytes.len() - 3
                &&& forall|i: int|
                    0 <= i < service_name@.len() ==> (#[trigger] service_name@[i]) as int == bytes[i + 3]
            },
            TransactionMessage::GetServiceName { socket_id } => {
                &&& bytes.len() >= 2
                &&& bytes[0] == 0x0a
                &&& socket_id == bytes[1]
            },
            TransactionMessage::GetServiceNameReply { result, socket_id, service_name } => {
                &&& bytes.len() >= 3
                &&& bytes[0] == 0x8a
                &&& result == bytes[1]
                &&& socket_id == bytes[2]
                &&& service_name@.len() == bytes.len() - 3
                &&& forall|i: int|
                    0 <= i < service_name@.len() ==> (#[trigger] service_name@[i]) as int == bytes[i + 3]
            },
            TransactionMessage::Error { peer_socket, source_socket, error_code } => {
                &&& bytes.len() >= 4
                &&& bytes[0] == 0x7f
                &&& peer_socket == bytes[1]
                &&& source_socket == bytes[2]
                &&& error_code == bytes[3]
            },
        },
{
}

/// Which bytes stand for a message: those with a known code and all of its
/// fields, a known revision where there is one, and a name in ASCII.
pub proof fn complete_messages_are_understood(bytes: Seq<u8>, revision: ProtocolRevision)
    ensures
        message_of(bytes, revision) is Ok <==> {
            let count: int = bytes.len() as int;
            let code: int = bytes[0] as int;
            let early: bool = revision == ProtocolRevision::V10;
            ||| code == 0x00 && count >= 2 && (bytes[1] == 0x10 || bytes[1] == 0x20)
            ||| code == 0x80 && count >= 3 && (bytes[2] == 0x10 || bytes[2] == 0x20)
            ||| code == 0x01 && count >= (if early { 11int } else { 9int })
            ||| code == 0x81 && count >= 12
            ||| code == 0x02 && count >= 3
            ||| code == 0x82 && count >= 4
            ||| code == 0x03 && count >= 5
            ||| code == 0x83 && count >= 4
            ||| code == 0x04 && count >= (if early { 3int } else { 5int })
            ||| code == 0x84 && count >= 6
            ||| count >= 1 && code == 0x08
            ||| code == 0x88 && count >= 2
            ||| code == 0x09 && count >= 1 && (forall|i: int|
                1 <= i < count ==> #[trigger] bytes[i] < 0x80)
            ||| code == 0x89 && count >= 3 && (forall|i: int|
                3 <= i < count ==> #[trigger] bytes[i] < 0x80)
            ||| code == 0x0a && count >= 2
            ||| code == 0x8a && count >= 3 && (forall|i: int|
                3 <= i < count ==> #[trigger] bytes[i] < 0x80)
            ||| code == 0x7f && count >= 4
        },
        message_of(bytes, revision) matches Err(TransactionParseError::UnknownCode { code })
            ==> bytes.len() > 0 && code == bytes[0],
        message_of(bytes, revision) matches Err(TransactionParseError::UnsupportedRevision {
            revision: byte,
        }) ==> byte != 0x10 && byte != 0x20,
{
    if bytes.len() > 0 {
        let from: int = if bytes[0] == 0x09 {
            1
        } else {
            3
        };
        if from <= bytes.len() {
            assert forall|i: int| from <= i < bytes.len() && all_ascii(bytes.skip(from)) implies
                #[trigger] bytes[i] < 0x80 by {
                assert(bytes.skip(from)[i - from] < 0x80);
            }
            if forall|i: int| from <= i < bytes.len() ==> #[trigger] bytes[i] < 0x80 {
                assert(all_ascii(bytes.skip(from)));
            }
        }
    }
}

/// Where each field of a message stands in its encoding, and that nothing else
/// stands there.
pub proof fn encoded_fields_stand_at_their_offsets(
    message: TransactionMessage,
    revision: ProtocolRevision,
    bytes: Seq<u8>,
)
    requires
        message_bytes(message@, revision) == Ok::<Seq<u8>, TransactionParseError>(bytes),
    ensures
        bytes.len() <= 58,
        match message {
            TransactionMessage::Init { revision } => {
                &&& bytes.len() == 2
                &&& bytes[0] == 0x00
                &&& bytes[1] == (if revision == ProtocolRevision::V10 { 0x10int } else { 0x20int })
            },
            TransactionMessage::InitReply { result, revision } => {
                &&& bytes.len() == 3
                &&& bytes[0] == 0x80
                &&& bytes[1] == result
                &&& bytes[2] == (if revision == ProtocolRevision::V10 { 0x10int } else { 0x20int })
            },
            TransactionMessage::OpenChannel {
                peer_socket,
                source_socket,
                max_packet_size,
                max_service_size,
                max_credit,
                initial_credit,
            } => {
                &&& bytes.len() == (if revision == ProtocolRevision::V10 { 11int } else { 9int })
                &&& bytes[0] == 0x01
                &&& bytes[1] == peer_socket
                &&& bytes[2] == source_socket
                &&& 256 * bytes[3] + bytes[4] == max_packet_size
                &&& 256 * bytes[5] + bytes[6] == max_service_size
                &&& 256 * bytes[7] + bytes[8] == max_credit
                &&& revision == ProtocolRevision::V10 ==> 256 * bytes[9] + bytes[10] == (
                match initial_credit {
                    Some(credit) => credit as int,
                    None => 0int,
                })
            },
            TransactionMessage::OpenChannelReply {
                result,
                peer_socket,
                source_socket,
                max_packet_size,
                max_service_size,
                max_credit,
                granted_credit,
            } => {
                &&& bytes.len() == 12
                &&& bytes[0] == 0x81
                &&& bytes[1] == result
                &&& bytes[2] == peer_socket
                &&& bytes[3] == source_socket
                &&& 256 * bytes[4] + bytes[5] == max_packet_size
                &&& 256 * bytes[6] + bytes[7] == max_service_size
                &&& 256 * bytes[8] + bytes[9] == max_credit
                &&& 256 * bytes[10] + bytes[11] == granted_credit
            },
            TransactionMessage::CloseChannel { peer_socket, source_socket } => {
                &&& bytes.len() == (if revision == ProtocolRevision::V10 { 4int } else { 3int })
                &&& bytes[0] == 0x02
                &&& bytes[1] == peer_socket
                &&& bytes[2] == source_socket
                &&& revision == ProtocolRevision::V10 ==> bytes[3] == 0
            },
            TransactionMessage::CloseChannelReply { result, peer_socket, source_socket } => {
                &&& bytes.len() == 4
                &&& bytes[0] == 0x82
                &&& bytes[1] == result
                &&& bytes[2] == peer_socket
                &&& bytes[3] == source_socket
            },
            TransactionMessage::Credit { peer_socket, source_socket, added_credit } => {
                &&& bytes.len() == 5
                &&& bytes[0] == 0x03
                &&& bytes[1] == peer_socket
                &&& bytes[2] == source_socket
                &&& 256 * bytes[3] + bytes[4] == added_credit
            },
            TransactionMessage::CreditReply { result, peer_socket, source_socket } => {
                &&& bytes.len() == 4
                &&& bytes[0] == 0x83
                &&& bytes[1] == result
                &&& bytes[2] == peer_socket
                &&& bytes[3] == source_socket
            },
            TransactionMessage::CreditRequest { peer_socket, source_socket, max_credit } => {
                &&& bytes.len() == (if revision == ProtocolRevision::V10 { 7int } else { 5int })
                &&& bytes[0] == 0x04
                &&& bytes[1] == peer_socket
                &&& bytes[2] == source_socket
                &&& revision == ProtocolRevision::V20 ==> 256 * bytes[3] + bytes[4] == max_credit
                &&& revision == ProtocolRevision::V10 ==> bytes[3] == 0x00 && bytes[4] == 0x80
                    && bytes[5] == 0xff && bytes[6] == 0xff
            },
            TransactionMessage::CreditRequestReply {
                result,
                peer_socket,
                source_socket,
                added_credit,
            } => {
                &&& bytes.len() == 6
                &&& bytes[0] == 0x84
                &&& bytes[1] == result
                &&& bytes[2] == peer_socket
                &&& bytes[3] == source_socket
                &&& 256 * bytes[4] + bytes[5] == added_credit
            },
            TransactionMessage::Exit => {
                &&& bytes.len() == 1
                &&& bytes[0] == 0x08
            },
            TransactionMessage::ExitReply { result } => {
                &&& bytes.len() == 2
                &&& bytes[0] == 0x88
                &&& bytes[1] == result
            },
            TransactionMessage::GetSocketId { service_name } => {
                &&& bytes.len() == 1 + service_name@.len()
                &&& bytes[0] == 0x09
                &&& forall|i: int|
                    1 <= i < bytes.len() ==> (#[trigger] bytes[i]) as int == service_name@[i - 1] as int
            },
            TransactionMessage::GetSocketIdReply { result, socket_id, service_name } => {
                &&& bytes.len() == 3 + (if result == 0 { service_name@.len() as int } else { 0int })
                &&& bytes[0] == 0x89
                &&& bytes[1] == result
                &&& bytes[2] == socket_id
                &&& result == 0 ==> forall|i: int|
                    3 <= i < bytes.len() ==> (#[trigger] bytes[i]) as int == service_name@[i - 3] as int
            },
            TransactionMessage::GetServiceName { socket_id } => {
                &&& bytes.len() == 2
                &&& bytes[0] == 0x0a
                &&& bytes[1] == socket_id
            },
            TransactionMessage::GetServiceNameReply { result, socket_id, service_name } => {
                &&& bytes.len() == 3 + (if result == 0 { service_name@.len() as int } else { 0int })
                &&& bytes[0] == 0x8a
                &&& bytes[1] == result
                &&& bytes[2] == socket_id
                &&& result == 0 ==> forall|i: int|
                    3 <= i < bytes.len() ==> (#[trigger] bytes[i]) as int == service_name@[i - 3] as int
            },
            TransactionMessage::Error { peer_socket, source_socket, error_code } => {
                &&& bytes.len() == 4
                &&& bytes[0] == 0x7f
                &&& bytes[1] == peer_socket
                &&& bytes[2] == source_socket
                &&& bytes[3] == error_code
            },
        },
{
    match message {
        TransactionMessage::GetSocketId { service_name } => {
            lemma_name_at(bytes, 1, service_name@);
        },
        TransactionMessage::GetSocketIdReply { result, service_name, .. } => {
            if result == 0 {
                lemma_name_at(bytes, 3, service_name@);
            }
        },
        TransactionMessage::GetServiceNameReply { result, service_name, .. } => {
            if result == 0 {
                lemma_name_at(bytes, 3, service_name@);
            }
        },
        _ => {},
    }
}

/// Which names can be asked for: one to forty upper-case letters, digits and
/// hyphens, with a letter first and no hyphen last.
pub proof fn services_have_proper_names(name: Seq<char>, revision: ProtocolRevision)
    ensures
        message_bytes(MessageView::GetSocketId { service_name: name }, revision) is Ok <==> {
            &&& 1 <= name.len() <= 40
            &&& forall|i: int|
                0 <= i < name.len() ==> {
                    let c: int = (#[trigger] name[i]) as int;
                    0x41 <= c <= 0x5a || 0x30 <= c <= 0x39 || c == 0x2d
                }
            &&& 0x41 <= name[0] as int <= 0x5a
            &&& name[name.len() - 1] as int != 0x2d
        },
{
    if valid_service_name(name) {
        assert(is_ascii_chars(name)) by {
            assert forall|i: int| 0 <= i < name.len() implies
                (#[trigger] name[i]) as nat <= 0x7f by {
                assert(service_character(name[i]));
            }
        }
    } else if 1 <= name.len() <= 40 && 0x41 <= name[0] as int <= 0x5a && name[name.len() - 1] as int
        != 0x2d {
        let i = choose|i: int| 0 <= i < name.len() && !service_character(#[trigger] name[i]);
        assert(!service_character(name[i]));
    }
}

/// What is told of a message that is not understood.
pub proof fn refused_messages_are_put_into_words(code: u8, count: usize)
    ensures
        transaction_error_text(TransactionParseError::UnknownCode { code })
            == "unknown transaction code "@ + ("0x"@ + crate::text::hex_text(
            code as nat,
            2,
            false,
        )),
        transaction_error_text(TransactionParseError::UnsupportedRevision { revision: code })
            == "unsupported IEEE 1284.4 revision "@ + ("0x"@ + crate::text::hex_text(
            code as nat,
            2,
            false,
        )),
        transaction_error_text(TransactionParseError::MessageTooLarge { actual: count })
            == "transaction payload exceeds 58 bytes: "@ + crate::text::dec_text(count as nat),
{
}

} // verus!
