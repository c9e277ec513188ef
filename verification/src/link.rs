//! The IEEE 1284.4 conversation with a printer.
//!
//! A [`D4Machine`] decides; it does no input or output of its own. Beginning an
//! operation, and every event after that, gives a [`LinkAction`] that the owner
//! of the transport carries out and reports back as a [`LinkEvent`], until the
//! operation is finished.
use crate::channel::{ChannelId, ChannelState, ChannelTable, ChannelView};
use crate::packet::{
    decode_all, header_for, packet_bytes, packet_views, Packet, PacketDecoder, PacketError,
    PacketView, HEADER_LENGTH,
};
use crate::platform::TransportError;
use crate::text::{dec, hex_lower, same_text};
use crate::transaction::{
    complete_messages_are_understood, message_bytes, message_code, message_of, service_name_error,
    MessageView, ProtocolRevision, TransactionMessage, TransactionParseError,
};
use std::collections::VecDeque;
use vstd::prelude::*;

verus! {

/// Where a conversation stands.
#[derive(Clone, Copy, Debug, PartialEq, Eq, Structural)]
pub enum ConversationState {
    Inactive,
    Active,
    Exiting,
    Terminated,
}

/// A failed link operation.
#[derive(Debug)]
pub enum D4Error {
    Transport(TransportError),
    Packet(PacketError),
    Transaction(TransactionParseError),
    UnknownChannel { channel: ChannelId },
    InsufficientCredit { channel: ChannelId, name: String },
    UnexpectedEof,
    /// The operation was given up after more steps than anybody waits for.
    StepLimitReached,
    UnexpectedTransactionReply,
    ConversationInactive,
    ConversationAlreadyActive,
    ConversationExiting,
    ConversationTerminated,
    TransactionChannelOperation,
    DeviceRejected { result: u8 },
    NegotiationFailed,
    CreditOverflow { channel: ChannelId },
    TransactionPayloadTooLarge { actual: usize },
    PacketExceedsNegotiatedSize { channel: ChannelId, actual: usize, maximum: u16 },
}

/// The contents of a failed link operation.
pub enum D4ErrorView {
    Transport(Seq<char>),
    Packet(PacketError),
    Transaction(TransactionParseError),
    UnknownChannel { channel: ChannelId },
    InsufficientCredit { channel: ChannelId, name: Seq<char> },
    UnexpectedEof,
    StepLimitReached,
    UnexpectedTransactionReply,
    ConversationInactive,
    ConversationAlreadyActive,
    ConversationExiting,
    ConversationTerminated,
    TransactionChannelOperation,
    DeviceRejected { result: u8 },
    NegotiationFailed,
    CreditOverflow { channel: ChannelId },
    TransactionPayloadTooLarge { actual: usize },
    PacketExceedsNegotiatedSize { channel: ChannelId, actual: usize, maximum: u16 },
}

impl View for D4Error {
    type V = D4ErrorView;

    open spec fn view(&self) -> D4ErrorView {
        match *self {
            D4Error::Transport(error) => D4ErrorView::Transport(error@),
            D4Error::Packet(error) => D4ErrorView::Packet(error),
            D4Error::Transaction(error) => D4ErrorView::Transaction(error),
            D4Error::UnknownChannel { channel } => D4ErrorView::UnknownChannel { channel },
            D4Error::InsufficientCredit { channel, name } => D4ErrorView::InsufficientCredit {
                channel,
                name: name@,
            },
            D4Error::UnexpectedEof => D4ErrorView::UnexpectedEof,
            D4Error::StepLimitReached => D4ErrorView::StepLimitReached,
            D4Error::UnexpectedTransactionReply => D4ErrorView::UnexpectedTransactionReply,
            D4Error::ConversationInactive => D4ErrorView::ConversationInactive,
            D4Error::ConversationAlreadyActive => D4ErrorView::ConversationAlreadyActive,
            D4Error::ConversationExiting => D4ErrorView::ConversationExiting,
            D4Error::ConversationTerminated => D4ErrorView::ConversationTerminated,
            D4Error::TransactionChannelOperation => D4ErrorView::TransactionChannelOperation,
            D4Error::DeviceRejected { result } => D4ErrorView::DeviceRejected { result },
            D4Error::NegotiationFailed => D4ErrorView::NegotiationFailed,
            D4Error::CreditOverflow { channel } => D4ErrorView::CreditOverflow { channel },
            D4Error::TransactionPayloadTooLarge { actual } =>
                D4ErrorView::TransactionPayloadTooLarge { actual },
            D4Error::PacketExceedsNegotiatedSize { channel, actual, maximum } =>
                D4ErrorView::PacketExceedsNegotiatedSize { channel, actual, maximum },
        }
    }
}

/// The operation that a link is busy with.
#[derive(Clone, Copy, Debug, PartialEq, Eq, Structural)]
pub enum Operation {
    /// Agreeing on a revision, with the one that was proposed last.
    Initialize { proposed: ProtocolRevision },
    /// Asking for the socket of the service named in the link.
    FindService,
    /// Opening a channel to a service.
    OpenService { channel: ChannelId },
    CloseService { channel: ChannelId },
    Exit,
    /// Waiting for the reply to a request on a channel.
    Request { channel: ChannelId },
}

/// What follows the answer to a peer's transaction once it has been written.
#[derive(Clone, Copy, Debug, PartialEq, Eq, Structural)]
pub enum PeerEffect {
    Nothing,
    CloseChannel(ChannelId),
    LeaveConversation,
}

/// What follows a write.
#[derive(Clone, Copy, Debug, PartialEq, Eq, Structural)]
pub enum AfterWrite {
    /// The packet of the operation itself is out; a reply is awaited.
    AwaitReply { channel: ChannelId, consume_credit: bool },
    /// A peer's transaction has been answered.
    Answered { consume_credit: bool, effect: PeerEffect },
    /// The peer has been told that it granted too much credit.
    ReportedOverflow { channel: ChannelId },
}

/// What a link waits for.
#[derive(Clone, Copy, Debug, PartialEq, Eq, Structural)]
pub enum Stage {
    /// No operation is under way.
    Idle,
    /// Received packets may be waiting.
    Ready,
    /// More bytes have been asked for.
    Reading,
    /// A write is under way.
    Writing(AfterWrite),
}

/// What the owner of the transport reports.
#[derive(Debug)]
pub enum LinkEvent {
    /// Go on with the packets that have been received.
    Proceed,
    /// The write is complete.
    Written,
    WriteFailed(TransportError),
    /// Bytes have been read; none of them mark the end of the stream.
    Received(Vec<u8>),
    ReadFailed(TransportError),
}

/// What the owner of the transport is asked to do.
#[derive(Debug)]
pub enum LinkAction {
    /// Report [`LinkEvent::Proceed`].
    Proceed,
    Write(Vec<u8>),
    Read,
    /// The operation is over.
    Finished(Result<LinkOutcome, D4Error>),
}

/// What a successful operation gives.
#[derive(Debug)]
pub enum LinkOutcome {
    Initialized,
    Opened(ChannelId),
    Closed,
    Exited,
    Reply(Vec<u8>),
}

/// The contents of an action.
pub enum ActionView {
    Proceed,
    Write(Seq<u8>),
    Read,
    Finished(Result<OutcomeView, D4ErrorView>),
}

/// The contents of an outcome.
pub enum OutcomeView {
    Initialized,
    Opened(ChannelId),
    Closed,
    Exited,
    Reply(Seq<u8>),
}

impl View for LinkOutcome {
    type V = OutcomeView;

    open spec fn view(&self) -> OutcomeView {
        match *self {
            LinkOutcome::Initialized => OutcomeView::Initialized,
            LinkOutcome::Opened(channel) => OutcomeView::Opened(channel),
            LinkOutcome::Closed => OutcomeView::Closed,
            LinkOutcome::Exited => OutcomeView::Exited,
            LinkOutcome::Reply(payload) => OutcomeView::Reply(payload@),
        }
    }
}

impl View for LinkAction {
    type V = ActionView;

    open spec fn view(&self) -> ActionView {
        match *self {
            LinkAction::Proceed => ActionView::Proceed,
            LinkAction::Write(bytes) => ActionView::Write(bytes@),
            LinkAction::Read => ActionView::Read,
            LinkAction::Finished(Ok(outcome)) => ActionView::Finished(Ok(outcome@)),
            LinkAction::Finished(Err(error)) => ActionView::Finished(Err(error@)),
        }
    }
}

/// The state of a link.
pub struct LinkView {
    pub revision: ProtocolRevision,
    /// Bytes that do not make a complete packet yet.
    pub buffer: Seq<u8>,
    /// Packets that wait to be looked at.
    pub received: Seq<PacketView>,
    pub channels: Map<ChannelId, ChannelView>,
    pub conversation: ConversationState,
    pub exit_requested: bool,
    pub operation: Operation,
    pub service: Seq<char>,
    pub stage: Stage,
}

impl LinkView {
    /// The transaction channel exists and takes packets of the size that it begins
    /// with, and what a write leaves to be done can be done.
    pub open spec fn well_formed(self) -> bool {
        &&& self.channels.contains_key(ChannelId::transaction())
        &&& self.channels[ChannelId::transaction()].max_packet_size >= 64
        &&& self.channels[ChannelId::transaction()].max_service_size >= 64
        &&& self.operation != (Operation::OpenService { channel: ChannelId::transaction() })
        &&& self.operation matches Operation::CloseService { channel } ==> channel
            != ChannelId::transaction()
        &&& match self.stage {
            Stage::Writing(AfterWrite::AwaitReply { channel, consume_credit }) => {
                &&& self.channels.contains_key(channel)
                &&& consume_credit ==> self.channels[channel].credit > 0
            },
            Stage::Writing(AfterWrite::Answered { consume_credit, effect }) => {
                &&& consume_credit ==> self.channels[ChannelId::transaction()].credit > 0
                &&& effect matches PeerEffect::CloseChannel(channel) ==> self.channels.contains_key(
                    channel,
                )
            },
            _ => true,
        }
    }

    /// The link with the credit of a channel changed.
    pub open spec fn with_credit(self, channel: ChannelId, credit: u16) -> LinkView {
        LinkView {
            channels: self.channels.insert(
                channel,
                ChannelView { credit, ..self.channels[channel] },
            ),
            ..self
        }
    }

    /// The link after the conversation has ended: only the transaction channel
    /// is left, without credit.
    pub open spec fn terminated(self) -> LinkView {
        let kept = LinkView {
            channels: self.channels.restrict(set![ChannelId::transaction()]),
            conversation: ConversationState::Terminated,
            ..self
        };
        kept.with_credit(ChannelId::transaction(), 0)
    }
}

/// The operation ends.
pub open spec fn finish(link: LinkView, result: Result<OutcomeView, D4ErrorView>) -> (
    LinkView,
    ActionView,
) {
    (LinkView { stage: Stage::Idle, ..link }, ActionView::Finished(result))
}

/// The link goes on with the next received packet.
pub open spec fn go_on(link: LinkView) -> (LinkView, ActionView) {
    (LinkView { stage: Stage::Ready, ..link }, ActionView::Proceed)
}

/// The bytes of the packet that carries a payload on a channel.
pub open spec fn outgoing(channel: ChannelId, payload: Seq<u8>, credit: u8) -> Seq<u8> {
    let header = header_for(
        channel.peer_socket,
        channel.source_socket,
        payload.len() as usize,
        credit,
        0,
    );
    packet_bytes(PacketView { header: header->Ok_0, payload })
}

/// The length of the packet around a payload, or the greatest length there is.
pub open spec fn packet_length(payload_length: nat) -> usize {
    if HEADER_LENGTH + payload_length > usize::MAX {
        usize::MAX
    } else {
        (HEADER_LENGTH + payload_length) as usize
    }
}

/// The packet to send on a channel, or why it may not be sent.
pub open spec fn prepare(
    link: LinkView,
    channel: ChannelId,
    payload: Seq<u8>,
    consume_credit: bool,
) -> Result<Seq<u8>, D4ErrorView> {
    let state = link.channels[channel];
    if link.conversation == ConversationState::Exiting {
        Err(D4ErrorView::ConversationExiting)
    } else if link.conversation == ConversationState::Terminated {
        Err(D4ErrorView::ConversationTerminated)
    } else if !link.channels.contains_key(channel) || (channel != ChannelId::transaction()
        && !state.open) {
        Err(D4ErrorView::UnknownChannel { channel })
    } else if consume_credit && state.credit == 0 {
        Err(D4ErrorView::InsufficientCredit { channel, name: state.name })
    } else if HEADER_LENGTH + payload.len() > state.max_packet_size {
        Err(
            D4ErrorView::PacketExceedsNegotiatedSize {
                channel,
                actual: packet_length(payload.len()),
                maximum: state.max_packet_size,
            },
        )
    } else {
        Ok(outgoing(channel, payload, 1))
    }
}

/// The packet for a transaction message, or why it may not be sent.
pub open spec fn prepare_transaction(
    link: LinkView,
    message: MessageView,
    consume_credit: bool,
) -> Result<Seq<u8>, D4ErrorView> {
    match message_bytes(message, link.revision) {
        Err(error) => Err(D4ErrorView::Transaction(error)),
        Ok(payload) => prepare(link, ChannelId::transaction(), payload, consume_credit),
    }
}

/// An operation sends a transaction message and then waits for the reply.
pub open spec fn start_transaction(
    link: LinkView,
    operation: Operation,
    message: MessageView,
    consume_credit: bool,
) -> (LinkView, ActionView) {
    match prepare_transaction(link, message, consume_credit) {
        Err(error) => finish(link, Err(error)),
        Ok(bytes) => (
            LinkView {
                operation,
                stage: Stage::Writing(
                    AfterWrite::AwaitReply { channel: ChannelId::transaction(), consume_credit },
                ),
                ..link
            },
            ActionView::Write(bytes),
        ),
    }
}

/// What the credit that a packet grants comes to.
pub enum CreditView {
    Granted(LinkView),
    Refused(D4ErrorView),
    /// More credit than can be counted; the peer is told so.
    Overflow { channel: ChannelId, notice: Seq<u8> },
}

/// The channel that a packet belongs to.
pub open spec fn channel_of(packet: PacketView) -> ChannelId {
    ChannelId {
        peer_socket: packet.header.peer_socket,
        source_socket: packet.header.source_socket,
    }
}

/// The packet that tells the peer of an error on a channel. It grants no credit.
pub open spec fn error_notice(channel: ChannelId, error_code: u8) -> Seq<u8> {
    outgoing(
        ChannelId::transaction(),
        seq![0x7fu8, channel.peer_socket, channel.source_socket, error_code],
        0,
    )
}

/// Adds the credit that a packet grants to its channel.
pub open spec fn credit_effect(link: LinkView, packet: PacketView) -> CreditView {
    let channel = channel_of(packet);
    let state = link.channels[channel];
    if !link.channels.contains_key(channel) {
        CreditView::Refused(D4ErrorView::UnknownChannel { channel })
    } else if packet.header.length > state.max_service_size {
        CreditView::Refused(
            D4ErrorView::PacketExceedsNegotiatedSize {
                channel,
                actual: packet.header.length as usize,
                maximum: state.max_service_size,
            },
        )
    } else if state.credit + packet.header.credit > u16::MAX {
        CreditView::Overflow { channel, notice: error_notice(channel, 0x86) }
    } else {
        CreditView::Granted(
            link.with_credit(channel, (state.credit + packet.header.credit) as u16),
        )
    }
}

/// The answer to a peer's transaction.
pub struct AnswerView {
    pub packet: Seq<u8>,
    pub consume_credit: bool,
    pub effect: PeerEffect,
}

/// Answers a peer's transaction with a message.
pub open spec fn answer(
    link: LinkView,
    message: MessageView,
    consume_credit: bool,
    effect: PeerEffect,
) -> (LinkView, Result<Option<AnswerView>, D4ErrorView>) {
    match prepare_transaction(link, message, consume_credit) {
        Ok(packet) => (link, Ok(Some(AnswerView { packet, consume_credit, effect }))),
        Err(error) => (link, Err(error)),
    }
}

/// The reply to a peer that opens a channel: the smaller of both limits on a
/// channel that is known here, and a refusal otherwise.
pub open spec fn open_reply(
    link: LinkView,
    channel: ChannelId,
    peer_max_packet_size: u16,
    peer_max_service_size: u16,
) -> MessageView {
    let state = link.channels[channel];
    if link.channels.contains_key(channel) {
        MessageView::OpenChannelReply {
            result: 0,
            peer_socket: channel.peer_socket,
            source_socket: channel.source_socket,
            max_packet_size: if state.max_packet_size < peer_max_packet_size {
                state.max_packet_size
            } else {
                peer_max_packet_size
            },
            max_service_size: if state.max_service_size < peer_max_service_size {
                state.max_service_size
            } else {
                peer_max_service_size
            },
            max_credit: state.max_credit,
            granted_credit: 0,
        }
    } else {
        MessageView::OpenChannelReply {
            result: 0x0d,
            peer_socket: channel.peer_socket,
            source_socket: channel.source_socket,
            max_packet_size: 0,
            max_service_size: 0,
            max_credit: 0,
            granted_credit: 0,
        }
    }
}

/// What a peer's transaction does to the link, and the answer to it.
pub open spec fn peer_step(link: LinkView, message: MessageView) -> (
    LinkView,
    Result<Option<AnswerView>, D4ErrorView>,
) {
    match message {
        MessageView::Init { revision } => if link.conversation == ConversationState::Inactive {
            let active = LinkView {
                revision,
                conversation: ConversationState::Active,
                ..link
            }.with_credit(ChannelId::transaction(), 1);
            answer(
                active,
                MessageView::InitReply { result: 0, revision },
                false,
                PeerEffect::Nothing,
            )
        } else {
            answer(
                link,
                MessageView::InitReply { result: 0x0b, revision: link.revision },
                false,
                PeerEffect::Nothing,
            )
        },
        MessageView::OpenChannel {
            peer_socket,
            source_socket,
            max_packet_size,
            max_service_size,
            ..
        } => answer(
            link,
            open_reply(
                link,
                ChannelId { peer_socket, source_socket },
                max_packet_size,
                max_service_size,
            ),
            true,
            PeerEffect::Nothing,
        ),
        MessageView::CloseChannel { peer_socket, source_socket } => {
            let channel = ChannelId { peer_socket, source_socket };
            let (result, effect) = if channel == ChannelId::transaction() {
                (0x03u8, PeerEffect::Nothing)
            } else if link.channels.contains_key(channel) {
                (0u8, PeerEffect::CloseChannel(channel))
            } else {
                (0x08u8, PeerEffect::Nothing)
            };
            answer(
                link,
                MessageView::CloseChannelReply { result, peer_socket, source_socket },
                true,
                effect,
            )
        },
        MessageView::Credit { peer_socket, source_socket, added_credit } => {
            let channel = ChannelId { peer_socket, source_socket };
            let credit = link.channels[channel].credit + added_credit;
            if !link.channels.contains_key(channel) {
                (link, Err(D4ErrorView::UnknownChannel { channel }))
            } else if credit > u16::MAX {
                (link, Err(D4ErrorView::CreditOverflow { channel }))
            } else {
                answer(
                    link.with_credit(channel, credit as u16),
                    MessageView::CreditReply { result: 0, peer_socket, source_socket },
                    true,
                    PeerEffect::Nothing,
                )
            }
        },
        MessageView::CreditRequest { peer_socket, source_socket, .. } => answer(
            link,
            MessageView::CreditRequestReply {
                result: 0,
                peer_socket,
                source_socket,
                added_credit: 0,
            },
            true,
            PeerEffect::Nothing,
        ),
        MessageView::Exit => answer(
            link,
            MessageView::ExitReply { result: 0 },
            true,
            PeerEffect::LeaveConversation,
        ),
        MessageView::GetSocketId { service_name } => answer(
            link,
            MessageView::GetSocketIdReply { result: 0x0a, socket_id: 0, service_name },
            true,
            PeerEffect::Nothing,
        ),
        MessageView::GetServiceName { socket_id } => answer(
            link,
            MessageView::GetServiceNameReply { result: 0x0a, socket_id, service_name: seq![] },
            true,
            PeerEffect::Nothing,
        ),
        MessageView::Error { .. } => (link, Ok(None)),
        _ => (link, Err(D4ErrorView::UnexpectedTransactionReply)),
    }
}

/// What remains to be done once the answer to a peer has been written.
pub open spec fn answered(link: LinkView, consume_credit: bool, effect: PeerEffect) -> LinkView {
    let transaction = ChannelId::transaction();
    let paid = if consume_credit {
        link.with_credit(transaction, (link.channels[transaction].credit - 1) as u16)
    } else {
        link
    };
    match effect {
        PeerEffect::Nothing => paid,
        PeerEffect::CloseChannel(channel) => LinkView {
            channels: paid.channels.insert(
                channel,
                ChannelView { open: false, ..paid.channels[channel] },
            ),
            ..paid
        },
        PeerEffect::LeaveConversation => if link.exit_requested {
            LinkView { conversation: ConversationState::Exiting, ..paid }
        } else {
            paid.terminated()
        },
    }
}

/// The code of the reply that an operation waits for. A request waits for none.
pub open spec fn awaited_code(operation: Operation) -> Option<u8> {
    match operation {
        Operation::Initialize { .. } => Some(0x80),
        Operation::FindService => Some(0x89),
        Operation::OpenService { .. } => Some(0x81),
        Operation::CloseService { .. } => Some(0x82),
        Operation::Exit => Some(0x88),
        Operation::Request { .. } => None,
    }
}

/// The state of a channel that is about to be opened.
pub open spec fn pending_channel(name: Seq<char>) -> ChannelView {
    ChannelView {
        name,
        credit: 0,
        max_packet_size: 0x100,
        max_service_size: 0x100,
        max_credit: 0,
        open: false,
    }
}

/// The message that opens a channel.
pub open spec fn open_message(channel: ChannelId) -> MessageView {
    MessageView::OpenChannel {
        peer_socket: channel.peer_socket,
        source_socket: channel.source_socket,
        max_packet_size: 0x100,
        max_service_size: 0x100,
        max_credit: 0,
        initial_credit: Some(0),
    }
}

/// The reply that an operation waited for has come.
pub open spec fn conclude(link: LinkView, reply: MessageView) -> (LinkView, ActionView) {
    match (link.operation, reply) {
        (Operation::Initialize { proposed }, MessageView::InitReply { result, revision }) =>
            if result == 0 {
            finish(
                LinkView {
                    revision,
                    conversation: ConversationState::Active,
                    ..link
                }.with_credit(ChannelId::transaction(), 1),
                Ok(OutcomeView::Initialized),
            )
        } else if result != 2 {
            finish(link, Err(D4ErrorView::DeviceRejected { result }))
        } else if proposed == ProtocolRevision::V20 {
            start_transaction(
                link,
                Operation::Initialize { proposed: ProtocolRevision::V10 },
                MessageView::Init { revision: ProtocolRevision::V10 },
                false,
            )
        } else {
            finish(link, Err(D4ErrorView::NegotiationFailed))
        },
        (
            Operation::FindService,
            MessageView::GetSocketIdReply { result, socket_id, service_name },
        ) => if result != 0 || service_name != link.service {
            finish(link, Err(D4ErrorView::DeviceRejected { result }))
        } else {
            let channel = ChannelId { peer_socket: socket_id, source_socket: socket_id };
            start_transaction(
                LinkView {
                    channels: link.channels.insert(channel, pending_channel(link.service)),
                    ..link
                },
                Operation::OpenService { channel },
                open_message(channel),
                true,
            )
        },
        (
            Operation::OpenService { channel },
            MessageView::OpenChannelReply {
                result,
                max_packet_size,
                max_service_size,
                max_credit,
                granted_credit,
                ..
            },
        ) => if result != 0 {
            finish(link, Err(D4ErrorView::DeviceRejected { result }))
        } else if !link.channels.contains_key(channel) {
            finish(link, Err(D4ErrorView::UnknownChannel { channel }))
        } else {
            let state = ChannelView {
                name: link.channels[channel].name,
                credit: granted_credit,
                max_packet_size,
                max_service_size,
                max_credit,
                open: true,
            };
            finish(
                LinkView { channels: link.channels.insert(channel, state), ..link },
                Ok(OutcomeView::Opened(channel)),
            )
        },
        (
            Operation::CloseService { channel },
            MessageView::CloseChannelReply { result, peer_socket, source_socket },
        ) => if result != 0 || (ChannelId { peer_socket, source_socket }) != channel {
            finish(link, Err(D4ErrorView::DeviceRejected { result }))
        } else {
            finish(
                LinkView { channels: link.channels.remove(channel), ..link },
                Ok(OutcomeView::Closed),
            )
        },
        (Operation::Exit, MessageView::ExitReply { result }) => if result == 0 {
            finish(link.terminated(), Ok(OutcomeView::Exited))
        } else {
            finish(link, Err(D4ErrorView::UnexpectedTransactionReply))
        },
        _ => finish(link, Err(D4ErrorView::UnexpectedTransactionReply)),
    }
}

/// A transaction message has arrived.
pub open spec fn take_message(link: LinkView, message: MessageView) -> (LinkView, ActionView) {
    if message_code(message) < 0x80 {
        let (next, step) = peer_step(link, message);
        match step {
            Err(error) => finish(next, Err(error)),
            Ok(None) => after_peer(next),
            Ok(Some(answer)) => (
                LinkView {
                    stage: Stage::Writing(
                        AfterWrite::Answered {
                            consume_credit: answer.consume_credit,
                            effect: answer.effect,
                        },
                    ),
                    ..next
                },
                ActionView::Write(answer.packet),
            ),
        }
    } else if awaited_code(link.operation) == Some(message_code(message)) {
        conclude(link, message)
    } else {
        finish(link, Err(D4ErrorView::UnexpectedTransactionReply))
    }
}

/// A peer's transaction has been dealt with: a request ends where the peer has
/// ended the conversation, and every other operation goes on.
pub open spec fn after_peer(link: LinkView) -> (LinkView, ActionView) {
    if link.operation is Request && link.conversation == ConversationState::Terminated {
        finish(link, Err(D4ErrorView::ConversationTerminated))
    } else {
        go_on(link)
    }
}

/// A packet is looked at.
pub open spec fn take_packet(link: LinkView, packet: PacketView) -> (LinkView, ActionView) {
    let channel = channel_of(packet);
    if channel != ChannelId::transaction() && link.conversation == ConversationState::Terminated {
        go_on(link)
    } else {
        match credit_effect(link, packet) {
            CreditView::Refused(error) => finish(link, Err(error)),
            CreditView::Overflow { channel, notice } => (
                LinkView {
                    stage: Stage::Writing(AfterWrite::ReportedOverflow { channel }),
                    ..link
                },
                ActionView::Write(notice),
            ),
            CreditView::Granted(next) => if channel == ChannelId::transaction() {
                match message_of(packet.payload, next.revision) {
                    Err(error) => finish(next, Err(D4ErrorView::Transaction(error))),
                    Ok(message) => take_message(next, message),
                }
            } else if link.operation == (Operation::Request { channel }) {
                finish(next, Ok(OutcomeView::Reply(packet.payload)))
            } else {
                go_on(LinkView { received: next.received.push(packet), ..next })
            },
        }
    }
}

/// The next received packet is looked at, or more bytes are asked for.
#[verifier::opaque]
pub open spec fn advance(link: LinkView) -> (LinkView, ActionView) {
    if link.received.len() == 0 {
        (LinkView { stage: Stage::Reading, ..link }, ActionView::Read)
    } else {
        take_packet(
            LinkView { received: link.received.drop_first(), ..link },
            link.received.first(),
        )
    }
}

/// Bytes have been read.
#[verifier::opaque]
pub open spec fn take_bytes(link: LinkView, bytes: Seq<u8>) -> (LinkView, ActionView) {
    let decoded = decode_all(link.buffer + bytes);
    let filled = LinkView { buffer: decoded.rest, ..link };
    if bytes.len() == 0 {
        finish(link, Err(D4ErrorView::UnexpectedEof))
    } else {
        match decoded.error {
            Some(error) => finish(filled, Err(D4ErrorView::Packet(error))),
            None => advance(
                LinkView { received: link.received + decoded.packets, ..filled },
            ),
        }
    }
}

/// A write is complete.
#[verifier::opaque]
pub open spec fn after_write(link: LinkView, after: AfterWrite) -> (LinkView, ActionView) {
    match after {
        AfterWrite::AwaitReply { channel, consume_credit } => go_on(
            if consume_credit {
                link.with_credit(channel, (link.channels[channel].credit - 1) as u16)
            } else {
                link
            },
        ),
        AfterWrite::Answered { consume_credit, effect } => after_peer(
            answered(link, consume_credit, effect),
        ),
        AfterWrite::ReportedOverflow { channel } => finish(
            link,
            Err(D4ErrorView::CreditOverflow { channel }),
        ),
    }
}

/// The event is one that the link waits for.
pub open spec fn awaits(link: LinkView, event: LinkEvent) -> bool {
    match link.stage {
        Stage::Idle => false,
        Stage::Ready => event is Proceed,
        Stage::Reading => event is Received || event is ReadFailed,
        Stage::Writing(_) => event is Written || event is WriteFailed,
    }
}

/// The link waits for what an action asks for.
pub open spec fn asked_for(link: LinkView, action: ActionView) -> bool {
    match action {
        ActionView::Proceed => link.stage == Stage::Ready,
        ActionView::Write(_) => link.stage is Writing,
        ActionView::Read => link.stage == Stage::Reading,
        ActionView::Finished(_) => link.stage == Stage::Idle,
    }
}

/// Two operations serve the same purpose: finding and opening a service belong together.
pub open spec fn same_purpose(left: Operation, right: Operation) -> bool {
    match left {
        Operation::Initialize { .. } => right is Initialize,
        Operation::FindService | Operation::OpenService { .. } => right is FindService
            || right is OpenService,
        Operation::CloseService { .. } => right is CloseService,
        Operation::Exit => right is Exit,
        Operation::Request { .. } => right is Request,
    }
}

/// The outcome is one that an operation is meant to have.
pub open spec fn fits(operation: Operation, outcome: OutcomeView) -> bool {
    match operation {
        Operation::Initialize { .. } => outcome is Initialized,
        Operation::FindService | Operation::OpenService { .. } => outcome is Opened,
        Operation::CloseService { .. } => outcome is Closed,
        Operation::Exit => outcome is Exited,
        Operation::Request { .. } => outcome is Reply,
    }
}

/// The link is still about the same operation, and an outcome is one that the
/// operation is meant to have.
pub open spec fn in_character(operation: Operation, link: LinkView, action: ActionView) -> bool {
    &&& same_purpose(operation, link.operation)
    &&& action matches ActionView::Finished(Ok(outcome)) ==> fits(operation, outcome)
}

/// What an event makes of a link that waits for it.
pub open spec fn event_step(link: LinkView, event: LinkEvent) -> (LinkView, ActionView) {
    match event {
        LinkEvent::Proceed => advance(link),
        LinkEvent::Written => match link.stage {
            Stage::Writing(after) => after_write(link, after),
            _ => arbitrary(),
        },
        LinkEvent::Received(bytes) => take_bytes(link, bytes@),
        LinkEvent::WriteFailed(error) => finish(link, Err(D4ErrorView::Transport(error@))),
        LinkEvent::ReadFailed(error) => finish(link, Err(D4ErrorView::Transport(error@))),
    }
}

/// A request is put on a channel.
pub open spec fn request_step(link: LinkView, channel: ChannelId, request: Seq<u8>) -> (
    LinkView,
    ActionView,
) {
    let busy = LinkView { operation: Operation::Request { channel }, ..link };
    if link.conversation == ConversationState::Inactive {
        finish(busy, Err(D4ErrorView::ConversationInactive))
    } else {
        match prepare(busy, channel, request, true) {
            Err(error) => finish(busy, Err(error)),
            Ok(bytes) => (
                LinkView {
                    stage: Stage::Writing(AfterWrite::AwaitReply { channel, consume_credit: true }),
                    ..busy
                },
                ActionView::Write(bytes),
            ),
        }
    }
}

/// The state of a link before anything has been said.
pub open spec fn initial_link() -> LinkView {
    LinkView {
        revision: ProtocolRevision::V20,
        buffer: seq![],
        received: seq![],
        channels: Map::empty().insert(
            ChannelId::transaction(),
            ChannelView {
                name: "(transaction channel)"@,
                credit: 0,
                max_packet_size: 64,
                max_service_size: 64,
                max_credit: 1,
                open: true,
            },
        ),
        conversation: ConversationState::Inactive,
        exit_requested: false,
        operation: Operation::Exit,
        service: seq![],
        stage: Stage::Idle,
    }
}

/// The channel is known and open.
pub open spec fn channel_open(link: LinkView, channel: ChannelId) -> bool {
    link.channels.contains_key(channel) && link.channels[channel].open
}

/// Negotiation of a revision begins.
pub open spec fn initialize_step(link: LinkView) -> (LinkView, ActionView) {
    match link.conversation {
        ConversationState::Active => finish(link, Err(D4ErrorView::ConversationAlreadyActive)),
        ConversationState::Exiting => finish(link, Err(D4ErrorView::ConversationExiting)),
        _ => start_transaction(
            link,
            Operation::Initialize { proposed: ProtocolRevision::V20 },
            MessageView::Init { revision: ProtocolRevision::V20 },
            false,
        ),
    }
}

/// The search for a service begins.
pub open spec fn open_service_step(link: LinkView, service_name: Seq<char>) -> (
    LinkView,
    ActionView,
) {
    start_transaction(
        LinkView { service: service_name, ..link },
        Operation::FindService,
        MessageView::GetSocketId { service_name },
        true,
    )
}

/// A channel is about to be closed.
pub open spec fn close_channel_step(link: LinkView, channel: ChannelId) -> (LinkView, ActionView) {
    if channel == ChannelId::transaction() {
        finish(link, Err(D4ErrorView::TransactionChannelOperation))
    } else if !channel_open(link, channel) {
        finish(link, Err(D4ErrorView::UnknownChannel { channel }))
    } else {
        start_transaction(
            link,
            Operation::CloseService { channel },
            MessageView::CloseChannel {
                peer_socket: channel.peer_socket,
                source_socket: channel.source_socket,
            },
            true,
        )
    }
}

/// What keeps a conversation from being active.
pub open spec fn inactivity(conversation: ConversationState) -> Option<D4ErrorView> {
    match conversation {
        ConversationState::Active => None,
        ConversationState::Inactive => Some(D4ErrorView::ConversationInactive),
        ConversationState::Exiting => Some(D4ErrorView::ConversationExiting),
        ConversationState::Terminated => Some(D4ErrorView::ConversationTerminated),
    }
}

/// The conversation is about to be ended.
pub open spec fn exit_step(link: LinkView) -> (LinkView, ActionView) {
    match inactivity(link.conversation) {
        Some(error) => finish(link, Err(error)),
        None => start_transaction(
            LinkView { exit_requested: true, ..link },
            Operation::Exit,
            MessageView::Exit,
            true,
        ),
    }
}

/// One end of an IEEE 1284.4 conversation.
#[derive(Debug)]
pub struct D4Machine {
    pub revision: ProtocolRevision,
    pub decoder: PacketDecoder,
    pub received: VecDeque<Packet>,
    pub channels: ChannelTable,
    pub conversation: ConversationState,
    pub exit_requested: bool,
    pub operation: Operation,
    pub service: String,
    pub stage: Stage,
}

impl View for D4Machine {
    type V = LinkView;

    open spec fn view(&self) -> LinkView {
        LinkView {
            revision: self.revision,
            buffer: self.decoder@,
            received: packet_views(self.received@),
            channels: self.channels@,
            conversation: self.conversation,
            exit_requested: self.exit_requested,
            operation: self.operation,
            service: self.service@,
            stage: self.stage,
        }
    }
}

/// What the credit that a packet grants comes to.
#[derive(Debug)]
pub enum CreditStep {
    Granted,
    Refused(D4Error),
    /// More credit than can be counted; the notice is to be written.
    Overflow { channel: ChannelId, notice: Vec<u8> },
}

/// The answer to a peer's transaction, to be written.
#[derive(Debug)]
pub struct PeerAnswer {
    pub packet: Vec<u8>,
    pub consume_credit: bool,
    pub effect: PeerEffect,
}

impl View for PeerAnswer {
    type V = AnswerView;

    open spec fn view(&self) -> AnswerView {
        AnswerView {
            packet: self.packet@,
            consume_credit: self.consume_credit,
            effect: self.effect,
        }
    }
}

/// An executable result says what a specified one says.
pub open spec fn agrees(
    result: Result<Option<PeerAnswer>, D4Error>,
    expected: Result<Option<AnswerView>, D4ErrorView>,
) -> bool {
    match (result, expected) {
        (Ok(None), Ok(None)) => true,
        (Ok(Some(answer)), Ok(Some(view))) => answer@ == view,
        (Err(error), Err(view)) => error@ == view,
        _ => false,
    }
}

impl D4Machine {
    /// A link on which nothing has been said.
    pub fn new() -> (link: Self)
        ensures
            link@ == initial_link(),
            link@.well_formed(),
    {
        let mut channels = ChannelTable::new();
        channels.insert(
            ChannelId::transaction(),
            ChannelState {
                name: String::from_str("(transaction channel)"),
                credit: 0,
                max_packet_size: 64,
                max_service_size: 64,
                max_credit: 1,
                open: true,
            },
        );
        let link = D4Machine {
            revision: ProtocolRevision::V20,
            decoder: PacketDecoder::default(),
            received: VecDeque::new(),
            channels,
            conversation: ConversationState::Inactive,
            exit_requested: false,
            operation: Operation::Exit,
            service: String::new(),
            stage: Stage::Idle,
        };
        proof {
            assert(packet_views(link.received@) =~= seq![]);
        }
        link
    }

    /// The revision that is spoken.
    pub fn revision(&self) -> (revision: ProtocolRevision)
        ensures
            revision == self@.revision,
    {
        self.revision
    }

    /// Begins to negotiate a revision.
    pub fn initialize(&mut self) -> (action: LinkAction)
        requires
            old(self)@.well_formed(),
            old(self)@.stage == Stage::Idle,
        ensures
            (final(self)@, action@) == initialize_step(old(self)@),
            final(self)@.well_formed(),
            asked_for(final(self)@, action@),
    {
        match self.conversation {
            ConversationState::Active => self.finish(Err(D4Error::ConversationAlreadyActive)),
            ConversationState::Exiting => self.finish(Err(D4Error::ConversationExiting)),
            _ => self.start_transaction(
                Operation::Initialize { proposed: ProtocolRevision::V20 },
                TransactionMessage::Init { revision: ProtocolRevision::V20 },
                false,
            ),
        }
    }

    /// Begins to open a channel to a service.
    pub fn open_service(&mut self, service_name: &str) -> (action: LinkAction)
        requires
            old(self)@.well_formed(),
            old(self)@.stage == Stage::Idle,
        ensures
            (final(self)@, action@) == open_service_step(old(self)@, service_name@),
            final(self)@.well_formed(),
            asked_for(final(self)@, action@),
    {
        self.service = service_name.to_owned();
        self.start_transaction(
            Operation::FindService,
            TransactionMessage::GetSocketId { service_name: service_name.to_owned() },
            true,
        )
    }

    /// Checks that a channel is open.
    pub fn require_open(&self, channel: ChannelId) -> (open: Result<(), D4Error>)
        ensures
            match open {
                Ok(_) => channel_open(self@, channel),
                Err(error) => !channel_open(self@, channel) && error@
                    == (D4ErrorView::UnknownChannel { channel }),
            },
    {
        match self.channels.get(channel) {
            Some(state) => if state.open {
                Ok(())
            } else {
                Err(D4Error::UnknownChannel { channel })
            },
            None => Err(D4Error::UnknownChannel { channel }),
        }
    }

    /// Begins to close an open service channel. The transaction channel cannot be closed.
    pub fn close_channel(&mut self, channel: ChannelId) -> (action: LinkAction)
        requires
            old(self)@.well_formed(),
            old(self)@.stage == Stage::Idle,
        ensures
            (final(self)@, action@) == close_channel_step(old(self)@, channel),
            final(self)@.well_formed(),
            asked_for(final(self)@, action@),
    {
        if channel == ChannelId::transaction() {
            return self.finish(Err(D4Error::TransactionChannelOperation));
        }
        if let Err(error) = self.require_open(channel) {
            return self.finish(Err(error));
        }
        self.start_transaction(
            Operation::CloseService { channel },
            TransactionMessage::CloseChannel {
                peer_socket: channel.peer_socket,
                source_socket: channel.source_socket,
            },
            true,
        )
    }

    /// Begins to end the active conversation.
    pub fn exit(&mut self) -> (action: LinkAction)
        requires
            old(self)@.well_formed(),
            old(self)@.stage == Stage::Idle,
        ensures
            (final(self)@, action@) == exit_step(old(self)@),
            final(self)@.well_formed(),
            asked_for(final(self)@, action@),
    {
        if let Err(error) = self.require_active_conversation() {
            return self.finish(Err(error));
        }
        self.exit_requested = true;
        self.start_transaction(Operation::Exit, TransactionMessage::Exit, true)
    }

    /// Begins a request on an open channel.
    pub fn request(&mut self, channel: ChannelId, request: &[u8]) -> (action: LinkAction)
        requires
            old(self)@.well_formed(),
            old(self)@.stage == Stage::Idle,
        ensures
            (final(self)@, action@) == request_step(old(self)@, channel, request@),
            final(self)@.well_formed(),
            asked_for(final(self)@, action@),
    {
        self.operation = Operation::Request { channel };
        if let Err(error) = self.require_active_conversation() {
            return self.finish(Err(error));
        }
        match self.prepare(channel, vstd::slice::slice_to_vec(request), true) {
            Err(error) => self.finish(Err(error)),
            Ok(bytes) => {
                self.stage = Stage::Writing(
                    AfterWrite::AwaitReply { channel, consume_credit: true },
                );
                LinkAction::Write(bytes)
            },
        }
    }

    /// Takes in an event that the link waits for.
    pub fn resume(&mut self, event: LinkEvent) -> (action: LinkAction)
        requires
            old(self)@.well_formed(),
            awaits(old(self)@, event),
        ensures
            (final(self)@, action@) == event_step(old(self)@, event),
            final(self)@.well_formed(),
            asked_for(final(self)@, action@),
            in_character(old(self)@.operation, final(self)@, action@),
    {
        match event {
            LinkEvent::Proceed => self.advance(),
            LinkEvent::Written => match self.stage {
                Stage::Writing(after) => self.after_write(after),
                _ => LinkAction::Proceed,
            },
            LinkEvent::Received(bytes) => self.take_bytes(bytes),
            LinkEvent::WriteFailed(error) => self.finish(Err(D4Error::Transport(error))),
            LinkEvent::ReadFailed(error) => self.finish(Err(D4Error::Transport(error))),
        }
    }

    /// Ends the operation that is under way.
    pub fn finish(&mut self, result: Result<LinkOutcome, D4Error>) -> (action: LinkAction)
        requires
            old(self)@.well_formed(),
            result matches Ok(outcome) ==> fits(old(self)@.operation, outcome@),
        ensures
            (final(self)@, action@) == finish(
                old(self)@,
                match result {
                    Ok(outcome) => Ok(outcome@),
                    Err(error) => Err(error@),
                },
            ),
            final(self)@.well_formed(),
            asked_for(final(self)@, action@),
            in_character(old(self)@.operation, final(self)@, action@),
    {
        self.stage = Stage::Idle;
        LinkAction::Finished(result)
    }

    fn require_active_conversation(&self) -> (active: Result<(), D4Error>)
        ensures
            match (active, inactivity(self@.conversation)) {
                (Ok(_), None) => true,
                (Err(error), Some(expected)) => error@ == expected,
                _ => false,
            },
    {
        match self.conversation {
            ConversationState::Active => Ok(()),
            ConversationState::Inactive => Err(D4Error::ConversationInactive),
            ConversationState::Exiting => Err(D4Error::ConversationExiting),
            ConversationState::Terminated => Err(D4Error::ConversationTerminated),
        }
    }

    fn prepare(&self, channel: ChannelId, payload: Vec<u8>, consume_credit: bool) -> (packet: Result<
        Vec<u8>,
        D4Error,
    >)
        ensures
            match (packet, prepare(self@, channel, payload@, consume_credit)) {
                (Ok(packet), Ok(expected)) => packet@ == expected,
                (Err(error), Err(expected)) => error@ == expected,
                _ => false,
            },
    {
        match self.conversation {
            ConversationState::Exiting => return Err(D4Error::ConversationExiting),
            ConversationState::Terminated => return Err(D4Error::ConversationTerminated),
            _ => {},
        }
        let state = match self.channels.get(channel) {
            Some(state) => state,
            None => return Err(D4Error::UnknownChannel { channel }),
        };
        if channel != ChannelId::transaction() && !state.open {
            return Err(D4Error::UnknownChannel { channel });
        }
        if consume_credit && state.credit == 0 {
            return Err(D4Error::InsufficientCredit { channel, name: state.name.clone() });
        }
        let length: usize = payload.len().saturating_add(HEADER_LENGTH);
        if length > state.max_packet_size as usize {
            return Err(
                D4Error::PacketExceedsNegotiatedSize {
                    channel,
                    actual: length,
                    maximum: state.max_packet_size,
                },
            );
        }
        match Packet::new(channel.peer_socket, channel.source_socket, payload, 1, 0) {
            Ok(packet) => Ok(packet.encode()),
            Err(error) => Err(D4Error::Packet(error)),
        }
    }

    fn prepare_transaction(&self, message: &TransactionMessage, consume_credit: bool) -> (packet:
        Result<Vec<u8>, D4Error>)
        ensures
            match (packet, prepare_transaction(self@, message@, consume_credit)) {
                (Ok(packet), Ok(expected)) => packet@ == expected,
                (Err(error), Err(expected)) => error@ == expected,
                _ => false,
            },
    {
        match message.encode(self.revision) {
            Err(error) => Err(D4Error::Transaction(error)),
            Ok(payload) => self.prepare(ChannelId::transaction(), payload, consume_credit),
        }
    }

    fn start_transaction(
        &mut self,
        operation: Operation,
        message: TransactionMessage,
        consume_credit: bool,
    ) -> (action: LinkAction)
        requires
            old(self)@.well_formed(),
            operation matches Operation::CloseService { channel } ==> channel
                != ChannelId::transaction(),
            operation == (Operation::OpenService { channel: ChannelId::transaction() })
                ==> consume_credit && old(self)@.channels[ChannelId::transaction()].credit == 0,
        ensures
            (final(self)@, action@) == start_transaction(
                old(self)@,
                operation,
                message@,
                consume_credit,
            ),
            final(self)@.well_formed(),
            asked_for(final(self)@, action@),
            final(self)@.operation == if action@ is Finished {
                old(self)@.operation
            } else {
                operation
            },
            !(action@ matches ActionView::Finished(Ok(_))),
    {
        match self.prepare_transaction(&message, consume_credit) {
            Err(error) => self.finish(Err(error)),
            Ok(bytes) => {
                self.operation = operation;
                self.stage = Stage::Writing(
                    AfterWrite::AwaitReply { channel: ChannelId::transaction(), consume_credit },
                );
                LinkAction::Write(bytes)
            },
        }
    }

    fn go_on(&mut self) -> (action: LinkAction)
        requires
            old(self)@.well_formed(),
        ensures
            (final(self)@, action@) == go_on(old(self)@),
            final(self)@.well_formed(),
            asked_for(final(self)@, action@),
            in_character(old(self)@.operation, final(self)@, action@),
    {
        self.stage = Stage::Ready;
        LinkAction::Proceed
    }

    fn after_peer(&mut self) -> (action: LinkAction)
        requires
            old(self)@.well_formed(),
        ensures
            (final(self)@, action@) == after_peer(old(self)@),
            final(self)@.well_formed(),
            asked_for(final(self)@, action@),
            in_character(old(self)@.operation, final(self)@, action@),
    {
        let requested: bool = match self.operation {
            Operation::Request { .. } => true,
            _ => false,
        };
        if requested && self.conversation == ConversationState::Terminated {
            self.finish(Err(D4Error::ConversationTerminated))
        } else {
            self.go_on()
        }
    }

    fn terminate_conversation(&mut self)
        requires
            old(self)@.channels.contains_key(ChannelId::transaction()),
        ensures
            final(self)@ == old(self)@.terminated(),
    {
        self.channels.keep_only(ChannelId::transaction());
        self.channels.set_credit(ChannelId::transaction(), 0);
        self.conversation = ConversationState::Terminated;
    }

    fn after_write(&mut self, after: AfterWrite) -> (action: LinkAction)
        requires
            old(self)@.well_formed(),
            old(self)@.stage == Stage::Writing(after),
        ensures
            (final(self)@, action@) == after_write(old(self)@, after),
            final(self)@.well_formed(),
            asked_for(final(self)@, action@),
            in_character(old(self)@.operation, final(self)@, action@),
    {
        proof {
            reveal(after_write);
        }
        self.stage = Stage::Ready;
        match after {
            AfterWrite::AwaitReply { channel, consume_credit } => {
                if consume_credit {
                    self.spend_credit(channel);
                }
                self.go_on()
            },
            AfterWrite::Answered { consume_credit, effect } => {
                self.complete_answer(consume_credit, effect);
                self.after_peer()
            },
            AfterWrite::ReportedOverflow { channel } => {
                self.finish(Err(D4Error::CreditOverflow { channel }))
            },
        }
    }

    fn spend_credit(&mut self, channel: ChannelId)
        requires
            old(self)@.channels.contains_key(channel),
            old(self)@.channels[channel].credit > 0,
        ensures
            final(self)@ == old(self)@.with_credit(
                channel,
                (old(self)@.channels[channel].credit - 1) as u16,
            ),
    {
        let credit: u16 = match self.channels.get(channel) {
            Some(state) => state.credit - 1,
            None => 0,
        };
        self.channels.set_credit(channel, credit);
    }

    /// Does what the answer to a peer's transaction leaves to be done.
    pub fn complete_answer(&mut self, consume_credit: bool, effect: PeerEffect)
        requires
            old(self)@.channels.contains_key(ChannelId::transaction()),
            consume_credit ==> old(self)@.channels[ChannelId::transaction()].credit > 0,
            effect matches PeerEffect::CloseChannel(channel) ==> old(self)@.channels.contains_key(
                channel,
            ),
        ensures
            final(self)@ == answered(old(self)@, consume_credit, effect),
    {
        if consume_credit {
            self.spend_credit(ChannelId::transaction());
        }
        match effect {
            PeerEffect::Nothing => {},
            PeerEffect::CloseChannel(channel) => {
                self.channels.mark_closed(channel);
            },
            PeerEffect::LeaveConversation => {
                if self.exit_requested {
                    self.conversation = ConversationState::Exiting;
                } else {
                    self.terminate_conversation();
                }
            },
        }
    }

    /// Adds the credit that a packet grants to its channel.
    pub fn apply_credit(&mut self, packet: &Packet) -> (step: CreditStep)
        ensures
            match (step, credit_effect(old(self)@, packet@)) {
                (CreditStep::Granted, CreditView::Granted(next)) => final(self)@ == next,
                (CreditStep::Refused(error), CreditView::Refused(expected)) => error@ == expected
                    && final(self)@ == old(self)@,
                (
                    CreditStep::Overflow { channel, notice },
                    CreditView::Overflow { channel: expected_channel, notice: expected },
                ) => channel == expected_channel && notice@ == expected && final(self)@
                    == old(self)@,
                _ => false,
            },
    {
        let channel = ChannelId {
            peer_socket: packet.header.peer_socket,
            source_socket: packet.header.source_socket,
        };
        let (credit, max_service_size): (u16, u16) = match self.channels.get(channel) {
            Some(state) => (state.credit, state.max_service_size),
            None => return CreditStep::Refused(D4Error::UnknownChannel { channel }),
        };
        if packet.header.length > max_service_size {
            return CreditStep::Refused(
                D4Error::PacketExceedsNegotiatedSize {
                    channel,
                    actual: packet.header.length as usize,
                    maximum: max_service_size,
                },
            );
        }
        match credit.checked_add(packet.header.credit as u16) {
            None => CreditStep::Overflow { channel, notice: self.overflow_notice(channel) },
            Some(credit) => {
                self.channels.set_credit(channel, credit);
                CreditStep::Granted
            },
        }
    }

    fn overflow_notice(&self, channel: ChannelId) -> (notice: Vec<u8>)
        ensures
            notice@ == error_notice(channel, 0x86),
    {
        let payload: Vec<u8> = vec![0x7f, channel.peer_socket, channel.source_socket, 0x86];
        proof {
            assert(payload@ =~= seq![0x7fu8, channel.peer_socket, channel.source_socket, 0x86u8]);
        }
        match Packet::new(0, 0, payload, 0, 0) {
            Ok(packet) => packet.encode(),
            Err(_) => Vec::new(),
        }
    }

    fn answer(&self, message: TransactionMessage, consume_credit: bool, effect: PeerEffect) -> (step:
        Result<Option<PeerAnswer>, D4Error>)
        ensures
            agrees(step, answer(self@, message@, consume_credit, effect).1),
    {
        match self.prepare_transaction(&message, consume_credit) {
            Ok(packet) => Ok(Some(PeerAnswer { packet, consume_credit, effect })),
            Err(error) => Err(error),
        }
    }

    /// Deals with a transaction that the peer began, as far as it goes before
    /// the answer has been written.
    pub fn handle_peer_transaction(&mut self, message: TransactionMessage) -> (step: Result<
        Option<PeerAnswer>,
        D4Error,
    >)
        requires
            old(self)@.channels.contains_key(ChannelId::transaction()),
        ensures
            final(self)@ == peer_step(old(self)@, message@).0,
            agrees(step, peer_step(old(self)@, message@).1),
    {
        match message {
            TransactionMessage::Init { revision } => {
                if self.conversation == ConversationState::Inactive {
                    self.revision = revision;
                    self.channels.set_credit(ChannelId::transaction(), 1);
                    self.conversation = ConversationState::Active;
                    self.answer(
                        TransactionMessage::InitReply { result: 0, revision },
                        false,
                        PeerEffect::Nothing,
                    )
                } else {
                    self.answer(
                        TransactionMessage::InitReply { result: 0x0b, revision: self.revision },
                        false,
                        PeerEffect::Nothing,
                    )
                }
            },
            TransactionMessage::OpenChannel {
                peer_socket,
                source_socket,
                max_packet_size,
                max_service_size,
                ..
            } => {
                let reply = self.open_reply(
                    ChannelId { peer_socket, source_socket },
                    max_packet_size,
                    max_service_size,
                );
                self.answer(reply, true, PeerEffect::Nothing)
            },
            TransactionMessage::CloseChannel { peer_socket, source_socket } => {
                let channel = ChannelId { peer_socket, source_socket };
                let mut result: u8 = 0x08;
                let mut effect = PeerEffect::Nothing;
                if channel == ChannelId::transaction() {
                    result = 0x03;
                } else if self.channels.contains(channel) {
                    result = 0;
                    effect = PeerEffect::CloseChannel(channel);
                }
                self.answer(
                    TransactionMessage::CloseChannelReply { result, peer_socket, source_socket },
                    true,
                    effect,
                )
            },
            TransactionMessage::Credit { peer_socket, source_socket, added_credit } => {
                let channel = ChannelId { peer_socket, source_socket };
                let credit: u16 = match self.channels.get(channel) {
                    Some(state) => match state.credit.checked_add(added_credit) {
                        Some(credit) => credit,
                        None => return Err(D4Error::CreditOverflow { channel }),
                    },
                    None => return Err(D4Error::UnknownChannel { channel }),
                };
                self.channels.set_credit(channel, credit);
                self.answer(
                    TransactionMessage::CreditReply { result: 0, peer_socket, source_socket },
                    true,
                    PeerEffect::Nothing,
                )
            },
            TransactionMessage::CreditRequest { peer_socket, source_socket, .. } => {
                self.answer(
                    TransactionMessage::CreditRequestReply {
                        result: 0,
                        peer_socket,
                        source_socket,
                        added_credit: 0,
                    },
                    true,
                    PeerEffect::Nothing,
                )
            },
            TransactionMessage::Exit => {
                self.answer(
                    TransactionMessage::ExitReply { result: 0 },
                    true,
                    PeerEffect::LeaveConversation,
                )
            },
            TransactionMessage::GetSocketId { service_name } => {
                self.answer(
                    TransactionMessage::GetSocketIdReply {
                        result: 0x0a,
                        socket_id: 0,
                        service_name,
                    },
                    true,
                    PeerEffect::Nothing,
                )
            },
            TransactionMessage::GetServiceName { socket_id } => {
                self.answer(
                    TransactionMessage::GetServiceNameReply {
                        result: 0x0a,
                        socket_id,
                        service_name: String::new(),
                    },
                    true,
                    PeerEffect::Nothing,
                )
            },
            TransactionMessage::Error { .. } => Ok(None),
            _ => Err(D4Error::UnexpectedTransactionReply),
        }
    }

    fn open_reply(
        &self,
        channel: ChannelId,
        peer_max_packet_size: u16,
        peer_max_service_size: u16,
    ) -> (reply: TransactionMessage)
        ensures
            reply@ == open_reply(self@, channel, peer_max_packet_size, peer_max_service_size),
    {
        match self.channels.get(channel) {
            Some(state) => TransactionMessage::OpenChannelReply {
                result: 0,
                peer_socket: channel.peer_socket,
                source_socket: channel.source_socket,
                max_packet_size: if state.max_packet_size < peer_max_packet_size {
                    state.max_packet_size
                } else {
                    peer_max_packet_size
                },
                max_service_size: if state.max_service_size < peer_max_service_size {
                    state.max_service_size
                } else {
                    peer_max_service_size
                },
                max_credit: state.max_credit,
                granted_credit: 0,
            },
            None => TransactionMessage::OpenChannelReply {
                result: 0x0d,
                peer_socket: channel.peer_socket,
                source_socket: channel.source_socket,
                max_packet_size: 0,
                max_service_size: 0,
                max_credit: 0,
                granted_credit: 0,
            },
        }
    }

    fn take_bytes(&mut self, bytes: Vec<u8>) -> (action: LinkAction)
        requires
            old(self)@.well_formed(),
            old(self)@.stage == Stage::Reading,
        ensures
            (final(self)@, action@) == take_bytes(old(self)@, bytes@),
            final(self)@.well_formed(),
            asked_for(final(self)@, action@),
            in_character(old(self)@.operation, final(self)@, action@),
    {
        proof {
            reveal(take_bytes);
        }
        if bytes.len() == 0 {
            return self.finish(Err(D4Error::UnexpectedEof));
        }
        match self.decoder.push(bytes.as_slice()) {
            Err(error) => self.finish(Err(D4Error::Packet(error))),
            Ok(packets) => {
                self.queue(packets);
                self.advance()
            },
        }
    }

    fn queue(&mut self, packets: Vec<Packet>)
        ensures
            final(self)@ == (LinkView {
                received: old(self)@.received + packet_views(packets@),
                ..old(self)@
            }),
    {
        let mut packets = packets;
        let ghost all = packets@;
        let mut waiting: VecDeque<Packet> = VecDeque::new();
        proof {
            assert(all =~= packets@ + waiting@);
        }
        while packets.len() > 0
            invariant
                all == packets@ + waiting@,
                *self == *old(self),
            decreases packets.len(),
        {
            if let Some(packet) = packets.pop() {
                let ghost before = waiting@;
                waiting.push_front(packet);
                proof {
                    assert(packets@ + waiting@ =~= packets@.push(packet) + before);
                }
            }
        }
        proof {
            assert(waiting@ =~= all);
        }
        self.received.append(&mut waiting);
        proof {
            assert(packet_views(self.received@) =~= packet_views(old(self).received@)
                + packet_views(all));
        }
    }

    fn advance(&mut self) -> (action: LinkAction)
        requires
            old(self)@.well_formed(),
            !(old(self)@.stage is Writing),
        ensures
            (final(self)@, action@) == advance(old(self)@),
            final(self)@.well_formed(),
            asked_for(final(self)@, action@),
            in_character(old(self)@.operation, final(self)@, action@),
    {
        proof {
            reveal(advance);
        }
        match self.received.pop_front() {
            None => {
                proof {
                    assert(packet_views(self.received@) =~= packet_views(old(self).received@));
                }
                self.stage = Stage::Reading;
                LinkAction::Read
            },
            Some(packet) => {
                proof {
                    assert(packet_views(self.received@) =~= packet_views(
                        old(self).received@,
                    ).drop_first());
                }
                self.take_packet(packet)
            },
        }
    }

    fn take_packet(&mut self, packet: Packet) -> (action: LinkAction)
        requires
            old(self)@.well_formed(),
            !(old(self)@.stage is Writing),
        ensures
            (final(self)@, action@) == take_packet(old(self)@, packet@),
            final(self)@.well_formed(),
            asked_for(final(self)@, action@),
            in_character(old(self)@.operation, final(self)@, action@),
    {
        let channel = ChannelId {
            peer_socket: packet.header.peer_socket,
            source_socket: packet.header.source_socket,
        };
        if channel != ChannelId::transaction() && self.conversation
            == ConversationState::Terminated {
            return self.go_on();
        }
        match self.apply_credit(&packet) {
            CreditStep::Refused(error) => return self.finish(Err(error)),
            CreditStep::Overflow { channel, notice } => {
                self.stage = Stage::Writing(AfterWrite::ReportedOverflow { channel });
                return LinkAction::Write(notice);
            },
            CreditStep::Granted => {},
        }
        if channel == ChannelId::transaction() {
            return match TransactionMessage::decode(packet.payload.as_slice(), self.revision) {
                Err(error) => self.finish(Err(D4Error::Transaction(error))),
                Ok(message) => self.take_message(message),
            };
        }
        if self.operation == (Operation::Request { channel }) {
            return self.finish(Ok(LinkOutcome::Reply(packet.payload)));
        }
        let ghost before = self.received@;
        self.received.push_back(packet);
        proof {
            assert(packet_views(self.received@) =~= packet_views(before).push(packet@));
        }
        self.go_on()
    }

    fn take_message(&mut self, message: TransactionMessage) -> (action: LinkAction)
        requires
            old(self)@.well_formed(),
            !(old(self)@.stage is Writing),
        ensures
            (final(self)@, action@) == take_message(old(self)@, message@),
            final(self)@.well_formed(),
            asked_for(final(self)@, action@),
            in_character(old(self)@.operation, final(self)@, action@),
    {
        if message.is_command() {
            return match self.handle_peer_transaction(message) {
                Err(error) => self.finish(Err(error)),
                Ok(None) => self.after_peer(),
                Ok(Some(answer)) => {
                    self.stage = Stage::Writing(
                        AfterWrite::Answered {
                            consume_credit: answer.consume_credit,
                            effect: answer.effect,
                        },
                    );
                    LinkAction::Write(answer.packet)
                },
            };
        }
        let awaited: u8 = match self.operation {
            Operation::Initialize { .. } => 0x80,
            Operation::FindService => 0x89,
            Operation::OpenService { .. } => 0x81,
            Operation::CloseService { .. } => 0x82,
            Operation::Exit => 0x88,
            Operation::Request { .. } => 0,
        };
        if message.code() != awaited {
            return self.finish(Err(D4Error::UnexpectedTransactionReply));
        }
        self.conclude(message)
    }

    fn conclude(&mut self, reply: TransactionMessage) -> (action: LinkAction)
        requires
            old(self)@.well_formed(),
            !(old(self)@.stage is Writing),
        ensures
            (final(self)@, action@) == conclude(old(self)@, reply@),
            final(self)@.well_formed(),
            asked_for(final(self)@, action@),
            in_character(old(self)@.operation, final(self)@, action@),
    {
        match (self.operation, reply) {
            (
                Operation::Initialize { proposed },
                TransactionMessage::InitReply { result, revision },
            ) => {
                if result == 0 {
                    self.revision = revision;
                    self.channels.set_credit(ChannelId::transaction(), 1);
                    self.conversation = ConversationState::Active;
                    self.finish(Ok(LinkOutcome::Initialized))
                } else if result != 2 {
                    self.finish(Err(D4Error::DeviceRejected { result }))
                } else if proposed == ProtocolRevision::V20 {
                    self.start_transaction(
                        Operation::Initialize { proposed: ProtocolRevision::V10 },
                        TransactionMessage::Init { revision: ProtocolRevision::V10 },
                        false,
                    )
                } else {
                    self.finish(Err(D4Error::NegotiationFailed))
                }
            },
            (
                Operation::FindService,
                TransactionMessage::GetSocketIdReply { result, socket_id, service_name },
            ) => {
                if result != 0 || !same_text(service_name.as_str(), self.service.as_str()) {
                    return self.finish(Err(D4Error::DeviceRejected { result }));
                }
                let channel = ChannelId { peer_socket: socket_id, source_socket: socket_id };
                self.channels.insert(
                    channel,
                    ChannelState {
                        name: self.service.clone(),
                        credit: 0,
                        max_packet_size: 0x100,
                        max_service_size: 0x100,
                        max_credit: 0,
                        open: false,
                    },
                );
                self.start_transaction(
                    Operation::OpenService { channel },
                    TransactionMessage::OpenChannel {
                        peer_socket: channel.peer_socket,
                        source_socket: channel.source_socket,
                        max_packet_size: 0x100,
                        max_service_size: 0x100,
                        max_credit: 0,
                        initial_credit: Some(0),
                    },
                    true,
                )
            },
            (
                Operation::OpenService { channel },
                TransactionMessage::OpenChannelReply {
                    result,
                    max_packet_size,
                    max_service_size,
                    max_credit,
                    granted_credit,
                    ..
                },
            ) => {
                if result != 0 {
                    return self.finish(Err(D4Error::DeviceRejected { result }));
                }
                let ghost before = self.channels@;
                match self.channels.remove(channel) {
                    None => {
                        proof {
                            assert(self.channels@ =~= before);
                        }
                        self.finish(Err(D4Error::UnknownChannel { channel }))
                    },
                    Some(mut state) => {
                        state.credit = granted_credit;
                        state.max_packet_size = max_packet_size;
                        state.max_service_size = max_service_size;
                        state.max_credit = max_credit;
                        state.open = true;
                        let ghost opened = state@;
                        self.channels.insert(channel, state);
                        proof {
                            assert(self.channels@ =~= before.insert(channel, opened));
                        }
                        self.finish(Ok(LinkOutcome::Opened(channel)))
                    },
                }
            },
            (
                Operation::CloseService { channel },
                TransactionMessage::CloseChannelReply { result, peer_socket, source_socket },
            ) => {
                if result != 0 || (ChannelId { peer_socket, source_socket }) != channel {
                    return self.finish(Err(D4Error::DeviceRejected { result }));
                }
                self.channels.remove(channel);
                self.finish(Ok(LinkOutcome::Closed))
            },
            (Operation::Exit, TransactionMessage::ExitReply { result }) => {
                if result != 0 {
                    return self.finish(Err(D4Error::UnexpectedTransactionReply));
                }
                self.terminate_conversation();
                self.finish(Ok(LinkOutcome::Exited))
            },
            _ => self.finish(Err(D4Error::UnexpectedTransactionReply)),
        }
    }
}

/// The way a channel is written in messages.
pub open spec fn channel_text(channel: ChannelId) -> Seq<char> {
    "ChannelId { peer_socket: "@ + crate::text::dec_text(channel.peer_socket as nat)
        + ", source_socket: "@ + crate::text::dec_text(channel.source_socket as nat) + " }"@
}

fn channel_string(channel: ChannelId) -> (text: String)
    ensures
        text@ == channel_text(channel),
{
    String::from_str("ChannelId { peer_socket: ").concat(
        dec(channel.peer_socket as u64).as_str(),
    ).concat(", source_socket: ").concat(dec(channel.source_socket as u64).as_str()).concat(" }")
}

/// The words for a failed link operation.
pub open spec fn d4_error_text(error: D4ErrorView) -> Seq<char> {
    match error {
        D4ErrorView::Transport(message) => "transport error: "@ + message,
        D4ErrorView::Packet(error) => "packet error: "@ + crate::packet::packet_error_text(error),
        D4ErrorView::Transaction(error) => "transaction error: "@
            + crate::transaction::transaction_error_text(error),
        D4ErrorView::UnknownChannel { channel } => "unknown channel "@ + channel_text(channel),
        D4ErrorView::InsufficientCredit { name, .. } => "insufficient credit for "@ + name,
        D4ErrorView::UnexpectedEof => "unexpected end of transport stream"@,
        D4ErrorView::StepLimitReached => "the operation took too many steps"@,
        D4ErrorView::UnexpectedTransactionReply => "unexpected transaction reply"@,
        D4ErrorView::ConversationInactive => "IEEE 1284.4 conversation is not active"@,
        D4ErrorView::ConversationAlreadyActive => "IEEE 1284.4 conversation is already active"@,
        D4ErrorView::ConversationExiting => "IEEE 1284.4 conversation is exiting"@,
        D4ErrorView::ConversationTerminated => "IEEE 1284.4 conversation is terminated"@,
        D4ErrorView::TransactionChannelOperation =>
            "the IEEE 1284.4 transaction channel cannot be closed"@,
        D4ErrorView::DeviceRejected { result } => "device rejected transaction: "@
            + crate::text::prefixed_hex(result as nat, 2),
        D4ErrorView::NegotiationFailed => "IEEE 1284.4 revision negotiation failed"@,
        D4ErrorView::CreditOverflow { channel } => "credit overflow for channel "@ + channel_text(
            channel,
        ),
        D4ErrorView::TransactionPayloadTooLarge { actual } =>
            "transaction payload exceeds 58 bytes: "@ + crate::text::dec_text(actual as nat),
        D4ErrorView::PacketExceedsNegotiatedSize { channel, actual, maximum } =>
            "packet on channel "@ + channel_text(channel) + " is "@ + crate::text::dec_text(
            actual as nat,
        ) + " bytes, exceeding negotiated maximum "@ + crate::text::dec_text(maximum as nat),
    }
}

impl D4Error {
    /// Describes the failure.
    pub fn message(&self) -> (text: String)
        ensures
            text@ == d4_error_text(self@),
    {
        match self {
            D4Error::Transport(error) => String::from_str("transport error: ").concat(
                error.message.as_str(),
            ),
            D4Error::Packet(error) => String::from_str("packet error: ").concat(
                error.message().as_str(),
            ),
            D4Error::Transaction(error) => String::from_str("transaction error: ").concat(
                error.message().as_str(),
            ),
            D4Error::UnknownChannel { channel } => String::from_str("unknown channel ").concat(
                channel_string(*channel).as_str(),
            ),
            D4Error::InsufficientCredit { name, .. } => String::from_str(
                "insufficient credit for ",
            ).concat(name.as_str()),
            D4Error::UnexpectedEof => String::from_str("unexpected end of transport stream"),
            D4Error::StepLimitReached => String::from_str("the operation took too many steps"),
            D4Error::UnexpectedTransactionReply => String::from_str("unexpected transaction reply"),
            D4Error::ConversationInactive => String::from_str(
                "IEEE 1284.4 conversation is not active",
            ),
            D4Error::ConversationAlreadyActive => String::from_str(
                "IEEE 1284.4 conversation is already active",
            ),
            D4Error::ConversationExiting => String::from_str("IEEE 1284.4 conversation is exiting"),
            D4Error::ConversationTerminated => String::from_str(
                "IEEE 1284.4 conversation is terminated",
            ),
            D4Error::TransactionChannelOperation => String::from_str(
                "the IEEE 1284.4 transaction channel cannot be closed",
            ),
            D4Error::DeviceRejected { result } => String::from_str(
                "device rejected transaction: ",
            ).concat(hex_lower(*result as u64, 2).as_str()),
            D4Error::NegotiationFailed => String::from_str(
                "IEEE 1284.4 revision negotiation failed",
            ),
            D4Error::CreditOverflow { channel } => String::from_str(
                "credit overflow for channel ",
            ).concat(channel_string(*channel).as_str()),
            D4Error::TransactionPayloadTooLarge { actual } => String::from_str(
                "transaction payload exceeds 58 bytes: ",
            ).concat(dec(*actual as u64).as_str()),
            D4Error::PacketExceedsNegotiatedSize { channel, actual, maximum } => String::from_str(
                "packet on channel ",
            ).concat(channel_string(*channel).as_str()).concat(" is ").concat(
                dec(*actual as u64).as_str(),
            ).concat(" bytes, exceeding negotiated maximum ").concat(
                dec(*maximum as u64).as_str(),
            ),
        }
    }
}

/// A packet is only sent in a conversation that has not ended, on a channel that
/// is known and open, within the negotiated size, and against credit where it
/// costs credit.
pub proof fn sending_respects_negotiated_limits(
    link: LinkView,
    channel: ChannelId,
    payload: Seq<u8>,
    consume_credit: bool,
)
    requires
        prepare(link, channel, payload, consume_credit) is Ok,
    ensures
        link.conversation == ConversationState::Inactive || link.conversation
            == ConversationState::Active,
        link.channels.contains_key(channel),
        channel != ChannelId::transaction() ==> link.channels[channel].open,
        consume_credit ==> link.channels[channel].credit > 0,
        prepare(link, channel, payload, consume_credit)->Ok_0.len()
            <= link.channels[channel].max_packet_size,
{
}

/// A request that goes out costs its channel one credit, and no other channel any.
pub proof fn request_costs_one_credit(link: LinkView, channel: ChannelId, request: Seq<u8>)
    requires
        link.well_formed(),
        request_step(link, channel, request).1 is Write,
    ensures
        ({
            let sent = request_step(link, channel, request).0;
            let waiting = event_step(sent, LinkEvent::Written).0;
            &&& waiting.channels[channel].credit == link.channels[channel].credit - 1
            &&& forall|other: ChannelId|
                other != channel ==> waiting.channels[other] == #[trigger] link.channels[other]
            &&& waiting.channels.dom() == link.channels.dom()
        }),
{
    reveal(after_write);
    let sent = request_step(link, channel, request).0;
    let waiting = event_step(sent, LinkEvent::Written).0;
    assert(waiting.channels.dom() =~= link.channels.dom());
}

/// A conversation that has ended keeps the transaction channel alone, without credit.
pub proof fn termination_forgets_services(link: LinkView)
    requires
        link.well_formed(),
    ensures
        link.terminated().conversation == ConversationState::Terminated,
        link.terminated().channels.dom() == set![ChannelId::transaction()],
        link.terminated().channels[ChannelId::transaction()].credit == 0,
{
    assert(link.terminated().channels.dom() =~= set![ChannelId::transaction()]);
}

/// Nothing is written any more in a conversation that has ended: every operation
/// that begins is over at once, with an error.
pub proof fn terminated_conversation_stays_silent(
    link: LinkView,
    service_name: Seq<char>,
    channel: ChannelId,
    request: Seq<u8>,
)
    requires
        link.conversation == ConversationState::Terminated,
    ensures
        initialize_step(link).1 == ActionView::Finished(Err(D4ErrorView::ConversationTerminated)),
        exit_step(link).1 == ActionView::Finished(Err(D4ErrorView::ConversationTerminated)),
        request_step(link, channel, request).1 == ActionView::Finished(
            Err(D4ErrorView::ConversationTerminated),
        ),
        open_service_step(link, service_name).1 == ActionView::Finished(
            Err(
                match service_name_error(service_name) {
                    Some(error) => D4ErrorView::Transaction(error),
                    None => D4ErrorView::ConversationTerminated,
                },
            ),
        ),
        close_channel_step(link, channel).1 matches ActionView::Finished(Err(_)),
{
}

/// The notice of a credit overflow grants the peer no credit of its own.
pub proof fn overflow_notice_grants_no_credit(channel: ChannelId)
    ensures
        error_notice(channel, 0x86).len() == 10,
        error_notice(channel, 0x86)[4] == 0,
{
}

/// A packet for a channel that nobody waits on is kept, behind those that came before.
///
/// The operation goes on with the packets that are kept, not with the transport.
/// Where this packet is the only one, the next step takes it again, with its
/// credit granted once more. That repeats until the credit of the channel
/// overflows, or, for a packet without credit, until the steps run out.
pub proof fn other_channels_keep_their_packets(link: LinkView, packet: PacketView)
    requires
        link.conversation != ConversationState::Terminated,
        channel_of(packet) != ChannelId::transaction(),
        link.operation != (Operation::Request { channel: channel_of(packet) }),
        credit_effect(link, packet) is Granted,
    ensures
        take_packet(link, packet).0.received == link.received.push(packet),
        take_packet(link, packet).1 == ActionView::Proceed,
        take_packet(link, packet).0.channels[channel_of(packet)].credit
            == link.channels[channel_of(packet)].credit + packet.header.credit,
        link.received.len() == 0 ==> advance(take_packet(link, packet).0) == take_packet(
            LinkView { received: seq![], ..take_packet(link, packet).0 },
            packet,
        ),
{
    reveal(advance);
    if link.received.len() == 0 {
        assert(link.received.push(packet).drop_first() =~= seq![]);
    }
}

/// An action writes one packet with this payload between two sockets, and grants one
/// credit with it.
pub open spec fn writes_packet(
    action: ActionView,
    peer_socket: u8,
    source_socket: u8,
    payload: Seq<u8>,
) -> bool {
    action matches ActionView::Write(bytes) && {
        &&& bytes.len() == 6 + payload.len()
        &&& bytes[0] == peer_socket
        &&& bytes[1] == source_socket
        &&& 256 * bytes[2] + bytes[3] == bytes.len()
        &&& bytes[4] == 1
        &&& bytes[5] == 0
        &&& forall|i: int| 0 <= i < payload.len() ==> #[trigger] bytes[6 + i] == payload[i]
    }
}

/// A packet with a transaction arrives that the transaction channel has room for.
pub open spec fn hears(link: LinkView, packet: PacketView) -> bool {
    let transaction = ChannelId { peer_socket: 0, source_socket: 0 };
    &&& link.well_formed()
    &&& packet.header.peer_socket == 0
    &&& packet.header.source_socket == 0
    &&& packet.header.length <= link.channels[transaction].max_service_size
    &&& link.channels[transaction].credit + packet.header.credit <= 65535
}

/// Only the credit of one channel differs between two links.
pub open spec fn only_credit_differs(
    before: LinkView,
    after: LinkView,
    channel: ChannelId,
    credit: int,
) -> bool {
    &&& after.channels.dom() == before.channels.dom()
    &&& after.channels[channel].credit == credit
    &&& after.channels[channel].name == before.channels[channel].name
    &&& after.channels[channel].max_packet_size == before.channels[channel].max_packet_size
    &&& after.channels[channel].max_service_size == before.channels[channel].max_service_size
    &&& after.channels[channel].max_credit == before.channels[channel].max_credit
    &&& after.channels[channel].open == before.channels[channel].open
    &&& forall|other: ChannelId|
        other != channel ==> #[trigger] after.channels[other] == before.channels[other]
}

/// Messages may be sent on the transaction channel.
pub open spec fn talking(link: LinkView) -> bool {
    link.conversation == ConversationState::Inactive || link.conversation
        == ConversationState::Active
}

proof fn lemma_written(
    link: LinkView,
    channel: ChannelId,
    payload: Seq<u8>,
    consume_credit: bool,
    bytes: Seq<u8>,
)
    requires
        prepare(link, channel, payload, consume_credit) == Ok::<Seq<u8>, D4ErrorView>(bytes),
    ensures
        writes_packet(
            ActionView::Write(bytes),
            channel.peer_socket,
            channel.source_socket,
            payload,
        ),
{
}

proof fn lemma_transaction_written(link: LinkView, message: MessageView, consume_credit: bool)
    requires
        link.channels.contains_key(ChannelId::transaction()),
        link.channels[ChannelId::transaction()].max_packet_size >= 64,
        talking(link),
        consume_credit ==> link.channels[ChannelId::transaction()].credit > 0,
        message_bytes(message, link.revision) is Ok,
        message_bytes(message, link.revision)->Ok_0.len() <= 58,
    ensures
        prepare_transaction(link, message, consume_credit) is Ok,
        writes_packet(
            ActionView::Write(prepare_transaction(link, message, consume_credit)->Ok_0),
            0,
            0,
            message_bytes(message, link.revision)->Ok_0,
        ),
{
    let payload = message_bytes(message, link.revision)->Ok_0;
    let bytes = prepare(link, ChannelId::transaction(), payload, consume_credit)->Ok_0;
    lemma_written(link, ChannelId::transaction(), payload, consume_credit, bytes);
}

/// What goes out when an operation begins: a proposal of revision 2.0, the name of
/// the service that is looked for, the sockets of the channel that is closed, or a
/// farewell. Each is a transaction.
pub proof fn operations_begin_with_their_message(
    link: LinkView,
    service_name: Seq<char>,
    channel: ChannelId,
)
    requires
        link.well_formed(),
        talking(link),
        link.channels[ChannelId { peer_socket: 0, source_socket: 0 }].credit > 0,
    ensures
        link.conversation == ConversationState::Inactive ==> writes_packet(
            initialize_step(link).1,
            0,
            0,
            seq![0x00u8, 0x20u8],
        ),
        link.conversation == ConversationState::Active ==> initialize_step(link).1
            == ActionView::Finished(Err(D4ErrorView::ConversationAlreadyActive)),
        link.conversation == ConversationState::Active ==> writes_packet(
            exit_step(link).1,
            0,
            0,
            seq![0x08u8],
        ),
        link.conversation == ConversationState::Inactive ==> exit_step(link).1
            == ActionView::Finished(Err(D4ErrorView::ConversationInactive)),
        message_bytes(MessageView::GetSocketId { service_name }, link.revision) matches Ok(
            payload,
        ) ==> writes_packet(open_service_step(link, service_name).1, 0, 0, payload)
            && open_service_step(link, service_name).0.service == service_name,
        channel_open(link, channel) && (channel.peer_socket != 0 || channel.source_socket != 0)
            ==> writes_packet(
            close_channel_step(link, channel).1,
            0,
            0,
            if link.revision == ProtocolRevision::V10 {
                seq![0x02u8, channel.peer_socket, channel.source_socket, 0u8]
            } else {
                seq![0x02u8, channel.peer_socket, channel.source_socket]
            },
        ),
        channel.peer_socket == 0 && channel.source_socket == 0 ==> close_channel_step(link, channel).1
            == ActionView::Finished(Err(D4ErrorView::TransactionChannelOperation)),
        !channel_open(link, channel) && (channel.peer_socket != 0 || channel.source_socket != 0)
            ==> close_channel_step(link, channel).1 == ActionView::Finished(
            Err(D4ErrorView::UnknownChannel { channel }),
        ),
{
    let init = MessageView::Init { revision: ProtocolRevision::V20 };
    assert(message_bytes(init, link.revision)->Ok_0 =~= seq![0x00u8, 0x20u8]);
    lemma_transaction_written(link, init, false);
    let leaving = LinkView { exit_requested: true, ..link };
    assert(message_bytes(MessageView::Exit, link.revision)->Ok_0 =~= seq![0x08u8]);
    lemma_transaction_written(leaving, MessageView::Exit, true);
    let named = LinkView { service: service_name, ..link };
    let search = MessageView::GetSocketId { service_name };
    if message_bytes(search, link.revision) is Ok {
        lemma_transaction_written(named, search, true);
    }
    let closing = MessageView::CloseChannel {
        peer_socket: channel.peer_socket,
        source_socket: channel.source_socket,
    };
    assert(message_bytes(closing, link.revision)->Ok_0 =~= if link.revision
        == ProtocolRevision::V10 {
        seq![0x02u8, channel.peer_socket, channel.source_socket, 0u8]
    } else {
        seq![0x02u8, channel.peer_socket, channel.source_socket]
    });
    lemma_transaction_written(link, closing, true);
}

/// A request goes out on its own channel as it is, and is owed wherever the
/// conversation is active, the channel is open, has credit and takes packets of that
/// size. Where it is refused the link says why.
pub proof fn requests_go_out_as_they_are(link: LinkView, channel: ChannelId, request: Seq<u8>)
    requires
        link.conversation == ConversationState::Active,
    ensures
        ({
            let state = link.channels[channel];
            let (next, action) = request_step(link, channel, request);
            if !link.channels.contains_key(channel) || (!state.open && (channel.peer_socket != 0
                || channel.source_socket != 0)) {
                action == ActionView::Finished(Err(D4ErrorView::UnknownChannel { channel }))
            } else if state.credit == 0 {
                action == ActionView::Finished(
                    Err(D4ErrorView::InsufficientCredit { channel, name: state.name }),
                )
            } else if request.len() + 6 > state.max_packet_size {
                action matches ActionView::Finished(
                    Err(D4ErrorView::PacketExceedsNegotiatedSize { channel: named, actual, maximum }),
                ) && named == channel && maximum == state.max_packet_size && (request.len() + 6
                    <= usize::MAX ==> actual == request.len() + 6)
            } else {
                &&& writes_packet(action, channel.peer_socket, channel.source_socket, request)
                &&& next.channels == link.channels
                &&& next.operation == (Operation::Request { channel })
            }
        }),
{
    let busy = LinkView { operation: Operation::Request { channel }, ..link };
    if let Ok(bytes) = prepare(busy, channel, request, true) {
        lemma_written(busy, channel, request, true, bytes);
    }
}

/// The packet that arrives on the channel of a request is the reply to it, whole,
/// and the credit that it grants is added to that channel alone.
pub proof fn replies_are_handed_over_whole(
    link: LinkView,
    channel: ChannelId,
    packet: PacketView,
)
    requires
        link.conversation != ConversationState::Terminated,
        channel.peer_socket != 0 || channel.source_socket != 0,
        link.operation == (Operation::Request { channel }),
        packet.header.peer_socket == channel.peer_socket,
        packet.header.source_socket == channel.source_socket,
    ensures
        ({
            let state = link.channels[channel];
            let (next, action) = take_packet(link, packet);
            if !link.channels.contains_key(channel) {
                action == ActionView::Finished(Err(D4ErrorView::UnknownChannel { channel }))
            } else if packet.header.length > state.max_service_size {
                action matches ActionView::Finished(
                    Err(D4ErrorView::PacketExceedsNegotiatedSize { channel: named, actual, maximum }),
                ) && named == channel && actual == packet.header.length && maximum
                    == state.max_service_size
            } else if state.credit + packet.header.credit > 65535 {
                &&& action matches ActionView::Write(notice) && notice.len() == 10 && notice[0] == 0
                    && notice[1] == 0 && notice[2] == 0 && notice[3] == 10 && notice[4] == 0
                    && notice[5] == 0 && notice[6] == 0x7f && notice[7] == channel.peer_socket
                    && notice[8] == channel.source_socket && notice[9] == 0x86
                &&& next.channels == link.channels
            } else {
                &&& action == ActionView::Finished(Ok(OutcomeView::Reply(packet.payload)))
                &&& only_credit_differs(link, next, channel, state.credit + packet.header.credit)
                &&& next.received == link.received
                &&& next.stage == Stage::Idle
            }
        }),
{
    let (next, action) = take_packet(link, packet);
    if link.channels.contains_key(channel) {
        assert(next.channels.dom() =~= link.channels.dom());
    }
}

/// The answer to a proposal: accepted, the revision that the device names is spoken
/// from then on and the transaction channel has one credit; the older revision is
/// proposed where the newer one is not known, and after that nothing.
pub proof fn proposals_are_answered(
    link: LinkView,
    proposed: ProtocolRevision,
    packet: PacketView,
)
    requires
        hears(link, packet),
        talking(link),
        link.operation == (Operation::Initialize { proposed }),
        packet.payload.len() >= 3,
        packet.payload[0] == 0x80,
        packet.payload[2] == 0x10 || packet.payload[2] == 0x20,
    ensures
        ({
            let transaction = ChannelId { peer_socket: 0, source_socket: 0 };
            let result = packet.payload[1];
            let (next, action) = take_packet(link, packet);
            if result == 0 {
                &&& action == ActionView::Finished(Ok(OutcomeView::Initialized))
                &&& next.conversation == ConversationState::Active
                &&& next.revision == (if packet.payload[2] == 0x10 {
                    ProtocolRevision::V10
                } else {
                    ProtocolRevision::V20
                })
                &&& only_credit_differs(link, next, transaction, 1)
            } else if result != 2 {
                action == ActionView::Finished(Err(D4ErrorView::DeviceRejected { result }))
            } else if proposed == ProtocolRevision::V20 {
                &&& writes_packet(action, 0, 0, seq![0x00u8, 0x10u8])
                &&& next.operation == (Operation::Initialize { proposed: ProtocolRevision::V10 })
            } else {
                action == ActionView::Finished(Err(D4ErrorView::NegotiationFailed))
            }
        }),
{
    let transaction = ChannelId { peer_socket: 0, source_socket: 0 };
    let (next, action) = take_packet(link, packet);
    let credited = link.with_credit(
        transaction,
        (link.channels[transaction].credit + packet.header.credit) as u16,
    );
    assert(next.channels.dom() =~= link.channels.dom());
    if packet.payload[1] == 2 && proposed == ProtocolRevision::V20 {
        let again = MessageView::Init { revision: ProtocolRevision::V10 };
        assert(message_bytes(again, link.revision)->Ok_0 =~= seq![0x00u8, 0x10u8]);
        lemma_transaction_written(credited, again, false);
    }
}

/// The socket of the service that was asked for is opened at both ends, with packets
/// of 256 bytes in both directions and without credit. A refusal, or the socket of
/// another service, ends the operation.
pub proof fn found_services_are_opened(link: LinkView, packet: PacketView)
    requires
        hears(link, packet),
        talking(link),
        link.operation == Operation::FindService,
        packet.payload.len() >= 3,
        packet.payload[0] == 0x89,
        packet.payload[2] != 0,
        forall|i: int| 3 <= i < packet.payload.len() ==> #[trigger] packet.payload[i] < 0x80,
        link.channels[ChannelId { peer_socket: 0, source_socket: 0 }].credit + packet.header.credit
            > 0,
    ensures
        ({
            let result = packet.payload[1];
            let socket = packet.payload[2];
            let channel = ChannelId { peer_socket: socket, source_socket: socket };
            let (next, action) = take_packet(link, packet);
            let asked_for: bool = packet.payload.len() - 3 == link.service.len() && forall|i: int|
                0 <= i < link.service.len() ==> (#[trigger] link.service[i]) as int
                    == packet.payload[i + 3] as int;
            if result != 0 || !asked_for {
                action == ActionView::Finished(Err(D4ErrorView::DeviceRejected { result }))
            } else {
                &&& writes_packet(
                    action,
                    0,
                    0,
                    seq![0x01u8, socket, socket, 1u8, 0u8, 1u8, 0u8, 0u8, 0u8] + (
                    if link.revision == ProtocolRevision::V10 {
                        seq![0u8, 0u8]
                    } else {
                        seq![]
                    }),
                )
                &&& next.operation == (Operation::OpenService { channel })
                &&& next.channels.contains_key(channel)
                &&& next.channels[channel].name == link.service
                &&& !next.channels[channel].open
                &&& next.channels[channel].credit == 0
            }
        }),
{
    let transaction = ChannelId { peer_socket: 0, source_socket: 0 };
    let socket = packet.payload[2];
    let channel = ChannelId { peer_socket: socket, source_socket: socket };
    let credited = link.with_credit(
        transaction,
        (link.channels[transaction].credit + packet.header.credit) as u16,
    );
    complete_messages_are_understood(packet.payload, link.revision);
    let message = message_of(packet.payload, link.revision)->Ok_0;
    let name = message->GetSocketIdReply_service_name;
    assert(name.len() == packet.payload.len() - 3);
    assert forall|i: int| 0 <= i < name.len() implies (#[trigger] name[i]) as int
        == packet.payload[i + 3] as int by {
        assert(packet.payload.skip(3)[i] == packet.payload[i + 3]);
    }
    if packet.payload.len() - 3 == link.service.len() && forall|i: int|
        0 <= i < link.service.len() ==> (#[trigger] link.service[i]) as int == packet.payload[i
            + 3] as int {
        assert forall|i: int| 0 <= i < name.len() implies name[i] == link.service[i] by {
            assert(link.service[i] as int == packet.payload[i + 3] as int);
        }
        assert(name =~= link.service);
    }
    if packet.payload[1] == 0 && name == link.service {
        let pending = LinkView {
            channels: credited.channels.insert(channel, pending_channel(link.service)),
            ..credited
        };
        let opening = open_message(channel);
        assert(message_bytes(opening, link.revision)->Ok_0 =~= seq![
            0x01u8,
            socket,
            socket,
            1u8,
            0u8,
            1u8,
            0u8,
            0u8,
            0u8,
        ] + (if link.revision == ProtocolRevision::V10 {
            seq![0u8, 0u8]
        } else {
            seq![]
        }));
        lemma_transaction_written(pending, opening, true);
    }
}

/// A channel that the device has opened takes its limits and its credit from the
/// device's reply.
pub proof fn opened_channels_hold_what_the_reply_says(
    link: LinkView,
    channel: ChannelId,
    packet: PacketView,
)
    requires
        hears(link, packet),
        link.operation == (Operation::OpenService { channel }),
        packet.payload.len() >= 12,
        packet.payload[0] == 0x81,
        link.channels.contains_key(channel),
    ensures
        ({
            let reply = packet.payload;
            let transaction = ChannelId { peer_socket: 0, source_socket: 0 };
            let (next, action) = take_packet(link, packet);
            if reply[1] != 0 {
                &&& action == ActionView::Finished(
                    Err(D4ErrorView::DeviceRejected { result: reply[1] }),
                )
                &&& only_credit_differs(
                    link,
                    next,
                    transaction,
                    link.channels[transaction].credit + packet.header.credit,
                )
            } else {
                &&& action == ActionView::Finished(Ok(OutcomeView::Opened(channel)))
                &&& next.channels.dom() == link.channels.dom()
                &&& next.channels[channel].open
                &&& next.channels[channel].name == link.channels[channel].name
                &&& next.channels[channel].max_packet_size == 256 * reply[4] + reply[5]
                &&& next.channels[channel].max_service_size == 256 * reply[6] + reply[7]
                &&& next.channels[channel].max_credit == 256 * reply[8] + reply[9]
                &&& next.channels[channel].credit == 256 * reply[10] + reply[11]
                &&& next.channels[transaction].credit == link.channels[transaction].credit
                    + packet.header.credit
                &&& forall|other: ChannelId|
                    other != channel && other != transaction ==> #[trigger] next.channels[other]
                        == link.channels[other]
            }
        }),
{
    let (next, action) = take_packet(link, packet);
    assert(next.channels.dom() =~= link.channels.dom());
}

/// A channel that the device has closed is forgotten, and no other; a refusal, or the
/// sockets of another channel, ends the operation.
pub proof fn closed_channels_are_forgotten(
    link: LinkView,
    channel: ChannelId,
    packet: PacketView,
)
    requires
        hears(link, packet),
        link.operation == (Operation::CloseService { channel }),
        packet.payload.len() >= 4,
        packet.payload[0] == 0x82,
    ensures
        ({
            let reply = packet.payload;
            let transaction = ChannelId { peer_socket: 0, source_socket: 0 };
            let (next, action) = take_packet(link, packet);
            if reply[1] == 0 && reply[2] == channel.peer_socket && reply[3]
                == channel.source_socket {
                &&& action == ActionView::Finished(Ok(OutcomeView::Closed))
                &&& next.channels.dom() == link.channels.dom().remove(channel)
                &&& forall|other: ChannelId|
                    other != channel && other != transaction ==> #[trigger] next.channels[other]
                        == link.channels[other]
            } else {
                &&& action == ActionView::Finished(
                    Err(D4ErrorView::DeviceRejected { result: reply[1] }),
                )
                &&& next.channels.dom() == link.channels.dom()
            }
        }),
{
    let (next, action) = take_packet(link, packet);
    let transaction = ChannelId { peer_socket: 0, source_socket: 0 };
    assert(link.channels.dom().insert(transaction) =~= link.channels.dom());
    assert(link.channels.dom().insert(transaction).remove(channel) =~= next.channels.dom()
        || link.channels.dom() =~= next.channels.dom());
}

/// The device's farewell ends the conversation. A reply that nobody waits for ends
/// the operation with an error.
pub proof fn farewells_end_the_conversation(link: LinkView, packet: PacketView)
    requires
        hears(link, packet),
        packet.payload.len() >= 2,
        packet.payload[0] == 0x88,
    ensures
        ({
            let (next, action) = take_packet(link, packet);
            if link.operation == Operation::Exit && packet.payload[1] == 0 {
                &&& action == ActionView::Finished(Ok(OutcomeView::Exited))
                &&& next.conversation == ConversationState::Terminated
            } else {
                &&& action == ActionView::Finished(Err(D4ErrorView::UnexpectedTransactionReply))
                &&& next.conversation == link.conversation
            }
        }),
{
}

/// The code of the reply that ends an operation is that of its message with the
/// highest bit set; any other reply is unexpected.
pub proof fn only_the_awaited_reply_is_taken(link: LinkView, packet: PacketView)
    requires
        hears(link, packet),
        packet.payload.len() > 0,
        packet.payload[0] >= 0x80,
        message_of(packet.payload, link.revision) is Ok,
        match link.operation {
            Operation::Initialize { .. } => packet.payload[0] != 0x80,
            Operation::FindService => packet.payload[0] != 0x89,
            Operation::OpenService { .. } => packet.payload[0] != 0x81,
            Operation::CloseService { .. } => packet.payload[0] != 0x82,
            Operation::Exit => packet.payload[0] != 0x88,
            Operation::Request { .. } => true,
        },
    ensures
        take_packet(link, packet).1 == ActionView::Finished(
            Err(D4ErrorView::UnexpectedTransactionReply),
        ),
{
}

/// A message that cannot be understood ends the operation with what is wrong with it.
pub proof fn garbled_messages_end_the_operation(link: LinkView, packet: PacketView)
    requires
        hears(link, packet),
        message_of(packet.payload, link.revision) is Err,
    ensures
        take_packet(link, packet).1 == ActionView::Finished(
            Err(D4ErrorView::Transaction(message_of(packet.payload, link.revision)->Err_0)),
        ),
{
}

/// The smaller of two numbers, as two bytes with the more significant one first.
pub open spec fn smaller_bytes(left: u16, high: u8, low: u8) -> Seq<u8> {
    if left < 256 * high + low {
        seq![(left / 256) as u8, (left % 256) as u8]
    } else {
        seq![high, low]
    }
}

/// What a device that asks is answered with: the limits that both ends can meet, the
/// channel that it closes, no more credit than there is and no service. The answer
/// names the sockets that the device named.
pub proof fn devices_are_answered(link: LinkView, packet: PacketView)
    requires
        hears(link, packet),
        talking(link),
        packet.payload.len() > 0,
        packet.payload[0] < 0x7f,
        packet.payload[0] != 0x00,
        packet.payload[0] != 0x03,
        message_of(packet.payload, link.revision) is Ok,
        link.channels[ChannelId { peer_socket: 0, source_socket: 0 }].credit + packet.header.credit
            > 0,
    ensures
        ({
            let asked = packet.payload;
            let channel = ChannelId { peer_socket: asked[1], source_socket: asked[2] };
            let state = link.channels[channel];
            let (next, action) = take_packet(link, packet);
            &&& asked[0] == 0x01 && link.channels.contains_key(channel) ==> writes_packet(
                action,
                0,
                0,
                seq![0x81u8, 0u8, asked[1], asked[2]] + smaller_bytes(
                    state.max_packet_size,
                    asked[3],
                    asked[4],
                ) + smaller_bytes(state.max_service_size, asked[5], asked[6]) + seq![
                    (state.max_credit / 256) as u8,
                    (state.max_credit % 256) as u8,
                    0u8,
                    0u8,
                ],
            )
            &&& asked[0] == 0x01 && !link.channels.contains_key(channel) ==> writes_packet(
                action,
                0,
                0,
                seq![0x81u8, 0x0du8, asked[1], asked[2], 0u8, 0u8, 0u8, 0u8, 0u8, 0u8, 0u8, 0u8],
            )
            &&& asked[0] == 0x02 ==> writes_packet(
                action,
                0,
                0,
                seq![
                    0x82u8,
                    if asked[1] == 0 && asked[2] == 0 {
                        0x03u8
                    } else if link.channels.contains_key(channel) {
                        0x00u8
                    } else {
                        0x08u8
                    },
                    asked[1],
                    asked[2],
                ],
            )
            &&& asked[0] == 0x04 ==> writes_packet(
                action,
                0,
                0,
                seq![0x84u8, 0u8, asked[1], asked[2], 0u8, 0u8],
            )
            &&& asked[0] == 0x08 ==> writes_packet(action, 0, 0, seq![0x88u8, 0u8])
            &&& asked[0] == 0x09 ==> writes_packet(action, 0, 0, seq![0x89u8, 0x0au8, 0u8])
            &&& asked[0] == 0x0a ==> writes_packet(action, 0, 0, seq![0x8au8, 0x0au8, asked[1]])
        }),
{
    let transaction = ChannelId { peer_socket: 0, source_socket: 0 };
    let credited = link.with_credit(
        transaction,
        (link.channels[transaction].credit + packet.header.credit) as u16,
    );
    let asked = packet.payload;
    let channel = ChannelId { peer_socket: asked[1], source_socket: asked[2] };
    let state = link.channels[channel];
    let revision = link.revision;
    complete_messages_are_understood(asked, revision);
    let message = message_of(asked, revision)->Ok_0;
    if asked[0] == 0x01 {
        assert(credited.channels.contains_key(channel) == link.channels.contains_key(channel));
        assert(credited.channels[channel].max_packet_size == state.max_packet_size
            && credited.channels[channel].max_service_size == state.max_service_size
            && credited.channels[channel].max_credit == state.max_credit);
        let packet_size = (256 * asked[3] + asked[4]) as u16;
        let service_size = (256 * asked[5] + asked[6]) as u16;
        let reply = open_reply(credited, channel, packet_size, service_size);
        if link.channels.contains_key(channel) {
            assert(message_bytes(reply, revision)->Ok_0 =~= seq![0x81u8, 0u8, asked[1], asked[2]]
                + smaller_bytes(state.max_packet_size, asked[3], asked[4]) + smaller_bytes(
                state.max_service_size,
                asked[5],
                asked[6],
            ) + seq![(state.max_credit / 256) as u8, (state.max_credit % 256) as u8, 0u8, 0u8]);
        } else {
            assert(message_bytes(reply, revision)->Ok_0 =~= seq![
                0x81u8,
                0x0du8,
                asked[1],
                asked[2],
                0u8,
                0u8,
                0u8,
                0u8,
                0u8,
                0u8,
                0u8,
                0u8,
            ]);
        }
        lemma_transaction_written(credited, reply, true);
    } else if asked[0] == 0x02 {
        let result: u8 = if asked[1] == 0 && asked[2] == 0 {
            0x03u8
        } else if link.channels.contains_key(channel) {
            0x00u8
        } else {
            0x08u8
        };
        let reply = MessageView::CloseChannelReply {
            result,
            peer_socket: asked[1],
            source_socket: asked[2],
        };
        assert(message_bytes(reply, revision)->Ok_0 =~= seq![0x82u8, result, asked[1], asked[2]]);
        lemma_transaction_written(credited, reply, true);
    } else if asked[0] == 0x04 {
        let reply = MessageView::CreditRequestReply {
            result: 0,
            peer_socket: asked[1],
            source_socket: asked[2],
            added_credit: 0,
        };
        assert(message_bytes(reply, revision)->Ok_0 =~= seq![
            0x84u8,
            0u8,
            asked[1],
            asked[2],
            0u8,
            0u8,
        ]);
        lemma_transaction_written(credited, reply, true);
    } else if asked[0] == 0x08 {
        let reply = MessageView::ExitReply { result: 0 };
        assert(message_bytes(reply, revision)->Ok_0 =~= seq![0x88u8, 0u8]);
        lemma_transaction_written(credited, reply, true);
    } else if asked[0] == 0x09 {
        let reply = MessageView::GetSocketIdReply {
            result: 0x0a,
            socket_id: 0,
            service_name: message->GetSocketId_service_name,
        };
        assert(message_bytes(reply, revision)->Ok_0 =~= seq![0x89u8, 0x0au8, 0u8]);
        lemma_transaction_written(credited, reply, true);
    } else {
        let reply = MessageView::GetServiceNameReply {
            result: 0x0a,
            socket_id: asked[1],
            service_name: seq![],
        };
        assert(message_bytes(reply, revision)->Ok_0 =~= seq![0x8au8, 0x0au8, asked[1]]);
        lemma_transaction_written(credited, reply, true);
    }
}

/// Credit that a device grants with a message is added to the channel that it names;
/// credit for another channel, or more than can be counted, is refused.
pub proof fn granted_credit_is_added(link: LinkView, packet: PacketView)
    requires
        hears(link, packet),
        talking(link),
        packet.payload.len() >= 5,
        packet.payload[0] == 0x03,
        packet.payload[1] != 0 || packet.payload[2] != 0,
        link.channels[ChannelId { peer_socket: 0, source_socket: 0 }].credit + packet.header.credit
            > 0,
    ensures
        ({
            let asked = packet.payload;
            let channel = ChannelId { peer_socket: asked[1], source_socket: asked[2] };
            let credit: int = link.channels[channel].credit + 256 * asked[3] + asked[4];
            let (next, action) = take_packet(link, packet);
            if !link.channels.contains_key(channel) {
                action == ActionView::Finished(Err(D4ErrorView::UnknownChannel { channel }))
            } else if credit > 65535 {
                action == ActionView::Finished(Err(D4ErrorView::CreditOverflow { channel }))
            } else {
                &&& writes_packet(action, 0, 0, seq![0x83u8, 0u8, asked[1], asked[2]])
                &&& next.channels[channel].credit == credit
                &&& next.channels[channel].max_packet_size
                    == link.channels[channel].max_packet_size
                &&& next.channels[channel].open == link.channels[channel].open
            }
        }),
{
    let transaction = ChannelId { peer_socket: 0, source_socket: 0 };
    let credited = link.with_credit(
        transaction,
        (link.channels[transaction].credit + packet.header.credit) as u16,
    );
    let asked = packet.payload;
    let channel = ChannelId { peer_socket: asked[1], source_socket: asked[2] };
    let credit: int = link.channels[channel].credit + 256 * asked[3] + asked[4];
    if link.channels.contains_key(channel) && credit <= 65535 {
        let granted = credited.with_credit(channel, credit as u16);
        let reply = MessageView::CreditReply {
            result: 0,
            peer_socket: asked[1],
            source_socket: asked[2],
        };
        assert(message_bytes(reply, link.revision)->Ok_0 =~= seq![
            0x83u8,
            0u8,
            asked[1],
            asked[2],
        ]);
        lemma_transaction_written(granted, reply, true);
    }
}

/// A device that proposes a revision is told that it is taken, and the conversation
/// is active; in any other state it is refused.
pub proof fn device_proposals_are_answered(link: LinkView, packet: PacketView)
    requires
        hears(link, packet),
        talking(link),
        packet.payload.len() >= 2,
        packet.payload[0] == 0x00,
        packet.payload[1] == 0x10 || packet.payload[1] == 0x20,
    ensures
        ({
            let transaction = ChannelId { peer_socket: 0, source_socket: 0 };
            let (next, action) = take_packet(link, packet);
            if link.conversation == ConversationState::Inactive {
                &&& writes_packet(action, 0, 0, seq![0x80u8, 0u8, packet.payload[1]])
                &&& next.conversation == ConversationState::Active
                &&& next.channels[transaction].credit == 1
                &&& next.revision == (if packet.payload[1] == 0x10 {
                    ProtocolRevision::V10
                } else {
                    ProtocolRevision::V20
                })
            } else {
                &&& writes_packet(
                    action,
                    0,
                    0,
                    seq![
                        0x80u8,
                        0x0bu8,
                        if link.revision == ProtocolRevision::V10 {
                            0x10u8
                        } else {
                            0x20u8
                        },
                    ],
                )
                &&& next.conversation == link.conversation
                &&& next.revision == link.revision
            }
        }),
{
    let transaction = ChannelId { peer_socket: 0, source_socket: 0 };
    let credited = link.with_credit(
        transaction,
        (link.channels[transaction].credit + packet.header.credit) as u16,
    );
    let proposed = if packet.payload[1] == 0x10 {
        ProtocolRevision::V10
    } else {
        ProtocolRevision::V20
    };
    if link.conversation == ConversationState::Inactive {
        let active = LinkView {
            revision: proposed,
            conversation: ConversationState::Active,
            ..credited
        }.with_credit(transaction, 1);
        let reply = MessageView::InitReply { result: 0, revision: proposed };
        assert(message_bytes(reply, proposed)->Ok_0 =~= seq![0x80u8, 0u8, packet.payload[1]]);
        lemma_transaction_written(active, reply, false);
    } else {
        let reply = MessageView::InitReply { result: 0x0b, revision: link.revision };
        assert(message_bytes(reply, link.revision)->Ok_0 =~= seq![
            0x80u8,
            0x0bu8,
            if link.revision == ProtocolRevision::V10 {
                0x10u8
            } else {
                0x20u8
            },
        ]);
        lemma_transaction_written(credited, reply, false);
    }
}

/// An answer that has been written costs the transaction channel one credit where it
/// costs any. A channel that the device closed is closed, and a conversation that it
/// left is over, or on its way out where this end is leaving too.
pub proof fn answers_take_effect_once_written(
    link: LinkView,
    consume_credit: bool,
    effect: PeerEffect,
)
    requires
        link.well_formed(),
        link.stage == Stage::Writing(AfterWrite::Answered { consume_credit, effect }),
    ensures
        ({
            let transaction = ChannelId { peer_socket: 0, source_socket: 0 };
            let credit: int = link.channels[transaction].credit - (if consume_credit {
                1int
            } else {
                0int
            });
            let (next, action) = event_step(link, LinkEvent::Written);
            match effect {
                PeerEffect::Nothing => only_credit_differs(link, next, transaction, credit)
                    && next.conversation == link.conversation,
                PeerEffect::CloseChannel(channel) => {
                    &&& next.channels.dom() == link.channels.dom()
                    &&& !next.channels[channel].open
                    &&& next.conversation == link.conversation
                    &&& forall|other: ChannelId|
                        other != channel && other != transaction ==> #[trigger] next.channels[other]
                            == link.channels[other]
                },
                PeerEffect::LeaveConversation => next.conversation == (if link.exit_requested {
                    ConversationState::Exiting
                } else {
                    ConversationState::Terminated
                }),
            }
        }),
{
    reveal(after_write);
    let next = event_step(link, LinkEvent::Written).0;
    assert(effect is Nothing || effect is CloseChannel ==> next.channels.dom()
        =~= link.channels.dom());
}

/// What is read is put behind what was read before, cut into packets, and the packets
/// are looked at in the order in which they came. A read without bytes is the end of
/// the stream.
pub proof fn packets_are_taken_in_order(link: LinkView, bytes: Seq<u8>)
    ensures
        bytes.len() == 0 ==> take_bytes(link, bytes).1 == ActionView::Finished(
            Err(D4ErrorView::UnexpectedEof),
        ) && take_bytes(link, bytes).0.buffer == link.buffer,
        bytes.len() > 0 && decode_all(link.buffer + bytes).error is Some ==> take_bytes(
            link,
            bytes,
        ).1 == ActionView::Finished(
            Err(D4ErrorView::Packet(decode_all(link.buffer + bytes).error->0)),
        ),
        bytes.len() > 0 && decode_all(link.buffer + bytes).error is None && link.received.len()
            == 0 && decode_all(link.buffer + bytes).packets.len() == 0 ==> take_bytes(link, bytes).1
            == ActionView::Read && take_bytes(link, bytes).0.buffer == decode_all(
            link.buffer + bytes,
        ).rest,
        bytes.len() > 0 && decode_all(link.buffer + bytes).error is None && link.received.len()
            + decode_all(link.buffer + bytes).packets.len() > 0 ==> {
            let waiting = link.received + decode_all(link.buffer + bytes).packets;
            take_bytes(link, bytes) == take_packet(
                LinkView {
                    buffer: decode_all(link.buffer + bytes).rest,
                    received: waiting.skip(1),
                    ..link
                },
                waiting[0],
            )
        },
        link.received.len() > 0 ==> advance(link) == take_packet(
            LinkView { received: link.received.skip(1), ..link },
            link.received[0],
        ),
        link.received.len() == 0 ==> advance(link).1 == ActionView::Read,
{
    reveal(take_bytes);
    reveal(advance);
    let waiting = link.received + decode_all(link.buffer + bytes).packets;
    if waiting.len() > 0 {
        assert(waiting.drop_first() =~= waiting.skip(1));
    }
    if link.received.len() > 0 {
        assert(link.received.drop_first() =~= link.received.skip(1));
    }
}

/// A link begins with a transaction channel for packets of 64 bytes and no credit,
/// and with nothing said.
pub proof fn links_begin_inactive()
    ensures
        ({
            let transaction = ChannelId { peer_socket: 0, source_socket: 0 };
            let link = initial_link();
            &&& link.well_formed()
            &&& link.conversation == ConversationState::Inactive
            &&& link.revision == ProtocolRevision::V20
            &&& link.buffer.len() == 0
            &&& link.received.len() == 0
            &&& link.channels.dom() == set![transaction]
            &&& link.channels[transaction].credit == 0
            &&& link.channels[transaction].max_packet_size == 64
            &&& link.channels[transaction].max_service_size == 64
            &&& link.channels[transaction].max_credit == 1
        }),
{
    let transaction = ChannelId { peer_socket: 0, source_socket: 0 };
    assert(initial_link().channels.dom() =~= set![transaction]);
}

/// What is told of a packet that is too large: its own length before the negotiated one.
pub proof fn oversized_packets_are_put_into_words(
    channel: ChannelId,
    actual: usize,
    maximum: u16,
    result: u8,
)
    ensures
        d4_error_text(D4ErrorView::PacketExceedsNegotiatedSize { channel, actual, maximum })
            == "packet on channel "@ + ("ChannelId { peer_socket: "@ + crate::text::dec_text(
            channel.peer_socket as nat,
        ) + ", source_socket: "@ + crate::text::dec_text(channel.source_socket as nat) + " }"@)
            + " is "@ + crate::text::dec_text(actual as nat) + " bytes, exceeding negotiated maximum "@ + crate::text::dec_text(maximum as nat),
        d4_error_text(D4ErrorView::DeviceRejected { result }) == "device rejected transaction: "@
            + ("0x"@ + crate::text::hex_text(result as nat, 2, false)),
{
}

} // verus!
