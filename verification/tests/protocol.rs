//! Packets, transactions and links.
use std::collections::VecDeque;

use reink::channel::{ChannelId, ChannelState};
use reink::driver::D4Link;
use reink::link::{
    AfterWrite, ConversationState, CreditStep, D4Error, LinkAction, LinkEvent, Stage,
};
use reink::packet::{Packet, PacketDecoder, PacketError, PacketHeader};
use reink::platform::{ByteTransport, ControlChannel, TransportError};
use reink::transaction::{ProtocolRevision, TransactionMessage, TransactionParseError};

struct ScriptedTransport {
    writes: VecDeque<Vec<u8>>,
    reads: VecDeque<Vec<u8>>,
}

impl ScriptedTransport {
    fn new() -> Self {
        ScriptedTransport {
            writes: VecDeque::new(),
            reads: VecDeque::new(),
        }
    }

    fn expect_write(&mut self, bytes: Vec<u8>) {
        self.writes.push_back(bytes);
    }

    fn push_read_data(&mut self, bytes: Vec<u8>) {
        self.reads.push_back(bytes);
    }

    fn assert_finished(&self) {
        assert!(self.writes.is_empty());
        assert!(self.reads.is_empty());
    }
}

impl ByteTransport for ScriptedTransport {
    fn write_all(&mut self, bytes: &[u8]) -> Result<(), TransportError> {
        match self.writes.pop_front() {
            Some(expected) => {
                assert_eq!(bytes, expected.as_slice());
                Ok(())
            }
            None => Err(TransportError {
                message: "unexpected write".to_owned(),
            }),
        }
    }

    fn read(&mut self, limit: usize) -> Result<Vec<u8>, TransportError> {
        match self.reads.pop_front() {
            Some(mut bytes) => {
                if bytes.len() > limit {
                    let rest = bytes.split_off(limit);
                    self.reads.push_front(rest);
                }
                Ok(bytes)
            }
            None => Err(TransportError {
                message: "unexpected read".to_owned(),
            }),
        }
    }
}

fn packet(peer: u8, source: u8, payload: &[u8], credit: u8) -> Vec<u8> {
    Packet::new(peer, source, payload.to_vec(), credit, 0)
        .unwrap()
        .encode()
}

fn transaction_packet(message: TransactionMessage, credit: u8) -> Vec<u8> {
    packet(
        0,
        0,
        &message.encode(ProtocolRevision::V20).unwrap(),
        credit,
    )
}

fn service() -> ChannelId {
    ChannelId {
        peer_socket: 2,
        source_socket: 2,
    }
}

fn service_state(open: bool) -> ChannelState {
    ChannelState {
        name: "SERVICE".to_owned(),
        credit: 0,
        max_packet_size: 0x100,
        max_service_size: 0x100,
        max_credit: 4,
        open,
    }
}

fn active_link(target: ScriptedTransport) -> D4Link<ScriptedTransport> {
    let mut link = D4Link::new(target);
    link.machine.conversation = ConversationState::Active;
    link.machine
        .channels
        .set_credit(ChannelId::transaction(), 1);
    link
}

fn handle_peer(link: &mut D4Link<ScriptedTransport>, message: TransactionMessage) {
    let answer = link.machine.handle_peer_transaction(message).unwrap().unwrap();
    link.target.write_all(&answer.packet).unwrap();
    link.machine
        .complete_answer(answer.consume_credit, answer.effect);
}

#[test]
fn encodes_and_decodes_a_packet() {
    let packet = Packet::new(2, 2, vec![1, 2], 1, 0).unwrap();
    assert_eq!(packet.encode(), [2, 2, 0, 8, 1, 0, 1, 2]);

    let header = PacketHeader::decode(&packet.encode()).unwrap();
    assert_eq!(header, packet.header);
    assert_eq!(header.payload_length(), 2);
}

#[test]
fn reassembles_fragmented_and_back_to_back_packets() {
    let first = Packet::new(0, 0, vec![0x80, 0, 0x20], 1, 0)
        .unwrap()
        .encode();
    let second = Packet::new(2, 2, vec![0xaa], 1, 0).unwrap().encode();
    let mut decoder = PacketDecoder::default();

    assert!(decoder.push(&first[..4]).unwrap().is_empty());
    let mut tail = first[4..].to_vec();
    tail.extend(second);
    let packets = decoder.push(&tail).unwrap();

    assert_eq!(packets.len(), 2);
    assert_eq!(packets[0].payload, [0x80, 0, 0x20]);
    assert_eq!(packets[1].payload, [0xaa]);
    assert_eq!(decoder.buffered_len(), 0);
}

#[test]
fn rejects_header_lengths_smaller_than_the_header() {
    assert_eq!(
        PacketHeader::decode(&[0, 0, 0, 5, 0, 0]).unwrap_err(),
        PacketError::InvalidLength { length: 5 }
    );
}

#[test]
fn rejects_reserved_control_bits() {
    assert_eq!(
        Packet::new(2, 2, vec![], 0, 0x04).unwrap_err(),
        PacketError::ReservedControlBits { control: 0x04 }
    );
    assert_eq!(
        PacketHeader::decode(&[2, 2, 0, 6, 0, 0x80]).unwrap_err(),
        PacketError::ReservedControlBits { control: 0x80 }
    );
}

#[test]
fn refuses_packets_that_are_too_short_or_too_long() {
    assert_eq!(
        PacketHeader::decode(&[2, 2, 0]).unwrap_err(),
        PacketError::TruncatedHeader { actual: 3 }
    );
    assert_eq!(
        Packet::new(2, 2, vec![0; 0xfffa], 0, 0).unwrap_err(),
        PacketError::PayloadTooLarge {
            payload_length: 0xfffa
        }
    );
    assert_eq!(
        Packet::new(2, 2, vec![0; 0xfff9], 0, 0)
            .unwrap()
            .header
            .length,
        0xffff
    );
}

#[test]
fn codecs_init_and_service_lookup() {
    let init = TransactionMessage::Init {
        revision: ProtocolRevision::V20,
    };
    assert_eq!(init.encode(ProtocolRevision::V20).unwrap(), [0, 0x20]);
    assert_eq!(
        TransactionMessage::decode(&[0x89, 0, 2, b'E', b'P'], ProtocolRevision::V20).unwrap(),
        TransactionMessage::GetSocketIdReply {
            result: 0,
            socket_id: 2,
            service_name: "EP".to_owned()
        }
    );
}

#[test]
fn codecs_revision_specific_credit_requests() {
    let request = TransactionMessage::CreditRequest {
        peer_socket: 2,
        source_socket: 2,
        max_credit: 4,
    };
    assert_eq!(
        request.encode(ProtocolRevision::V20).unwrap(),
        [4, 2, 2, 0, 4]
    );
    assert_eq!(
        request.encode(ProtocolRevision::V10).unwrap(),
        [4, 2, 2, 0, 0x80, 0xff, 0xff]
    );
}

#[test]
fn preserves_revision_10_open_and_close_layouts() {
    let open = TransactionMessage::OpenChannel {
        peer_socket: 2,
        source_socket: 3,
        max_packet_size: 0x100,
        max_service_size: 0x200,
        max_credit: 4,
        initial_credit: Some(5),
    };
    assert_eq!(
        open.encode(ProtocolRevision::V10).unwrap(),
        [1, 2, 3, 1, 0, 2, 0, 0, 4, 0, 5]
    );
    assert_eq!(
        TransactionMessage::decode(&[2, 2, 3, 0], ProtocolRevision::V10).unwrap(),
        TransactionMessage::CloseChannel {
            peer_socket: 2,
            source_socket: 3
        }
    );
}

#[test]
fn rejects_invalid_or_oversized_service_names() {
    let oversized = "A".repeat(41);
    for service_name in ["", "lowercase", "-LEADING", "TRAILING-", &oversized] {
        assert!(TransactionMessage::GetSocketId {
            service_name: service_name.to_owned(),
        }
        .encode(ProtocolRevision::V20)
        .is_err());
    }
}

#[test]
fn transaction_errors_name_what_is_wrong() {
    assert_eq!(
        TransactionMessage::decode(&[0x33], ProtocolRevision::V20).unwrap_err(),
        TransactionParseError::UnknownCode { code: 0x33 }
    );
    assert_eq!(
        ProtocolRevision::from_byte(0x30).unwrap_err(),
        TransactionParseError::UnsupportedRevision { revision: 0x30 }
    );
    assert!(matches!(
        TransactionMessage::decode(&[1, 2], ProtocolRevision::V20).unwrap_err(),
        TransactionParseError::Truncated { .. }
    ));
    assert_eq!(
        TransactionMessage::decode(&[0x09, 0xe9], ProtocolRevision::V20).unwrap_err(),
        TransactionParseError::NonAsciiServiceName
    );
}

#[test]
fn initializes_then_opens_and_uses_a_service_channel() {
    let mut target = ScriptedTransport::new();
    target.expect_write(packet(0, 0, &[0, 0x20], 1));
    target.push_read_data(transaction_packet(
        TransactionMessage::InitReply {
            result: 0,
            revision: ProtocolRevision::V20,
        },
        2,
    ));
    target.expect_write(packet(0, 0, b"\x09EPSON-CTRL", 1));
    target.push_read_data(transaction_packet(
        TransactionMessage::GetSocketIdReply {
            result: 0,
            socket_id: 2,
            service_name: "EPSON-CTRL".to_owned(),
        },
        1,
    ));
    target.expect_write(packet(0, 0, b"\x01\x02\x02\x01\x00\x01\x00\x00\x00", 1));
    target.push_read_data(transaction_packet(
        TransactionMessage::OpenChannelReply {
            result: 0,
            peer_socket: 2,
            source_socket: 2,
            max_packet_size: 0x100,
            max_service_size: 0x100,
            max_credit: 0,
            granted_credit: 1,
        },
        1,
    ));
    target.expect_write(packet(2, 2, b"request", 1));
    target.push_read_data(packet(2, 2, b"reply", 1));

    let mut link = D4Link::new(target);
    link.initialize().unwrap();
    let service = link.open_service("EPSON-CTRL").unwrap();
    assert_eq!(
        service,
        ChannelId {
            peer_socket: 2,
            source_socket: 2
        }
    );
    let mut control = match link.control_channel(service) {
        Ok(control) => control,
        Err((error, _)) => panic!("{}", error.message()),
    };
    assert_eq!(control.request(b"request").unwrap(), b"reply");
    control.link.target().assert_finished();
}

#[test]
fn falls_back_to_revision_10() {
    let mut target = ScriptedTransport::new();
    target.expect_write(packet(0, 0, &[0, 0x20], 1));
    target.push_read_data(transaction_packet(
        TransactionMessage::InitReply {
            result: 2,
            revision: ProtocolRevision::V10,
        },
        1,
    ));
    target.expect_write(packet(0, 0, &[0, 0x10], 1));
    let reply = TransactionMessage::InitReply {
        result: 0,
        revision: ProtocolRevision::V10,
    }
    .encode(ProtocolRevision::V10)
    .unwrap();
    target.push_read_data(packet(0, 0, &reply, 1));

    let mut link = D4Link::new(target);
    link.initialize().unwrap();
    assert_eq!(link.revision(), ProtocolRevision::V10);
    link.target().assert_finished();
}

#[test]
fn initialize_resets_transaction_credit_to_one() {
    let mut target = ScriptedTransport::new();
    target.expect_write(packet(0, 0, &[0, 0x20], 1));
    target.push_read_data(transaction_packet(
        TransactionMessage::InitReply {
            result: 0,
            revision: ProtocolRevision::V20,
        },
        0,
    ));

    let mut link = D4Link::new(target);
    link.initialize().unwrap();
    assert_eq!(
        link.machine
            .channels
            .get(ChannelId::transaction())
            .unwrap()
            .credit,
        1
    );
    link.target().assert_finished();
}

#[test]
fn reports_credit_overflow_without_piggyback_credit() {
    let mut target = ScriptedTransport::new();
    target.expect_write(packet(0, 0, &[0x7f, 2, 2, 0x86], 0));
    let mut link = D4Link::new(target);
    link.machine.channels.insert(
        service(),
        ChannelState {
            name: "SERVICE".to_owned(),
            credit: u16::MAX,
            max_packet_size: 0x100,
            max_service_size: 0x100,
            max_credit: 0,
            open: true,
        },
    );
    let packet = Packet::new(2, 2, vec![], 1, 0).unwrap();

    let (channel, notice) = match link.machine.apply_credit(&packet) {
        CreditStep::Overflow { channel, notice } => (channel, notice),
        _ => panic!("more credit than can be counted was accepted"),
    };
    link.target.write_all(&notice).unwrap();
    link.machine.stage = Stage::Writing(AfterWrite::ReportedOverflow { channel });
    assert!(matches!(
        link.machine.resume(LinkEvent::Written),
        LinkAction::Finished(Err(D4Error::CreditOverflow { .. }))
    ));
    link.target().assert_finished();
}

#[test]
fn completes_a_peer_open_while_local_open_is_pending() {
    let channel = service();
    let mut target = ScriptedTransport::new();
    target.expect_write(transaction_packet(
        TransactionMessage::OpenChannelReply {
            result: 0,
            peer_socket: 2,
            source_socket: 2,
            max_packet_size: 0x80,
            max_service_size: 0x40,
            max_credit: 4,
            granted_credit: 0,
        },
        1,
    ));
    let mut link = active_link(target);
    link.machine.channels.insert(channel, service_state(false));

    handle_peer(
        &mut link,
        TransactionMessage::OpenChannel {
            peer_socket: 2,
            source_socket: 2,
            max_packet_size: 0x80,
            max_service_size: 0x40,
            max_credit: 9,
            initial_credit: None,
        },
    );

    assert!(!link.machine.channels.get(channel).unwrap().open);
    link.target().assert_finished();
}

#[test]
fn closes_a_channel_when_the_peer_initiates_close() {
    let channel = service();
    let mut target = ScriptedTransport::new();
    target.expect_write(transaction_packet(
        TransactionMessage::CloseChannelReply {
            result: 0,
            peer_socket: 2,
            source_socket: 2,
        },
        1,
    ));
    let mut link = active_link(target);
    link.machine.channels.insert(channel, service_state(true));

    handle_peer(
        &mut link,
        TransactionMessage::CloseChannel {
            peer_socket: 2,
            source_socket: 2,
        },
    );

    assert!(!link.machine.channels.get(channel).unwrap().open);
    link.target().assert_finished();
}

#[test]
fn closes_a_channel_when_the_local_peer_initiates_close() {
    let channel = service();
    let mut target = ScriptedTransport::new();
    target.expect_write(transaction_packet(
        TransactionMessage::CloseChannel {
            peer_socket: 2,
            source_socket: 2,
        },
        1,
    ));
    target.push_read_data(transaction_packet(
        TransactionMessage::CloseChannelReply {
            result: 0,
            peer_socket: 2,
            source_socket: 2,
        },
        1,
    ));
    let mut link = active_link(target);
    link.machine.channels.insert(channel, service_state(true));

    link.close_channel(channel).unwrap();

    assert!(!link.machine.channels.contains(channel));
    link.target().assert_finished();
}

#[test]
fn exits_when_the_peer_initiates_exit() {
    let channel = service();
    let mut target = ScriptedTransport::new();
    target.expect_write(transaction_packet(
        TransactionMessage::ExitReply { result: 0 },
        1,
    ));
    let mut link = active_link(target);
    link.machine.channels.insert(channel, service_state(true));

    handle_peer(&mut link, TransactionMessage::Exit);

    assert_eq!(link.machine.conversation, ConversationState::Terminated);
    assert_eq!(link.machine.channels.len(), 1);
    assert!(link.machine.channels.contains(ChannelId::transaction()));
    link.target().assert_finished();
}

#[test]
fn exits_when_the_local_peer_initiates_exit() {
    let mut target = ScriptedTransport::new();
    target.expect_write(transaction_packet(TransactionMessage::Exit, 1));
    target.push_read_data(transaction_packet(
        TransactionMessage::ExitReply { result: 0 },
        1,
    ));
    let mut link = active_link(target);
    link.machine.channels.insert(service(), service_state(true));

    link.exit().unwrap();

    assert_eq!(link.machine.conversation, ConversationState::Terminated);
    assert_eq!(link.machine.channels.len(), 1);
    link.target().assert_finished();
}

#[test]
fn services_peer_close_while_delivering_an_outstanding_data_reply() {
    let channel = service();
    let mut target = ScriptedTransport::new();
    target.expect_write(packet(2, 2, b"request", 1));
    target.expect_write(transaction_packet(
        TransactionMessage::CloseChannelReply {
            result: 0,
            peer_socket: 2,
            source_socket: 2,
        },
        1,
    ));
    let mut inbound = transaction_packet(
        TransactionMessage::CloseChannel {
            peer_socket: 2,
            source_socket: 2,
        },
        1,
    );
    inbound.extend(packet(2, 2, b"reply", 0));
    target.push_read_data(inbound);

    let mut link = active_link(target);
    let mut state = service_state(true);
    state.credit = 1;
    link.machine.channels.insert(channel, state);

    assert_eq!(link.request(channel, b"request").unwrap(), b"reply");
    assert!(!link.machine.channels.get(channel).unwrap().open);
    link.target().assert_finished();
}

#[test]
fn requests_need_an_open_channel_with_credit() {
    let mut link = active_link(ScriptedTransport::new());
    assert!(matches!(
        link.request(service(), b"request"),
        Err(D4Error::UnknownChannel { .. })
    ));
    link.machine.channels.insert(service(), service_state(true));
    assert!(matches!(
        link.request(service(), b"request"),
        Err(D4Error::InsufficientCredit { .. })
    ));
    assert!(matches!(
        link.close_channel(ChannelId::transaction()),
        Err(D4Error::TransactionChannelOperation)
    ));
    let mut fresh = D4Link::new(ScriptedTransport::new());
    assert!(matches!(
        fresh.open_service("EPSON-CTRL"),
        Err(D4Error::InsufficientCredit { .. })
    ));
}

#[test]
fn the_end_of_the_stream_ends_an_operation() {
    let mut target = ScriptedTransport::new();
    target.expect_write(packet(0, 0, &[0, 0x20], 1));
    target.push_read_data(Vec::new());
    let mut link = D4Link::new(target);
    assert!(matches!(link.initialize(), Err(D4Error::UnexpectedEof)));
    link.target().assert_finished();
}

#[test]
fn reassembly_does_not_depend_on_the_fragments() {
    let mut bytes = packet(0, 0, &[0x80, 0, 0x20], 1);
    bytes.extend(packet(2, 2, b"reply", 1));
    let mut whole = PacketDecoder::default();
    let expected = whole.push(&bytes).unwrap();
    let mut single = PacketDecoder::default();
    let mut found = Vec::new();
    for byte in &bytes {
        found.extend(single.push(&[*byte]).unwrap());
    }
    assert_eq!(found.len(), expected.len());
    for (left, right) in found.iter().zip(expected.iter()) {
        assert_eq!(left.header, right.header);
        assert_eq!(left.payload, right.payload);
    }
}

fn open_service_script(target: &mut ScriptedTransport) {
    target.expect_write(transaction_packet(
        TransactionMessage::GetSocketId {
            service_name: "SERVICE".to_owned(),
        },
        1,
    ));
    target.push_read_data(transaction_packet(
        TransactionMessage::GetSocketIdReply {
            result: 0,
            socket_id: 2,
            service_name: "SERVICE".to_owned(),
        },
        1,
    ));
    target.expect_write(transaction_packet(
        TransactionMessage::OpenChannel {
            peer_socket: 2,
            source_socket: 2,
            max_packet_size: 0x100,
            max_service_size: 0x100,
            max_credit: 0,
            initial_credit: Some(0),
        },
        1,
    ));
    target.push_read_data(transaction_packet(
        TransactionMessage::OpenChannelReply {
            result: 0,
            peer_socket: 2,
            source_socket: 2,
            max_packet_size: 0x100,
            max_service_size: 0x100,
            max_credit: 4,
            granted_credit: 1,
        },
        1,
    ));
}

fn unknown(link: D4Link<ScriptedTransport>) -> D4Link<ScriptedTransport> {
    match link.control_channel(service()) {
        Ok(_) => panic!("the channel is open"),
        Err((error, link)) => {
            assert!(matches!(error, D4Error::UnknownChannel { channel } if channel == service()));
            link
        }
    }
}

#[test]
fn a_channel_is_handed_out_from_its_opening_to_its_close() {
    let mut target = ScriptedTransport::new();
    open_service_script(&mut target);
    target.expect_write(transaction_packet(
        TransactionMessage::CloseChannel {
            peer_socket: 2,
            source_socket: 2,
        },
        1,
    ));
    target.push_read_data(transaction_packet(
        TransactionMessage::CloseChannelReply {
            result: 0,
            peer_socket: 2,
            source_socket: 2,
        },
        1,
    ));
    let mut link = unknown(active_link(target));
    assert_eq!(link.open_service("SERVICE").unwrap(), service());
    let mut link = match link.control_channel(service()) {
        Ok(control) => control.link,
        Err((error, _)) => panic!("{}", error.message()),
    };
    link.close_channel(service()).unwrap();
    unknown(link).target().assert_finished();
}

#[test]
fn a_channel_that_the_peer_closed_is_not_handed_out() {
    let mut target = ScriptedTransport::new();
    target.expect_write(transaction_packet(
        TransactionMessage::CloseChannelReply {
            result: 0,
            peer_socket: 2,
            source_socket: 2,
        },
        1,
    ));
    let mut link = active_link(target);
    link.machine.channels.insert(service(), service_state(true));
    handle_peer(
        &mut link,
        TransactionMessage::CloseChannel {
            peer_socket: 2,
            source_socket: 2,
        },
    );
    unknown(link).target().assert_finished();
}

#[test]
fn an_ended_conversation_writes_nothing_more() {
    let mut target = ScriptedTransport::new();
    target.expect_write(transaction_packet(TransactionMessage::Exit, 1));
    target.push_read_data(transaction_packet(
        TransactionMessage::ExitReply { result: 0 },
        1,
    ));
    let mut link = active_link(target);
    link.machine.channels.insert(service(), service_state(true));
    link.exit().unwrap();
    let mut link = unknown(link);
    for _ in 0..2 {
        assert!(matches!(link.exit(), Err(D4Error::ConversationTerminated)));
        assert!(matches!(link.initialize(), Err(D4Error::ConversationTerminated)));
        assert!(matches!(
            link.open_service("SERVICE"),
            Err(D4Error::ConversationTerminated)
        ));
        assert!(matches!(
            link.request(service(), &[1]),
            Err(D4Error::ConversationTerminated)
        ));
        assert!(matches!(
            link.close_channel(service()),
            Err(D4Error::UnknownChannel { channel }) if channel == service()
        ));
    }
    link.target().assert_finished();
}

#[test]
fn a_refused_exit_and_an_exit_without_a_conversation_fail() {
    let mut target = ScriptedTransport::new();
    target.expect_write(transaction_packet(TransactionMessage::Exit, 1));
    target.push_read_data(transaction_packet(
        TransactionMessage::ExitReply { result: 1 },
        1,
    ));
    let mut link = active_link(target);
    assert!(matches!(link.exit(), Err(D4Error::UnexpectedTransactionReply)));
    link.target().assert_finished();

    let mut link = D4Link::new(ScriptedTransport::new());
    assert!(matches!(link.exit(), Err(D4Error::ConversationInactive)));
    link.target().assert_finished();
}
