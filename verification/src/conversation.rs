//! What holds of a link over several calls: the life of a channel, and the end of
//! a conversation.
use crate::channel::ChannelId;
use crate::driver::{completes, completes_in, run_steps, transfers_since};
use crate::link::{
    advance, after_write, channel_of, channel_open, close_channel_step, credit_effect,
    exit_step, finish, initial_link, initialize_step, open_service_step, peer_step,
    prepare_transaction, request_step, take_bytes, take_message, take_packet, ActionView,
    AfterWrite, AnswerView, ConversationState, CreditView, D4ErrorView, LinkView, Operation,
    OutcomeView, PeerEffect, Stage,
};
use crate::packet::{decode_all, PacketView};
use crate::platform::Transfer;
use crate::transaction::{message_of, service_name_error, MessageView, TransactionParseError};
use vstd::prelude::*;

verus! {

/// A call on a link.
pub enum Call {
    Initialize,
    OpenService { name: Seq<char> },
    CloseChannel { channel: ChannelId },
    Exit,
    Request { channel: ChannelId, request: Seq<u8> },
}

/// How a call begins.
pub open spec fn call_step(link: LinkView, call: Call) -> (LinkView, ActionView) {
    match call {
        Call::Initialize => initialize_step(link),
        Call::OpenService { name } => open_service_step(link, name),
        Call::CloseChannel { channel } => close_channel_step(link, channel),
        Call::Exit => exit_step(link),
        Call::Request { channel, request } => request_step(link, channel, request),
    }
}

/// A call that has been made, what it gave, and what it left behind.
pub struct MadeCall {
    pub call: Call,
    pub result: Result<OutcomeView, D4ErrorView>,
    pub link: LinkView,
    pub transfers: Seq<Transfer>,
}

/// The link after some calls.
pub open spec fn link_after(link: LinkView, calls: Seq<MadeCall>) -> LinkView {
    if calls.len() == 0 {
        link
    } else {
        calls.last().link
    }
}

/// The transfers made by the end of some calls.
pub open spec fn transfers_after(earlier: Seq<Transfer>, calls: Seq<MadeCall>) -> Seq<Transfer> {
    if calls.len() == 0 {
        earlier
    } else {
        calls.last().transfers
    }
}

/// The calls have been made one after the other.
pub open spec fn made(link: LinkView, earlier: Seq<Transfer>, calls: Seq<MadeCall>) -> bool
    decreases calls.len(),
{
    calls.len() == 0 || {
        let front = calls.drop_last();
        &&& made(link, earlier, front)
        &&& completes(
            call_step(link_after(link, front), calls.last().call),
            transfers_after(earlier, front),
            calls.last().transfers,
            calls.last().link,
            calls.last().result,
        )
    }
}

/// What every step makes of a link that is well formed.
spec fn orderly(link: LinkView, next: (LinkView, ActionView)) -> bool {
    &&& steady(link, next)
    &&& next.1 == ActionView::Finished(Ok(OutcomeView::Exited)) ==> exists|
        waiting: LinkView,
        packet: PacketView,
    | #[trigger]
        concluded_by(next.0, Ok(OutcomeView::Exited), waiting, packet) && carries_message(
            waiting,
            packet,
            MessageView::ExitReply { result: 0 },
        )
}

/// What every message makes of a link that is well formed.
spec fn steady(link: LinkView, next: (LinkView, ActionView)) -> bool {
    &&& next.0.well_formed()
    &&& link.operation is CloseService || next.0.operation is CloseService ==> next.0.operation
        == link.operation
    &&& link.operation is Exit <==> next.0.operation is Exit
    &&& next.1 matches ActionView::Finished(Ok(OutcomeView::Opened(channel))) ==> channel_open(
        next.0,
        channel,
    )
    &&& next.1 == ActionView::Finished(Ok(OutcomeView::Closed)) ==> (link.operation matches
        Operation::CloseService { channel } && !next.0.channels.contains_key(channel))
    &&& next.1 == ActionView::Finished(Ok(OutcomeView::Exited)) ==> ended(next.0)
    &&& forall|channel: ChannelId|
        channel != ChannelId::transaction() && !channel_open(link, channel)
            && next.1 != ActionView::Finished(Ok(OutcomeView::Opened(channel)))
            ==> !#[trigger] channel_open(next.0, channel)
}

/// The conversation has ended, and no service channel is left.
pub open spec fn ended(link: LinkView) -> bool {
    &&& link.conversation == ConversationState::Terminated
    &&& link.channels.dom() == set![ChannelId::transaction()]
}

proof fn lemma_message_steady(link: LinkView, message: MessageView)
    requires
        link.well_formed(),
    ensures
        steady(link, take_message(link, message)),
        take_message(link, message).1 == ActionView::Finished(Ok(OutcomeView::Exited)) ==> {
            &&& link.operation is Exit
            &&& message == (MessageView::ExitReply { result: 0 })
        },
{
    let next = take_message(link, message);
    if next.1 == ActionView::Finished(Ok(OutcomeView::Exited)) {
        assert(next.0.channels.dom() =~= set![ChannelId::transaction()]);
    }
}

proof fn lemma_packet_orderly(link: LinkView, packet: PacketView)
    requires
        link.well_formed(),
    ensures
        orderly(link, take_packet(link, packet)),
{
    match credit_effect(link, packet) {
        CreditView::Granted(next) => {
            assert(next.well_formed());
            assert forall|channel: ChannelId| #[trigger] channel_open(next, channel)
                == channel_open(link, channel) by {}
            match message_of(packet.payload, next.revision) {
                Ok(message) => lemma_message_steady(next, message),
                Err(_) => {},
            }
            let taken = take_packet(link, packet);
            if taken.1 == ActionView::Finished(Ok(OutcomeView::Exited)) {
                assert(concluded_by(taken.0, Ok(OutcomeView::Exited), link, packet));
            }
        },
        _ => {},
    }
}

proof fn lemma_advance_orderly(link: LinkView)
    requires
        link.well_formed(),
    ensures
        orderly(link, advance(link)),
{
    reveal(advance);
    if link.received.len() > 0 {
        let shorter = LinkView { received: link.received.drop_first(), ..link };
        assert forall|channel: ChannelId| #[trigger] channel_open(shorter, channel)
            == channel_open(link, channel) by {}
        lemma_packet_orderly(shorter, link.received.first());
    }
}

proof fn lemma_bytes_orderly(link: LinkView, bytes: Seq<u8>)
    requires
        link.well_formed(),
    ensures
        orderly(link, take_bytes(link, bytes)),
{
    reveal(take_bytes);
    let decoded = decode_all(link.buffer + bytes);
    let filled = LinkView {
        buffer: decoded.rest,
        received: link.received + decoded.packets,
        ..link
    };
    assert forall|channel: ChannelId| #[trigger] channel_open(filled, channel)
        == channel_open(link, channel) by {}
    lemma_advance_orderly(filled);
}

proof fn lemma_write_orderly(link: LinkView, after: AfterWrite)
    requires
        link.well_formed(),
        link.stage == Stage::Writing(after),
    ensures
        orderly(link, after_write(link, after)),
{
    reveal(after_write);
}

proof fn lemma_orderly_twice(
    first: LinkView,
    second: (LinkView, ActionView),
    third: (LinkView, ActionView),
)
    requires
        orderly(first, second),
        orderly(second.0, third),
        !(second.1 is Finished),
    ensures
        orderly(first, third),
{
    assert forall|channel: ChannelId|
        channel != ChannelId::transaction() && !channel_open(first, channel) && third.1
            != ActionView::Finished(Ok(OutcomeView::Opened(channel))) implies !#[trigger] channel_open(
        third.0,
        channel,
    ) by {
        assert(!channel_open(second.0, channel));
    }
}

proof fn lemma_failure_orderly(link: LinkView, error: D4ErrorView)
    requires
        link.well_formed(),
    ensures
        orderly(link, finish(link, Err(error))),
{
}

/// What the last of some steps makes of a link that is well formed.
proof fn lemma_last_step_orderly(
    start: (LinkView, ActionView),
    transfers: Seq<Transfer>,
    steps: nat,
)
    requires
        steps > 0,
        run_steps(start.0, start.1, transfers, steps) is Some,
        run_steps(start.0, start.1, transfers, (steps - 1) as nat)->Some_0.0.well_formed(),
    ensures
        run_steps(start.0, start.1, transfers, (steps - 1) as nat) is Some,
        ({
            let before = run_steps(start.0, start.1, transfers, (steps - 1) as nat)->Some_0;
            let reached = run_steps(start.0, start.1, transfers, steps)->Some_0;
            &&& !(before.1 is Finished)
            &&& orderly(before.0, (reached.0, reached.1))
        }),
{
    let (link, action, used) = run_steps(start.0, start.1, transfers, (steps - 1) as nat)->Some_0;
    match action {
        ActionView::Proceed => lemma_advance_orderly(link),
        ActionView::Write(_) => match (transfers[used as int], link.stage) {
            (Transfer::Sent { failure: None, .. }, Stage::Writing(after)) =>
                lemma_write_orderly(link, after),
            (Transfer::Sent { failure: Some(message), .. }, _) => lemma_failure_orderly(
                link,
                D4ErrorView::Transport(message),
            ),
            _ => {},
        },
        ActionView::Read => match transfers[used as int] {
            Transfer::Received { outcome: Ok(bytes), .. } => lemma_bytes_orderly(link, bytes),
            Transfer::Received { outcome: Err(message), .. } => lemma_failure_orderly(
                link,
                D4ErrorView::Transport(message),
            ),
            _ => {},
        },
        ActionView::Finished(_) => {},
    }
}

/// What every number of steps makes of a link that is well formed.
proof fn lemma_steps_orderly(
    start: (LinkView, ActionView),
    transfers: Seq<Transfer>,
    steps: nat,
)
    requires
        start.0.well_formed(),
        !(start.1 matches ActionView::Finished(Ok(_))),
        run_steps(start.0, start.1, transfers, steps) is Some,
    ensures
        ({
            let reached = run_steps(start.0, start.1, transfers, steps)->Some_0;
            orderly(start.0, (reached.0, reached.1))
        }),
    decreases steps,
{
    if steps > 0 {
        let fewer = (steps - 1) as nat;
        lemma_steps_orderly(start, transfers, fewer);
        lemma_last_step_orderly(start, transfers, steps);
        let before = run_steps(start.0, start.1, transfers, fewer)->Some_0;
        let reached = run_steps(start.0, start.1, transfers, steps)->Some_0;
        lemma_orderly_twice(start.0, (before.0, before.1), (reached.0, reached.1));
    }
}

/// Nothing follows the end of an operation.
proof fn lemma_no_steps_after_the_end(
    link: LinkView,
    result: Result<OutcomeView, D4ErrorView>,
    transfers: Seq<Transfer>,
    steps: nat,
)
    requires
        run_steps(link, ActionView::Finished(result), transfers, steps) is Some,
    ensures
        steps == 0,
    decreases steps,
{
    if steps > 0 {
        lemma_no_steps_after_the_end(link, result, transfers, (steps - 1) as nat);
    }
}

/// An operation that is over when it begins makes no transfers.
proof fn lemma_over_at_once(
    start: (LinkView, ActionView),
    before: Seq<Transfer>,
    after: Seq<Transfer>,
    end: LinkView,
    result: Result<OutcomeView, D4ErrorView>,
)
    requires
        completes(start, before, after, end, result),
        start.1 is Finished,
    ensures
        after == before,
        end == start.0,
        start.1 == ActionView::Finished(result),
{
    let transfers = transfers_since(before, after);
    let steps = choose|steps: nat| completes_in(start, transfers, end, result, steps);
    if let ActionView::Finished(reached) = start.1 {
        lemma_no_steps_after_the_end(start.0, reached, transfers, steps);
    }
    assert(after =~= before);
}

proof fn lemma_completion_orderly(
    start: (LinkView, ActionView),
    before: Seq<Transfer>,
    after: Seq<Transfer>,
    end: LinkView,
    result: Result<OutcomeView, D4ErrorView>,
)
    requires
        completes(start, before, after, end, result),
        start.0.well_formed(),
        !(start.1 matches ActionView::Finished(Ok(_))),
    ensures
        orderly(start.0, (end, ActionView::Finished(result))),
{
    let transfers = transfers_since(before, after);
    let steps = choose|steps: nat| completes_in(start, transfers, end, result, steps);
    lemma_steps_orderly(start, transfers, steps);
    let reached = run_steps(start.0, start.1, transfers, steps)->Some_0;
    if !(reached.1 is Finished) {
        lemma_failure_orderly(reached.0, D4ErrorView::StepLimitReached);
        lemma_orderly_twice(start.0, (reached.0, reached.1), (end, ActionView::Finished(result)));
    }
}

/// How a call begins on a link that is well formed.
proof fn lemma_call_orderly(link: LinkView, call: Call)
    requires
        link.well_formed(),
    ensures
        call_step(link, call).0.well_formed(),
        call_step(link, call).0.channels == link.channels,
        !(call_step(link, call).1 matches ActionView::Finished(Ok(_))),
        call matches Call::CloseChannel { channel } ==> (call_step(link, call).1 is Finished
            || call_step(link, call).0.operation == (Operation::CloseService { channel })),
{
}

/// A link after some calls is well formed.
proof fn lemma_made_well_formed(link: LinkView, earlier: Seq<Transfer>, calls: Seq<MadeCall>)
    requires
        link.well_formed(),
        made(link, earlier, calls),
    ensures
        link_after(link, calls).well_formed(),
    decreases calls.len(),
{
    if calls.len() > 0 {
        let front = calls.drop_last();
        lemma_made_well_formed(link, earlier, front);
        lemma_call_orderly(link_after(link, front), calls.last().call);
        lemma_completion_orderly(
            call_step(link_after(link, front), calls.last().call),
            transfers_after(earlier, front),
            calls.last().transfers,
            calls.last().link,
            calls.last().result,
        );
    }
}

/// The channel that [`crate::driver::D4Link::open_service`] gives is open, so
/// [`crate::driver::D4Link::control_channel`] hands it out.
pub proof fn opened_channels_are_open(
    link: LinkView,
    name: Seq<char>,
    before: Seq<Transfer>,
    after: Seq<Transfer>,
    end: LinkView,
    channel: ChannelId,
)
    requires
        link.well_formed(),
        completes(
            open_service_step(link, name),
            before,
            after,
            end,
            Ok(OutcomeView::Opened(channel)),
        ),
    ensures
        channel_open(end, channel),
{
    let call = Call::OpenService { name };
    lemma_call_orderly(link, call);
    lemma_completion_orderly(
        call_step(link, call),
        before,
        after,
        end,
        Ok(OutcomeView::Opened(channel)),
    );
}

/// A service channel that is not open stays so, whatever is called and whatever
/// the peer sends, until [`crate::driver::D4Link::open_service`] gives it.
pub proof fn closed_channels_stay_closed(
    link: LinkView,
    earlier: Seq<Transfer>,
    calls: Seq<MadeCall>,
    channel: ChannelId,
)
    requires
        link.well_formed(),
        made(link, earlier, calls),
        channel != ChannelId::transaction(),
        !channel_open(link, channel),
        forall|i: int|
            0 <= i < calls.len() ==> (#[trigger] calls[i]).result != Ok::<OutcomeView, D4ErrorView>(
                OutcomeView::Opened(channel),
            ),
    ensures
        !channel_open(link_after(link, calls), channel),
    decreases calls.len(),
{
    if calls.len() > 0 {
        let front = calls.drop_last();
        let last = calls.last();
        assert forall|i: int| 0 <= i < front.len() implies (#[trigger] front[i]).result != Ok::<
            OutcomeView,
            D4ErrorView,
        >(OutcomeView::Opened(channel)) by {
            assert(front[i] == calls[i]);
        }
        closed_channels_stay_closed(link, earlier, front, channel);
        let start = call_step(link_after(link, front), last.call);
        lemma_made_well_formed(link, earlier, front);
        lemma_call_orderly(link_after(link, front), last.call);
        lemma_completion_orderly(
            start,
            transfers_after(earlier, front),
            last.transfers,
            last.link,
            last.result,
        );
        assert(last.result == calls[calls.len() - 1].result);
        assert(!channel_open(start.0, channel));
    }
}

/// On a new link a service channel is open only once
/// [`crate::driver::D4Link::open_service`] has given it.
pub proof fn channels_must_be_opened(
    earlier: Seq<Transfer>,
    calls: Seq<MadeCall>,
    channel: ChannelId,
)
    requires
        made(initial_link(), earlier, calls),
        channel != ChannelId::transaction(),
        forall|i: int|
            0 <= i < calls.len() ==> (#[trigger] calls[i]).result != Ok::<OutcomeView, D4ErrorView>(
                OutcomeView::Opened(channel),
            ),
    ensures
        !channel_open(link_after(initial_link(), calls), channel),
{
    closed_channels_stay_closed(initial_link(), earlier, calls, channel);
}

/// A channel that [`crate::driver::D4Link::close_channel`] has closed is not open.
pub proof fn close_channel_closes(
    link: LinkView,
    before: Seq<Transfer>,
    after: Seq<Transfer>,
    end: LinkView,
    channel: ChannelId,
)
    requires
        link.well_formed(),
        completes(
            close_channel_step(link, channel),
            before,
            after,
            end,
            Ok(OutcomeView::Closed),
        ),
    ensures
        !channel_open(end, channel),
{
    let call = Call::CloseChannel { channel };
    lemma_call_orderly(link, call);
    lemma_completion_orderly(
        call_step(link, call),
        before,
        after,
        end,
        Ok(OutcomeView::Closed),
    );
    if call_step(link, call).1 is Finished {
        lemma_over_at_once(call_step(link, call), before, after, end, Ok(OutcomeView::Closed));
    }
}

/// After [`crate::driver::D4Link::exit`] the conversation has ended, and no
/// service channel is open.
pub proof fn exit_closes_every_channel(
    link: LinkView,
    before: Seq<Transfer>,
    after: Seq<Transfer>,
    end: LinkView,
)
    requires
        link.well_formed(),
        completes(exit_step(link), before, after, end, Ok(OutcomeView::Exited)),
    ensures
        ended(end),
        forall|channel: ChannelId|
            channel != ChannelId::transaction() ==> !#[trigger] channel_open(end, channel),
{
    lemma_call_orderly(link, Call::Exit);
    lemma_completion_orderly(
        call_step(link, Call::Exit),
        before,
        after,
        end,
        Ok(OutcomeView::Exited),
    );
}

/// A peer that closes a channel is answered with a reply whose result is 0 just
/// where the channel is a service channel that is known here, and only then is
/// the channel closed.
pub proof fn peers_close_known_channels(link: LinkView, channel: ChannelId, answer: AnswerView)
    requires
        peer_step(
            link,
            MessageView::CloseChannel {
                peer_socket: channel.peer_socket,
                source_socket: channel.source_socket,
            },
        ).1 == Ok::<Option<AnswerView>, D4ErrorView>(Some(answer)),
    ensures
        ({
            let result: u8 = if channel == ChannelId::transaction() {
                0x03
            } else if link.channels.contains_key(channel) {
                0
            } else {
                0x08
            };
            &&& prepare_transaction(
                link,
                MessageView::CloseChannelReply {
                    result,
                    peer_socket: channel.peer_socket,
                    source_socket: channel.source_socket,
                },
                true,
            ) == Ok::<Seq<u8>, D4ErrorView>(answer.packet)
            &&& answer.effect == if result == 0 {
                PeerEffect::CloseChannel(channel)
            } else {
                PeerEffect::Nothing
            }
        }),
{
}

/// A peer that opens or closes a channel, asks for credit or ends the conversation
/// is answered, as long as the conversation goes on and the peer has granted
/// credit for the answer. A peer that begins a conversation needs to grant none.
pub proof fn peers_are_answered(link: LinkView, message: MessageView)
    requires
        link.well_formed(),
        link.conversation == ConversationState::Inactive || link.conversation
            == ConversationState::Active,
        message is Init || (link.channels[ChannelId::transaction()].credit > 0 && (
        message is OpenChannel || message is CloseChannel || message is CreditRequest
            || message is Exit)),
    ensures
        peer_step(link, message).1 matches Ok(Some(answer)) && answer.consume_credit == !(
        message is Init),
{
}

/// The step of an operation writes the answer to a peer that closes a channel,
/// and the transport takes it.
pub open spec fn answers_close(
    start: (LinkView, ActionView),
    transfers: Seq<Transfer>,
    step: nat,
    channel: ChannelId,
) -> bool {
    match run_steps(start.0, start.1, transfers, step) {
        Some((link, ActionView::Write(_), used)) => {
            &&& link.stage matches Stage::Writing(AfterWrite::Answered { effect, .. }) && effect
                == PeerEffect::CloseChannel(channel)
            &&& used < transfers.len()
            &&& transfers[used as int] matches Transfer::Sent { failure: None, .. }
        },
        _ => false,
    }
}

proof fn lemma_closed_by_peer(
    start: (LinkView, ActionView),
    transfers: Seq<Transfer>,
    step: nat,
    steps: nat,
    channel: ChannelId,
)
    requires
        start.0.well_formed(),
        !(start.1 matches ActionView::Finished(Ok(_))),
        channel != ChannelId::transaction(),
        answers_close(start, transfers, step, channel),
        step < steps,
        run_steps(start.0, start.1, transfers, steps) is Some,
    ensures
        ({
            let reached = run_steps(start.0, start.1, transfers, steps)->Some_0;
            reached.1 == ActionView::Finished(Ok(OutcomeView::Opened(channel))) || !channel_open(
                reached.0,
                channel,
            )
        }),
    decreases steps,
{
    let fewer = (steps - 1) as nat;
    lemma_steps_orderly(start, transfers, fewer);
    lemma_last_step_orderly(start, transfers, steps);
    if step == fewer {
        reveal(after_write);
    } else {
        lemma_closed_by_peer(start, transfers, step, fewer, channel);
    }
}

/// Steps use up transfers, and no step gives one back.
proof fn lemma_uses_grow(
    start: (LinkView, ActionView),
    transfers: Seq<Transfer>,
    fewer: nat,
    steps: nat,
)
    requires
        fewer <= steps,
        run_steps(start.0, start.1, transfers, steps) is Some,
    ensures
        run_steps(start.0, start.1, transfers, fewer) is Some,
        run_steps(start.0, start.1, transfers, fewer)->Some_0.2 <= run_steps(
            start.0,
            start.1,
            transfers,
            steps,
        )->Some_0.2,
    decreases steps,
{
    if fewer < steps {
        lemma_uses_grow(start, transfers, fewer, (steps - 1) as nat);
    }
}

/// A channel that a peer has closed, with an answer that the transport took, is
/// not open after the call, unless the call has opened it anew.
pub proof fn peers_close_channels(
    link: LinkView,
    call: Call,
    before: Seq<Transfer>,
    after: Seq<Transfer>,
    end: LinkView,
    result: Result<OutcomeView, D4ErrorView>,
    step: nat,
    channel: ChannelId,
)
    requires
        link.well_formed(),
        completes(call_step(link, call), before, after, end, result),
        channel != ChannelId::transaction(),
        answers_close(call_step(link, call), transfers_since(before, after), step, channel),
        result != Ok::<OutcomeView, D4ErrorView>(OutcomeView::Opened(channel)),
    ensures
        !channel_open(end, channel),
{
    let start = call_step(link, call);
    let transfers = transfers_since(before, after);
    lemma_call_orderly(link, call);
    let steps = choose|steps: nat| completes_in(start, transfers, end, result, steps);
    if steps <= step {
        lemma_uses_grow(start, transfers, steps, step);
    }
    lemma_closed_by_peer(start, transfers, step, steps, channel);
}

/// An operation that ends a conversation took this packet last.
pub open spec fn concluded_by(
    end: LinkView,
    result: Result<OutcomeView, D4ErrorView>,
    link: LinkView,
    packet: PacketView,
) -> bool {
    &&& link.operation is Exit
    &&& take_packet(link, packet) == (end, ActionView::Finished(result))
}

/// A packet on the transaction channel carries a message.
pub open spec fn carries_message(link: LinkView, packet: PacketView, message: MessageView) -> bool {
    &&& channel_of(packet) == ChannelId::transaction()
    &&& message_of(packet.payload, link.revision) == Ok::<MessageView, TransactionParseError>(
        message,
    )
}

/// The reply decides what [`crate::driver::D4Link::exit`] gives: it succeeds on
/// a reply whose result is 0, and fails on every other one.
pub proof fn exit_replies_decide(link: LinkView, packet: PacketView, result: u8)
    requires
        link.operation is Exit,
        carries_message(link, packet, MessageView::ExitReply { result }),
        credit_effect(link, packet) is Granted,
    ensures
        take_packet(link, packet).1 == ActionView::Finished(
            if result == 0 {
                Ok(OutcomeView::Exited)
            } else {
                Err(D4ErrorView::UnexpectedTransactionReply)
            },
        ),
{
}

/// [`crate::driver::D4Link::exit`] succeeds on nothing but a reply whose result is 0.
pub proof fn exit_needs_its_reply(
    link: LinkView,
    before: Seq<Transfer>,
    after: Seq<Transfer>,
    end: LinkView,
)
    requires
        link.well_formed(),
        completes(exit_step(link), before, after, end, Ok(OutcomeView::Exited)),
    ensures
        exists|waiting: LinkView, packet: PacketView| #[trigger]
            concluded_by(end, Ok(OutcomeView::Exited), waiting, packet) && carries_message(
                waiting,
                packet,
                MessageView::ExitReply { result: 0 },
            ),
{
    lemma_call_orderly(link, Call::Exit);
    lemma_completion_orderly(
        call_step(link, Call::Exit),
        before,
        after,
        end,
        Ok(OutcomeView::Exited),
    );
}

/// What a call gives once the conversation has ended.
pub open spec fn ended_answer(call: Call) -> D4ErrorView {
    match call {
        Call::Initialize | Call::Exit | Call::Request { .. } =>
            D4ErrorView::ConversationTerminated,
        Call::OpenService { name } => match service_name_error(name) {
            Some(error) => D4ErrorView::Transaction(error),
            None => D4ErrorView::ConversationTerminated,
        },
        Call::CloseChannel { channel } => if channel == ChannelId::transaction() {
            D4ErrorView::TransactionChannelOperation
        } else {
            D4ErrorView::UnknownChannel { channel }
        },
    }
}

/// Once a conversation has ended, no call reads or writes anything any more.
/// Negotiation, opening a service under a valid name, ending the conversation
/// and requests are all refused because the conversation has ended; a name that
/// is not valid and a channel that is not open are refused as such.
pub proof fn ended_conversations_stay_ended(
    link: LinkView,
    earlier: Seq<Transfer>,
    calls: Seq<MadeCall>,
)
    requires
        ended(link),
        made(link, earlier, calls),
    ensures
        ended(link_after(link, calls)),
        transfers_after(earlier, calls) == earlier,
        forall|i: int|
            0 <= i < calls.len() ==> (#[trigger] calls[i]).result == Err::<
                OutcomeView,
                D4ErrorView,
            >(ended_answer(calls[i].call)),
    decreases calls.len(),
{
    if calls.len() > 0 {
        let front = calls.drop_last();
        let last = calls.last();
        ended_conversations_stay_ended(link, earlier, front);
        let start = call_step(link_after(link, front), last.call);
        assert(start.1 == ActionView::Finished(Err(ended_answer(last.call))));
        lemma_over_at_once(
            start,
            transfers_after(earlier, front),
            last.transfers,
            last.link,
            last.result,
        );
        assert forall|i: int| 0 <= i < calls.len() implies (#[trigger] calls[i]).result == Err::<
            OutcomeView,
            D4ErrorView,
        >(ended_answer(calls[i].call)) by {
            if i < calls.len() - 1 {
                assert(calls[i] == front[i]);
            }
        }
    }
}

/// Before negotiation there is no conversation to end: on a new link
/// [`crate::driver::D4Link::exit`] is refused, and nothing is written or read.
pub proof fn exit_needs_a_conversation(
    link: LinkView,
    before: Seq<Transfer>,
    after: Seq<Transfer>,
    end: LinkView,
    result: Result<OutcomeView, D4ErrorView>,
)
    requires
        link.conversation == ConversationState::Inactive,
        completes(exit_step(link), before, after, end, result),
    ensures
        initial_link().conversation == ConversationState::Inactive,
        result == Err::<OutcomeView, D4ErrorView>(D4ErrorView::ConversationInactive),
        after == before,
        end == (LinkView { stage: Stage::Idle, ..link }),
{
    lemma_over_at_once(exit_step(link), before, after, end, result);
}

} // verus!
