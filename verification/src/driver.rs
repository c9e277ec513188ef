//! The IEEE 1284.4 link over a byte transport.
use crate::channel::ChannelId;
use crate::link::{
    advance, after_write, asked_for, channel_open, close_channel_step, d4_error_text, exit_step,
    finish, fits, in_character, initial_link, initialize_step, open_service_step, request_step,
    take_bytes, ActionView, ConversationState, D4Error, D4ErrorView, D4Machine, LinkAction, LinkEvent, LinkOutcome,
    LinkView, Operation, OutcomeView, Stage,
};
use crate::packet::{decode_all, packet_bytes, packet_round_trip, PacketView};
use crate::platform::{
    lemma_record_chain, lemma_record_goes_on, lemma_record_one, lemma_record_untouched,
    record_kept, record_since, reply_view, ByteTransport, ControlChannel, ControlError,
    Exchange, RecordView, Transfer,
};
use crate::transaction::ProtocolRevision;
use vstd::prelude::*;

verus! {

/// How many bytes a link asks for at a time.
pub const READ_LIMIT: usize = 4096;

/// The number of steps after which an operation is given up.
pub const STEP_LIMIT: u64 = 0xffff_ffff_ffff_ffff;

/// Where a number of steps leads: the state of the link, what it asks for next,
/// and how many transfers have been used. Each step carries out one action; there
/// is no outcome where a transfer is not the one that was asked for: the bytes to
/// be written, or a read of at most [`READ_LIMIT`] bytes.
pub open spec fn run_steps(
    link: LinkView,
    action: ActionView,
    transfers: Seq<Transfer>,
    steps: nat,
) -> Option<(LinkView, ActionView, nat)>
    decreases steps,
{
    if steps == 0 {
        Some((link, action, 0))
    } else {
        match run_steps(link, action, transfers, (steps - 1) as nat) {
            None => None,
            Some((link, action, used)) => match action {
                ActionView::Finished(_) => None,
                ActionView::Proceed => {
                    let next = advance(link);
                    Some((next.0, next.1, used))
                },
                ActionView::Write(expected) => if used >= transfers.len() {
                    None
                } else {
                    match (transfers[used as int], link.stage) {
                        (Transfer::Sent { bytes, failure }, Stage::Writing(after)) => if bytes
                            != expected {
                            None
                        } else {
                            let next = match failure {
                                None => after_write(link, after),
                                Some(message) => finish(link, Err(D4ErrorView::Transport(message))),
                            };
                            Some((next.0, next.1, used + 1))
                        },
                        _ => None,
                    }
                },
                ActionView::Read => if used >= transfers.len() {
                    None
                } else {
                    match transfers[used as int] {
                        Transfer::Received { limit, outcome } => if limit != READ_LIMIT {
                            None
                        } else {
                            let next = match outcome {
                                Ok(bytes) => take_bytes(link, bytes),
                                Err(message) => finish(link, Err(D4ErrorView::Transport(message))),
                            };
                            Some((next.0, next.1, used + 1))
                        },
                        _ => None,
                    }
                },
            },
        }
    }
}

/// The transfers made since an earlier point.
pub open spec fn transfers_since(before: Seq<Transfer>, after: Seq<Transfer>) -> Seq<Transfer> {
    after.skip(before.len() as int)
}

/// Transfers have been added to earlier ones.
pub open spec fn extends(before: Seq<Transfer>, after: Seq<Transfer>) -> bool {
    before.len() <= after.len() && before == after.take(before.len() as int)
}

/// An operation that began with an action has been carried out by the transfers
/// that were added, to its end or up to the step limit.
pub open spec fn completes(
    start: (LinkView, ActionView),
    before: Seq<Transfer>,
    after: Seq<Transfer>,
    end: LinkView,
    result: Result<OutcomeView, D4ErrorView>,
) -> bool {
    &&& extends(before, after)
    &&& exists|steps: nat|
        completes_in(start, transfers_since(before, after), end, result, steps)
}

/// An operation reaches its end, or the step limit, after a number of steps.
pub open spec fn completes_in(
    start: (LinkView, ActionView),
    made: Seq<Transfer>,
    end: LinkView,
    result: Result<OutcomeView, D4ErrorView>,
    steps: nat,
) -> bool {
    match run_steps(start.0, start.1, made, steps) {
        None => false,
        Some((link, action, used)) => {
            &&& used == made.len()
            &&& match action {
                ActionView::Finished(reached) => reached == result && link == end,
                _ => steps == STEP_LIMIT && result == Err::<OutcomeView, D4ErrorView>(
                    D4ErrorView::StepLimitReached,
                ) && end == (LinkView { stage: Stage::Idle, ..link }),
            }
        },
    }
}

/// More transfers do not change where the first ones lead.
proof fn lemma_more_transfers(
    link: LinkView,
    action: ActionView,
    transfers: Seq<Transfer>,
    more: Seq<Transfer>,
    steps: nat,
)
    requires
        run_steps(link, action, transfers, steps) is Some,
        transfers.len() <= more.len(),
        forall|i: int| 0 <= i < transfers.len() ==> #[trigger] more[i] == transfers[i],
    ensures
        run_steps(link, action, more, steps) == run_steps(link, action, transfers, steps),
    decreases steps,
{
    if steps > 0 {
        lemma_more_transfers(link, action, transfers, more, (steps - 1) as nat);
    }
}

/// A blocking IEEE 1284.4 link over any byte transport.
#[derive(Debug)]
pub struct D4Link<T> {
    pub target: T,
    pub machine: D4Machine,
}

/// The contents of an outcome.
pub open spec fn result_view(result: Result<LinkOutcome, D4Error>) -> Result<
    OutcomeView,
    D4ErrorView,
> {
    match result {
        Ok(outcome) => Ok(outcome@),
        Err(error) => Err(error@),
    }
}

impl<T: ByteTransport> D4Link<T> {
    /// No operation is under way, and the next one can begin.
    pub open spec fn ready(&self) -> bool {
        self.machine@.well_formed() && self.machine@.stage == Stage::Idle
    }

    /// The transfers made over the transport.
    pub open spec fn transfers(&self) -> Seq<Transfer> {
        self.target.transfers()
    }

    /// A link on which nothing has been said.
    pub fn new(target: T) -> (link: Self)
        ensures
            link.target == target,
            link.machine@ == initial_link(),
            link.ready(),
    {
        D4Link { target, machine: D4Machine::new() }
    }

    /// The revision that is spoken.
    pub fn revision(&self) -> (revision: ProtocolRevision)
        ensures
            revision == self.machine@.revision,
    {
        self.machine.revision()
    }

    /// Gives back the transport.
    pub fn target(self) -> (target: T)
        ensures
            target == self.target,
    {
        self.target
    }

    /// Carries out actions until the operation is over.
    fn complete(&mut self, start: LinkAction) -> (result: Result<LinkOutcome, D4Error>)
        requires
            old(self).machine@.well_formed(),
            asked_for(old(self).machine@, start@),
            start@ matches ActionView::Finished(Ok(outcome)) ==> fits(
                old(self).machine@.operation,
                outcome,
            ),
        ensures
            final(self).ready(),
            record_kept(old(self).target, final(self).target),
            result matches Ok(outcome) ==> fits(old(self).machine@.operation, outcome@),
            start@ matches ActionView::Finished(reached) ==> result_view(result) == reached,
            completes(
                (old(self).machine@, start@),
                old(self).transfers(),
                final(self).transfers(),
                final(self).machine@,
                result_view(result),
            ),
    {
        let ghost begin = self.machine@;
        let ghost earlier = self.transfers();
        let ghost asked = start@;
        let mut action = start;
        let mut left: u64 = STEP_LIMIT;
        let ghost mut steps: nat = 0;
        proof {
            assert(transfers_since(earlier, self.transfers()) =~= seq![]);
            assert(earlier =~= self.transfers().take(earlier.len() as int));
            lemma_record_untouched(self.target);
        }
        while left > 0
            invariant
                left + steps == STEP_LIMIT,
                self.machine@.well_formed(),
                asked_for(self.machine@, action@),
                in_character(begin.operation, self.machine@, action@),
                asked is Finished ==> steps == 0 && action@ == asked,
                extends(earlier, self.transfers()),
                run_steps(begin, asked, transfers_since(earlier, self.transfers()), steps) == Some(
                    (self.machine@, action@, transfers_since(earlier, self.transfers()).len()),
                ),
                begin == old(self).machine@,
                earlier == old(self).transfers(),
                asked == start@,
                record_kept(old(self).target, self.target),
            decreases left,
        {
            let ghost before = transfers_since(earlier, self.transfers());
            let ghost unused = self.target;
            let event: LinkEvent = match action {
                LinkAction::Finished(result) => {
                    proof {
                        assert(completes_in(
                            (begin, asked),
                            before,
                            self.machine@,
                            result_view(result),
                            steps,
                        ));
                    }
                    return result;
                },
                LinkAction::Proceed => LinkEvent::Proceed,
                LinkAction::Write(bytes) => match self.target.write_all(bytes.as_slice()) {
                    Ok(_) => LinkEvent::Written,
                    Err(error) => LinkEvent::WriteFailed(error),
                },
                LinkAction::Read => match self.target.read(READ_LIMIT) {
                    Ok(bytes) => LinkEvent::Received(bytes),
                    Err(error) => LinkEvent::ReadFailed(error),
                },
            };
            proof {
                let after = transfers_since(earlier, self.transfers());
                assert(forall|i: int| 0 <= i < before.len() ==> #[trigger] after[i] == before[i]);
                lemma_more_transfers(begin, asked, before, after, steps);
                assert(earlier =~= self.transfers().take(earlier.len() as int));
                if self.target == unused {
                    lemma_record_untouched(unused);
                } else {
                    lemma_record_one(unused, self.target);
                }
                lemma_record_chain(old(self).target, unused, self.target);
            }
            action = self.machine.resume(event);
            proof {
                steps = steps + 1;
                assert((steps - 1) as nat == steps - 1);
            }
            left = left - 1;
        }
        let _abandoned = self.machine.finish(Err(D4Error::StepLimitReached));
        let result: Result<LinkOutcome, D4Error> = match action {
            LinkAction::Finished(result) => result,
            _ => Err(D4Error::StepLimitReached),
        };
        proof {
            assert(completes_in(
                (begin, asked),
                transfers_since(earlier, self.transfers()),
                self.machine@,
                result_view(result),
                steps,
            ));
        }
        result
    }

    /// Negotiates a revision.
    pub fn initialize(&mut self) -> (done: Result<(), D4Error>)
        requires
            old(self).ready(),
        ensures
            final(self).ready(),
            record_kept(old(self).target, final(self).target),
            completes(
                initialize_step(old(self).machine@),
                old(self).transfers(),
                final(self).transfers(),
                final(self).machine@,
                match done {
                    Ok(_) => Ok(OutcomeView::Initialized),
                    Err(error) => Err(error@),
                },
            ),
    {
        let action = self.machine.initialize();
        match self.complete(action) {
            Ok(_) => Ok(()),
            Err(error) => Err(error),
        }
    }

    /// Opens a channel to a service.
    pub fn open_service(&mut self, service_name: &str) -> (opened: Result<ChannelId, D4Error>)
        requires
            old(self).ready(),
        ensures
            final(self).ready(),
            record_kept(old(self).target, final(self).target),
            completes(
                open_service_step(old(self).machine@, service_name@),
                old(self).transfers(),
                final(self).transfers(),
                final(self).machine@,
                match opened {
                    Ok(channel) => Ok(OutcomeView::Opened(channel)),
                    Err(error) => Err(error@),
                },
            ),
    {
        let action = self.machine.open_service(service_name);
        match self.complete(action) {
            Ok(LinkOutcome::Opened(channel)) => Ok(channel),
            Ok(_) => Err(D4Error::UnexpectedTransactionReply),
            Err(error) => Err(error),
        }
    }

    /// Hands out an open channel, which the link then belongs to. Where the
    /// channel is not open, the link is given back. Nothing is read or written
    /// either way: the link stays as it is.
    pub fn control_channel(self, channel: ChannelId) -> (control: Result<
        D4ControlChannel<T>,
        (D4Error, Self),
    >)
        requires
            self.ready(),
        ensures
            match control {
                Ok(control) => {
                    &&& channel_open(self.machine@, channel)
                    &&& control.link == self
                    &&& control.channel == channel
                    &&& control.exchanges() == Seq::<Exchange>::empty()
                    &&& control.origin() == (Origin {
                        link: self.machine@,
                        transfers: self.transfers(),
                        record: self.target.kept(),
                        channel,
                    })
                    &&& control.ready()
                },
                Err(failure) => {
                    &&& !channel_open(self.machine@, channel)
                    &&& failure.0@ == (D4ErrorView::UnknownChannel { channel })
                    &&& failure.1 == self
                },
            },
    {
        if let Err(error) = self.machine.require_open(channel) {
            return Err((error, self));
        }
        Ok(D4ControlChannel::attach(self, channel))
    }

    /// Closes an open service channel. The transaction channel cannot be closed.
    pub fn close_channel(&mut self, channel: ChannelId) -> (done: Result<(), D4Error>)
        requires
            old(self).ready(),
        ensures
            final(self).ready(),
            record_kept(old(self).target, final(self).target),
            completes(
                close_channel_step(old(self).machine@, channel),
                old(self).transfers(),
                final(self).transfers(),
                final(self).machine@,
                match done {
                    Ok(_) => Ok(OutcomeView::Closed),
                    Err(error) => Err(error@),
                },
            ),
    {
        let action = self.machine.close_channel(channel);
        match self.complete(action) {
            Ok(_) => Ok(()),
            Err(error) => Err(error),
        }
    }

    /// Ends the active conversation.
    pub fn exit(&mut self) -> (done: Result<(), D4Error>)
        requires
            old(self).ready(),
        ensures
            final(self).ready(),
            record_kept(old(self).target, final(self).target),
            completes(
                exit_step(old(self).machine@),
                old(self).transfers(),
                final(self).transfers(),
                final(self).machine@,
                match done {
                    Ok(_) => Ok(OutcomeView::Exited),
                    Err(error) => Err(error@),
                },
            ),
    {
        let action = self.machine.exit();
        match self.complete(action) {
            Ok(_) => Ok(()),
            Err(error) => Err(error),
        }
    }

    /// Puts a request on a channel and waits for the reply.
    pub fn request(&mut self, channel: ChannelId, request: &[u8]) -> (reply: Result<
        Vec<u8>,
        D4Error,
    >)
        requires
            old(self).ready(),
        ensures
            final(self).ready(),
            record_kept(old(self).target, final(self).target),
            completes(
                request_step(old(self).machine@, channel, request@),
                old(self).transfers(),
                final(self).transfers(),
                final(self).machine@,
                match reply {
                    Ok(payload) => Ok(OutcomeView::Reply(payload@)),
                    Err(error) => Err(error@),
                },
            ),
    {
        let action = self.machine.request(channel, request);
        match self.complete(action) {
            Ok(LinkOutcome::Reply(payload)) => Ok(payload),
            Ok(_) => Err(D4Error::UnexpectedTransactionReply),
            Err(error) => Err(error),
        }
    }
}

/// What a control channel of a link is attached to: the link as it was, the
/// transfers that had been made, the record of them, and the channel.
pub struct Origin {
    pub link: LinkView,
    pub transfers: Seq<Transfer>,
    pub record: RecordView,
    pub channel: ChannelId,
}

/// A channel of a link, with an account of the requests put on it.
pub struct D4ControlChannel<T> {
    pub link: D4Link<T>,
    pub channel: ChannelId,
    /// Where the account begins.
    pub start: Ghost<Origin>,
    /// The requests since then, with their replies.
    pub history: Ghost<Seq<Exchange>>,
}

impl<T: ByteTransport> D4ControlChannel<T> {
    /// Attaches a channel to a link.
    pub fn attach(link: D4Link<T>, channel: ChannelId) -> (control: Self)
        requires
            link.ready(),
        ensures
            control.link == link,
            control.channel == channel,
            control.exchanges() == Seq::<Exchange>::empty(),
            control.origin() == (Origin {
                link: link.machine@,
                transfers: link.transfers(),
                record: link.target.kept(),
                channel,
            }),
            control.ready(),
    {
        let ghost start = Origin {
            link: link.machine@,
            transfers: link.transfers(),
            record: link.target.kept(),
            channel,
        };
        proof {
            lemma_record_untouched(link.target);
        }
        D4ControlChannel { link, channel, start: Ghost(start), history: Ghost(Seq::empty()) }
    }

    /// Begins the account anew.
    pub fn begin_account(&mut self)
        requires
            old(self).link.ready(),
        ensures
            final(self).link == old(self).link,
            final(self).channel == old(self).channel,
            final(self).exchanges() == Seq::<Exchange>::empty(),
            final(self).origin() == (Origin {
                link: old(self).link.machine@,
                transfers: old(self).link.transfers(),
                record: old(self).link.target.kept(),
                channel: old(self).channel,
            }),
            final(self).ready(),
    {
        proof {
            self.start@ = Origin {
                link: self.link.machine@,
                transfers: self.link.transfers(),
                record: self.link.target.kept(),
                channel: self.channel,
            };
            self.history@ = Seq::empty();
            lemma_record_untouched(self.link.target);
        }
    }
}

/// What a reply is to those who put a request on a channel.
pub open spec fn carried_reply(result: Result<OutcomeView, D4ErrorView>, exchange: Exchange) -> bool {
    match (result, exchange.reply) {
        (Ok(OutcomeView::Reply(payload)), Ok(reply)) => reply == payload,
        (Err(error), Err(message)) => message == d4_error_text(error),
        _ => false,
    }
}

/// One exchange was carried by a request on the link.
pub open spec fn carries(
    before: LinkView,
    earlier: Seq<Transfer>,
    after: LinkView,
    later: Seq<Transfer>,
    channel: ChannelId,
    exchange: Exchange,
) -> bool {
    exists|result: Result<OutcomeView, D4ErrorView>|
        #[trigger] carried_reply(result, exchange) && completes(
            request_step(before, channel, exchange.request),
            earlier,
            later,
            after,
            result,
        )
}

/// All exchanges were carried by requests on the link, one after the other.
pub open spec fn carries_all(
    before: LinkView,
    earlier: Seq<Transfer>,
    after: LinkView,
    later: Seq<Transfer>,
    channel: ChannelId,
    exchanges: Seq<Exchange>,
) -> bool
    decreases exchanges.len(),
{
    if exchanges.len() == 0 {
        after == before && later == earlier
    } else {
        exists|middle: LinkView, between: Seq<Transfer>|
            carries_all(before, earlier, middle, between, channel, exchanges.drop_last())
                && #[trigger] carries(middle, between, after, later, channel, exchanges.last())
    }
}

impl<T: ByteTransport> ControlChannel for D4ControlChannel<T> {
    type Origin = Origin;

    open spec fn origin(&self) -> Origin {
        self.start@
    }

    open spec fn exchanges(&self) -> Seq<Exchange> {
        self.history@
    }

    open spec fn ready(&self) -> bool {
        &&& self.link.ready()
        &&& self.channel == self.start@.channel
        &&& record_since(self.start@.transfers, self.start@.record, self.link.target)
        &&& carries_all(
            self.start@.link,
            self.start@.transfers,
            self.link.machine@,
            self.link.transfers(),
            self.channel,
            self.history@,
        )
    }

    fn request(&mut self, request: &[u8]) -> (reply: Result<Vec<u8>, ControlError>) {
        let ghost middle = self.link.machine@;
        let ghost between = self.link.transfers();
        let ghost exchanges = self.history@;
        let ghost earlier = self.link.target;
        let result = self.link.request(self.channel, request);
        let reply: Result<Vec<u8>, ControlError> = match &result {
            Ok(payload) => Ok(vstd::slice::slice_to_vec(payload.as_slice())),
            Err(error) => Err(ControlError::Protocol { message: error.message() }),
        };
        proof {
            let exchange = Exchange { request: request@, reply: reply_view(reply) };
            let outcome: Result<OutcomeView, D4ErrorView> = match result {
                Ok(payload) => Ok(OutcomeView::Reply(payload@)),
                Err(error) => Err(error@),
            };
            assert(carried_reply(outcome, exchange));
            lemma_record_goes_on(
                self.start@.transfers,
                self.start@.record,
                earlier,
                self.link.target,
            );
            assert(carries(
                middle,
                between,
                self.link.machine@,
                self.link.transfers(),
                self.channel,
                exchange,
            ));
            let longer = exchanges.push(exchange);
            assert(longer.drop_last() =~= exchanges);
            assert(carries_all(
                self.start@.link,
                self.start@.transfers,
                middle,
                between,
                self.channel,
                longer.drop_last(),
            ));
            assert(carries(
                middle,
                between,
                self.link.machine@,
                self.link.transfers(),
                self.channel,
                longer.last(),
            ));
            assert(carries_all(
                self.start@.link,
                self.start@.transfers,
                self.link.machine@,
                self.link.transfers(),
                self.channel,
                longer,
            ));
            self.history@ = longer;
        }
        reply
    }
}

/// A step after one without an outcome has none either.
proof fn lemma_no_outcome(
    link: LinkView,
    action: ActionView,
    transfers: Seq<Transfer>,
    steps: nat,
    more: nat,
)
    requires
        steps <= more,
        run_steps(link, action, transfers, steps) is None,
    ensures
        run_steps(link, action, transfers, more) is None,
    decreases more,
{
    if steps < more {
        lemma_no_outcome(link, action, transfers, steps, (more - 1) as nat);
    }
}

/// The steps of a request that goes out whole: the write, which costs its channel one
/// credit, and then a read.
#[verifier::spinoff_prover]
#[verifier::rlimit(40)]
proof fn lemma_request_steps(
    link: LinkView,
    channel: ChannelId,
    request: Seq<u8>,
    made: Seq<Transfer>,
) -> (reading: LinkView)
    requires
        link.conversation == ConversationState::Active,
        link.received.len() == 0,
        channel.peer_socket != 0 || channel.source_socket != 0,
        link.channels.contains_key(channel),
        link.channels[channel].open,
        link.channels[channel].credit > 0,
        request.len() + 6 <= link.channels[channel].max_packet_size,
        made.len() == 2,
        made[0] matches Transfer::Sent { bytes, failure } && failure is None && ActionView::Write(
            bytes,
        ) == request_step(link, channel, request).1,
    ensures
        ({
            let (sent, action) = request_step(link, channel, request);
            let paid = (link.channels[channel].credit - 1) as u16;
            &&& action is Write
            &&& run_steps(sent, action, made, 0) == Some((sent, action, 0nat))
            &&& run_steps(sent, action, made, 1) matches Some((_, ActionView::Proceed, _))
            &&& run_steps(sent, action, made, 2) == Some((reading, ActionView::Read, 1nat))
            &&& reading.buffer == link.buffer
            &&& reading.received.len() == 0
            &&& reading.conversation == ConversationState::Active
            &&& reading.operation == (Operation::Request { channel })
            &&& reading.revision == link.revision
            &&& reading.channels == link.with_credit(channel, paid).channels
        }),
{
    reveal(after_write);
    reveal(advance);
    reveal_with_fuel(run_steps, 3);
    let (sent, action) = request_step(link, channel, request);
    let (reading, asking, used) = run_steps(sent, action, made, 2)->0;
    reading
}

/// What was sent is what was asked for, wherever the first step has an outcome.
proof fn lemma_first_transfer(link: LinkView, action: ActionView, made: Seq<Transfer>)
    requires
        action is Write,
        run_steps(link, action, made, 1) is Some,
    ensures
        made.len() > 0,
        made[0] matches Transfer::Sent { bytes, .. } ==> action == ActionView::Write(bytes),
{
    reveal_with_fuel(run_steps, 2);
}

/// The packet that a request waits for is its reply.
proof fn lemma_reply_taken(reading: LinkView, channel: ChannelId, packet: PacketView)
    requires
        reading.conversation == ConversationState::Active,
        reading.buffer.len() == 0,
        reading.received.len() == 0,
        reading.operation == (Operation::Request { channel }),
        channel.peer_socket != 0 || channel.source_socket != 0,
        reading.channels.contains_key(channel),
        packet.well_formed(),
        packet.header.peer_socket == channel.peer_socket,
        packet.header.source_socket == channel.source_socket,
        packet.header.length <= reading.channels[channel].max_service_size,
        reading.channels[channel].credit + packet.header.credit <= 65535,
    ensures
        ({
            let (reached, outcome) = take_bytes(reading, packet_bytes(packet));
            &&& outcome == ActionView::Finished(Ok(OutcomeView::Reply(packet.payload)))
            &&& reached.buffer.len() == 0
            &&& reached.received.len() == 0
            &&& reached.conversation == ConversationState::Active
            &&& reached.channels[channel].credit == reading.channels[channel].credit
                + packet.header.credit
        }),
{
    reveal(take_bytes);
    reveal(advance);
    let bytes = packet_bytes(packet);
    packet_round_trip(packet, seq![]);
    assert(bytes + Seq::<u8>::empty() =~= bytes);
    assert(reading.buffer + bytes =~= bytes);
    assert(reading.received + decode_all(bytes).packets =~= seq![packet]);
    assert(seq![packet].drop_first() =~= seq![]);
}

/// What the read of a request leads to is the end of it: there is an outcome after three
/// steps and none after more.
proof fn lemma_last_step(
    link: LinkView,
    action: ActionView,
    made: Seq<Transfer>,
    reading: LinkView,
    bytes: Seq<u8>,
)
    requires
        made.len() == 2,
        run_steps(link, action, made, 2) == Some((reading, ActionView::Read, 1nat)),
        made[1] matches Transfer::Received { outcome, .. } && outcome == Ok::<Seq<u8>, Seq<char>>(
            bytes,
        ),
        take_bytes(reading, bytes).1 is Finished,
    ensures
        run_steps(link, action, made, 3) matches Some(step) ==> step == (
            take_bytes(reading, bytes).0,
            take_bytes(reading, bytes).1,
            2nat,
        ) && (made[1] matches Transfer::Received { limit, .. } && limit == 4096),
        run_steps(link, action, made, 4) is None,
{
}

/// What a request is answered with: once it has gone out whole and a single packet has
/// come in on its channel, the payload of that packet, and nothing else, ends it.
pub proof fn requests_are_answered_by_the_next_packet(
    link: LinkView,
    channel: ChannelId,
    request: Seq<u8>,
    packet: PacketView,
    before: Seq<Transfer>,
    after: Seq<Transfer>,
    end: LinkView,
    result: Result<OutcomeView, D4ErrorView>,
)
    requires
        link.conversation == ConversationState::Active,
        link.buffer.len() == 0,
        link.received.len() == 0,
        channel.peer_socket != 0 || channel.source_socket != 0,
        link.channels.contains_key(channel),
        link.channels[channel].open,
        link.channels[channel].credit > 0,
        request.len() + 6 <= link.channels[channel].max_packet_size,
        packet.well_formed(),
        packet.header.peer_socket == channel.peer_socket,
        packet.header.source_socket == channel.source_socket,
        packet.header.length <= link.channels[channel].max_service_size,
        link.channels[channel].credit - 1 + packet.header.credit <= 65535,
        completes(request_step(link, channel, request), before, after, end, result),
        after.len() == before.len() + 2,
        after[before.len() as int] matches Transfer::Sent { failure, .. } && failure is None,
        after[before.len() + 1int] matches Transfer::Received { outcome: Ok(bytes), .. } && bytes
            == packet_bytes(packet),
    ensures
        result == Ok::<OutcomeView, D4ErrorView>(OutcomeView::Reply(packet.payload)),
        end.channels[channel].credit == link.channels[channel].credit - 1 + packet.header.credit,
        end.buffer.len() == 0,
        end.received.len() == 0,
        end.conversation == ConversationState::Active,
        after[before.len() + 1int] matches Transfer::Received { limit, .. } && limit == 4096,
{
    let made = transfers_since(before, after);
    assert(made[0] == after[before.len() as int]);
    assert(made[1] == after[before.len() + 1int]);
    let (sent, action) = request_step(link, channel, request);
    let steps = choose|steps: nat|
        completes_in(request_step(link, channel, request), made, end, result, steps);
    assert(action is Write);
    if run_steps(sent, action, made, 1) is None && steps >= 1 {
        lemma_no_outcome(sent, action, made, 1, steps);
    }
    lemma_first_transfer(sent, action, made);
    let reading = lemma_request_steps(link, channel, request, made);
    lemma_reply_taken(reading, channel, packet);
    lemma_last_step(sent, action, made, reading, packet_bytes(packet));
    if steps >= 4 {
        lemma_no_outcome(sent, action, made, 4, steps);
    }
}

} // verus!
