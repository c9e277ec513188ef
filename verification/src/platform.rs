//! What lies outside: the system, transports with their failures and their
//! recorded traffic, and the control channel that printer operations talk through.
use vstd::prelude::*;

verus! {

/// The system that the program runs on.
#[derive(Clone, Copy, Debug, PartialEq, Eq, Structural)]
pub enum Platform {
    Linux,
    MacOs,
    Windows,
    Other,
}

/// Printers can be reached over USB.
pub open spec fn reaches_usb(platform: Platform) -> bool {
    platform != Platform::Other
}

/// Printers can be changed over USB from the command line.
pub open spec fn changes_usb(platform: Platform) -> bool {
    platform == Platform::Linux || platform == Platform::MacOs
}

impl Platform {
    /// Whether printers can be reached over USB.
    pub fn has_usb(self) -> (reached: bool)
        ensures
            reached == reaches_usb(self),
    {
        match self {
            Platform::Linux | Platform::MacOs | Platform::Windows => true,
            Platform::Other => false,
        }
    }

    /// Whether printers can be changed over USB from the command line.
    pub fn has_usb_changes(self) -> (changed: bool)
        ensures
            changed == changes_usb(self),
    {
        match self {
            Platform::Linux | Platform::MacOs => true,
            Platform::Windows | Platform::Other => false,
        }
    }
}

/// A failed read from or write to a transport.
#[derive(Clone, Debug, PartialEq, Eq)]
pub struct TransportError {
    pub message: String,
}

impl View for TransportError {
    type V = Seq<char>;

    open spec fn view(&self) -> Seq<char> {
        self.message@
    }
}

/// A request that a control channel could not carry out.
#[derive(Clone, Debug, PartialEq, Eq)]
pub enum ControlError {
    Protocol { message: String },
}

impl View for ControlError {
    type V = Seq<char>;

    /// The words that describe the failure.
    open spec fn view(&self) -> Seq<char> {
        match *self {
            ControlError::Protocol { message } => message@,
        }
    }
}

impl ControlError {
    /// Describes the failure.
    pub fn message(&self) -> (text: String)
        ensures
            text@ == self@,
    {
        match self {
            ControlError::Protocol { message } => message.clone(),
        }
    }
}

/// A transfer that was seen on a transport.
#[derive(Clone, Debug, PartialEq, Eq)]
pub enum TransportEvent {
    /// Bytes that went to the printer.
    Tx(Vec<u8>),
    /// Bytes that came from the printer.
    Rx(Vec<u8>),
}

/// A request on a control channel and what came of it.
pub struct Exchange {
    pub request: Seq<u8>,
    /// The reply, or the words that describe the failure.
    pub reply: Result<Seq<u8>, Seq<char>>,
}

/// The contents of a reply.
pub open spec fn reply_view(reply: Result<Vec<u8>, ControlError>) -> Result<Seq<u8>, Seq<char>> {
    match reply {
        Ok(bytes) => Ok(bytes@),
        Err(error) => Err(error@),
    }
}

/// A channel that carries requests to a printer and replies back. A channel
/// outside this crate gives no spec function of its own: what is proved of a
/// channel holds whatever they are, as long as its requests keep their contract.
pub trait ControlChannel {
    /// What a channel is attached to.
    type Origin;

    /// What this channel is attached to, and stays attached to.
    closed spec fn origin(&self) -> Self::Origin {
        arbitrary()
    }

    /// The requests that have been made so far, with their replies.
    closed spec fn exchanges(&self) -> Seq<Exchange> {
        arbitrary()
    }

    /// The channel can carry a request.
    closed spec fn ready(&self) -> bool {
        true
    }

    /// Sends a request and waits for the reply. The channel adds this exchange,
    /// and no other one, to those before it.
    fn request(&mut self, request: &[u8]) -> (reply: Result<Vec<u8>, ControlError>)
        requires
            old(self).ready(),
        ensures
            final(self).ready(),
            final(self).origin() == old(self).origin(),
            final(self).exchanges() == old(self).exchanges().push(
                Exchange { request: request@, reply: reply_view(reply) },
            ),
    ;
}

/// Bytes that went over a transport, or failed to.
pub enum Transfer {
    /// Bytes that were to be sent, and the words that describe a failure.
    Sent { bytes: Seq<u8>, failure: Option<Seq<char>> },
    /// How many bytes were asked for at most, and what the read gave.
    Received { limit: usize, outcome: Result<Seq<u8>, Seq<char>> },
}

/// The contents of an event.
pub enum EventView {
    Tx(Seq<u8>),
    Rx(Seq<u8>),
}

impl View for TransportEvent {
    type V = EventView;

    open spec fn view(&self) -> EventView {
        match *self {
            TransportEvent::Tx(bytes) => EventView::Tx(bytes@),
            TransportEvent::Rx(bytes) => EventView::Rx(bytes@),
        }
    }
}

/// What a record holds of a transfer: the bytes that went over the transport,
/// and nothing of a transfer that failed.
pub open spec fn recorded(transfer: Transfer) -> Seq<EventView> {
    match transfer {
        Transfer::Sent { bytes, failure: None } => seq![EventView::Tx(bytes)],
        Transfer::Received { outcome: Ok(bytes), .. } => seq![EventView::Rx(bytes)],
        _ => seq![],
    }
}

/// What a record holds of several transfers, in order.
pub open spec fn all_recorded(transfers: Seq<Transfer>) -> Seq<EventView>
    decreases transfers.len(),
{
    if transfers.len() == 0 {
        seq![]
    } else {
        all_recorded(transfers.drop_last()) + recorded(transfers.last())
    }
}

/// The record that a transport keeps. One that keeps none has nothing in it.
pub struct RecordView {
    pub recording: bool,
    pub events: Seq<EventView>,
}

/// A record after some more transfers.
pub open spec fn record_after(record: RecordView, transfers: Seq<Transfer>) -> RecordView {
    if record.recording {
        RecordView { events: record.events + all_recorded(transfers), ..record }
    } else {
        record
    }
}

/// A transport has made some more transfers since a point at which there were
/// earlier ones and a record of them, and its record holds the new ones as well.
pub open spec fn record_since<T: ByteTransport>(
    earlier: Seq<Transfer>,
    record: RecordView,
    target: T,
) -> bool {
    let later = target.transfers();
    &&& earlier.len() <= later.len()
    &&& earlier == later.take(earlier.len() as int)
    &&& target.kept() == record_after(record, later.skip(earlier.len() as int))
}

/// A transport has made some more transfers, and its record holds them.
pub open spec fn record_kept<T: ByteTransport>(before: T, after: T) -> bool {
    record_since(before.transfers(), before.kept(), after)
}

/// A stream of bytes to and from a printer. A transport outside this crate gives
/// no spec function of its own: what is proved of a transport holds whatever it
/// is, as long as its transfers keep their contracts.
pub trait ByteTransport {
    /// The transfers that have been made so far.
    closed spec fn transfers(&self) -> Seq<Transfer> {
        arbitrary()
    }

    /// The record that is kept of the transfers.
    closed spec fn kept(&self) -> RecordView {
        RecordView { recording: false, events: seq![] }
    }

    /// Sends all bytes. The transport adds this transfer, and no other one, to
    /// those before it, and to the record if it keeps one.
    fn write_all(&mut self, bytes: &[u8]) -> (done: Result<(), TransportError>)
        ensures
            final(self).transfers() == old(self).transfers().push(
                Transfer::Sent {
                    bytes: bytes@,
                    failure: match done {
                        Ok(_) => None,
                        Err(error) => Some(error@),
                    },
                },
            ),
            final(self).kept() == record_after(
                old(self).kept(),
                seq![final(self).transfers().last()],
            ),
    ;

    /// Reads what has arrived, at most `limit` bytes; nothing at all marks the
    /// end of the stream. The transport adds this transfer, and no other one, to
    /// those before it, and to the record if it keeps one.
    fn read(&mut self, limit: usize) -> (bytes: Result<Vec<u8>, TransportError>)
        ensures
            bytes matches Ok(bytes) ==> bytes@.len() <= limit,
            final(self).transfers() == old(self).transfers().push(
                Transfer::Received {
                    limit,
                    outcome: match bytes {
                        Ok(bytes) => Ok(bytes@),
                        Err(error) => Err(error@),
                    },
                },
            ),
            final(self).kept() == record_after(
                old(self).kept(),
                seq![final(self).transfers().last()],
            ),
    ;
}

/// A transport that keeps a record of its transfers, if it is asked to.
pub struct RecordingTransport<T> {
    pub inner: T,
    pub recording: bool,
    pub events: Vec<TransportEvent>,
}

impl<T: ByteTransport> RecordingTransport<T> {
    /// The record so far.
    pub open spec fn record(&self) -> Seq<EventView> {
        Seq::new(self.events@.len(), |i: int| self.events@[i]@)
    }

    /// Keeps a record of a transport from now on.
    pub fn new(inner: T) -> (transport: Self)
        ensures
            transport.inner == inner,
            transport.recording,
            transport.record() == Seq::<EventView>::empty(),
    {
        Self::new_with_recording(inner, true)
    }

    /// Keeps a record of a transport from now on, or keeps none.
    pub fn new_with_recording(inner: T, recording: bool) -> (transport: Self)
        ensures
            transport.inner == inner,
            transport.recording == recording,
            transport.record() == Seq::<EventView>::empty(),
    {
        let transport = RecordingTransport { inner, recording, events: Vec::new() };
        proof {
            assert(transport.record() =~= seq![]);
        }
        transport
    }

    /// Gives the transport back, and the record.
    pub fn into_parts(self) -> (parts: (T, Vec<TransportEvent>))
        ensures
            parts.0 == self.inner,
            parts.1 == self.events,
    {
        (self.inner, self.events)
    }

    fn keep(&mut self, event: TransportEvent)
        ensures
            final(self).inner == old(self).inner,
            final(self).recording == old(self).recording,
            final(self).record() == if old(self).recording {
                old(self).record().push(event@)
            } else {
                old(self).record()
            },
    {
        if self.recording {
            let ghost before = self.record();
            self.events.push(event);
            proof {
                assert(self.record() =~= before.push(event@));
            }
        }
    }
}

impl<T: ByteTransport> ByteTransport for RecordingTransport<T> {
    open spec fn transfers(&self) -> Seq<Transfer> {
        self.inner.transfers()
    }

    open spec fn kept(&self) -> RecordView {
        RecordView { recording: self.recording, events: self.record() }
    }

    fn write_all(&mut self, bytes: &[u8]) -> (done: Result<(), TransportError>) {
        let ghost before = self.record();
        let done = self.inner.write_all(bytes);
        if done.is_ok() {
            self.keep(TransportEvent::Tx(vstd::slice::slice_to_vec(bytes)));
        }
        proof {
            lemma_one_recorded(self.transfers().last());
            assert(self.record() =~= record_after(
                RecordView { recording: self.recording, events: before },
                seq![self.transfers().last()],
            ).events);
        }
        done
    }

    fn read(&mut self, limit: usize) -> (bytes: Result<Vec<u8>, TransportError>) {
        let ghost before = self.record();
        let bytes = self.inner.read(limit);
        if let Ok(received) = &bytes {
            self.keep(TransportEvent::Rx(vstd::slice::slice_to_vec(received.as_slice())));
        }
        proof {
            lemma_one_recorded(self.transfers().last());
            assert(self.record() =~= record_after(
                RecordView { recording: self.recording, events: before },
                seq![self.transfers().last()],
            ).events);
        }
        bytes
    }
}

proof fn lemma_one_recorded(transfer: Transfer)
    ensures
        all_recorded(seq![transfer]) == recorded(transfer),
{
    reveal_with_fuel(all_recorded, 2);
    assert(seq![transfer].drop_last() =~= seq![]);
    assert(all_recorded(seq![transfer]) =~= recorded(transfer));
}

proof fn lemma_all_recorded_in_parts(first: Seq<Transfer>, second: Seq<Transfer>)
    ensures
        all_recorded(first + second) == all_recorded(first) + all_recorded(second),
    decreases second.len(),
{
    if second.len() == 0 {
        assert(first + second =~= first);
    } else {
        lemma_all_recorded_in_parts(first, second.drop_last());
        assert((first + second).drop_last() =~= first + second.drop_last());
    }
    assert(all_recorded(first + second) =~= all_recorded(first) + all_recorded(second));
}

/// A transport with which nothing has been done has kept its record.
pub broadcast proof fn lemma_record_untouched<T: ByteTransport>(target: T)
    ensures
        #[trigger] record_kept(target, target),
{
    let transfers = target.transfers();
    assert(transfers.take(transfers.len() as int) =~= transfers);
    assert(transfers.skip(transfers.len() as int) =~= seq![]);
    assert(target.kept().events + all_recorded(seq![]) =~= target.kept().events);
}

/// A transport keeps its record over one transfer.
pub proof fn lemma_record_one<T: ByteTransport>(before: T, after: T)
    requires
        exists|transfer: Transfer| after.transfers() == before.transfers().push(transfer),
        after.kept() == record_after(before.kept(), seq![after.transfers().last()]),
    ensures
        record_kept(before, after),
{
    let earlier = before.transfers();
    let later = after.transfers();
    assert(later.take(earlier.len() as int) =~= earlier);
    assert(later.skip(earlier.len() as int) =~= seq![later.last()]);
}

/// A record that is kept since some point is kept on.
pub proof fn lemma_record_goes_on<T: ByteTransport>(
    earlier: Seq<Transfer>,
    record: RecordView,
    second: T,
    third: T,
)
    requires
        record_since(earlier, record, second),
        record_kept(second, third),
    ensures
        record_since(earlier, record, third),
{
    let middle = second.transfers();
    let end = third.transfers();
    let one = middle.skip(earlier.len() as int);
    let two = end.skip(middle.len() as int);
    lemma_all_recorded_in_parts(one, two);
    assert(end.skip(earlier.len() as int) =~= one + two);
    assert(end.take(earlier.len() as int) =~= middle.take(earlier.len() as int));
    assert(record.events + all_recorded(one + two) =~= record.events + all_recorded(one)
        + all_recorded(two));
}

/// A transport that keeps its record twice keeps it over all of that time.
pub broadcast proof fn lemma_record_chain<T: ByteTransport>(first: T, second: T, third: T)
    requires
        #[trigger] record_kept(first, second),
        #[trigger] record_kept(second, third),
    ensures
        record_kept(first, third),
{
    lemma_record_goes_on(first.transfers(), first.kept(), second, third);
}

/// A recorder that was recording holds, behind what it held before, the bytes of
/// every transfer that succeeded since then, in order, and nothing else. One
/// that was not recording holds what it held before.
pub proof fn recorders_hold_what_happened<T: ByteTransport>(
    before: RecordingTransport<T>,
    after: RecordingTransport<T>,
)
    requires
        record_kept(before, after),
    ensures
        after.recording == before.recording,
        after.record() == if before.recording {
            before.record() + all_recorded(
                after.transfers().skip(before.transfers().len() as int),
            )
        } else {
            before.record()
        },
{
}

/// What one more transfer adds to a record: its bytes, as sent or as received, if it
/// succeeded, and nothing otherwise.
pub proof fn transfers_are_recorded_one_by_one(transfers: Seq<Transfer>, transfer: Transfer)
    ensures
        all_recorded(seq![]).len() == 0,
        match transfer {
            Transfer::Sent { bytes, failure } => if failure is None {
                all_recorded(transfers.push(transfer)) == all_recorded(transfers).push(
                    EventView::Tx(bytes),
                )
            } else {
                all_recorded(transfers.push(transfer)) == all_recorded(transfers)
            },
            Transfer::Received { outcome, .. } => match outcome {
                Ok(bytes) => all_recorded(transfers.push(transfer)) == all_recorded(transfers).push(
                    EventView::Rx(bytes),
                ),
                Err(_) => all_recorded(transfers.push(transfer)) == all_recorded(transfers),
            },
        },
{
    assert(transfers.push(transfer).drop_last() =~= transfers);
    let before = all_recorded(transfers);
    assert(before + Seq::<EventView>::empty() =~= before);
    match transfer {
        Transfer::Sent { bytes, failure } => {
            assert(before + seq![EventView::Tx(bytes)] =~= before.push(EventView::Tx(bytes)));
        },
        Transfer::Received { outcome, .. } => {
            if let Ok(bytes) = outcome {
                assert(before + seq![EventView::Rx(bytes)] =~= before.push(EventView::Rx(bytes)));
            }
        },
    }
}

} // verus!
