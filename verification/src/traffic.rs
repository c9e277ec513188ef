//! Bounded, in-memory debug traffic of one session.
use crate::channel::ChannelId;
use crate::command::{is_digit_of, write_request, CommandErrorView};
use crate::epson::{AddressWidth, SpecView};
use crate::fields::{hex_bytes_text, format_hex_bytes, join, joined, push_field};
use crate::link::outgoing;
use crate::packet::{header_of, packet_bytes, PacketError, PacketHeader, PacketView};
use crate::platform::{EventView, TransportEvent};
use crate::reassembly::{
    all_transfers, fresh_decoder, next_transfer, pushed, transfer_views, DebugTrafficDecoder,
    DebugTrafficDirection, DecoderView, ReassembledTransfer, ReassembledTransferKind,
    ReassembledView,
};
use crate::scan::begins_with;
use crate::session::entry_command;
use crate::summary::{
    header_fields, packet_summaries_hide_write_keys, response_text,
    shown_records_say_what_their_digits_say, summarize, transfer_summary, write_fields,
    writes_are_summed_up,
};
use crate::text::{dec_text, hex_text};
use crate::text_map::texts;
use crate::transaction::ProtocolRevision;
use std::collections::VecDeque;
use vstd::prelude::*;

verus! {

/// Maximum number of transport events retained for one session.
pub const DEBUG_TRAFFIC_MAX_ENTRIES: usize = 1_000;

/// One display-safe, session-only transport record.
///
/// The byte string is uppercase hexadecimal separated by single spaces. It is
/// retained only for the current opt-in session and has no timestamp or device
/// identifier.
#[derive(Clone, Debug, PartialEq, Eq)]
pub struct DebugTrafficEntry {
    pub id: u64,
    pub direction: DebugTrafficDirection,
    pub summary: String,
    pub hex_bytes: String,
}

/// The contents of an entry.
pub struct EntryView {
    pub id: u64,
    pub direction: DebugTrafficDirection,
    pub summary: Seq<char>,
    pub hex_bytes: Seq<char>,
}

impl View for DebugTrafficEntry {
    type V = EntryView;

    open spec fn view(&self) -> EntryView {
        EntryView {
            id: self.id,
            direction: self.direction,
            summary: self.summary@,
            hex_bytes: self.hex_bytes@,
        }
    }
}

/// The text that an entry puts on the clipboard.
pub open spec fn entry_text(entry: EntryView) -> Seq<char> {
    entry.summary + "\nbytes="@ + if entry.hex_bytes.len() == 0 {
        "<empty>"@
    } else {
        entry.hex_bytes
    }
}

impl DebugTrafficEntry {
    pub fn id(&self) -> (id: u64)
        ensures
            id == self@.id,
    {
        self.id
    }

    pub fn direction(&self) -> (direction: DebugTrafficDirection)
        ensures
            direction == self@.direction,
    {
        self.direction
    }

    pub fn summary(&self) -> (summary: &str)
        ensures
            summary@ == self@.summary,
    {
        self.summary.as_str()
    }

    pub fn hex_bytes(&self) -> (bytes: &str)
        ensures
            bytes@ == self@.hex_bytes,
    {
        self.hex_bytes.as_str()
    }

    pub fn clipboard_text(&self) -> (text: String)
        ensures
            text@ == entry_text(self@),
    {
        let bytes: &str = if self.hex_bytes.as_str().unicode_len() == 0 {
            "<empty>"
        } else {
            self.hex_bytes.as_str()
        };
        self.summary.as_str().to_owned().concat("\nbytes=").concat(bytes)
    }
}

/// Bounded, in-memory debug traffic for the current session.
///
/// Capture is disabled by default. An explicit connected operation that sampled
/// the opt-in before it started can pass its recorded events to
/// [`Self::append_captured_events`].
#[derive(Debug)]
pub struct DebugTrafficTrace {
    pub capture_enabled: bool,
    pub entries: VecDeque<DebugTrafficEntry>,
    pub tx_decoder: DebugTrafficDecoder,
    pub rx_decoder: DebugTrafficDecoder,
    pub transaction_revision: ProtocolRevision,
    pub next_entry_id: u64,
}

/// The contents of a trace.
pub struct TraceView {
    pub capture_enabled: bool,
    pub entries: Seq<EntryView>,
    pub tx_decoder: DecoderView,
    pub rx_decoder: DecoderView,
    pub transaction_revision: ProtocolRevision,
    pub next_entry_id: u64,
}

/// The contents of several entries.
pub open spec fn entry_views(entries: Seq<DebugTrafficEntry>) -> Seq<EntryView> {
    Seq::new(entries.len(), |i: int| entries[i]@)
}

impl View for DebugTrafficTrace {
    type V = TraceView;

    open spec fn view(&self) -> TraceView {
        TraceView {
            capture_enabled: self.capture_enabled,
            entries: entry_views(self.entries@),
            tx_decoder: self.tx_decoder@,
            rx_decoder: self.rx_decoder@,
            transaction_revision: self.transaction_revision,
            next_entry_id: self.next_entry_id,
        }
    }
}

/// The trace at the beginning of a session.
pub open spec fn empty_trace() -> TraceView {
    TraceView {
        capture_enabled: false,
        entries: seq![],
        tx_decoder: fresh_decoder(),
        rx_decoder: fresh_decoder(),
        transaction_revision: ProtocolRevision::V20,
        next_entry_id: 0,
    }
}

/// The number behind another one, and behind the largest the smallest.
pub open spec fn next_id(id: u64) -> u64 {
    if id == u64::MAX {
        0
    } else {
        (id + 1) as u64
    }
}

/// The entries that stay when another one comes.
pub open spec fn retained(entries: Seq<EntryView>) -> Seq<EntryView> {
    if entries.len() == DEBUG_TRAFFIC_MAX_ENTRIES {
        entries.skip(1)
    } else {
        entries
    }
}

/// The entry for a transfer.
pub open spec fn entry_for(trace: TraceView, transfer: ReassembledView) -> EntryView {
    EntryView {
        id: trace.next_entry_id,
        direction: transfer.direction,
        summary: transfer_summary(transfer, trace.transaction_revision).0,
        hex_bytes: hex_bytes_text(transfer.bytes),
    }
}

/// A trace with a transfer appended to it.
pub open spec fn recorded(trace: TraceView, transfer: ReassembledView) -> TraceView {
    TraceView {
        entries: retained(trace.entries).push(entry_for(trace, transfer)),
        transaction_revision: transfer_summary(transfer, trace.transaction_revision).1,
        next_entry_id: next_id(trace.next_entry_id),
        ..trace
    }
}

/// A trace with several transfers appended to it, in order.
pub open spec fn all_recorded(trace: TraceView, transfers: Seq<ReassembledView>) -> TraceView
    decreases transfers.len(),
{
    if transfers.len() == 0 {
        trace
    } else {
        recorded(all_recorded(trace, transfers.drop_last()), transfers.last())
    }
}

/// A trace with what an event completes appended to it.
pub open spec fn captured(trace: TraceView, event: TransportEvent) -> TraceView {
    match event {
        TransportEvent::Tx(bytes) => {
            let output = pushed(DebugTrafficDirection::Tx, trace.tx_decoder, bytes@);
            all_recorded(TraceView { tx_decoder: output.1, ..trace }, output.0)
        },
        TransportEvent::Rx(bytes) => {
            let output = pushed(DebugTrafficDirection::Rx, trace.rx_decoder, bytes@);
            all_recorded(TraceView { rx_decoder: output.1, ..trace }, output.0)
        },
    }
}

/// A trace with what several events complete appended to it, in order.
pub open spec fn all_captured(trace: TraceView, events: Seq<TransportEvent>) -> TraceView
    decreases events.len(),
{
    if events.len() == 0 {
        trace
    } else {
        captured(all_captured(trace, events.drop_last()), events.last())
    }
}

/// A trace before a new operation: what is displayed stays, and decoding begins anew.
pub open spec fn decoders_reset(trace: TraceView) -> TraceView {
    TraceView {
        tx_decoder: fresh_decoder(),
        rx_decoder: fresh_decoder(),
        transaction_revision: ProtocolRevision::V20,
        ..trace
    }
}

/// What every trace keeps: it is bounded, and its entries are numbered one
/// after the other.
pub open spec fn orderly(trace: TraceView) -> bool {
    &&& trace.entries.len() <= DEBUG_TRAFFIC_MAX_ENTRIES
    &&& forall|i: int|
        0 <= i < trace.entries.len() ==> (#[trigger] trace.entries[i]).id as int == (
        trace.next_entry_id - (trace.entries.len() - i)) % 0x1_0000_0000_0000_0000
}

impl Default for DebugTrafficTrace {
    fn default() -> (trace: Self)
        ensures
            trace@ == empty_trace(),
    {
        DebugTrafficTrace::new()
    }
}

impl DebugTrafficTrace {
    pub fn new() -> (trace: Self)
        ensures
            trace@ == empty_trace(),
    {
        let trace = DebugTrafficTrace {
            capture_enabled: false,
            entries: VecDeque::new(),
            tx_decoder: DebugTrafficDecoder::default(),
            rx_decoder: DebugTrafficDecoder::default(),
            transaction_revision: ProtocolRevision::V20,
            next_entry_id: 0,
        };
        proof {
            assert(trace@.entries =~= seq![]);
        }
        trace
    }

    pub fn capture_enabled(&self) -> (enabled: bool)
        ensures
            enabled == self@.capture_enabled,
    {
        self.capture_enabled
    }

    pub fn set_capture_enabled(&mut self, enabled: bool)
        ensures
            final(self)@ == (TraceView { capture_enabled: enabled, ..old(self)@ }),
    {
        self.capture_enabled = enabled;
    }

    /// Appends one event when capture is enabled, returning whether it was kept.
    pub fn append(&mut self, event: &TransportEvent) -> (kept: bool)
        ensures
            kept == old(self)@.capture_enabled,
            final(self)@ == if old(self)@.capture_enabled {
                captured(old(self)@, *event)
            } else {
                old(self)@
            },
    {
        if !self.capture_enabled {
            return false;
        }
        self.append_captured(event);
        true
    }

    /// Appends ordered recorded events when capture is enabled.
    ///
    /// Transfers are incrementally reassembled into D4 entry and packet records.
    /// Empty reads remain visible without changing reassembly state.
    pub fn append_events(&mut self, events: Vec<TransportEvent>) -> (kept: usize)
        ensures
            kept == if old(self)@.capture_enabled {
                events@.len()
            } else {
                0
            },
            final(self)@ == if old(self)@.capture_enabled {
                all_captured(old(self)@, events@)
            } else {
                old(self)@
            },
    {
        if !self.capture_enabled {
            return 0;
        }
        self.append_captured_events(events)
    }

    /// Appends events that were captured under an already sampled explicit
    /// operation opt-in.
    ///
    /// Callers must invoke this only when their operation started with capture
    /// enabled. It preserves that decision even if the user toggles the
    /// checkbox while the worker is still completing.
    pub fn append_captured_events(&mut self, events: Vec<TransportEvent>) -> (kept: usize)
        ensures
            kept == events@.len(),
            final(self)@ == all_captured(old(self)@, events@),
    {
        let mut index: usize = 0;
        proof {
            assert(events@.take(0) =~= seq![]);
        }
        while index < events.len()
            invariant
                index <= events@.len(),
                self@ == all_captured(old(self)@, events@.take(index as int)),
            decreases events.len() - index,
        {
            self.append_captured(&events[index]);
            proof {
                assert(events@.take(index + 1).drop_last() =~= events@.take(index as int));
            }
            index = index + 1;
        }
        proof {
            assert(events@.take(index as int) =~= events@);
        }
        index
    }

    fn append_captured(&mut self, event: &TransportEvent)
        ensures
            final(self)@ == captured(old(self)@, *event),
    {
        let ghost before = self@;
        let transfers = match event {
            TransportEvent::Tx(bytes) => self.tx_decoder.push(
                DebugTrafficDirection::Tx,
                bytes.as_slice(),
            ),
            TransportEvent::Rx(bytes) => self.rx_decoder.push(
                DebugTrafficDirection::Rx,
                bytes.as_slice(),
            ),
        };
        let ghost decoded = self@;
        let ghost views = transfer_views(transfers@);
        proof {
            assert(decoded.entries =~= before.entries);
            assert(views.take(0) =~= seq![]);
        }
        let mut index: usize = 0;
        while index < transfers.len()
            invariant
                index <= transfers@.len(),
                views == transfer_views(transfers@),
                self@ == all_recorded(decoded, views.take(index as int)),
            decreases transfers.len() - index,
        {
            self.append_transfer(&transfers[index]);
            proof {
                assert(views.take(index + 1).drop_last() =~= views.take(index as int));
            }
            index = index + 1;
        }
        proof {
            assert(views.take(index as int) =~= views);
        }
    }

    fn append_transfer(&mut self, transfer: &ReassembledTransfer)
        ensures
            final(self)@ == recorded(old(self)@, transfer@),
    {
        let (summary, revision) = summarize(transfer, self.transaction_revision);
        self.transaction_revision = revision;
        if self.entries.len() == DEBUG_TRAFFIC_MAX_ENTRIES {
            self.entries.pop_front();
        }
        proof {
            assert(entry_views(self.entries@) =~= retained(old(self)@.entries));
        }
        let ghost kept = entry_views(self.entries@);
        let entry = DebugTrafficEntry {
            id: self.next_entry_id,
            direction: transfer.direction,
            summary,
            hex_bytes: format_hex_bytes(transfer.bytes.as_slice()),
        };
        self.entries.push_back(entry);
        proof {
            assert(entry_views(self.entries@) =~= kept.push(entry@));
        }
        self.next_entry_id = if self.next_entry_id == u64::MAX {
            0
        } else {
            self.next_entry_id + 1
        };
    }

    /// Begins a newly captured operation without removing already displayed traffic.
    ///
    /// Reassembly and transaction decoding are scoped to a single selected-printer
    /// operation, so incomplete transfers from an earlier operation cannot affect it.
    pub fn begin_operation(&mut self)
        ensures
            final(self)@ == decoders_reset(old(self)@),
    {
        self.reset_decoder_state();
    }

    pub fn clear(&mut self)
        ensures
            final(self)@ == decoders_reset(TraceView { entries: seq![], ..old(self)@ }),
    {
        self.entries.clear();
        proof {
            assert(entry_views(self.entries@) =~= seq![]);
        }
        self.reset_decoder_state();
    }

    pub fn count(&self) -> (count: usize)
        ensures
            count == self@.entries.len(),
    {
        self.entries.len()
    }

    pub fn clipboard_text(&self) -> (text: String)
        ensures
            text@ == joined(
                Seq::new(self@.entries.len(), |i: int| entry_text(self@.entries[i])),
                "\n"@,
            ),
    {
        let mut lines: Vec<String> = Vec::new();
        let ghost expected = Seq::new(
            self@.entries.len(),
            |i: int| entry_text(self@.entries[i]),
        );
        while lines.len() < self.entries.len()
            invariant
                lines@.len() <= self.entries@.len(),
                expected == Seq::new(self@.entries.len(), |i: int| entry_text(self@.entries[i])),
                texts(lines@) == expected.take(lines@.len() as int),
            decreases self.entries.len() - lines.len(),
        {
            let index: usize = lines.len();
            push_field(&mut lines, self.entries[index].clipboard_text());
        }
        proof {
            assert(texts(lines@) =~= expected);
        }
        join(lines.as_slice(), "\n")
    }

    /// The entries, the oldest first.
    pub fn entries(&self) -> (entries: Vec<&DebugTrafficEntry>)
        ensures
            entries@.len() == self@.entries.len(),
            forall|i: int|
                0 <= i < entries@.len() ==> (#[trigger] entries@[i])@ == self@.entries[i],
    {
        let mut entries: Vec<&DebugTrafficEntry> = Vec::new();
        while entries.len() < self.entries.len()
            invariant
                entries@.len() <= self.entries@.len(),
                forall|i: int|
                    0 <= i < entries@.len() ==> (#[trigger] entries@[i])@ == self@.entries[i],
            decreases self.entries.len() - entries.len(),
        {
            let index: usize = entries.len();
            entries.push(&self.entries[index]);
        }
        entries
    }

    fn reset_decoder_state(&mut self)
        ensures
            final(self)@ == decoders_reset(old(self)@),
            final(self).entries == old(self).entries,
    {
        self.tx_decoder = DebugTrafficDecoder::default();
        self.rx_decoder = DebugTrafficDecoder::default();
        self.transaction_revision = ProtocolRevision::V20;
    }
}

proof fn lemma_recorded_orderly(trace: TraceView, transfer: ReassembledView)
    requires
        orderly(trace),
    ensures
        orderly(recorded(trace, transfer)),
{
    let after = recorded(trace, transfer);
    let size: int = 0x1_0000_0000_0000_0000;
    assert forall|i: int| 0 <= i < after.entries.len() implies (
    #[trigger] after.entries[i]).id as int == (after.next_entry_id - (after.entries.len() - i))
        % size by {
        let dropped: int = if trace.entries.len() == DEBUG_TRAFFIC_MAX_ENTRIES {
            1
        } else {
            0
        };
        if i < after.entries.len() - 1 {
            assert(after.entries[i] == trace.entries[i + dropped]);
        }
    }
}

proof fn lemma_all_recorded_orderly(trace: TraceView, transfers: Seq<ReassembledView>)
    requires
        orderly(trace),
    ensures
        orderly(all_recorded(trace, transfers)),
    decreases transfers.len(),
{
    if transfers.len() > 0 {
        lemma_all_recorded_orderly(trace, transfers.drop_last());
        lemma_recorded_orderly(all_recorded(trace, transfers.drop_last()), transfers.last());
    }
}

/// Whatever is captured, a trace stays bounded, and its entries stay numbered
/// one after the other.
pub proof fn traces_stay_orderly(trace: TraceView, events: Seq<TransportEvent>)
    requires
        orderly(trace),
    ensures
        orderly(all_captured(trace, events)),
    decreases events.len(),
{
    if events.len() > 0 {
        traces_stay_orderly(trace, events.drop_last());
        let before = all_captured(trace, events.drop_last());
        match events.last() {
            TransportEvent::Tx(bytes) => {
                let output = pushed(DebugTrafficDirection::Tx, before.tx_decoder, bytes@);
                lemma_all_recorded_orderly(
                    TraceView { tx_decoder: output.1, ..before },
                    output.0,
                );
            },
            TransportEvent::Rx(bytes) => {
                let output = pushed(DebugTrafficDirection::Rx, before.rx_decoder, bytes@);
                lemma_all_recorded_orderly(
                    TraceView { rx_decoder: output.1, ..before },
                    output.0,
                );
            },
        }
    }
}

/// A full trace gives up its oldest entry for a new one, and no other.
pub proof fn oldest_entry_gives_way(trace: TraceView, transfer: ReassembledView)
    requires
        trace.entries.len() == DEBUG_TRAFFIC_MAX_ENTRIES,
    ensures
        recorded(trace, transfer).entries.len() == DEBUG_TRAFFIC_MAX_ENTRIES,
        recorded(trace, transfer).entries.drop_last() == trace.entries.skip(1),
        recorded(trace, transfer).entries.last() == entry_for(trace, transfer),
{
    assert(recorded(trace, transfer).entries.drop_last() =~= trace.entries.skip(1));
}

/// Two entries say the same of a transfer, whatever their numbers are.
pub open spec fn same_content(left: EntryView, right: EntryView) -> bool {
    &&& left.direction == right.direction
    &&& left.summary == right.summary
    &&& left.hex_bytes == right.hex_bytes
}

/// A trace that was begun with some entries holds, behind the newest of these,
/// what a trace that was begun with none holds, and decodes as that one does.
pub open spec fn extends(trace: TraceView, earlier: Seq<EntryView>, fresh: TraceView) -> bool {
    let left = trace.entries.len() - fresh.entries.len();
    &&& 0 <= left <= earlier.len()
    &&& trace.entries.len() <= DEBUG_TRAFFIC_MAX_ENTRIES
    &&& trace.entries.len() < DEBUG_TRAFFIC_MAX_ENTRIES ==> left == earlier.len()
    &&& forall|i: int|
        0 <= i < left ==> #[trigger] trace.entries[i] == earlier[earlier.len() - left + i]
    &&& forall|i: int|
        left <= i < trace.entries.len() ==> same_content(
            #[trigger] trace.entries[i],
            fresh.entries[i - left],
        )
    &&& trace.tx_decoder == fresh.tx_decoder
    &&& trace.rx_decoder == fresh.rx_decoder
    &&& trace.transaction_revision == fresh.transaction_revision
}

proof fn lemma_recorded_extends(
    trace: TraceView,
    earlier: Seq<EntryView>,
    fresh: TraceView,
    transfer: ReassembledView,
)
    requires
        extends(trace, earlier, fresh),
    ensures
        extends(recorded(trace, transfer), earlier, recorded(fresh, transfer)),
{
    let after = recorded(trace, transfer);
    let other = recorded(fresh, transfer);
    let left = after.entries.len() - other.entries.len();
    let dropped: int = if trace.entries.len() == DEBUG_TRAFFIC_MAX_ENTRIES {
        1
    } else {
        0
    };
    assert forall|i: int| 0 <= i < left implies #[trigger] after.entries[i]
        == earlier[earlier.len() - left + i] by {
        assert(after.entries[i] == trace.entries[i + dropped]);
    }
    assert forall|i: int| left <= i < after.entries.len() implies same_content(
        #[trigger] after.entries[i],
        other.entries[i - left],
    ) by {
        if i < after.entries.len() - 1 {
            assert(after.entries[i] == trace.entries[i + dropped]);
            assert(same_content(
                trace.entries[i + dropped],
                fresh.entries[i + dropped - (trace.entries.len() - fresh.entries.len())],
            ));
        }
    }
}

proof fn lemma_all_recorded_extends(
    trace: TraceView,
    earlier: Seq<EntryView>,
    fresh: TraceView,
    transfers: Seq<ReassembledView>,
)
    requires
        extends(trace, earlier, fresh),
    ensures
        extends(all_recorded(trace, transfers), earlier, all_recorded(fresh, transfers)),
    decreases transfers.len(),
{
    if transfers.len() > 0 {
        lemma_all_recorded_extends(trace, earlier, fresh, transfers.drop_last());
        lemma_recorded_extends(
            all_recorded(trace, transfers.drop_last()),
            earlier,
            all_recorded(fresh, transfers.drop_last()),
            transfers.last(),
        );
    }
}

/// Capturing begins anew with every operation: whatever was captured before, the
/// events of an operation leave the entries that a fresh trace would show for
/// them, behind the newest of the earlier entries, as far as there is room.
pub proof fn operations_are_decoded_separately(trace: TraceView, events: Seq<TransportEvent>)
    requires
        trace.entries.len() <= DEBUG_TRAFFIC_MAX_ENTRIES,
    ensures
        extends(
            all_captured(decoders_reset(trace), events),
            trace.entries,
            all_captured(empty_trace(), events),
        ),
    decreases events.len(),
{
    if events.len() > 0 {
        operations_are_decoded_separately(trace, events.drop_last());
        let before = all_captured(decoders_reset(trace), events.drop_last());
        let fresh = all_captured(empty_trace(), events.drop_last());
        match events.last() {
            TransportEvent::Tx(bytes) => {
                let output = pushed(DebugTrafficDirection::Tx, before.tx_decoder, bytes@);
                lemma_all_recorded_extends(
                    TraceView { tx_decoder: output.1, ..before },
                    trace.entries,
                    TraceView { tx_decoder: output.1, ..fresh },
                    output.0,
                );
            },
            TransportEvent::Rx(bytes) => {
                let output = pushed(DebugTrafficDirection::Rx, before.rx_decoder, bytes@);
                lemma_all_recorded_extends(
                    TraceView { rx_decoder: output.1, ..before },
                    trace.entries,
                    TraceView { rx_decoder: output.1, ..fresh },
                    output.0,
                );
            },
        }
    }
}

/// The summary of an entry does not depend on the write key of a write request,
/// beyond its length. The packet may go out on any channel.
///
/// The summary takes every write for one with a two-byte address. With a one-byte
/// address, what it shows as the value is the first byte of the key.
pub proof fn entries_hide_write_keys(
    trace: TraceView,
    transfer: ReassembledView,
    channel: ChannelId,
    credit: u8,
    settings: SpecView,
    key: Seq<u8>,
    address: u16,
    value: u8,
    request: Seq<u8>,
    other: Seq<u8>,
)
    requires
        settings.write_key matches Some(own) && own.len() == key.len() && (
        settings.write_address_width == AddressWidth::One ==> own.take(1) == key.take(1)),
        write_request(settings, address, value) == Ok::<Seq<u8>, CommandErrorView>(request),
        write_request(SpecView { write_key: Some(key), ..settings }, address, value) == Ok::<
            Seq<u8>,
            CommandErrorView,
        >(other),
        transfer.bytes == outgoing(channel, request, credit),
    ensures
        entry_for(trace, transfer).summary == entry_for(
            trace,
            ReassembledView { bytes: outgoing(channel, other, credit), ..transfer },
        ).summary,
        recorded(trace, transfer).transaction_revision == recorded(
            trace,
            ReassembledView { bytes: outgoing(channel, other, credit), ..transfer },
        ).transaction_revision,
{
    let own = settings.write_key->Some_0;
    let replaced = outgoing(channel, other, credit);
    assert(request.len() == other.len());
    assert(transfer.bytes.len() == replaced.len());
    if own.len() == 0 {
        assert(own =~= key);
    } else {
        assert(own.take(1)[0] == own[0]);
        assert(key.take(1)[0] == key[0]);
        assert(request.take(12) =~= other.take(12));
        assert(transfer.bytes.take(18) =~= replaced.take(18));
        assert(transfer.bytes[6] == 0x7c && transfer.bytes[7] == 0x7c);
        assert(transfer.bytes[12] == 0x42);
        packet_summaries_hide_write_keys(
            transfer.direction,
            transfer.bytes,
            replaced,
            trace.transaction_revision,
        );
    }
}

/// Once the entry command has gone out, whole packets are told apart.
proof fn lemma_entry_captured(trace: TraceView, event: TransportEvent)
    requires
        trace.tx_decoder == fresh_decoder(),
        event@ == EventView::Tx(entry_command()),
    ensures
        captured(trace, event).tx_decoder == (DecoderView { bytes: seq![], d4_active: true }),
        captured(trace, event).transaction_revision == trace.transaction_revision,
        captured(trace, event).next_entry_id == next_id(trace.next_entry_id),
{
    let direction = DebugTrafficDirection::Tx;
    let command = entry_command();
    let decoder = DecoderView { bytes: command, d4_active: false };
    let after = DecoderView { bytes: seq![], d4_active: true };
    assert(fresh_decoder().bytes + command =~= command);
    assert(command.subrange(0, command.len() as int) =~= command);
    assert(begins_with(command, command));
    let transfer = ReassembledView {
        direction,
        bytes: command,
        kind: ReassembledTransferKind::EntryCommand,
    };
    assert(command.take(command.len() as int) =~= command);
    assert(command.skip(command.len() as int) =~= seq![]);
    assert(next_transfer(direction, decoder) == Some((transfer, after)));
    assert(next_transfer(direction, after) is None);
    assert(all_transfers(direction, after) == (Seq::<ReassembledView>::empty(), after));
    assert(all_transfers(direction, decoder).0 =~= seq![transfer]);
    lemma_one_recorded(TraceView { tx_decoder: after, ..trace }, transfer);
}

proof fn lemma_one_recorded(trace: TraceView, transfer: ReassembledView)
    ensures
        all_recorded(trace, seq![transfer]) == recorded(trace, transfer),
{
    reveal_with_fuel(all_recorded, 2);
    assert(seq![transfer].drop_last() =~= seq![]);
}

/// A whole packet comes out of a decoder as it went in.
proof fn lemma_packet_captured(trace: TraceView, event: TransportEvent, packet: PacketView)
    requires
        trace.tx_decoder == (DecoderView { bytes: seq![], d4_active: true }),
        packet.well_formed(),
        event@ == EventView::Tx(packet_bytes(packet)),
    ensures
        captured(trace, event) == recorded(
            trace,
            ReassembledView {
                direction: DebugTrafficDirection::Tx,
                bytes: packet_bytes(packet),
                kind: ReassembledTransferKind::D4Packet,
            },
        ),
{
    let direction = DebugTrafficDirection::Tx;
    let bytes = packet_bytes(packet);
    let after = DecoderView { bytes: seq![], d4_active: true };
    let decoder = DecoderView { bytes, d4_active: true };
    let transfer = ReassembledView { direction, bytes, kind: ReassembledTransferKind::D4Packet };
    assert(Seq::<u8>::empty() + bytes =~= bytes);
    assert(header_of(bytes) == Ok::<PacketHeader, PacketError>(packet.header));
    assert(bytes.take(bytes.len() as int) =~= bytes);
    assert(bytes.skip(bytes.len() as int) =~= seq![]);
    assert(next_transfer(direction, decoder) == Some((transfer, after)));
    assert(all_transfers(direction, after) == (Seq::<ReassembledView>::empty(), after));
    assert(all_transfers(direction, decoder).0 =~= seq![transfer]);
    lemma_one_recorded(trace, transfer);
}

/// What an entry shows of a write, from the entry command on: where decoding
/// begins, the entry command goes out and then a packet with a write request for
/// a two-byte address, on any service channel. The newest entry sums the write
/// up word by word. It ends with the value and the length of the key, and it is
/// the same for every key of that length.
pub proof fn captured_writes_are_summed_up(
    trace: TraceView,
    entry: TransportEvent,
    write: TransportEvent,
    packet: PacketView,
    settings: SpecView,
    address: u16,
    value: u8,
)
    requires
        trace.tx_decoder == fresh_decoder(),
        entry@ == EventView::Tx(entry_command()),
        write@ == EventView::Tx(packet_bytes(packet)),
        packet.well_formed(),
        packet.header.peer_socket != 0 || packet.header.source_socket != 0,
        settings.write_address_width == AddressWidth::Two,
        write_request(settings, address, value) == Ok::<Seq<u8>, CommandErrorView>(
            packet.payload,
        ),
    ensures
        settings.write_key matches Some(key) && ({
            let shown = all_captured(trace, seq![entry, write]).entries;
            let fields = header_fields(DebugTrafficDirection::Tx, packet.header) + write_fields(
                settings.read_key,
                address,
                value,
                key.len(),
            );
            &&& shown.len() > 0
            &&& shown.last() == (EntryView {
                id: next_id(trace.next_entry_id),
                direction: DebugTrafficDirection::Tx,
                summary: joined(fields, " "@),
                hex_bytes: hex_bytes_text(packet_bytes(packet)),
            })
            &&& joined(fields, " "@) == joined(fields.take(fields.len() - 2), " "@) + " "@ + (
            "value=0x"@ + hex_text(value as nat, 2, true)) + " "@ + ("write_key_length="@
                + dec_text(key.len()))
        }),
{
    let events = seq![entry, write];
    let begun = captured(trace, entry);
    reveal_with_fuel(all_captured, 3);
    assert(events.drop_last() =~= seq![entry]);
    assert(seq![entry].drop_last() =~= seq![]);
    lemma_entry_captured(trace, entry);
    lemma_packet_captured(begun, write, packet);
    writes_are_summed_up(
        DebugTrafficDirection::Tx,
        packet,
        settings,
        address,
        value,
        begun.transaction_revision,
    );
}

/// A packet that arrives in a conversation is the newest entry of the trace, with its
/// bytes in hexadecimal and, where it holds a record of the EEPROM, the address and the
/// value that the digits of the record stand for.
pub proof fn captured_records_are_shown(
    trace: TraceView,
    arrival: TransportEvent,
    packet: PacketView,
    marker: int,
    digits: Seq<int>,
)
    requires
        trace.rx_decoder == (DecoderView { bytes: seq![], d4_active: true }),
        arrival@ == EventView::Rx(packet_bytes(packet)),
        packet.well_formed(),
        packet.header.peer_socket != 0 || packet.header.source_socket != 0,
        forall|i: int| 0 <= i < packet.payload.len() ==> #[trigger] packet.payload[i] < 0x80,
        packet.payload.len() > 0,
        packet.payload[0] == 0x40 || marker == 0,
        0 <= marker,
        marker + 9 < packet.payload.len(),
        packet.payload[marker] == 0x45 && packet.payload[marker + 1] == 0x45
            && packet.payload[marker + 2] == 0x3a,
        forall|i: int|
            0 <= i < marker ==> !(#[trigger] packet.payload[i] == 0x45 && packet.payload[i + 1]
                == 0x45 && packet.payload[i + 2] == 0x3a),
        packet.payload[marker + 9] == 0x3b,
        digits.len() == 6,
        forall|i: int|
            0 <= i < 6 ==> is_digit_of(packet.payload[marker + 3 + i], #[trigger] digits[i]),
    ensures
        ({
            let shown = captured(trace, arrival).entries;
            let address: nat = (4096 * digits[0] + 256 * digits[1] + 16 * digits[2]
                + digits[3]) as nat;
            let value: nat = (16 * digits[4] + digits[5]) as nat;
            &&& shown.len() > 0
            &&& shown.last().direction == DebugTrafficDirection::Rx
            &&& shown.last().id == trace.next_entry_id
            &&& shown.last().hex_bytes == hex_bytes_text(packet_bytes(packet))
            &&& shown.last().summary == joined(
                header_fields(DebugTrafficDirection::Rx, packet.header) + seq![
                    "response=ascii"@,
                    "ascii="@ + response_text(packet.payload),
                    "eeprom_address=0x"@ + hex_text(address, 4, true),
                    "eeprom_value=0x"@ + hex_text(value, 2, true),
                ],
                " "@,
            )
        }),
{
    let direction = DebugTrafficDirection::Rx;
    let bytes = packet_bytes(packet);
    let after = DecoderView { bytes: seq![], d4_active: true };
    let decoder = DecoderView { bytes, d4_active: true };
    let transfer = ReassembledView { direction, bytes, kind: ReassembledTransferKind::D4Packet };
    assert(Seq::<u8>::empty() + bytes =~= bytes);
    assert(header_of(bytes) == Ok::<PacketHeader, PacketError>(packet.header));
    assert(bytes.take(bytes.len() as int) =~= bytes);
    assert(bytes.skip(bytes.len() as int) =~= seq![]);
    assert(next_transfer(direction, decoder) == Some((transfer, after)));
    assert(all_transfers(direction, after) == (Seq::<ReassembledView>::empty(), after));
    assert(all_transfers(direction, decoder).0 =~= seq![transfer]);
    lemma_one_recorded(trace, transfer);
    assert(bytes.skip(6) =~= packet.payload);
    shown_records_say_what_their_digits_say(packet.payload, marker, digits);
}

/// How a trace grows: the newest entry is the last, with the number behind that of the
/// entry before it, and those before it stay as they are until there are too many.
pub proof fn entries_are_appended(trace: TraceView, transfer: ReassembledView, index: int)
    requires
        trace.entries.len() <= 1000,
    ensures
        ({
            let after = recorded(trace, transfer);
            let dropped: int = if trace.entries.len() == 1000 {
                1
            } else {
                0
            };
            &&& after.entries.len() == trace.entries.len() + 1 - dropped
            &&& after.entries.last().id == trace.next_entry_id
            &&& after.entries.last().direction == transfer.direction
            &&& after.entries.last().hex_bytes == hex_bytes_text(transfer.bytes)
            &&& trace.next_entry_id < 0xffff_ffff_ffff_ffff ==> after.next_entry_id
                == trace.next_entry_id + 1
            &&& trace.next_entry_id == 0xffff_ffff_ffff_ffff ==> after.next_entry_id == 0
            &&& dropped <= index < trace.entries.len() ==> after.entries[index - dropped]
                == trace.entries[index]
            &&& after.capture_enabled == trace.capture_enabled
            &&& after.tx_decoder == trace.tx_decoder
            &&& after.rx_decoder == trace.rx_decoder
        }),
{
}

/// What goes out is decoded apart from what comes in.
pub proof fn directions_are_decoded_apart(
    trace: TraceView,
    event: TransportEvent,
)
    ensures
        event@ is Tx ==> captured(trace, event).rx_decoder == trace.rx_decoder,
        event@ is Rx ==> captured(trace, event).tx_decoder == trace.tx_decoder,
        event@ matches EventView::Tx(bytes) ==> captured(trace, event).tx_decoder == pushed(
            DebugTrafficDirection::Tx,
            trace.tx_decoder,
            bytes,
        ).1,
        event@ matches EventView::Rx(bytes) ==> captured(trace, event).rx_decoder == pushed(
            DebugTrafficDirection::Rx,
            trace.rx_decoder,
            bytes,
        ).1,
{
    match event {
        TransportEvent::Tx(bytes) => {
            let output = pushed(DebugTrafficDirection::Tx, trace.tx_decoder, bytes@);
            lemma_decoders_kept(TraceView { tx_decoder: output.1, ..trace }, output.0);
        },
        TransportEvent::Rx(bytes) => {
            let output = pushed(DebugTrafficDirection::Rx, trace.rx_decoder, bytes@);
            lemma_decoders_kept(TraceView { rx_decoder: output.1, ..trace }, output.0);
        },
    }
}

proof fn lemma_decoders_kept(trace: TraceView, transfers: Seq<ReassembledView>)
    ensures
        all_recorded(trace, transfers).tx_decoder == trace.tx_decoder,
        all_recorded(trace, transfers).rx_decoder == trace.rx_decoder,
    decreases transfers.len(),
{
    if transfers.len() > 0 {
        lemma_decoders_kept(trace, transfers.drop_last());
    }
}

/// What an entry puts on the clipboard: its summary, and on a line of its own its bytes.
pub proof fn entries_are_copied(entry: DebugTrafficEntry)
    ensures
        entry.hex_bytes@.len() > 0 ==> entry_text(entry@) == entry.summary@ + "\nbytes="@
            + entry.hex_bytes@,
        entry.hex_bytes@.len() == 0 ==> entry_text(entry@) == entry.summary@ + "\nbytes="@
            + "<empty>"@,
        entry@.id == entry.id,
        entry@.direction == entry.direction,
{
}

/// What is known of a trace is what it holds, entry by entry.
pub proof fn traces_stand_in_order(trace: DebugTrafficTrace, index: int)
    requires
        0 <= index < trace.entries@.len(),
    ensures
        trace@.entries.len() == trace.entries@.len(),
        trace@.entries[index].id == trace.entries@[index].id,
        trace@.entries[index].direction == trace.entries@[index].direction,
        trace@.entries[index].summary == trace.entries@[index].summary@,
        trace@.entries[index].hex_bytes == trace.entries@[index].hex_bytes@,
        trace@.capture_enabled == trace.capture_enabled,
        trace@.next_entry_id == trace.next_entry_id,
{
}

} // verus!
