//! Reassembly of recorded transfers into Epson entry exchanges and IEEE 1284.4
//! packets.
use crate::packet::{header_of, PacketHeader, HEADER_LENGTH};
use crate::scan::{begins_with, starts_with_bytes};
use crate::session::{
    entry_command, entry_reply, epson_d4_entry_command, epson_d4_entry_reply,
};
use vstd::prelude::*;

verus! {

/// Direction of one recorded transport transfer.
#[derive(Clone, Copy, Debug, PartialEq, Eq, Structural)]
pub enum DebugTrafficDirection {
    Tx,
    Rx,
}

/// The short name of a direction.
pub open spec fn direction_label(direction: DebugTrafficDirection) -> Seq<char> {
    match direction {
        DebugTrafficDirection::Tx => "TX"@,
        DebugTrafficDirection::Rx => "RX"@,
    }
}

impl DebugTrafficDirection {
    pub fn label(self) -> (label: &'static str)
        ensures
            label@ == direction_label(self),
    {
        match self {
            DebugTrafficDirection::Tx => "TX",
            DebugTrafficDirection::Rx => "RX",
        }
    }
}

/// What a reassembled transfer is.
#[derive(Clone, Copy, Debug, PartialEq, Eq, Structural)]
pub enum ReassembledTransferKind {
    EmptyRead,
    Raw,
    EntryCommand,
    EntryReply,
    D4Packet,
}

/// Some bytes that belong together.
#[derive(Debug)]
pub struct ReassembledTransfer {
    pub direction: DebugTrafficDirection,
    pub bytes: Vec<u8>,
    pub kind: ReassembledTransferKind,
}

/// The contents of a reassembled transfer.
pub struct ReassembledView {
    pub direction: DebugTrafficDirection,
    pub bytes: Seq<u8>,
    pub kind: ReassembledTransferKind,
}

impl View for ReassembledTransfer {
    type V = ReassembledView;

    open spec fn view(&self) -> ReassembledView {
        ReassembledView { direction: self.direction, bytes: self.bytes@, kind: self.kind }
    }
}

/// The contents of several transfers.
pub open spec fn transfer_views(transfers: Seq<ReassembledTransfer>) -> Seq<ReassembledView> {
    Seq::new(transfers.len(), |i: int| transfers[i]@)
}

/// The bytes of several transfers, one after the other.
pub open spec fn transferred(transfers: Seq<ReassembledView>) -> Seq<u8>
    decreases transfers.len(),
{
    if transfers.len() == 0 {
        seq![]
    } else {
        transferred(transfers.drop_last()) + transfers.last().bytes
    }
}

/// The state of a decoder: bytes whose boundary has not come yet, and whether
/// the Epson entry exchange has been seen.
pub struct DecoderView {
    pub bytes: Seq<u8>,
    pub d4_active: bool,
}

/// Reassembles one unidirectional USB byte stream without assigning meaning to
/// incomplete frames until their protocol boundary is available.
#[derive(Debug)]
pub struct DebugTrafficDecoder {
    pub bytes: Vec<u8>,
    pub d4_active: bool,
}

impl View for DebugTrafficDecoder {
    type V = DecoderView;

    open spec fn view(&self) -> DecoderView {
        DecoderView { bytes: self.bytes@, d4_active: self.d4_active }
    }
}

/// The decoder at the beginning of a stream.
pub open spec fn fresh_decoder() -> DecoderView {
    DecoderView { bytes: seq![], d4_active: false }
}

impl Default for DebugTrafficDecoder {
    fn default() -> (decoder: Self)
        ensures
            decoder@ == fresh_decoder(),
    {
        DebugTrafficDecoder { bytes: Vec::new(), d4_active: false }
    }
}

/// The bytes of the Epson entry exchange in a direction.
pub open spec fn entry_bytes(direction: DebugTrafficDirection) -> Seq<u8> {
    match direction {
        DebugTrafficDirection::Tx => entry_command(),
        DebugTrafficDirection::Rx => entry_reply(),
    }
}

/// What the Epson entry exchange in a direction is.
pub open spec fn entry_kind(direction: DebugTrafficDirection) -> ReassembledTransferKind {
    match direction {
        DebugTrafficDirection::Tx => ReassembledTransferKind::EntryCommand,
        DebugTrafficDirection::Rx => ReassembledTransferKind::EntryReply,
    }
}

/// A packet header stands at an offset of some bytes.
pub open spec fn packet_start(bytes: Seq<u8>, start: int) -> bool {
    1 <= start && start + HEADER_LENGTH <= bytes.len() && header_of(bytes.skip(start)) is Ok
}

/// How many bytes cannot belong to a packet: those before the next header,
/// or all of them.
pub open spec fn unframed_length(bytes: Seq<u8>, length: int) -> bool {
    ||| packet_start(bytes, length) && forall|earlier: int|
        earlier < length ==> !#[trigger] packet_start(bytes, earlier)
    ||| length == bytes.len() && forall|start: int| !#[trigger] packet_start(bytes, start)
}

/// What comes next out of a decoder, and the decoder after it.
pub open spec fn next_transfer(direction: DebugTrafficDirection, decoder: DecoderView) -> Option<
    (ReassembledView, DecoderView),
> {
    let bytes = decoder.bytes;
    if !decoder.d4_active {
        let entry = entry_bytes(direction);
        if begins_with(bytes, entry) {
            Some(taken(direction, entry_kind(direction), bytes, entry.len() as int, true))
        } else if begins_with(entry, bytes) {
            None
        } else {
            Some(
                taken(
                    direction,
                    ReassembledTransferKind::Raw,
                    bytes,
                    bytes.len() as int,
                    false,
                ),
            )
        }
    } else if bytes.len() < HEADER_LENGTH {
        None
    } else {
        match header_of(bytes) {
            Err(_) => Some(
                taken(
                    direction,
                    ReassembledTransferKind::Raw,
                    bytes,
                    choose|length: int| unframed_length(bytes, length),
                    true,
                ),
            ),
            Ok(header) => if bytes.len() < header.length {
                None
            } else {
                Some(
                    taken(
                        direction,
                        ReassembledTransferKind::D4Packet,
                        bytes,
                        header.length as int,
                        true,
                    ),
                )
            },
        }
    }
}

/// The first bytes of a decoder are taken out of it.
pub open spec fn taken(
    direction: DebugTrafficDirection,
    kind: ReassembledTransferKind,
    bytes: Seq<u8>,
    length: int,
    d4_active: bool,
) -> (ReassembledView, DecoderView) {
    (
        ReassembledView { direction, bytes: bytes.take(length), kind },
        DecoderView { bytes: bytes.skip(length), d4_active },
    )
}

/// Everything that comes out of a decoder, and the decoder after it.
pub open spec fn all_transfers(direction: DebugTrafficDirection, decoder: DecoderView) -> (
    Seq<ReassembledView>,
    DecoderView,
)
    decreases decoder.bytes.len(),
{
    match next_transfer(direction, decoder) {
        None => (seq![], decoder),
        Some((first, next)) => if next.bytes.len() < decoder.bytes.len() {
            let rest = all_transfers(direction, next);
            (seq![first] + rest.0, rest.1)
        } else {
            (seq![], decoder)
        },
    }
}

/// What an empty transfer is.
pub open spec fn empty_kind(direction: DebugTrafficDirection) -> ReassembledTransferKind {
    match direction {
        DebugTrafficDirection::Tx => ReassembledTransferKind::Raw,
        DebugTrafficDirection::Rx => ReassembledTransferKind::EmptyRead,
    }
}

/// The pending bytes of a decoder cannot become the Epson entry exchange with
/// these bytes behind them.
pub open spec fn entry_abandoned(
    direction: DebugTrafficDirection,
    decoder: DecoderView,
    bytes: Seq<u8>,
) -> bool {
    let candidate = decoder.bytes + bytes;
    &&& !decoder.d4_active
    &&& decoder.bytes.len() > 0
    &&& !begins_with(candidate, entry_bytes(direction))
    &&& !begins_with(entry_bytes(direction), candidate)
}

/// What comes out of a decoder when bytes are put in, and the decoder after it.
pub open spec fn pushed(
    direction: DebugTrafficDirection,
    decoder: DecoderView,
    bytes: Seq<u8>,
) -> (Seq<ReassembledView>, DecoderView) {
    if bytes.len() == 0 {
        (seq![ReassembledView { direction, bytes: seq![], kind: empty_kind(direction) }], decoder)
    } else if entry_abandoned(direction, decoder, bytes) {
        let rest = all_transfers(direction, DecoderView { bytes, d4_active: false });
        (
            seq![
                ReassembledView {
                    direction,
                    bytes: decoder.bytes,
                    kind: ReassembledTransferKind::Raw,
                },
            ] + rest.0,
            rest.1,
        )
    } else {
        all_transfers(
            direction,
            DecoderView { bytes: decoder.bytes + bytes, d4_active: decoder.d4_active },
        )
    }
}

/// There is one length of bytes that cannot belong to a packet.
proof fn lemma_unframed_length(bytes: Seq<u8>, length: int)
    requires
        bytes.len() >= HEADER_LENGTH,
        unframed_length(bytes, length),
    ensures
        1 <= length <= bytes.len(),
        (choose|length: int| unframed_length(bytes, length)) == length,
{
    let chosen = choose|length: int| unframed_length(bytes, length);
    assert(unframed_length(bytes, chosen));
    if chosen < length {
        assert(packet_start(bytes, chosen));
    } else if length < chosen {
        assert(packet_start(bytes, length));
    }
}

/// There is a length of bytes that cannot belong to a packet.
proof fn lemma_unframed_exists(bytes: Seq<u8>, start: int)
    requires
        bytes.len() >= HEADER_LENGTH,
        1 <= start <= bytes.len(),
        forall|earlier: int| earlier < start ==> !#[trigger] packet_start(bytes, earlier),
    ensures
        exists|length: int| unframed_length(bytes, length),
    decreases bytes.len() - start,
{
    if packet_start(bytes, start) {
        assert(unframed_length(bytes, start));
    } else if start == bytes.len() {
        assert forall|other: int| !#[trigger] packet_start(bytes, other) by {
            if other < start {
            }
        }
        assert(unframed_length(bytes, start));
    } else {
        lemma_unframed_exists(bytes, start + 1);
    }
}

/// Each transfer is made of the bytes at the front of the decoder, and has some.
proof fn lemma_next_transfer(direction: DebugTrafficDirection, decoder: DecoderView)
    ensures
        match next_transfer(direction, decoder) {
            None => true,
            Some((first, next)) => {
                &&& first.bytes + next.bytes == decoder.bytes
                &&& first.bytes.len() > 0
                &&& next.bytes.len() < decoder.bytes.len()
                &&& first.direction == direction
                &&& decoder.d4_active ==> next.d4_active
            },
        },
{
    let bytes = decoder.bytes;
    if decoder.d4_active && bytes.len() >= HEADER_LENGTH && header_of(bytes) is Err {
        lemma_unframed_exists(bytes, 1);
        let length = choose|length: int| unframed_length(bytes, length);
        lemma_unframed_length(bytes, length);
    }
    match next_transfer(direction, decoder) {
        None => {},
        Some((first, next)) => {
            lemma_entry_bytes(direction);
            if !decoder.d4_active && !begins_with(bytes, entry_bytes(direction)) {
                if bytes.len() == 0 {
                    assert(entry_bytes(direction).subrange(0, 0) =~= bytes);
                }
            }
            assert(first.bytes + next.bytes =~= decoder.bytes);
        },
    }
}

proof fn lemma_entry_bytes(direction: DebugTrafficDirection)
    ensures
        entry_bytes(direction).len() > 0,
{
}

fn find_packet_start(bytes: &[u8]) -> (length: usize)
    requires
        bytes@.len() >= HEADER_LENGTH,
    ensures
        unframed_length(bytes@, length as int),
        1 <= length <= bytes@.len(),
{
    let mut start: usize = 1;
    while start <= bytes.len() - HEADER_LENGTH
        invariant
            1 <= start <= bytes@.len() - HEADER_LENGTH + 1,
            bytes@.len() >= HEADER_LENGTH,
            forall|earlier: int| earlier < start ==> !#[trigger] packet_start(bytes@, earlier),
        decreases bytes.len() - start,
    {
        let rest = vstd::slice::slice_subrange(bytes, start, bytes.len());
        proof {
            assert(rest@ =~= bytes@.skip(start as int));
        }
        if PacketHeader::decode(rest).is_ok() {
            return start;
        }
        start = start + 1;
    }
    bytes.len()
}

fn is_prefix_of(bytes: &[u8], whole: &[u8]) -> (prefix: bool)
    ensures
        prefix == begins_with(whole@, bytes@),
{
    starts_with_bytes(whole, bytes)
}

impl DebugTrafficDecoder {
    /// Takes the first bytes out of the decoder.
    fn take_front(&mut self, length: usize) -> (bytes: Vec<u8>)
        requires
            length <= old(self).bytes@.len(),
        ensures
            bytes@ == old(self).bytes@.take(length as int),
            final(self).bytes@ == old(self).bytes@.skip(length as int),
            final(self).d4_active == old(self).d4_active,
    {
        let rest: Vec<u8> = vstd::slice::slice_to_vec(
            vstd::slice::slice_subrange(self.bytes.as_slice(), length, self.bytes.len()),
        );
        let front: Vec<u8> = vstd::slice::slice_to_vec(
            vstd::slice::slice_subrange(self.bytes.as_slice(), 0, length),
        );
        proof {
            assert(rest@ =~= self.bytes@.skip(length as int));
            assert(front@ =~= self.bytes@.take(length as int));
        }
        self.bytes = rest;
        front
    }

    /// Takes out the next transfer, if its boundary has come.
    fn next(&mut self, direction: DebugTrafficDirection) -> (transfer: Option<ReassembledTransfer>)
        ensures
            match (transfer, next_transfer(direction, old(self)@)) {
                (Some(transfer), Some(expected)) => transfer@ == expected.0 && final(self)@
                    == expected.1 && final(self).bytes@.len() < old(self).bytes@.len(),
                (None, None) => final(self)@ == old(self)@,
                _ => false,
            },
    {
        proof {
            lemma_next_transfer(direction, self@);
        }
        if !self.d4_active {
            let entry = match direction {
                DebugTrafficDirection::Tx => epson_d4_entry_command(),
                DebugTrafficDirection::Rx => epson_d4_entry_reply(),
            };
            if starts_with_bytes(self.bytes.as_slice(), entry.as_slice()) {
                let bytes = self.take_front(entry.len());
                self.d4_active = true;
                let kind = match direction {
                    DebugTrafficDirection::Tx => ReassembledTransferKind::EntryCommand,
                    DebugTrafficDirection::Rx => ReassembledTransferKind::EntryReply,
                };
                return Some(ReassembledTransfer { direction, bytes, kind });
            }
            if is_prefix_of(self.bytes.as_slice(), entry.as_slice()) {
                return None;
            }
            let bytes = self.take_front(self.bytes.len());
            return Some(
                ReassembledTransfer { direction, bytes, kind: ReassembledTransferKind::Raw },
            );
        }
        if self.bytes.len() < HEADER_LENGTH {
            return None;
        }
        match PacketHeader::decode(self.bytes.as_slice()) {
            Err(_) => {
                let split_at: usize = find_packet_start(self.bytes.as_slice());
                proof {
                    lemma_unframed_length(self.bytes@, split_at as int);
                }
                let bytes = self.take_front(split_at);
                Some(ReassembledTransfer { direction, bytes, kind: ReassembledTransferKind::Raw })
            },
            Ok(header) => {
                if self.bytes.len() < header.length as usize {
                    return None;
                }
                let bytes = self.take_front(header.length as usize);
                Some(
                    ReassembledTransfer {
                        direction,
                        bytes,
                        kind: ReassembledTransferKind::D4Packet,
                    },
                )
            },
        }
    }

    /// Takes out all transfers whose boundaries have come.
    fn drain(&mut self, direction: DebugTrafficDirection) -> (transfers: Vec<ReassembledTransfer>)
        ensures
            transfer_views(transfers@) == all_transfers(direction, old(self)@).0,
            final(self)@ == all_transfers(direction, old(self)@).1,
    {
        let mut transfers: Vec<ReassembledTransfer> = Vec::new();
        let ghost start = self@;
        proof {
            assert(transfer_views(transfers@) + all_transfers(direction, start).0 =~= all_transfers(
                direction,
                start,
            ).0);
        }
        loop
            invariant
                start == old(self)@,
                transfer_views(transfers@) + all_transfers(direction, self@).0 == all_transfers(
                    direction,
                    start,
                ).0,
                all_transfers(direction, self@).1 == all_transfers(direction, start).1,
            ensures
                next_transfer(direction, self@) is None,
            decreases self.bytes@.len(),
        {
            let ghost before = transfer_views(transfers@);
            match self.next(direction) {
                None => {
                    break;
                },
                Some(transfer) => {
                    transfers.push(transfer);
                    proof {
                        assert(transfer_views(transfers@) =~= before.push(transfer@));
                        assert(before + (seq![transfer@] + all_transfers(direction, self@).0) =~= (
                        before.push(transfer@)) + all_transfers(direction, self@).0);
                    }
                },
            }
        }
        proof {
            assert(transfer_views(transfers@) + all_transfers(direction, self@).0
                =~= transfer_views(transfers@));
        }
        transfers
    }

    /// Puts bytes into the decoder, and takes out what they complete.
    pub fn push(&mut self, direction: DebugTrafficDirection, bytes: &[u8]) -> (transfers: Vec<
        ReassembledTransfer,
    >)
        ensures
            transfer_views(transfers@) == pushed(direction, old(self)@, bytes@).0,
            final(self)@ == pushed(direction, old(self)@, bytes@).1,
    {
        if bytes.len() == 0 {
            let kind = match direction {
                DebugTrafficDirection::Rx => ReassembledTransferKind::EmptyRead,
                DebugTrafficDirection::Tx => ReassembledTransferKind::Raw,
            };
            let transfers = vec![ReassembledTransfer { direction, bytes: Vec::new(), kind }];
            proof {
                assert(transfers@[0]@.bytes =~= seq![]);
                assert(transfer_views(transfers@) =~= pushed(direction, self@, bytes@).0);
            }
            return transfers;
        }
        if !self.d4_active && self.bytes.len() > 0 {
            let entry = match direction {
                DebugTrafficDirection::Tx => epson_d4_entry_command(),
                DebugTrafficDirection::Rx => epson_d4_entry_reply(),
            };
            let mut candidate = vstd::slice::slice_to_vec(self.bytes.as_slice());
            candidate.extend_from_slice(bytes);
            proof {
                assert(candidate@ =~= self.bytes@ + bytes@);
            }
            if !starts_with_bytes(candidate.as_slice(), entry.as_slice()) && !is_prefix_of(
                candidate.as_slice(),
                entry.as_slice(),
            ) {
                let pending = self.take_front(self.bytes.len());
                let mut transfers = vec![
                    ReassembledTransfer {
                        direction,
                        bytes: pending,
                        kind: ReassembledTransferKind::Raw,
                    },
                ];
                let ghost first = transfers@;
                proof {
                    assert(pending@ =~= old(self).bytes@);
                }
                self.bytes.extend_from_slice(bytes);
                proof {
                    assert(self.bytes@ =~= bytes@);
                }
                let mut rest = self.drain(direction);
                let ghost others = rest@;
                transfers.append(&mut rest);
                proof {
                    assert(transfer_views(transfers@) =~= transfer_views(first) + transfer_views(
                        others,
                    ));
                    assert(transfer_views(first) =~= seq![
                        ReassembledView {
                            direction,
                            bytes: old(self).bytes@,
                            kind: ReassembledTransferKind::Raw,
                        },
                    ]);
                }
                return transfers;
            }
        }
        self.bytes.extend_from_slice(bytes);
        proof {
            assert(self.bytes@ =~= old(self).bytes@ + bytes@);
        }
        self.drain(direction)
    }
}

proof fn lemma_transferred_split(first: ReassembledView, rest: Seq<ReassembledView>)
    ensures
        transferred(seq![first] + rest) == first.bytes + transferred(rest),
    decreases rest.len(),
{
    let all = seq![first] + rest;
    if rest.len() == 0 {
        assert(all.drop_last() =~= rest);
        assert(transferred(rest) =~= seq![]);
        assert(transferred(all) =~= first.bytes + transferred(rest));
    } else {
        assert(all.drop_last() =~= seq![first] + rest.drop_last());
        assert(all.last() == rest.last());
        lemma_transferred_split(first, rest.drop_last());
        assert(transferred(all) =~= first.bytes + transferred(rest));
    }
}

proof fn lemma_all_transfers_keep_bytes(direction: DebugTrafficDirection, decoder: DecoderView)
    ensures
        transferred(all_transfers(direction, decoder).0) + all_transfers(
            direction,
            decoder,
        ).1.bytes == decoder.bytes,
    decreases decoder.bytes.len(),
{
    lemma_next_transfer(direction, decoder);
    match next_transfer(direction, decoder) {
        None => {
            assert(transferred(seq![]) + decoder.bytes =~= decoder.bytes);
        },
        Some((first, next)) => {
            lemma_all_transfers_keep_bytes(direction, next);
            let rest = all_transfers(direction, next);
            lemma_transferred_split(first, rest.0);
            assert(first.bytes + transferred(rest.0) + rest.1.bytes =~= first.bytes + (transferred(
                rest.0,
            ) + rest.1.bytes));
        },
    }
}

/// Reassembly neither loses nor invents a byte: what has come out of a decoder
/// and what it still holds is what it held and what was put in.
pub proof fn reassembly_keeps_every_byte(
    direction: DebugTrafficDirection,
    decoder: DecoderView,
    bytes: Seq<u8>,
)
    ensures
        transferred(pushed(direction, decoder, bytes).0) + pushed(
            direction,
            decoder,
            bytes,
        ).1.bytes == decoder.bytes + bytes,
{
    if bytes.len() == 0 {
        let only = ReassembledView { direction, bytes: seq![], kind: empty_kind(direction) };
        lemma_transferred_split(only, seq![]);
        assert(seq![only] + Seq::<ReassembledView>::empty() =~= seq![only]);
        assert(transferred(pushed(direction, decoder, bytes).0) + decoder.bytes =~= decoder.bytes
            + bytes);
    } else if entry_abandoned(direction, decoder, bytes) {
        let rest = all_transfers(direction, DecoderView { bytes, d4_active: false });
        lemma_all_transfers_keep_bytes(direction, DecoderView { bytes, d4_active: false });
        let first = ReassembledView {
            direction,
            bytes: decoder.bytes,
            kind: ReassembledTransferKind::Raw,
        };
        lemma_transferred_split(first, rest.0);
        assert(decoder.bytes + transferred(rest.0) + rest.1.bytes =~= decoder.bytes + (transferred(
            rest.0,
        ) + rest.1.bytes));
    } else {
        lemma_all_transfers_keep_bytes(
            direction,
            DecoderView { bytes: decoder.bytes + bytes, d4_active: decoder.d4_active },
        );
    }
}

/// Only whole packets, with a valid header and the length that it gives.
pub open spec fn whole_packets(transfers: Seq<ReassembledView>) -> bool {
    forall|i: int|
        0 <= i < transfers.len() ==> (#[trigger] transfers[i]).kind
            == ReassembledTransferKind::D4Packet
}

/// Every packet that comes out of a decoder has a valid header and is as long
/// as the header says.
pub proof fn reassembled_packets_are_whole(
    direction: DebugTrafficDirection,
    decoder: DecoderView,
    index: int,
)
    requires
        0 <= index < all_transfers(direction, decoder).0.len(),
        all_transfers(direction, decoder).0[index].kind == ReassembledTransferKind::D4Packet,
    ensures
        header_of(all_transfers(direction, decoder).0[index].bytes) is Ok,
        all_transfers(direction, decoder).0[index].bytes.len() == header_of(
            all_transfers(direction, decoder).0[index].bytes,
        )->Ok_0.length,
    decreases decoder.bytes.len(),
{
    lemma_next_transfer(direction, decoder);
    let (first, next) = next_transfer(direction, decoder)->0;
    if index > 0 {
        reassembled_packets_are_whole(direction, next, index - 1);
    }
}

proof fn lemma_packets_join(direction: DebugTrafficDirection, front: Seq<u8>, back: Seq<u8>)
    requires
        whole_packets(
            all_transfers(direction, DecoderView { bytes: front + back, d4_active: true }).0,
        ),
    ensures
        ({
            let whole = all_transfers(
                direction,
                DecoderView { bytes: front + back, d4_active: true },
            );
            let first = all_transfers(direction, DecoderView { bytes: front, d4_active: true });
            let second = all_transfers(
                direction,
                DecoderView { bytes: first.1.bytes + back, d4_active: true },
            );
            &&& first.1.d4_active
            &&& whole.0 == first.0 + second.0
            &&& whole.1 == second.1
        }),
    decreases front.len(),
{
    let decoder = DecoderView { bytes: front, d4_active: true };
    let together = DecoderView { bytes: front + back, d4_active: true };
    lemma_next_transfer(direction, decoder);
    lemma_next_transfer(direction, together);
    match next_transfer(direction, decoder) {
        None => {
            assert(seq![] + all_transfers(direction, together).0 =~= all_transfers(
                direction,
                together,
            ).0);
        },
        Some((packet, next)) => {
            let joined_next = next_transfer(direction, together)->0;
            assert(header_of(front + back) == header_of(front));
            assert(all_transfers(direction, together).0[0] == joined_next.0);
            assert(joined_next.0.kind == ReassembledTransferKind::D4Packet);
            assert(joined_next.0.bytes =~= packet.bytes);
            assert(joined_next.1.bytes =~= next.bytes + back);
            let whole = all_transfers(direction, joined_next.1);
            assert forall|i: int| 0 <= i < whole.0.len() implies (#[trigger] whole.0[i]).kind
                == ReassembledTransferKind::D4Packet by {
                assert(all_transfers(direction, together).0[i + 1] == whole.0[i]);
            }
            lemma_packets_join(direction, next.bytes, back);
            let rest = all_transfers(direction, next);
            let second = all_transfers(
                direction,
                DecoderView { bytes: rest.1.bytes + back, d4_active: true },
            );
            assert(seq![packet] + (rest.0 + second.0) =~= (seq![packet] + rest.0) + second.0);
        },
    }
}

/// How a stream of whole packets is cut into transfers makes no difference: the
/// same packets come out, and the same bytes are left.
pub proof fn reassembly_ignores_fragmentation(
    direction: DebugTrafficDirection,
    decoder: DecoderView,
    front: Seq<u8>,
    back: Seq<u8>,
)
    requires
        decoder.d4_active,
        front.len() > 0,
        back.len() > 0,
        whole_packets(pushed(direction, decoder, front + back).0),
    ensures
        ({
            let first = pushed(direction, decoder, front);
            let second = pushed(direction, first.1, back);
            &&& pushed(direction, decoder, front + back).0 == first.0 + second.0
            &&& pushed(direction, decoder, front + back).1 == second.1
        }),
{
    assert(decoder.bytes + (front + back) =~= (decoder.bytes + front) + back);
    lemma_packets_join(direction, decoder.bytes + front, back);
}

/// An empty transfer leaves the decoder as it is.
pub proof fn empty_transfers_leave_reassembly_alone(
    direction: DebugTrafficDirection,
    decoder: DecoderView,
)
    ensures
        pushed(direction, decoder, seq![]).1 == decoder,
        pushed(direction, decoder, seq![]).0.len() == 1,
        pushed(direction, decoder, seq![]).0[0].bytes.len() == 0,
{
}

/// What comes out of a stream of packets: where a header stands at the front, a
/// packet as long as it says, once all of it is there; where none stands there, what
/// comes before the next header, or all of it.
pub proof fn packets_come_out_at_their_lengths(
    direction: DebugTrafficDirection,
    bytes: Seq<u8>,
    next: int,
)
    requires
        bytes.len() >= 6,
    ensures
        ({
            let decoder = DecoderView { bytes, d4_active: true };
            let length: int = 256 * bytes[2] + bytes[3];
            let framed: bool = length >= 6 && bytes[5] <= 3;
            &&& framed && bytes.len() < length ==> next_transfer(direction, decoder) is None
            &&& framed && bytes.len() >= length ==> {
                &&& next_transfer(direction, decoder) matches Some((transfer, after))
                &&& transfer.kind == ReassembledTransferKind::D4Packet
                &&& transfer.direction == direction
                &&& transfer.bytes == bytes.take(length)
                &&& after.bytes == bytes.skip(length)
                &&& after.d4_active
            }
            &&& !framed && 1 <= next && framed_at(bytes, next) && (forall|earlier: int|
                1 <= earlier < next ==> !#[trigger] framed_at(bytes, earlier)) ==> {
                &&& next_transfer(direction, decoder) matches Some((transfer, after))
                &&& transfer.kind == ReassembledTransferKind::Raw
                &&& transfer.bytes == bytes.take(next)
                &&& after.bytes == bytes.skip(next)
                &&& after.d4_active
            }
            &&& !framed && (forall|place: int| 1 <= place ==> !#[trigger] framed_at(bytes, place))
                ==> {
                &&& next_transfer(direction, decoder) matches Some((transfer, after))
                &&& transfer.kind == ReassembledTransferKind::Raw
                &&& transfer.bytes == bytes
                &&& after.bytes.len() == 0
                &&& after.d4_active
            }
        }),
{
    let length: int = 256 * bytes[2] + bytes[3];
    assert forall|place: int| 1 <= place implies #[trigger] framed_at(bytes, place)
        == packet_start(bytes, place) by {
        if place + 6 <= bytes.len() {
            let rest = bytes.skip(place);
            assert(rest[2] == bytes[place + 2] && rest[3] == bytes[place + 3] && rest[5]
                == bytes[place + 5]);
        }
    }
    if !(length >= 6 && bytes[5] <= 3) {
        let chosen = choose|length: int| unframed_length(bytes, length);
        if 1 <= next && framed_at(bytes, next) && (forall|earlier: int|
            1 <= earlier < next ==> !#[trigger] framed_at(bytes, earlier)) {
            assert forall|earlier: int| earlier < next implies !#[trigger] packet_start(
                bytes,
                earlier,
            ) by {
                if 1 <= earlier {
                    assert(!framed_at(bytes, earlier));
                }
            }
            assert(unframed_length(bytes, next));
            lemma_unframed_length(bytes, next);
            assert(unframed_length(bytes, chosen));
            lemma_unframed_length(bytes, chosen);
        } else if forall|place: int| 1 <= place ==> !#[trigger] framed_at(bytes, place) {
            assert forall|start: int| !#[trigger] packet_start(bytes, start) by {
                if 1 <= start {
                    assert(!framed_at(bytes, start));
                }
            }
            assert(unframed_length(bytes, bytes.len() as int));
            assert(unframed_length(bytes, chosen));
            lemma_unframed_length(bytes, bytes.len() as int);
            lemma_unframed_length(bytes, chosen);
            assert(bytes.take(bytes.len() as int) =~= bytes);
        }
    }
}

/// A header stands at a place: six bytes with a length that is not too short and
/// without reserved bits.
pub open spec fn framed_at(bytes: Seq<u8>, place: int) -> bool {
    &&& place + 6 <= bytes.len()
    &&& 256 * bytes[place + 2] + bytes[place + 3] >= 6
    &&& bytes[place + 5] <= 3
}

/// Before a conversation the entry exchange is recognized, and packets follow it. The
/// beginning of it is kept until the rest comes; anything else is raw, and no packets
/// follow.
pub proof fn entry_exchanges_are_recognized(direction: DebugTrafficDirection, behind: Seq<u8>)
    ensures
        ({
            let entry = if direction == DebugTrafficDirection::Tx {
                entry_command()
            } else {
                entry_reply()
            };
            let whole = DecoderView { bytes: entry + behind, d4_active: false };
            &&& next_transfer(direction, whole) matches Some((transfer, after))
            &&& transfer.bytes == entry
            &&& transfer.direction == direction
            &&& transfer.kind == (if direction == DebugTrafficDirection::Tx {
                ReassembledTransferKind::EntryCommand
            } else {
                ReassembledTransferKind::EntryReply
            })
            &&& after.bytes == behind
            &&& after.d4_active
            &&& forall|length: int|
                0 <= length < entry.len() ==> next_transfer(
                    direction,
                    DecoderView { bytes: #[trigger] entry.take(length), d4_active: false },
                ) is None
        }),
{
    let entry = if direction == DebugTrafficDirection::Tx {
        entry_command()
    } else {
        entry_reply()
    };
    let bytes = entry + behind;
    assert(bytes.subrange(0, entry.len() as int) =~= entry);
    assert(bytes.take(entry.len() as int) =~= entry);
    assert(bytes.skip(entry.len() as int) =~= behind);
    assert forall|length: int| 0 <= length < entry.len() implies next_transfer(
        direction,
        DecoderView { bytes: #[trigger] entry.take(length), d4_active: false },
    ) is None by {
        assert(entry.subrange(0, length) =~= entry.take(length));
    }
}

/// Bytes that looked like the beginning of the entry exchange are given out raw once it
/// is clear that they are not; what came with the last of them is looked at anew.
pub proof fn abandoned_beginnings_are_raw(
    direction: DebugTrafficDirection,
    pending: Seq<u8>,
    bytes: Seq<u8>,
    place: int,
)
    requires
        pending.len() > 0,
        0 <= place < bytes.len(),
        pending.len() + place < entry_bytes(direction).len(),
        bytes[place] != entry_bytes(direction)[pending.len() + place],
    ensures
        ({
            let output = pushed(
                direction,
                DecoderView { bytes: pending, d4_active: false },
                bytes,
            );
            let anew = pushed(direction, fresh_decoder(), bytes);
            &&& output.0.len() == anew.0.len() + 1
            &&& output.0[0].bytes == pending
            &&& output.0[0].kind == ReassembledTransferKind::Raw
            &&& output.0[0].direction == direction
            &&& output.0.skip(1) == anew.0
            &&& output.1 == anew.1
        }),
{
    let entry = entry_bytes(direction);
    let candidate = pending + bytes;
    let index = pending.len() + place;
    assert(candidate[index] == bytes[place]);
    if begins_with(candidate, entry) {
        assert(candidate.subrange(0, entry.len() as int)[index] == candidate[index]);
    }
    if begins_with(entry, candidate) {
        assert(entry.subrange(0, candidate.len() as int)[index] == entry[index]);
    }
    assert(fresh_decoder().bytes + bytes =~= bytes);
    let output = pushed(direction, DecoderView { bytes: pending, d4_active: false }, bytes);
    let anew = pushed(direction, fresh_decoder(), bytes);
    assert(output.0.skip(1) =~= anew.0);
}

/// What is known of transfers stands in the order of the transfers.
pub proof fn transfers_stand_in_order(transfers: Seq<ReassembledTransfer>, index: int)
    requires
        0 <= index < transfers.len(),
    ensures
        transfer_views(transfers).len() == transfers.len(),
        transfer_views(transfers)[index].direction == transfers[index].direction,
        transfer_views(transfers)[index].bytes == transfers[index].bytes@,
        transfer_views(transfers)[index].kind == transfers[index].kind,
{
}

} // verus!
