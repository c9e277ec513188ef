//! IEEE 1284.4 packet framing.
use crate::text::{dec, hex_lower};
use vstd::prelude::*;

verus! {

/// Length of the packet header in bytes.
pub const HEADER_LENGTH: usize = 6;

/// The largest control byte that has no reserved bit set.
pub const CONTROL_MASK: u8 = 0x03;

/// The fixed six-byte IEEE 1284.4 packet header.
#[derive(Clone, Copy, Debug, PartialEq, Eq, Structural)]
pub struct PacketHeader {
    pub peer_socket: u8,
    pub source_socket: u8,
    /// Length of the whole packet, header and payload.
    pub length: u16,
    pub credit: u8,
    pub control: u8,
}

/// Invalid IEEE 1284.4 packet framing.
#[derive(Clone, Copy, Debug, PartialEq, Eq, Structural)]
pub enum PacketError {
    TruncatedHeader { actual: usize },
    InvalidLength { length: u16 },
    ReservedControlBits { control: u8 },
    PayloadTooLarge { payload_length: usize },
}

/// The big-endian bytes of a 16-bit number.
pub open spec fn be_bytes(value: u16) -> Seq<u8> {
    seq![(value / 256) as u8, (value % 256) as u8]
}

/// The number that two bytes stand for, the more significant one first.
pub open spec fn be_value(high: u8, low: u8) -> u16 {
    (high * 256 + low) as u16
}

/// The six bytes of a header.
pub open spec fn header_bytes(header: PacketHeader) -> Seq<u8> {
    seq![header.peer_socket, header.source_socket] + be_bytes(header.length) + seq![
        header.credit,
        header.control,
    ]
}

/// The header at the front of some bytes, or what is wrong with it.
pub open spec fn header_of(bytes: Seq<u8>) -> Result<PacketHeader, PacketError> {
    if bytes.len() < HEADER_LENGTH {
        Err(PacketError::TruncatedHeader { actual: bytes.len() as usize })
    } else {
        let length = be_value(bytes[2], bytes[3]);
        if length < HEADER_LENGTH {
            Err(PacketError::InvalidLength { length })
        } else if bytes[5] > CONTROL_MASK {
            Err(PacketError::ReservedControlBits { control: bytes[5] })
        } else {
            Ok(
                PacketHeader {
                    peer_socket: bytes[0],
                    source_socket: bytes[1],
                    length,
                    credit: bytes[4],
                    control: bytes[5],
                },
            )
        }
    }
}

/// The header for a payload of some length, or why there is none.
pub open spec fn header_for(
    peer_socket: u8,
    source_socket: u8,
    payload_length: usize,
    credit: u8,
    control: u8,
) -> Result<PacketHeader, PacketError> {
    if control > CONTROL_MASK {
        Err(PacketError::ReservedControlBits { control })
    } else if HEADER_LENGTH + payload_length > u16::MAX {
        Err(PacketError::PayloadTooLarge { payload_length })
    } else {
        Ok(
            PacketHeader {
                peer_socket,
                source_socket,
                length: (HEADER_LENGTH + payload_length) as u16,
                credit,
                control,
            },
        )
    }
}

/// Reserved bits are set exactly in the control bytes above the mask.
proof fn lemma_reserved_bits(control: u8)
    ensures
        (control & !CONTROL_MASK != 0) == (control > CONTROL_MASK),
{
    assert((control & !3u8 != 0) == (control > 3u8)) by (bit_vector);
}

impl PacketHeader {
    /// The length and control fields are ones that a decoder accepts.
    pub open spec fn valid(self) -> bool {
        HEADER_LENGTH <= self.length && self.control <= CONTROL_MASK
    }

    pub fn new(
        peer_socket: u8,
        source_socket: u8,
        payload_length: usize,
        credit: u8,
        control: u8,
    ) -> (header: Result<Self, PacketError>)
        ensures
            header == header_for(peer_socket, source_socket, payload_length, credit, control),
    {
        proof {
            lemma_reserved_bits(control);
        }
        if control & !CONTROL_MASK != 0 {
            return Err(PacketError::ReservedControlBits { control });
        }
        if payload_length > 0xffff - HEADER_LENGTH {
            return Err(PacketError::PayloadTooLarge { payload_length });
        }
        let length: usize = HEADER_LENGTH + payload_length;
        Ok(
            PacketHeader {
                peer_socket,
                source_socket,
                length: length as u16,
                credit,
                control,
            },
        )
    }

    pub fn payload_length(self) -> (length: usize)
        requires
            HEADER_LENGTH <= self.length,
        ensures
            length == self.length - HEADER_LENGTH,
    {
        self.length as usize - HEADER_LENGTH
    }

    pub fn channel_id(self) -> (id: (u8, u8))
        ensures
            id == (self.peer_socket, self.source_socket),
    {
        (self.peer_socket, self.source_socket)
    }

    pub fn encode(self) -> (encoded: [u8; 6])
        ensures
            encoded@ == header_bytes(self),
    {
        let encoded: [u8; 6] = [
            self.peer_socket,
            self.source_socket,
            (self.length / 256) as u8,
            (self.length % 256) as u8,
            self.credit,
            self.control,
        ];
        proof {
            assert(encoded@ =~= header_bytes(self));
        }
        encoded
    }

    pub fn decode(bytes: &[u8]) -> (header: Result<Self, PacketError>)
        ensures
            header == header_of(bytes@),
    {
        if bytes.len() < HEADER_LENGTH {
            return Err(PacketError::TruncatedHeader { actual: bytes.len() });
        }
        let length: u16 = bytes[2] as u16 * 256 + bytes[3] as u16;
        if (length as usize) < HEADER_LENGTH {
            return Err(PacketError::InvalidLength { length });
        }
        let control: u8 = bytes[5];
        proof {
            lemma_reserved_bits(control);
        }
        if control & !CONTROL_MASK != 0 {
            return Err(PacketError::ReservedControlBits { control });
        }
        Ok(
            PacketHeader {
                peer_socket: bytes[0],
                source_socket: bytes[1],
                length,
                credit: bytes[4],
                control,
            },
        )
    }
}

/// A complete IEEE 1284.4 packet.
#[derive(Clone, Debug, PartialEq, Eq)]
pub struct Packet {
    pub header: PacketHeader,
    pub payload: Vec<u8>,
}

/// The contents of a packet.
pub struct PacketView {
    pub header: PacketHeader,
    pub payload: Seq<u8>,
}

impl View for Packet {
    type V = PacketView;

    open spec fn view(&self) -> PacketView {
        PacketView { header: self.header, payload: self.payload@ }
    }
}

/// The contents of several packets.
pub open spec fn packet_views(packets: Seq<Packet>) -> Seq<PacketView> {
    Seq::new(packets.len(), |i: int| packets[i]@)
}

/// The bytes of a packet: its header and then its payload.
pub open spec fn packet_bytes(packet: PacketView) -> Seq<u8> {
    header_bytes(packet.header) + packet.payload
}

impl PacketView {
    /// The header is valid and gives the length of the payload.
    pub open spec fn well_formed(self) -> bool {
        self.header.valid() && self.header.length == HEADER_LENGTH + self.payload.len()
    }
}

impl Packet {
    pub fn new(
        peer_socket: u8,
        source_socket: u8,
        payload: Vec<u8>,
        credit: u8,
        control: u8,
    ) -> (packet: Result<Self, PacketError>)
        ensures
            match (
                packet,
                header_for(peer_socket, source_socket, payload.len(), credit, control),
            ) {
                (Ok(packet), Ok(header)) => packet@ == (PacketView { header, payload: payload@ })
                    && packet@.well_formed(),
                (Err(error), Err(expected)) => error == expected,
                _ => false,
            },
    {
        match PacketHeader::new(peer_socket, source_socket, payload.len(), credit, control) {
            Ok(header) => Ok(Packet { header, payload }),
            Err(error) => Err(error),
        }
    }

    pub fn encode(&self) -> (encoded: Vec<u8>)
        ensures
            encoded@ == packet_bytes(self@),
    {
        let mut encoded: Vec<u8> = Vec::new();
        let header = self.header.encode();
        encoded.extend_from_slice(&header);
        encoded.extend_from_slice(self.payload.as_slice());
        proof {
            assert(encoded@ =~= packet_bytes(self@));
        }
        encoded
    }
}

/// What a decoder makes of a stretch of bytes.
pub struct Decoded {
    /// The packets that are complete, in order.
    pub packets: Seq<PacketView>,
    /// The bytes behind them.
    pub rest: Seq<u8>,
    /// What is wrong with the header at the front of the rest, if anything is.
    pub error: Option<PacketError>,
}

/// The packets at the front of some bytes, as many as are complete.
pub open spec fn decode_all(bytes: Seq<u8>) -> Decoded
    decreases bytes.len(),
{
    if bytes.len() < HEADER_LENGTH {
        Decoded { packets: seq![], rest: bytes, error: None }
    } else {
        match header_of(bytes) {
            Err(error) => Decoded { packets: seq![], rest: bytes, error: Some(error) },
            Ok(header) => if bytes.len() < header.length {
                Decoded { packets: seq![], rest: bytes, error: None }
            } else {
                let tail = decode_all(bytes.skip(header.length as int));
                let first = PacketView {
                    header,
                    payload: bytes.subrange(HEADER_LENGTH as int, header.length as int),
                };
                Decoded {
                    packets: seq![first] + tail.packets,
                    rest: tail.rest,
                    error: tail.error,
                }
            },
        }
    }
}

/// Incrementally reassembles packets across arbitrary transport reads.
#[derive(Debug)]
pub struct PacketDecoder {
    buffer: Vec<u8>,
}

impl View for PacketDecoder {
    type V = Seq<u8>;

    /// The bytes that have come in and are not part of a complete packet.
    closed spec fn view(&self) -> Seq<u8> {
        self.buffer@
    }
}

impl Default for PacketDecoder {
    fn default() -> (decoder: Self)
        ensures
            decoder@ == Seq::<u8>::empty(),
    {
        PacketDecoder { buffer: Vec::new() }
    }
}

impl PacketDecoder {
    /// Takes in bytes and hands out the packets that they complete.
    ///
    /// Where a malformed header stops the decoder, it stays in front of the
    /// buffer, and the packets that stood before it are gone.
    pub fn push(&mut self, bytes: &[u8]) -> (packets: Result<Vec<Packet>, PacketError>)
        ensures
            ({
                let decoded = decode_all(old(self)@ + bytes@);
                &&& final(self)@ == decoded.rest
                &&& match packets {
                    Ok(packets) => decoded.error is None && packet_views(packets@)
                        == decoded.packets,
                    Err(error) => decoded.error == Some(error),
                }
            }),
    {
        self.buffer.extend_from_slice(bytes);
        let ghost whole: Seq<u8> = self.buffer@;
        proof {
            assert(whole =~= old(self)@ + bytes@);
            assert(whole.skip(0) =~= whole);
        }
        let mut packets: Vec<Packet> = Vec::new();
        let mut start: usize = 0;
        let mut failure: Option<PacketError> = None;
        let mut waiting: bool = false;
        proof {
            assert(packet_views(packets@) + decode_all(whole).packets =~= decode_all(whole).packets);
        }
        while !waiting && failure.is_none() && self.buffer.len() - start >= HEADER_LENGTH
            invariant
                start <= self.buffer.len(),
                self.buffer@ == whole,
                decode_all(whole).packets == packet_views(packets@) + decode_all(
                    whole.skip(start as int),
                ).packets,
                decode_all(whole).rest == decode_all(whole.skip(start as int)).rest,
                decode_all(whole).error == decode_all(whole.skip(start as int)).error,
                waiting ==> decode_all(whole.skip(start as int)) == (Decoded {
                    packets: seq![],
                    rest: whole.skip(start as int),
                    error: None,
                }),
                failure is Some ==> decode_all(whole.skip(start as int)) == (Decoded {
                    packets: seq![],
                    rest: whole.skip(start as int),
                    error: failure,
                }),
            decreases
                    self.buffer.len() - start,
                    if waiting || failure is Some {
                        0int
                    } else {
                        1int
                    },
        {
            let available: &[u8] = vstd::slice::slice_subrange(
                self.buffer.as_slice(),
                start,
                self.buffer.len(),
            );
            proof {
                assert(available@ =~= whole.skip(start as int));
            }
            match PacketHeader::decode(available) {
                Err(error) => {
                    failure = Some(error);
                },
                Ok(header) => {
                    let length: usize = header.length as usize;
                    if available.len() < length {
                        waiting = true;
                    } else {
                        let payload = vstd::slice::slice_to_vec(
                            vstd::slice::slice_subrange(available, HEADER_LENGTH, length),
                        );
                        let ghost before = packets@;
                        packets.push(Packet { header, payload });
                        proof {
                            let tail = whole.skip(start as int);
                            assert(tail.skip(length as int) =~= whole.skip(start + length));
                            assert(packet_views(packets@) =~= packet_views(before).push(
                                packets@.last()@,
                            ));
                            assert(packet_views(packets@) + decode_all(
                                whole.skip(start + length),
                            ).packets =~= packet_views(before) + decode_all(tail).packets);
                        }
                        start = start + length;
                    }
                },
            }
        }
        let rest = vstd::slice::slice_to_vec(
            vstd::slice::slice_subrange(self.buffer.as_slice(), start, self.buffer.len()),
        );
        proof {
            assert(rest@ =~= whole.skip(start as int));
            assert(packet_views(packets@) + Seq::<PacketView>::empty() =~= packet_views(packets@));
        }
        self.buffer = rest;
        match failure {
            Some(error) => Err(error),
            None => Ok(packets),
        }
    }

    pub fn buffered_len(&self) -> (length: usize)
        ensures
            length == self@.len(),
    {
        self.buffer.len()
    }
}

/// The words for a framing error.
pub open spec fn packet_error_text(error: PacketError) -> Seq<char> {
    match error {
        PacketError::TruncatedHeader { actual } => "packet header requires 6 bytes, got "@
            + crate::text::dec_text(actual as nat),
        PacketError::InvalidLength { length } => "packet length "@ + crate::text::dec_text(
            length as nat,
        ) + " is shorter than its header"@,
        PacketError::ReservedControlBits { control } => "reserved packet control bits are set: "@
            + crate::text::prefixed_hex(control as nat, 2),
        PacketError::PayloadTooLarge { payload_length } => "packet payload is too large: "@
            + crate::text::dec_text(payload_length as nat) + " bytes"@,
    }
}

impl PacketError {
    /// Describes the error.
    pub fn message(&self) -> (text: String)
        ensures
            text@ == packet_error_text(*self),
    {
        match self {
            PacketError::TruncatedHeader { actual } => {
                String::from_str("packet header requires 6 bytes, got ").concat(
                    dec(*actual as u64).as_str(),
                )
            },
            PacketError::InvalidLength { length } => {
                String::from_str("packet length ").concat(dec(*length as u64).as_str()).concat(
                    " is shorter than its header",
                )
            },
            PacketError::ReservedControlBits { control } => {
                String::from_str("reserved packet control bits are set: ").concat(
                    hex_lower(*control as u64, 2).as_str(),
                )
            },
            PacketError::PayloadTooLarge { payload_length } => {
                String::from_str("packet payload is too large: ").concat(
                    dec(*payload_length as u64).as_str(),
                ).concat(" bytes")
            },
        }
    }
}

/// Decoding gives back every well-formed packet that was encoded, and then what
/// the bytes behind it give.
pub proof fn packet_round_trip(packet: PacketView, behind: Seq<u8>)
    requires
        packet.well_formed(),
    ensures
        decode_all(packet_bytes(packet) + behind).packets == seq![packet] + decode_all(
            behind,
        ).packets,
        decode_all(packet_bytes(packet) + behind).rest == decode_all(behind).rest,
        decode_all(packet_bytes(packet) + behind).error == decode_all(behind).error,
{
    let bytes = packet_bytes(packet) + behind;
    let length = packet.header.length;
    assert(be_value((length / 256) as u8, (length % 256) as u8) == length);
    assert(bytes[2] == (length / 256) as u8 && bytes[3] == (length % 256) as u8);
    assert(header_of(bytes) == Ok::<PacketHeader, PacketError>(packet.header));
    assert(bytes.skip(length as int) =~= behind);
    assert(bytes.subrange(HEADER_LENGTH as int, length as int) =~= packet.payload);
}

/// Reads may cut the stream anywhere: what the decoder hands out for two reads
/// is what it hands out for both at once, as long as the first one holds no
/// malformed header. A malformed header in the first read is reported either way.
pub proof fn decoding_ignores_fragmentation(first: Seq<u8>, second: Seq<u8>)
    ensures
        ({
            let early = decode_all(first);
            let whole = decode_all(first + second);
            if early.error is Some {
                whole.packets == early.packets && whole.error == early.error && whole.rest
                    == early.rest + second
            } else {
                let late = decode_all(early.rest + second);
                whole.packets == early.packets + late.packets && whole.rest == late.rest
                    && whole.error == late.error
            }
        }),
    decreases first.len(),
{
    let whole = first + second;
    if first.len() < HEADER_LENGTH {
        assert(decode_all(whole).packets =~= decode_all(first).packets + decode_all(whole).packets);
    } else {
        assert(whole[0] == first[0] && whole[1] == first[1] && whole[2] == first[2] && whole[3]
            == first[3] && whole[4] == first[4] && whole[5] == first[5]);
        match header_of(first) {
            Err(error) => {},
            Ok(header) => {
                if first.len() < header.length {
                    assert(decode_all(whole).packets =~= decode_all(first).packets + decode_all(
                        whole,
                    ).packets);
                } else {
                    let length = header.length as int;
                    decoding_ignores_fragmentation(first.skip(length), second);
                    assert(whole.skip(length) =~= first.skip(length) + second);
                    assert(whole.subrange(HEADER_LENGTH as int, length) =~= first.subrange(
                        HEADER_LENGTH as int,
                        length,
                    ));
                    let early = decode_all(first);
                    let head = seq![
                        PacketView {
                            header,
                            payload: first.subrange(HEADER_LENGTH as int, length),
                        },
                    ];
                    if early.error is None {
                        let late = decode_all(early.rest + second);
                        let tail = decode_all(first.skip(length));
                        assert((head + tail.packets) + late.packets =~= head + (tail.packets
                            + late.packets));
                    }
                }
            },
        }
    }
}

/// Where the fields of a header stand in the bytes, and which bytes are no header.
pub proof fn header_fields_stand_at_their_offsets(bytes: Seq<u8>)
    requires
        bytes.len() <= usize::MAX,
    ensures
        bytes.len() < 6 ==> header_of(bytes) == Err::<PacketHeader, PacketError>(
            PacketError::TruncatedHeader { actual: bytes.len() as usize },
        ),
        bytes.len() >= 6 && 256 * bytes[2] + bytes[3] < 6 ==> header_of(bytes) == Err::<
            PacketHeader,
            PacketError,
        >(PacketError::InvalidLength { length: (256 * bytes[2] + bytes[3]) as u16 }),
        bytes.len() >= 6 && 256 * bytes[2] + bytes[3] >= 6 && bytes[5] > 3 ==> header_of(bytes)
            == Err::<PacketHeader, PacketError>(
            PacketError::ReservedControlBits { control: bytes[5] },
        ),
        bytes.len() >= 6 && 256 * bytes[2] + bytes[3] >= 6 && bytes[5] <= 3 ==> (header_of(
            bytes,
        ) matches Ok(header) && header.peer_socket == bytes[0] && header.source_socket == bytes[1]
            && header.length == 256 * bytes[2] + bytes[3] && header.credit == bytes[4]
            && header.control == bytes[5]),
{
}

/// Where the fields of a packet are written, and behind them its payload.
pub proof fn packets_are_written_byte_by_byte(packet: Packet)
    ensures
        ({
            let bytes = packet_bytes(packet@);
            &&& bytes.len() == 6 + packet.payload@.len()
            &&& bytes[0] == packet.header.peer_socket
            &&& bytes[1] == packet.header.source_socket
            &&& 256 * bytes[2] + bytes[3] == packet.header.length
            &&& bytes[4] == packet.header.credit
            &&& bytes[5] == packet.header.control
            &&& forall|i: int|
                0 <= i < packet.payload@.len() ==> #[trigger] bytes[6 + i] == packet.payload@[i]
        }),
{
}

/// The header that a packet gets: what was asked for, with the length of the whole
/// packet; reserved control bits are refused, and so is a payload for which that
/// length has no room.
pub proof fn headers_hold_what_was_asked_for(
    peer_socket: u8,
    source_socket: u8,
    payload_length: usize,
    credit: u8,
    control: u8,
)
    ensures
        match header_for(peer_socket, source_socket, payload_length, credit, control) {
            Ok(header) => {
                &&& control <= 3
                &&& payload_length <= 65529
                &&& header.peer_socket == peer_socket
                &&& header.source_socket == source_socket
                &&& header.length == payload_length + 6
                &&& header.credit == credit
                &&& header.control == control
            },
            Err(error) => if control > 3 {
                error == (PacketError::ReservedControlBits { control })
            } else {
                payload_length > 65529 && error == (PacketError::PayloadTooLarge { payload_length })
            },
        },
{
}

/// How packets are cut out of a stream: each is as long as its own length field
/// says, its payload is what stands behind the header, and the next one begins
/// where it ends. What is left over waits for more bytes.
pub proof fn packets_are_cut_at_their_lengths(bytes: Seq<u8>)
    ensures
        bytes.len() < 6 || (256 * bytes[2] + bytes[3] >= 6 && bytes[5] <= 3 && bytes.len() < 256
            * bytes[2] + bytes[3]) ==> decode_all(bytes).packets.len() == 0 && decode_all(
            bytes,
        ).rest == bytes && decode_all(bytes).error is None,
        bytes.len() >= 6 && (256 * bytes[2] + bytes[3] < 6 || bytes[5] > 3) ==> decode_all(
            bytes,
        ).packets.len() == 0 && decode_all(bytes).rest == bytes && decode_all(bytes).error is Some,
        bytes.len() >= 6 && 256 * bytes[2] + bytes[3] >= 6 && bytes[5] <= 3 && bytes.len() >= 256
            * bytes[2] + bytes[3] ==> {
            let length: int = 256 * bytes[2] + bytes[3];
            let decoded = decode_all(bytes);
            let tail = decode_all(bytes.skip(length));
            &&& decoded.packets.len() == 1 + tail.packets.len()
            &&& decoded.packets[0].payload.len() == length - 6
            &&& forall|i: int|
                0 <= i < length - 6 ==> #[trigger] decoded.packets[0].payload[i] == bytes[6 + i]
            &&& decoded.packets[0].header.peer_socket == bytes[0]
            &&& decoded.packets[0].header.source_socket == bytes[1]
            &&& decoded.packets[0].header.length == length
            &&& decoded.packets[0].header.credit == bytes[4]
            &&& decoded.packets[0].header.control == bytes[5]
            &&& decoded.packets.skip(1) == tail.packets
            &&& decoded.rest == tail.rest
            &&& decoded.error == tail.error
        },
{
    if bytes.len() >= 6 && 256 * bytes[2] + bytes[3] >= 6 && bytes[5] <= 3 && bytes.len() >= 256
        * bytes[2] + bytes[3] {
        let length: int = 256 * bytes[2] + bytes[3];
        assert(decode_all(bytes).packets.skip(1) =~= decode_all(bytes.skip(length)).packets);
    }
}

/// What is known of packets stands in the order of the packets.
pub proof fn packets_stand_in_order(packets: Seq<Packet>, index: int)
    requires
        0 <= index < packets.len(),
    ensures
        packet_views(packets).len() == packets.len(),
        packet_views(packets)[index].header == packets[index].header,
        packet_views(packets)[index].payload == packets[index].payload@,
{
}

/// What is told of a framing error: the number that is wrong.
pub proof fn framing_errors_are_put_into_words(length: u16, count: usize, control: u8)
    ensures
        packet_error_text(PacketError::TruncatedHeader { actual: count })
            == "packet header requires 6 bytes, got "@ + crate::text::dec_text(count as nat),
        packet_error_text(PacketError::InvalidLength { length }) == "packet length "@
            + crate::text::dec_text(length as nat) + " is shorter than its header"@,
        packet_error_text(PacketError::ReservedControlBits { control })
            == "reserved packet control bits are set: "@ + ("0x"@ + crate::text::hex_text(
            control as nat,
            2,
            false,
        )),
        packet_error_text(PacketError::PayloadTooLarge { payload_length: count })
            == "packet payload is too large: "@ + crate::text::dec_text(count as nat) + " bytes"@,
{
}

} // verus!
