//! Packet records, the observations that go out on the data channel: how
//! one is built from an intercepted payload, and when it is handed on.

use crate::hex::{bytes_to_hex_string, hex_bytes_of, hex_text, lemma_hex_round_trip};
use crate::rule::{Direction, HookType};
use vstd::prelude::*;

verus! {

/// The record of one intercepted payload.
#[derive(Debug, PartialEq, Eq)]
pub struct PacketData {
    /// Counts the records of this process, from 0.
    pub id: u64,
    /// Milliseconds since the Unix epoch.
    pub timestamp: u64,
    pub process_id: u32,
    pub process_name: String,
    /// `"TCP"`, `"UDP"` or `"UNKNOWN"`.
    pub protocol: String,
    /// `"send"` or `"receive"`.
    pub direction: String,
    pub src_addr: String,
    pub dst_addr: String,
    /// The length of the payload in bytes.
    pub size: u32,
    pub socket: Option<u64>,
    /// The name of the intercepted call.
    pub packet_function: Option<String>,
    /// The payload as hex text.
    pub packet_data: Option<String>,
}

/// A packet record as a mathematical value.
pub struct PacketModel {
    pub id: u64,
    pub timestamp: u64,
    pub process_id: u32,
    pub process_name: Seq<char>,
    pub protocol: Seq<char>,
    pub direction: Seq<char>,
    pub src_addr: Seq<char>,
    pub dst_addr: Seq<char>,
    pub size: u32,
    pub socket: Option<u64>,
    pub packet_function: Option<Seq<char>>,
    pub packet_data: Option<Seq<char>>,
}

/// The text of an optional string.
pub open spec fn text_of(s: Option<String>) -> Option<Seq<char>> {
    match s {
        Some(s) => Some(s@),
        None => None,
    }
}

impl View for PacketData {
    type V = PacketModel;

    open spec fn view(&self) -> PacketModel {
        PacketModel {
            id: self.id,
            timestamp: self.timestamp,
            process_id: self.process_id,
            process_name: self.process_name@,
            protocol: self.protocol@,
            direction: self.direction@,
            src_addr: self.src_addr@,
            dst_addr: self.dst_addr@,
            size: self.size,
            socket: self.socket,
            packet_function: text_of(self.packet_function),
            packet_data: text_of(self.packet_data),
        }
    }
}

/// Copies an optional string.
fn clone_text(s: &Option<String>) -> (r: Option<String>)
    ensures
        text_of(r) == text_of(*s),
{
    match s {
        Some(s) => Some(s.clone()),
        None => None,
    }
}

impl Clone for PacketData {
    fn clone(&self) -> (r: Self)
        ensures
            r@ == self@,
    {
        PacketData {
            id: self.id,
            timestamp: self.timestamp,
            process_id: self.process_id,
            process_name: self.process_name.clone(),
            protocol: self.protocol.clone(),
            direction: self.direction.clone(),
            src_addr: self.src_addr.clone(),
            dst_addr: self.dst_addr.clone(),
            size: self.size,
            socket: self.socket,
            packet_function: clone_text(&self.packet_function),
            packet_data: clone_text(&self.packet_data),
        }
    }
}

/// What travels on the data channel.
#[derive(Debug, PartialEq, Eq)]
pub enum PacketMessage {
    Packet(PacketData),
}

impl View for PacketMessage {
    type V = PacketModel;

    open spec fn view(&self) -> PacketModel {
        match self {
            PacketMessage::Packet(packet) => packet@,
        }
    }
}

impl Clone for PacketMessage {
    fn clone(&self) -> (r: Self)
        ensures
            r@ == self@,
    {
        match self {
            PacketMessage::Packet(packet) => PacketMessage::Packet(packet.clone()),
        }
    }
}

/// The direction of a call as a packet record names it.
pub open spec fn direction_text(kind: HookType) -> Seq<char> {
    match kind.spec_direction() {
        Direction::Outbound => "send"@,
        Direction::Inbound => "receive"@,
    }
}

/// The record of a payload: the payload's length in `size`, cut to 32
/// bits, its hex text in `packet_data`, the name of the call in
/// `packet_function`, and `"unknown"` for the name of the process.
pub open spec fn packet_record(
    id: u64,
    timestamp: u64,
    process_id: u32,
    data: Seq<u8>,
    kind: HookType,
    socket: u64,
    protocol: Seq<char>,
    src_addr: Seq<char>,
    dst_addr: Seq<char>,
) -> PacketModel {
    PacketModel {
        id,
        timestamp,
        process_id,
        process_name: "unknown"@,
        protocol,
        direction: direction_text(kind),
        src_addr,
        dst_addr,
        size: (data.len() % 0x1_0000_0000) as u32,
        socket: Some(socket),
        packet_function: Some(kind.spec_name()),
        packet_data: Some(hex_text(data)),
    }
}

/// An optional message as a mathematical value.
pub open spec fn record_of(message: Option<PacketMessage>) -> Option<PacketModel> {
    match message {
        Some(m) => Some(m@),
        None => None,
    }
}

/// The id that the record after the next gets: ids count up, an empty
/// payload takes none, and after the largest id comes 0 again.
pub open spec fn next_id_after(next_id: u64, data: Seq<u8>) -> u64 {
    if data.len() == 0 {
        next_id
    } else if next_id < u64::MAX {
        (next_id + 1) as u64
    } else {
        0
    }
}

/// What goes out on the data channel for a payload: its record, if the
/// channel is open and the payload is not empty.
pub open spec fn emitted(
    open: bool,
    next_id: u64,
    timestamp: u64,
    process_id: u32,
    data: Seq<u8>,
    kind: HookType,
    socket: u64,
    protocol: Seq<char>,
    src_addr: Seq<char>,
    dst_addr: Seq<char>,
) -> Option<PacketModel> {
    if open && data.len() > 0 {
        Some(
            packet_record(
                next_id,
                timestamp,
                process_id,
                data,
                kind,
                socket,
                protocol,
                src_addr,
                dst_addr,
            ),
        )
    } else {
        None
    }
}

/// Why the data channel could not be opened.
#[derive(Clone, Copy, Debug, PartialEq, Eq, Structural)]
pub enum ChannelError {
    /// The channel of this process is open already.
    AlreadyOpen,
}

/// The sending side of the data channel, as far as it decides: whether
/// the channel is open, and which id the next record gets.
pub struct DataPlane {
    open: bool,
    next_id: u64,
}

impl DataPlane {
    /// Whether the channel has been opened.
    pub closed spec fn spec_is_open(&self) -> bool {
        self.open
    }

    /// The id that the next record gets.
    pub closed spec fn spec_next_id(&self) -> u64 {
        self.next_id
    }

    /// A channel that is not open yet; its first record gets the id 0.
    pub fn new() -> (r: Self)
        ensures
            !r.spec_is_open(),
            r.spec_next_id() == 0,
    {
        DataPlane { open: false, next_id: 0 }
    }

    /// Whether the channel has been opened.
    #[verifier::when_used_as_spec(spec_is_open)]
    pub fn is_open(&self) -> (r: bool)
        ensures
            r == self.spec_is_open(),
    {
        self.open
    }

    /// The id that the next record gets.
    #[verifier::when_used_as_spec(spec_next_id)]
    pub fn next_id(&self) -> (r: u64)
        ensures
            r == self.spec_next_id(),
    {
        self.next_id
    }

    /// Opens the channel. It can be opened once.
    pub fn open(&mut self) -> (r: Result<(), ChannelError>)
        ensures
            final(self).spec_is_open(),
            final(self).spec_next_id() == old(self).spec_next_id(),
            r is Ok <==> !old(self).spec_is_open(),
            r is Err ==> r == Err::<(), ChannelError>(ChannelError::AlreadyOpen),
    {
        if self.open {
            Err(ChannelError::AlreadyOpen)
        } else {
            self.open = true;
            Ok(())
        }
    }
}

/// Hands a record to the data channel: it goes out as a message when the
/// channel is open, and is dropped when it is not.
pub fn send_packet_data(plane: &DataPlane, packet: PacketData) -> (r: Option<PacketMessage>)
    ensures
        r == if plane.spec_is_open() {
            Some(PacketMessage::Packet(packet))
        } else {
            None
        },
{
    if plane.is_open() {
        Some(PacketMessage::Packet(packet))
    } else {
        None
    }
}

/// Records an intercepted payload and hands the record to the data channel.
///
/// An empty payload leaves no trace. Any other takes the next id, whether
/// or not the channel is open, and goes out as described by
/// [`packet_record`] when it is. After the largest id the count starts
/// again at 0.
pub fn capture_and_send_packet(
    plane: &mut DataPlane,
    data: &[u8],
    hook_type: HookType,
    socket: u64,
    protocol: String,
    src_addr: String,
    dst_addr: String,
    timestamp: u64,
    process_id: u32,
) -> (r: Option<PacketMessage>)
    ensures
        final(plane).spec_is_open() == old(plane).spec_is_open(),
        final(plane).spec_next_id() == next_id_after(old(plane).spec_next_id(), data@),
        record_of(r) == emitted(
            old(plane).spec_is_open(),
            old(plane).spec_next_id(),
            timestamp,
            process_id,
            data@,
            hook_type,
            socket,
            protocol@,
            src_addr@,
            dst_addr@,
        ),
{
    if data.len() == 0 {
        return None;
    }
    let id = plane.next_id;
    plane.next_id = if id < u64::MAX {
        id + 1
    } else {
        0
    };
    let direction = match hook_type.direction() {
        Direction::Outbound => "send",
        Direction::Inbound => "receive",
    };
    let length: u64 = data.len() as u64;
    let packet = PacketData {
        id,
        timestamp,
        process_id,
        process_name: "unknown".to_owned(),
        protocol,
        direction: direction.to_owned(),
        src_addr,
        dst_addr,
        size: (length % 0x1_0000_0000) as u32,
        socket: Some(socket),
        packet_function: Some(hook_type.name().to_owned()),
        packet_data: Some(bytes_to_hex_string(data)),
    };
    send_packet_data(plane, packet)
}

/// On an open channel, a payload that is not empty gives one record: it
/// bears the id that was next and the direction of the call, its size is
/// the length of the payload where that fits into 32 bits, and its hex
/// text reads back as the payload.
pub proof fn lemma_payload_recorded(
    next_id: u64,
    timestamp: u64,
    process_id: u32,
    data: Seq<u8>,
    kind: HookType,
    socket: u64,
    protocol: Seq<char>,
    src_addr: Seq<char>,
    dst_addr: Seq<char>,
)
    requires
        data.len() > 0,
    ensures
        emitted(
            true,
            next_id,
            timestamp,
            process_id,
            data,
            kind,
            socket,
            protocol,
            src_addr,
            dst_addr,
        ) matches Some(record) && {
            &&& record.id == next_id
            &&& record.direction == if kind.spec_direction() == Direction::Outbound {
                "send"@
            } else {
                "receive"@
            }
            &&& data.len() < 0x1_0000_0000 ==> record.size == data.len()
            &&& record.packet_data matches Some(text) && hex_bytes_of(text) == Some(data)
        },
{
    lemma_hex_round_trip(data);
}

} // verus!
