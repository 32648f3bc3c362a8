//! The interception dispatcher: what happens to one intercepted call.
//!
//! An interception has two parts that the library decides and two that it
//! leaves to its embedding. First the payload is inspected: it is recorded
//! for the data channel and evaluated against the rule store. Then the
//! embedding consults the user's callback. Then the call is settled: the
//! rule's action, where a rule fired, or else the callback's, is turned
//! into what the detour must do. At last the embedding does it, calling
//! the original function or not.
//!
//! Outbound calls (`send`, `sendto`, `WSASend`) are inspected and settled
//! before the original function runs. Inbound calls (`recv`, `recvfrom`,
//! `WSARecv`) run the original function first, and are inspected and
//! settled only if it delivered any bytes.

use crate::packet::{capture_and_send_packet, emitted, next_id_after, record_of, DataPlane, PacketMessage};
use crate::rule::{action_of, ActionModel, Direction, HookType, PacketAction};
use crate::store::{rule_action, rules_after, RuleStore};
use vstd::prelude::*;

verus! {

/// What the embedding knows of an intercepted call besides its payload.
#[derive(Debug)]
pub struct CallContext {
    /// The socket handle.
    pub socket: u64,
    /// The protocol of the socket.
    pub protocol: String,
    /// The local address of the socket.
    pub src_addr: String,
    /// The peer's address.
    pub dst_addr: String,
    /// The time of the call, in milliseconds since the Unix epoch.
    pub timestamp: u64,
    /// The process in which the call was made.
    pub process_id: u32,
}

/// The outcome of inspecting a payload.
#[derive(Debug)]
pub struct Inspection {
    /// The message to put on the data channel, if there is one.
    pub record: Option<PacketMessage>,
    /// The action of the rule that fired, if one did.
    pub rule_action: Option<PacketAction>,
}

/// Inspects the payload of an intercepted call: records it for the data
/// channel, then evaluates it against the rule store.
pub fn inspect(
    plane: &mut DataPlane,
    store: &mut RuleStore,
    kind: HookType,
    payload: &[u8],
    context: CallContext,
) -> (r: Inspection)
    requires
        old(store).wf(),
    ensures
        final(store).wf(),
        final(plane).spec_is_open() == old(plane).spec_is_open(),
        final(plane).spec_next_id() == next_id_after(old(plane).spec_next_id(), payload@),
        record_of(r.record) == emitted(
            old(plane).spec_is_open(),
            old(plane).spec_next_id(),
            context.timestamp,
            context.process_id,
            payload@,
            kind,
            context.socket,
            context.protocol@,
            context.src_addr@,
            context.dst_addr@,
        ),
        action_of(r.rule_action) == rule_action(old(store)@, kind, payload@),
        final(store)@ == rules_after(old(store)@, kind, payload@),
{
    let record = capture_and_send_packet(
        plane,
        payload,
        kind,
        context.socket,
        context.protocol,
        context.src_addr,
        context.dst_addr,
        context.timestamp,
        context.process_id,
    );
    let rule_action = store.find_action(payload, kind);
    Inspection { record, rule_action }
}

/// The action that takes effect: the rule's, where a rule fired; else the
/// callback's; and `Allow` where there is neither.
pub open spec fn effective(rule: Option<ActionModel>, callback: Option<ActionModel>) -> ActionModel {
    match rule {
        Some(action) => action,
        None => match callback {
            Some(action) => action,
            None => ActionModel::Allow,
        },
    }
}

/// Chooses the action that takes effect. `callback_action` is what the
/// user's callback returned, `None` where no callback is registered.
pub fn effective_action(
    rule_action: Option<PacketAction>,
    callback_action: Option<PacketAction>,
) -> (r: PacketAction)
    ensures
        r@ == effective(action_of(rule_action), action_of(callback_action)),
{
    match rule_action {
        Some(action) => action,
        None => match callback_action {
            Some(action) => action,
            None => PacketAction::Allow,
        },
    }
}

/// What the detour of an outbound call must do.
#[derive(Debug, PartialEq, Eq)]
pub enum OutboundVerdict {
    /// Call the original function with the caller's own arguments.
    Forward,
    /// Call the original function with this buffer, and its length, in
    /// place of the caller's; all other arguments as they came.
    ForwardReplaced(Vec<u8>),
    /// Do not call the original function. Return `result`; where
    /// `bytes_sent` is given, report it as the number of bytes sent.
    Suppress { result: i32, bytes_sent: Option<u32> },
}

/// An outbound verdict as a mathematical value.
pub enum OutboundModel {
    Forward,
    ForwardReplaced(Seq<u8>),
    Suppress { result: i32, bytes_sent: Option<u32> },
}

impl View for OutboundVerdict {
    type V = OutboundModel;

    open spec fn view(&self) -> OutboundModel {
        match self {
            OutboundVerdict::Forward => OutboundModel::Forward,
            OutboundVerdict::ForwardReplaced(bytes) => OutboundModel::ForwardReplaced(bytes@),
            OutboundVerdict::Suppress { result, bytes_sent } => OutboundModel::Suppress {
                result: *result,
                bytes_sent: *bytes_sent,
            },
        }
    }
}

/// How an action settles an outbound call that asked to send `requested`
/// bytes.
///
/// `Allow` forwards the call. `Replace` forwards it with the new buffer,
/// except for `WSASend`, which goes on with the caller's buffers. `Block`
/// keeps the call from the original function and reports success: all
/// `requested` bytes as sent for `send` and `sendto`; for `WSASend` the
/// result 0 and zero bytes sent.
pub open spec fn outbound(kind: HookType, action: ActionModel, requested: i32) -> OutboundModel {
    match action {
        ActionModel::Allow => OutboundModel::Forward,
        ActionModel::Replace(bytes) => if kind == HookType::WSASend {
            OutboundModel::Forward
        } else {
            OutboundModel::ForwardReplaced(bytes)
        },
        ActionModel::Block => if kind == HookType::WSASend {
            OutboundModel::Suppress { result: 0, bytes_sent: Some(0u32) }
        } else {
            OutboundModel::Suppress { result: requested, bytes_sent: None }
        },
    }
}

/// Turns the action in effect into what the detour of an outbound call
/// must do.
pub fn outbound_verdict(kind: HookType, action: PacketAction, requested: i32) -> (r:
    OutboundVerdict)
    requires
        kind.spec_direction() == Direction::Outbound,
    ensures
        r@ == outbound(kind, action@, requested),
{
    match action {
        PacketAction::Allow => OutboundVerdict::Forward,
        PacketAction::Replace(bytes) => if kind == HookType::WSASend {
            OutboundVerdict::Forward
        } else {
            OutboundVerdict::ForwardReplaced(bytes)
        },
        PacketAction::Block => if kind == HookType::WSASend {
            OutboundVerdict::Suppress { result: 0, bytes_sent: Some(0) }
        } else {
            OutboundVerdict::Suppress { result: requested, bytes_sent: None }
        },
    }
}

/// Settles an outbound call from the rule's action and the callback's.
pub fn settle_outbound(
    kind: HookType,
    rule_action: Option<PacketAction>,
    callback_action: Option<PacketAction>,
    requested: i32,
) -> (r: OutboundVerdict)
    requires
        kind.spec_direction() == Direction::Outbound,
    ensures
        r@ == outbound(
            kind,
            effective(action_of(rule_action), action_of(callback_action)),
            requested,
        ),
{
    outbound_verdict(kind, effective_action(rule_action, callback_action), requested)
}

/// The number of bytes an inbound call delivered, if it delivered any:
/// only then is the call inspected and settled.
pub fn received_length(result: i32) -> (r: Option<usize>)
    ensures
        r == if result > 0 {
            Some(result as usize)
        } else {
            None::<usize>
        },
{
    if result > 0 {
        Some(result as usize)
    } else {
        None
    }
}

/// The number of bytes an inbound call delivered, where the call reports
/// it as a count of its own, as `WSARecv` does; `None` where it delivered
/// none.
pub fn received_count(count: u32) -> (r: Option<usize>)
    ensures
        r == if count > 0 {
            Some(count as usize)
        } else {
            None::<usize>
        },
{
    if count > 0 {
        Some(count as usize)
    } else {
        None
    }
}

/// The smaller of two numbers.
pub open spec fn smaller(a: int, b: int) -> int {
    if a <= b {
        a
    } else {
        b
    }
}

/// The number of bytes that an inbound call reports once it is settled:
/// what it received for `Allow`, nothing for `Block`, and for `Replace` as
/// much of the replacement as the caller's buffer holds.
pub open spec fn inbound_count(action: ActionModel, capacity: int, received: int) -> int {
    match action {
        ActionModel::Allow => received,
        ActionModel::Block => 0,
        ActionModel::Replace(bytes) => smaller(bytes.len() as int, capacity),
    }
}

/// What a receive buffer holds once a replacement was written over it: as
/// much of the replacement as the buffer holds, followed by what it held
/// behind that.
pub open spec fn overwritten(held: Seq<u8>, bytes: Seq<u8>) -> Seq<u8> {
    let n = smaller(bytes.len() as int, held.len() as int);
    bytes.take(n) + held.skip(n)
}

/// The caller's buffer once an inbound call is settled: overwritten with
/// the replacement for `Replace`, else untouched.
pub open spec fn inbound_buffer(action: ActionModel, buffer: Seq<u8>) -> Seq<u8> {
    match action {
        ActionModel::Replace(bytes) => overwritten(buffer, bytes),
        _ => buffer,
    }
}

/// Copies as much of `bytes` as fits to the front of `buffer`.
fn overwrite_front(buffer: &mut [u8], bytes: &[u8]) -> (n: usize)
    ensures
        n == smaller(bytes@.len() as int, old(buffer)@.len() as int),
        final(buffer)@ == overwritten(old(buffer)@, bytes@),
{
    let n: usize = if bytes.len() <= buffer.len() {
        bytes.len()
    } else {
        buffer.len()
    };
    let mut i: usize = 0;
    while i < n
        invariant
            i <= n,
            n <= bytes@.len(),
            n <= buffer@.len(),
            buffer@.len() == old(buffer)@.len(),
            buffer@ == bytes@.take(i as int) + old(buffer)@.skip(i as int),
        decreases n - i,
    {
        buffer[i] = bytes[i];
        proof {
            assert(buffer@ =~= bytes@.take(i + 1) + old(buffer)@.skip(i + 1));
        }
        i = i + 1;
    }
    n
}

/// Settles an inbound call on the caller's buffer, of which the original
/// function filled the first `received` bytes, and gives the number of
/// bytes to report.
pub fn apply_inbound(action: &PacketAction, buffer: &mut [u8], received: usize) -> (count: usize)
    ensures
        count == inbound_count(action@, old(buffer)@.len() as int, received as int),
        final(buffer)@ == inbound_buffer(action@, old(buffer)@),
{
    match action {
        PacketAction::Allow => received,
        PacketAction::Block => 0,
        PacketAction::Replace(bytes) => overwrite_front(buffer, bytes.as_slice()),
    }
}

/// Settles an inbound call from the rule's action and the callback's.
pub fn settle_inbound(
    rule_action: Option<PacketAction>,
    callback_action: Option<PacketAction>,
    buffer: &mut [u8],
    received: usize,
) -> (count: usize)
    ensures
        count == inbound_count(
            effective(action_of(rule_action), action_of(callback_action)),
            old(buffer)@.len() as int,
            received as int,
        ),
        final(buffer)@ == inbound_buffer(
            effective(action_of(rule_action), action_of(callback_action)),
            old(buffer)@,
        ),
{
    let action = effective_action(rule_action, callback_action);
    apply_inbound(&action, buffer, received)
}

} // verus!
