//! The decisions of a packet interception engine for the socket calls
//! `send`, `recv`, `sendto`, `recvfrom`, `WSASend` and `WSARecv`.
//!
//! The engine sits in the detours of these calls. For every intercepted
//! payload it writes a packet record for an observer, evaluates an ordered
//! list of tamper rules that may block the payload or rewrite it, and
//! settles what the detour does: call the function it stands in for, with
//! the caller's buffer or another, or answer in its place.
//!
//! This library holds what the engine decides and leaves out what it
//! touches: sockets, trampolines and channels belong to its embedding.
//! Each module states what it computes as functions on sequences of bytes,
//! characters and rules, and is verified to compute just that.
//!
//! - [`wildcard`]: hex patterns with `??` wildcards and their first match.
//! - [`hex`]: byte strings as hex text and back.
//! - [`rule`], [`store`]: tamper rules and the store that evaluates them.
//! - [`packet`], [`address`]: packet records and the data channel.
//! - [`intercept`], [`buffers`]: how an intercepted call is settled.
//! - [`hook`], [`manager`]: the states of the hooks and the commands.
//! - [`bootstrap`]: the order of the start-up.

pub mod address;
pub mod bootstrap;
pub mod buffers;
pub mod hex;
pub mod hook;
pub mod intercept;
pub mod manager;
pub mod packet;
pub mod rule;
pub mod store;
pub mod text;
pub mod wildcard;

pub use hook::NetworkHook;
pub use manager::{HookCommand, NetworkHookManager};
pub use packet::{capture_and_send_packet, send_packet_data, PacketData, PacketMessage};
pub use rule::{HookType, PacketAction, TamperAction, TamperRule};
