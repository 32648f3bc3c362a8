use std::cell::Cell;

use hook_dll_lib::buffers::{apply_inbound_scattered, gather, gather_received, scatter, settle_inbound_scattered};
use hook_dll_lib::intercept::{
    apply_inbound, effective_action, inspect, outbound_verdict, received_count, received_length,
    settle_inbound, settle_outbound, CallContext, OutboundVerdict,
};
use hook_dll_lib::packet::{DataPlane, PacketMessage};
use hook_dll_lib::rule::{HookType, PacketAction, TamperAction, TamperRule};
use hook_dll_lib::store::RuleStore;

fn rule(id: &str, pattern: &str, replace: &str, action: TamperAction, hook: HookType) -> TamperRule {
    TamperRule {
        id: id.to_string(),
        name: id.to_string(),
        match_pattern: pattern.to_string(),
        replace: replace.to_string(),
        action,
        active: true,
        hits: 0,
        hook,
    }
}

fn context() -> CallContext {
    CallContext {
        socket: 312,
        protocol: "TCP".to_string(),
        src_addr: "10.0.0.1:50000".to_string(),
        dst_addr: "10.0.0.2:80".to_string(),
        timestamp: 1_700_000_000_000,
        process_id: 4242,
    }
}

struct Harness {
    plane: DataPlane,
    store: RuleStore,
    sent: Vec<PacketMessage>,
    original_calls: Vec<Vec<u8>>,
    callback_calls: Cell<usize>,
}

impl Harness {
    fn new(rules: Vec<TamperRule>) -> Harness {
        let mut plane = DataPlane::new();
        plane.open().unwrap();
        let mut store = RuleStore::new();
        for r in rules {
            store.add(r).unwrap();
        }
        Harness { plane, store, sent: Vec::new(), original_calls: Vec::new(), callback_calls: Cell::new(0) }
    }

    fn send(&mut self, payload: &[u8], callback: Option<PacketAction>) -> i32 {
        let inspection = inspect(&mut self.plane, &mut self.store, HookType::Send, payload, context());
        if let Some(message) = inspection.record {
            self.sent.push(message);
        }
        let callback_action = callback.map(|action| {
            self.callback_calls.set(self.callback_calls.get() + 1);
            action
        });
        match settle_outbound(HookType::Send, inspection.rule_action, callback_action, payload.len() as i32) {
            OutboundVerdict::Forward => {
                self.original_calls.push(payload.to_vec());
                payload.len() as i32
            }
            OutboundVerdict::ForwardReplaced(bytes) => {
                let n = bytes.len() as i32;
                self.original_calls.push(bytes);
                n
            }
            OutboundVerdict::Suppress { result, .. } => result,
        }
    }

    fn recv(&mut self, incoming: &[u8], buffer: &mut [u8], callback: Option<PacketAction>) -> i32 {
        buffer[..incoming.len()].copy_from_slice(incoming);
        self.original_calls.push(incoming.to_vec());
        let result = incoming.len() as i32;
        let received = match received_length(result) {
            Some(n) => n,
            None => return result,
        };
        let payload = buffer[..received].to_vec();
        let inspection = inspect(&mut self.plane, &mut self.store, HookType::Recv, &payload, context());
        if let Some(message) = inspection.record {
            self.sent.push(message);
        }
        let callback_action = callback.map(|action| {
            self.callback_calls.set(self.callback_calls.get() + 1);
            action
        });
        settle_inbound(inspection.rule_action, callback_action, buffer, received) as i32
    }

    fn hits(&self) -> Vec<u64> {
        self.store.list().iter().map(|r| r.hits).collect()
    }
}

#[test]
fn block_on_outbound() {
    let mut h = Harness::new(vec![rule("b", "62 6C 6F 63 6B", "", TamperAction::Block, HookType::Send)]);
    let returned = h.send(b"please block me", None);
    assert!(h.original_calls.is_empty());
    assert_eq!(returned, 15);
    assert_eq!(h.hits(), [1]);
}

#[test]
fn replace_on_outbound() {
    let mut h = Harness::new(vec![rule("r", "aa ?? cc", "ff ee", TamperAction::Replace, HookType::Send)]);
    let returned = h.send(&[0xaa, 0xbb, 0xcc, 0xdd], None);
    assert_eq!(h.original_calls, vec![vec![0xff, 0xee, 0xdd]]);
    assert_eq!(returned, 3);
    assert_eq!(h.hits(), [1]);
}

#[test]
fn replace_on_inbound() {
    let mut h = Harness::new(vec![rule("r", "aa ?? cc", "ff ee", TamperAction::Replace, HookType::Recv)]);
    let mut buffer = [0u8; 8];
    let returned = h.recv(&[0xaa, 0xbb, 0xcc, 0xdd], &mut buffer, None);
    assert_eq!(returned, 3);
    assert_eq!(&buffer[..3], &[0xff, 0xee, 0xdd]);
    assert_eq!(h.hits(), [1]);
}

#[test]
fn no_match_passes_the_call_through() {
    let mut h = Harness::new(vec![rule("n", "ff ff ff", "", TamperAction::Block, HookType::Send)]);
    let returned = h.send(&[0x00, 0x01, 0x02], None);
    assert_eq!(h.original_calls, vec![vec![0x00, 0x01, 0x02]]);
    assert_eq!(returned, 3);
    assert_eq!(h.hits(), [0]);
}

#[test]
fn an_inactive_rule_is_skipped() {
    let mut h = Harness::new(vec![rule("b", "62 6C 6F 63 6B", "", TamperAction::Block, HookType::Send)]);
    h.store.set_active("b", false).unwrap();
    let returned = h.send(b"please block me", None);
    assert_eq!(h.original_calls, vec![b"please block me".to_vec()]);
    assert_eq!(returned, 15);
    assert_eq!(h.hits(), [0]);
}

#[test]
fn the_first_match_wins() {
    let mut h = Harness::new(vec![
        rule("first", "aa bb", "", TamperAction::Block, HookType::Send),
        rule("second", "bb ?? dd", "00", TamperAction::Replace, HookType::Send),
    ]);
    let returned = h.send(&[0xaa, 0xbb, 0xcc, 0xdd, 0xee], None);
    assert!(h.original_calls.is_empty());
    assert_eq!(returned, 5);
    assert_eq!(h.hits(), [1, 0]);
}

#[test]
fn the_callback_is_consulted_but_overridden() {
    let mut h = Harness::new(vec![rule("b", "62 6C 6F 63 6B", "", TamperAction::Block, HookType::Send)]);
    let returned = h.send(b"please block me", Some(PacketAction::Allow));
    assert_eq!(h.callback_calls.get(), 1);
    assert!(h.original_calls.is_empty());
    assert_eq!(returned, 15);
}

#[test]
fn the_callback_decides_where_no_rule_fires() {
    let mut h = Harness::new(vec![rule("n", "ff ff ff", "", TamperAction::Block, HookType::Send)]);
    assert_eq!(h.send(&[0x01, 0x02], Some(PacketAction::Block)), 2);
    assert!(h.original_calls.is_empty());
    assert_eq!(h.send(&[0x01, 0x02], Some(PacketAction::Replace(vec![0x09]))), 1);
    assert_eq!(h.original_calls, vec![vec![0x09]]);
    assert_eq!(h.send(&[0x01, 0x02], Some(PacketAction::Allow)), 2);
    assert_eq!(h.callback_calls.get(), 3);
    assert_eq!(h.hits(), [0]);
}

#[test]
fn a_completed_send_enqueues_one_record() {
    let mut h = Harness::new(vec![]);
    let payload = [0xde, 0xad, 0xbe, 0xef, 0x00];
    h.send(&payload, None);
    assert_eq!(h.sent.len(), 1);
    let PacketMessage::Packet(record) = &h.sent[0];
    assert_eq!(record.id, 0);
    assert_eq!(record.direction, "send");
    assert_eq!(record.size, 5);
    assert_eq!(record.packet_function.as_deref(), Some("Send"));
    assert_eq!(record.packet_data.as_deref(), Some("DE AD BE EF 00"));
    assert_eq!(hook_dll_lib::hex::parse_hex(record.packet_data.as_ref().unwrap()), Some(payload.to_vec()));
    h.send(&payload, None);
    assert_eq!(h.sent.len(), 2);
    let PacketMessage::Packet(second) = &h.sent[1];
    assert_eq!(second.id, 1);
}

#[test]
fn a_blocked_send_is_recorded_all_the_same() {
    let mut h = Harness::new(vec![rule("b", "01", "", TamperAction::Block, HookType::Send)]);
    h.send(&[0x01], None);
    assert_eq!(h.sent.len(), 1);
    let PacketMessage::Packet(record) = &h.sent[0];
    assert_eq!(record.packet_data.as_deref(), Some("01"));
}

#[test]
fn an_empty_send_is_not_recorded() {
    let mut h = Harness::new(vec![]);
    assert_eq!(h.send(&[], None), 0);
    assert!(h.sent.is_empty());
    assert_eq!(h.original_calls, vec![Vec::<u8>::new()]);
    assert_eq!(h.plane.next_id(), 0);
}

#[test]
fn block_on_inbound_returns_nothing() {
    let mut h = Harness::new(vec![rule("b", "aa", "", TamperAction::Block, HookType::Recv)]);
    let mut buffer = [0u8; 4];
    assert_eq!(h.recv(&[0xaa, 0xbb], &mut buffer, None), 0);
    assert_eq!(h.hits(), [1]);
    assert_eq!(h.sent.len(), 1);
    let PacketMessage::Packet(record) = &h.sent[0];
    assert_eq!(record.direction, "receive");
    assert_eq!(record.packet_function.as_deref(), Some("Recv"));
}

#[test]
fn an_inbound_call_that_delivered_nothing_is_left_alone() {
    assert_eq!(received_length(0), None);
    assert_eq!(received_length(-1), None);
    assert_eq!(received_length(i32::MIN), None);
    assert_eq!(received_length(1), Some(1));
    assert_eq!(received_length(i32::MAX), Some(i32::MAX as usize));
}

#[test]
fn the_rule_comes_before_the_callback() {
    assert_eq!(effective_action(None, None), PacketAction::Allow);
    assert_eq!(effective_action(None, Some(PacketAction::Block)), PacketAction::Block);
    assert_eq!(effective_action(Some(PacketAction::Block), None), PacketAction::Block);
    assert_eq!(effective_action(Some(PacketAction::Block), Some(PacketAction::Allow)), PacketAction::Block);
    assert_eq!(
        effective_action(Some(PacketAction::Replace(vec![1])), Some(PacketAction::Replace(vec![2]))),
        PacketAction::Replace(vec![1])
    );
    assert_eq!(
        effective_action(None, Some(PacketAction::Replace(vec![2]))),
        PacketAction::Replace(vec![2])
    );
}

#[test]
fn outbound_calls_are_settled_by_kind() {
    for kind in [HookType::Send, HookType::SendTo] {
        assert_eq!(outbound_verdict(kind, PacketAction::Allow, 7), OutboundVerdict::Forward);
        assert_eq!(
            outbound_verdict(kind, PacketAction::Block, 7),
            OutboundVerdict::Suppress { result: 7, bytes_sent: None }
        );
        assert_eq!(
            outbound_verdict(kind, PacketAction::Replace(vec![1, 2]), 7),
            OutboundVerdict::ForwardReplaced(vec![1, 2])
        );
    }
    assert_eq!(outbound_verdict(HookType::WSASend, PacketAction::Allow, 7), OutboundVerdict::Forward);
    assert_eq!(
        outbound_verdict(HookType::WSASend, PacketAction::Block, 7),
        OutboundVerdict::Suppress { result: 0, bytes_sent: Some(0) }
    );
    assert_eq!(
        outbound_verdict(HookType::WSASend, PacketAction::Replace(vec![1, 2]), 7),
        OutboundVerdict::Forward
    );
    assert_eq!(
        settle_outbound(HookType::SendTo, Some(PacketAction::Block), Some(PacketAction::Allow), 9),
        OutboundVerdict::Suppress { result: 9, bytes_sent: None }
    );
}

#[test]
fn a_replacement_longer_than_the_buffer_is_cut() {
    let mut buffer = [1u8, 2, 3];
    let count = apply_inbound(&PacketAction::Replace(vec![9, 8, 7, 6, 5]), &mut buffer, 2);
    assert_eq!(count, 3);
    assert_eq!(buffer, [9, 8, 7]);
}

#[test]
fn a_shorter_replacement_leaves_the_rest_of_the_buffer() {
    let mut buffer = [1u8, 2, 3, 4];
    let count = apply_inbound(&PacketAction::Replace(vec![9]), &mut buffer, 4);
    assert_eq!(count, 1);
    assert_eq!(buffer, [9, 2, 3, 4]);
    let count = apply_inbound(&PacketAction::Replace(vec![]), &mut buffer, 4);
    assert_eq!(count, 0);
    assert_eq!(buffer, [9, 2, 3, 4]);
}

#[test]
fn allow_and_block_leave_the_buffer_alone() {
    let mut buffer = [1u8, 2, 3, 4];
    assert_eq!(apply_inbound(&PacketAction::Allow, &mut buffer, 3), 3);
    assert_eq!(buffer, [1, 2, 3, 4]);
    assert_eq!(apply_inbound(&PacketAction::Block, &mut buffer, 3), 0);
    assert_eq!(buffer, [1, 2, 3, 4]);
}

#[test]
fn buffers_are_read_as_one_payload() {
    let buffers = vec![vec![1u8, 2], vec![], vec![3], vec![4, 5, 6]];
    assert_eq!(gather(&buffers), vec![1, 2, 3, 4, 5, 6]);
    assert_eq!(gather(&Vec::new()), Vec::<u8>::new());
    assert_eq!(gather_received(&buffers, 0), Vec::<u8>::new());
    assert_eq!(gather_received(&buffers, 3), vec![1, 2, 3]);
    assert_eq!(gather_received(&buffers, 6), vec![1, 2, 3, 4, 5, 6]);
    assert_eq!(gather_received(&buffers, 60), vec![1, 2, 3, 4, 5, 6]);
}

#[test]
fn a_replacement_is_written_across_the_buffers() {
    let mut buffers = vec![vec![1u8, 2], vec![], vec![3], vec![4, 5, 6]];
    assert_eq!(scatter(&mut buffers, &[9, 8, 7, 6]), 4);
    assert_eq!(buffers, vec![vec![9u8, 8], vec![], vec![7], vec![6, 5, 6]]);
    assert_eq!(scatter(&mut buffers, &[]), 0);
    assert_eq!(buffers, vec![vec![9u8, 8], vec![], vec![7], vec![6, 5, 6]]);
    assert_eq!(scatter(&mut buffers, &[1, 1, 1, 1, 1, 1, 1, 1]), 6);
    assert_eq!(buffers, vec![vec![1u8, 1], vec![], vec![1], vec![1, 1, 1]]);
    let mut none: Vec<Vec<u8>> = Vec::new();
    assert_eq!(scatter(&mut none, &[1]), 0);
}

#[test]
fn scattered_inbound_calls_are_settled() {
    let mut buffers = vec![vec![0xaa, 0xbb], vec![0xcc, 0xdd, 0x00]];
    assert_eq!(apply_inbound_scattered(&PacketAction::Allow, &mut buffers, 4), 4);
    assert_eq!(apply_inbound_scattered(&PacketAction::Block, &mut buffers, 4), 0);
    assert_eq!(buffers, vec![vec![0xaa, 0xbb], vec![0xcc, 0xdd, 0x00]]);
    let mut store = RuleStore::new();
    store.add(rule("r", "aa ?? cc", "ff ee", TamperAction::Replace, HookType::WSARecv)).unwrap();
    let payload = gather_received(&buffers, 4);
    let fired = store.find_action(&payload, HookType::WSARecv);
    let count = settle_inbound_scattered(fired, Some(PacketAction::Allow), &mut buffers, 4);
    assert_eq!(count, 3);
    assert_eq!(buffers, vec![vec![0xff, 0xee], vec![0xdd, 0xdd, 0x00]]);
    assert_eq!(store.list()[0].hits, 1);
}

#[test]
fn a_count_of_no_bytes_is_left_alone() {
    assert_eq!(received_count(0), None);
    assert_eq!(received_count(1), Some(1));
    assert_eq!(received_count(4096), Some(4096));
    assert_eq!(received_count(u32::MAX), Some(u32::MAX as usize));
}
