use hook_dll_lib::hook::{
    failure, target_module, DrivenHook, HookError, HookInstance, HookOp, HookPrimitive, HookRequest,
    NetworkHook,
};
use hook_dll_lib::manager::{
    kind_of_name, CommandReport, HookCommand, HookFailure, NetworkHookManager,
};
use hook_dll_lib::rule::{HookType, PacketAction, TamperAction, TamperRule};
use hook_dll_lib::store::StoreError;

struct Recorder {
    performed: Vec<(HookType, HookOp)>,
    failing: Vec<HookOp>,
}

impl Recorder {
    fn new() -> Recorder {
        Recorder { performed: Vec::new(), failing: Vec::new() }
    }

    fn failing(ops: &[HookOp]) -> Recorder {
        Recorder { performed: Vec::new(), failing: ops.to_vec() }
    }
}

impl HookPrimitive for Recorder {
    fn perform(&mut self, kind: HookType, op: HookOp) -> bool {
        if self.failing.contains(&op) {
            return false;
        }
        self.performed.push((kind, op));
        true
    }
}

fn ops(hook: &DrivenHook<Recorder>) -> Vec<HookOp> {
    hook.primitive().performed.iter().map(|(_, op)| *op).collect()
}

fn rule(id: &str) -> TamperRule {
    TamperRule {
        id: id.to_string(),
        name: id.to_string(),
        match_pattern: "aa".to_string(),
        replace: "bb".to_string(),
        action: TamperAction::Replace,
        active: true,
        hits: 0,
        hook: HookType::Send,
    }
}

const KINDS: [HookType; 6] = [
    HookType::Send,
    HookType::Recv,
    HookType::SendTo,
    HookType::RecvFrom,
    HookType::WSASend,
    HookType::WSARecv,
];

fn full_manager(failing: &[HookOp]) -> NetworkHookManager<DrivenHook<Recorder>> {
    let mut manager = NetworkHookManager::new();
    for kind in KINDS {
        manager.add_hook(DrivenHook::new(kind, Recorder::failing(failing)));
    }
    manager
}

#[test]
fn a_new_hook_is_neither_installed_nor_enabled() {
    let hook = HookInstance::new(HookType::Recv);
    assert_eq!(hook.kind(), HookType::Recv);
    assert_eq!(hook.name(), "Recv");
    assert!(!hook.is_installed());
    assert!(!hook.is_enabled());
    assert_eq!(hook.next_op(HookRequest::Enable), Some(HookOp::Install));
    assert_eq!(hook.next_op(HookRequest::Disable), None);
    assert_eq!(hook.next_op(HookRequest::Cleanup), None);
}

#[test]
fn a_hook_goes_through_its_states() {
    let mut hook = HookInstance::new(HookType::Send);
    assert!(hook.record(HookOp::Install));
    assert!(hook.is_installed() && !hook.is_enabled());
    assert_eq!(hook.next_op(HookRequest::Enable), Some(HookOp::Activate));
    assert_eq!(hook.next_op(HookRequest::Disable), None);
    assert_eq!(hook.next_op(HookRequest::Cleanup), Some(HookOp::Remove));
    assert!(hook.record(HookOp::Activate));
    assert!(hook.is_installed() && hook.is_enabled());
    assert_eq!(hook.next_op(HookRequest::Enable), None);
    assert_eq!(hook.next_op(HookRequest::Disable), Some(HookOp::Deactivate));
    assert_eq!(hook.next_op(HookRequest::Cleanup), Some(HookOp::Deactivate));
    assert!(hook.record(HookOp::Deactivate));
    assert!(hook.is_installed() && !hook.is_enabled());
    assert!(hook.record(HookOp::Remove));
    assert!(!hook.is_installed() && !hook.is_enabled());
}

#[test]
fn an_operation_out_of_turn_is_not_recorded() {
    let mut hook = HookInstance::new(HookType::Send);
    for op in [HookOp::Activate, HookOp::Deactivate, HookOp::Remove] {
        assert!(!hook.record(op));
        assert_eq!(hook, HookInstance::new(HookType::Send));
    }
    assert!(hook.record(HookOp::Install));
    let installed = hook;
    for op in [HookOp::Install, HookOp::Deactivate] {
        assert!(!hook.record(op));
        assert_eq!(hook, installed);
    }
    assert!(hook.record(HookOp::Activate));
    let enabled = hook;
    for op in [HookOp::Install, HookOp::Activate, HookOp::Remove] {
        assert!(!hook.record(op));
        assert_eq!(hook, enabled);
    }
}

#[test]
fn each_operation_has_its_error() {
    assert_eq!(failure(HookOp::Install), HookError::InstallationFailure);
    assert_eq!(failure(HookOp::Activate), HookError::ActivationFailure);
    assert_eq!(failure(HookOp::Deactivate), HookError::DeactivationFailure);
    assert_eq!(failure(HookOp::Remove), HookError::RemovalFailure);
}

#[test]
fn each_kind_has_its_export() {
    assert_eq!(target_module(), "ws2_32");
    let exports = ["send", "recv", "sendto", "recvfrom", "WSASend", "WSARecv"];
    for (kind, export) in KINDS.iter().zip(exports) {
        assert_eq!(kind.export_name(), export);
    }
}

#[test]
fn enabling_installs_once_and_then_only_activates() {
    let mut hook = DrivenHook::new(HookType::Send, Recorder::new());
    assert_eq!(hook.name(), "Send");
    assert_eq!(hook.kind(), HookType::Send);
    assert!(!hook.is_enabled());
    assert_eq!(hook.enable(), Ok(()));
    assert!(hook.is_enabled() && hook.is_installed());
    assert_eq!(ops(&hook), [HookOp::Install, HookOp::Activate]);
    assert_eq!(hook.enable(), Ok(()));
    assert_eq!(ops(&hook), [HookOp::Install, HookOp::Activate]);
    assert_eq!(hook.disable(), Ok(()));
    assert!(!hook.is_enabled() && hook.is_installed());
    assert_eq!(hook.disable(), Ok(()));
    assert_eq!(hook.enable(), Ok(()));
    assert_eq!(
        ops(&hook),
        [HookOp::Install, HookOp::Activate, HookOp::Deactivate, HookOp::Activate]
    );
    assert!(hook.primitive().performed.iter().all(|(kind, _)| *kind == HookType::Send));
}

#[test]
fn cleaning_up_disables_and_removes() {
    let mut hook = DrivenHook::new(HookType::WSARecv, Recorder::new());
    assert_eq!(hook.cleanup(), Ok(()));
    assert!(ops(&hook).is_empty());
    hook.enable().unwrap();
    assert_eq!(hook.cleanup(), Ok(()));
    assert!(!hook.is_enabled() && !hook.is_installed());
    assert_eq!(
        ops(&hook),
        [HookOp::Install, HookOp::Activate, HookOp::Deactivate, HookOp::Remove]
    );
    hook.enable().unwrap();
    hook.disable().unwrap();
    assert_eq!(hook.request(HookRequest::Cleanup), Ok(()));
    assert!(!hook.is_installed());
}

#[test]
fn a_failed_installation_leaves_the_hook_as_it_was() {
    let mut hook = DrivenHook::new(HookType::Send, Recorder::failing(&[HookOp::Install]));
    assert_eq!(hook.enable(), Err(HookError::InstallationFailure));
    assert!(!hook.is_enabled() && !hook.is_installed());
    assert!(ops(&hook).is_empty());
}

#[test]
fn a_failed_activation_leaves_the_hook_installed() {
    let mut hook = DrivenHook::new(HookType::Send, Recorder::failing(&[HookOp::Activate]));
    assert_eq!(hook.enable(), Err(HookError::ActivationFailure));
    assert!(!hook.is_enabled() && hook.is_installed());
    assert_eq!(hook.enable(), Err(HookError::ActivationFailure));
    assert_eq!(ops(&hook), [HookOp::Install]);
}

#[test]
fn a_failed_deactivation_leaves_the_hook_enabled() {
    let mut hook = DrivenHook::new(HookType::Send, Recorder::failing(&[HookOp::Deactivate]));
    hook.enable().unwrap();
    assert_eq!(hook.disable(), Err(HookError::DeactivationFailure));
    assert!(hook.is_enabled());
    assert_eq!(hook.cleanup(), Err(HookError::DeactivationFailure));
    assert!(hook.is_enabled() && hook.is_installed());
}

#[test]
fn a_failed_removal_leaves_the_hook_disabled() {
    let mut hook = DrivenHook::new(HookType::Send, Recorder::failing(&[HookOp::Remove]));
    hook.enable().unwrap();
    assert_eq!(hook.cleanup(), Err(HookError::RemovalFailure));
    assert!(!hook.is_enabled() && hook.is_installed());
}

#[test]
fn hooks_are_filed_by_name() {
    for kind in KINDS {
        assert_eq!(kind_of_name(kind.name()), Some(kind));
    }
    for name in ["", "send", "SEND", "Send ", "WSA", "Sendto"] {
        assert_eq!(kind_of_name(name), None);
    }
    let mut manager = NetworkHookManager::new();
    assert_eq!(manager.hook_count(), 0);
    for kind in KINDS {
        assert_eq!(manager.hook_index(kind), None);
    }
    manager.add_hook(DrivenHook::new(HookType::Recv, Recorder::new()));
    manager.add_hook(DrivenHook::new(HookType::Send, Recorder::new()));
    manager.add_hook(DrivenHook::new(HookType::Recv, Recorder::new()));
    assert_eq!(manager.hook_count(), 3);
    assert_eq!(manager.hook_index(HookType::Recv), Some(2));
    assert_eq!(manager.hook_index(HookType::Send), Some(1));
    assert_eq!(manager.hook_index(HookType::WSASend), None);
    assert_eq!(manager.hook(1).unwrap().kind(), HookType::Send);
    assert!(manager.hook(3).is_none());
}

#[test]
fn all_hooks_are_enabled_and_disabled() {
    let mut manager = full_manager(&[]);
    assert!(manager.enable_all().is_empty());
    for i in 0..6 {
        assert!(manager.hook(i).unwrap().is_enabled());
    }
    assert!(manager.disable_all().is_empty());
    for i in 0..6 {
        let hook = manager.hook(i).unwrap();
        assert!(!hook.is_enabled() && hook.is_installed());
    }
}

#[test]
fn a_hook_that_fails_does_not_keep_the_others_from_being_enabled() {
    let mut manager = NetworkHookManager::new();
    manager.add_hook(DrivenHook::new(HookType::Send, Recorder::new()));
    manager.add_hook(DrivenHook::new(HookType::Recv, Recorder::failing(&[HookOp::Install])));
    manager.add_hook(DrivenHook::new(HookType::SendTo, Recorder::new()));
    manager.add_hook(DrivenHook::new(HookType::RecvFrom, Recorder::failing(&[HookOp::Activate])));
    let failures = manager.enable_all();
    assert_eq!(
        failures,
        vec![
            HookFailure { index: 1, error: HookError::InstallationFailure },
            HookFailure { index: 3, error: HookError::ActivationFailure },
        ]
    );
    let enabled: Vec<bool> = (0..4).map(|i| manager.hook(i).unwrap().is_enabled()).collect();
    assert_eq!(enabled, [true, false, true, false]);
}

#[test]
fn a_hook_that_fails_does_not_keep_the_others_from_being_disabled() {
    let mut manager = NetworkHookManager::new();
    manager.add_hook(DrivenHook::new(HookType::Send, Recorder::failing(&[HookOp::Deactivate])));
    manager.add_hook(DrivenHook::new(HookType::Recv, Recorder::new()));
    assert!(manager.enable_all().is_empty());
    let failures = manager.disable_all();
    assert_eq!(failures, vec![HookFailure { index: 0, error: HookError::DeactivationFailure }]);
    assert!(manager.hook(0).unwrap().is_enabled());
    assert!(!manager.hook(1).unwrap().is_enabled());
}

#[test]
fn cleaning_up_lets_go_of_all_hooks() {
    let mut manager = full_manager(&[HookOp::Remove]);
    manager.add_tamper_rule(rule("a")).unwrap();
    assert!(manager.enable_all().is_empty());
    let failures = manager.cleanup_all();
    assert_eq!(failures.len(), 6);
    for (i, failure) in failures.iter().enumerate() {
        assert_eq!(*failure, HookFailure { index: i, error: HookError::RemovalFailure });
    }
    assert_eq!(manager.hook_count(), 0);
    for kind in KINDS {
        assert_eq!(manager.hook_index(kind), None);
    }
    assert_eq!(manager.enable_send(), Ok(()));
    assert_eq!(manager.list_tamper_rules(), vec![rule("a")]);
    let mut clean = full_manager(&[]);
    clean.enable_all();
    assert!(clean.cleanup_all().is_empty());
}

#[test]
fn each_hook_is_switched_by_its_own_method() {
    let mut manager = full_manager(&[]);
    let enabled = |m: &NetworkHookManager<DrivenHook<Recorder>>| -> Vec<bool> {
        (0..6).map(|i| m.hook(i).unwrap().is_enabled()).collect()
    };
    assert_eq!(manager.enable_send(), Ok(()));
    assert_eq!(enabled(&manager), [true, false, false, false, false, false]);
    assert_eq!(manager.enable_recv(), Ok(()));
    assert_eq!(enabled(&manager), [true, true, false, false, false, false]);
    assert_eq!(manager.enable_sendto(), Ok(()));
    assert_eq!(manager.enable_recvfrom(), Ok(()));
    assert_eq!(manager.enable_wsasend(), Ok(()));
    assert_eq!(enabled(&manager), [true, true, true, true, true, false]);
    assert_eq!(manager.enable_wsarecv(), Ok(()));
    assert_eq!(enabled(&manager), [true; 6]);
    assert_eq!(manager.disable_sendto(), Ok(()));
    assert_eq!(enabled(&manager), [true, true, false, true, true, true]);
    assert_eq!(manager.disable_send(), Ok(()));
    assert_eq!(manager.disable_recv(), Ok(()));
    assert_eq!(manager.disable_recvfrom(), Ok(()));
    assert_eq!(manager.disable_wsasend(), Ok(()));
    assert_eq!(enabled(&manager), [false, false, false, false, false, true]);
    assert_eq!(manager.disable_wsarecv(), Ok(()));
    assert_eq!(enabled(&manager), [false; 6]);
}

#[test]
fn switching_a_hook_that_is_not_there_succeeds() {
    let mut manager: NetworkHookManager<DrivenHook<Recorder>> = NetworkHookManager::new();
    assert_eq!(manager.enable_wsasend(), Ok(()));
    assert_eq!(manager.disable_recv(), Ok(()));
    assert_eq!(manager.switch_hook(HookType::Send, true), Ok(()));
    assert!(manager.enable_all().is_empty());
}

#[test]
fn a_switch_that_fails_is_reported() {
    let mut manager = full_manager(&[HookOp::Activate]);
    assert_eq!(manager.enable_wsasend(), Err(HookError::ActivationFailure));
    assert_eq!(
        manager.handle_command(HookCommand::WSASend(true)),
        CommandReport::HookSwitched {
            kind: HookType::WSASend,
            enable: true,
            result: Err(HookError::ActivationFailure),
        }
    );
    assert!(!manager.hook(4).unwrap().is_enabled());
}

#[test]
fn commands_switch_hooks() {
    let mut manager = full_manager(&[]);
    let commands = [
        (HookCommand::Send(true), HookType::Send, 0),
        (HookCommand::Recv(true), HookType::Recv, 1),
        (HookCommand::SendTo(true), HookType::SendTo, 2),
        (HookCommand::RecvFrom(true), HookType::RecvFrom, 3),
        (HookCommand::WSASend(true), HookType::WSASend, 4),
        (HookCommand::WSARecv(true), HookType::WSARecv, 5),
    ];
    for (command, kind, index) in commands {
        let report = manager.handle_command(command);
        assert_eq!(report, CommandReport::HookSwitched { kind, enable: true, result: Ok(()) });
        assert!(manager.hook(index).unwrap().is_enabled());
    }
    let report = manager.handle_command(HookCommand::Recv(false));
    assert_eq!(
        report,
        CommandReport::HookSwitched { kind: HookType::Recv, enable: false, result: Ok(()) }
    );
    assert!(!manager.hook(1).unwrap().is_enabled());
    assert!(manager.hook(0).unwrap().is_enabled());
}

#[test]
fn commands_keep_the_rules() {
    let mut manager = full_manager(&[]);
    assert_eq!(manager.handle_command(HookCommand::AddTamperRule(rule("a"))), CommandReport::RuleAdded(Ok(())));
    assert_eq!(manager.handle_command(HookCommand::AddTamperRule(rule("b"))), CommandReport::RuleAdded(Ok(())));
    assert_eq!(
        manager.handle_command(HookCommand::AddTamperRule(rule("a"))),
        CommandReport::RuleAdded(Err(StoreError::DuplicateId))
    );
    assert_eq!(
        manager.handle_command(HookCommand::ListTamperRules),
        CommandReport::RulesListed(vec![rule("a"), rule("b")])
    );
    assert_eq!(
        manager.handle_command(HookCommand::DisableTamperRule("a".to_string())),
        CommandReport::RuleDisabled(Ok(()))
    );
    assert!(!manager.list_tamper_rules()[0].active);
    assert_eq!(
        manager.handle_command(HookCommand::EnableTamperRule("a".to_string())),
        CommandReport::RuleEnabled(Ok(()))
    );
    assert!(manager.list_tamper_rules()[0].active);
    assert_eq!(
        manager.handle_command(HookCommand::EnableTamperRule("x".to_string())),
        CommandReport::RuleEnabled(Err(StoreError::NotFound))
    );
    assert_eq!(
        manager.handle_command(HookCommand::DisableTamperRule("x".to_string())),
        CommandReport::RuleDisabled(Err(StoreError::NotFound))
    );
    let mut changed = rule("b");
    changed.hits = 4;
    changed.match_pattern = "cc".to_string();
    assert_eq!(
        manager.handle_command(HookCommand::UpdateTamperRule(changed.clone())),
        CommandReport::RuleUpdated(Ok(()))
    );
    assert_eq!(
        manager.handle_command(HookCommand::UpdateTamperRule(rule("x"))),
        CommandReport::RuleUpdated(Err(StoreError::NotFound))
    );
    assert_eq!(manager.list_tamper_rules(), vec![rule("a"), changed]);
    assert_eq!(manager.handle_command(HookCommand::ClearAllHits), CommandReport::HitsCleared);
    assert_eq!(manager.list_tamper_rules()[1].hits, 0);
    assert_eq!(
        manager.handle_command(HookCommand::RemoveTamperRule("a".to_string())),
        CommandReport::RuleRemoved(Ok(()))
    );
    assert_eq!(
        manager.handle_command(HookCommand::RemoveTamperRule("a".to_string())),
        CommandReport::RuleRemoved(Ok(()))
    );
    assert_eq!(manager.list_tamper_rules().len(), 1);
    assert_eq!(manager.get_rules().len(), 1);
    for i in 0..6 {
        assert!(!manager.hook(i).unwrap().is_enabled());
    }
}

#[test]
fn the_manager_keeps_rules_as_the_store_does() {
    let mut manager = full_manager(&[]);
    assert_eq!(manager.add_tamper_rule(rule("a")), Ok(()));
    assert_eq!(manager.add_tamper_rule(rule("a")), Err(StoreError::DuplicateId));
    assert_eq!(manager.update_tamper_rule(rule("b")), Err(StoreError::NotFound));
    assert_eq!(manager.enable_tamper_rule("b"), Err(StoreError::NotFound));
    assert_eq!(manager.disable_tamper_rule("a"), Ok(()));
    assert_eq!(manager.remove_tamper_rule("b"), Ok(()));
    let mut expected = rule("a");
    expected.active = false;
    assert_eq!(manager.list_tamper_rules(), vec![expected]);
    manager.clear_all_hits();
    assert_eq!(manager.remove_tamper_rule("a"), Ok(()));
    assert!(manager.list_tamper_rules().is_empty());
}

#[test]
fn rules_are_applied_without_counting() {
    let mut first = rule("a");
    first.active = false;
    let mut second = rule("b");
    second.hook = HookType::Recv;
    let mut third = rule("c");
    third.replace = "xyz".to_string();
    let mut fourth = rule("d");
    fourth.action = TamperAction::Block;
    let rules = vec![first, second, third, fourth];
    let found = NetworkHookManager::<DrivenHook<Recorder>>::apply_rules(&[0x01, 0xaa], HookType::Send, &rules);
    assert_eq!(found, Some((2, PacketAction::Replace(b"xyz".to_vec()))));
    let found = NetworkHookManager::<DrivenHook<Recorder>>::apply_rules(&[0xaa], HookType::Recv, &rules);
    assert_eq!(found, Some((1, PacketAction::Replace(b"bb".to_vec()))));
    let found = NetworkHookManager::<DrivenHook<Recorder>>::apply_rules(&[0xab], HookType::Send, &rules);
    assert_eq!(found, None);
    let found = NetworkHookManager::<DrivenHook<Recorder>>::apply_rules(&[0xaa], HookType::Send, &rules[3..]);
    assert_eq!(found, Some((0, PacketAction::Block)));
    assert!(rules.iter().all(|r| r.hits == 0));
}

#[test]
fn cleaning_up_a_hook_that_holds_nothing_succeeds() {
    let every = [HookOp::Install, HookOp::Activate, HookOp::Deactivate, HookOp::Remove];
    let mut hook = DrivenHook::new(HookType::Recv, Recorder::failing(&every));
    assert_eq!(hook.cleanup(), Ok(()));
    assert!(!hook.is_enabled() && !hook.is_installed());
    let mut manager = full_manager(&every);
    assert_eq!(manager.enable_all().len(), 6);
    assert!(manager.cleanup_all().is_empty());
    assert_eq!(manager.hook_count(), 0);
}

#[test]
fn cleaning_up_never_installs_or_enables() {
    let mut hook = DrivenHook::new(HookType::Send, Recorder::failing(&[HookOp::Remove]));
    hook.enable().unwrap();
    hook.disable().unwrap();
    assert_eq!(hook.cleanup(), Err(HookError::RemovalFailure));
    assert!(hook.is_installed() && !hook.is_enabled());
    assert_eq!(
        ops(&hook),
        [HookOp::Install, HookOp::Activate, HookOp::Deactivate]
    );
}

#[test]
fn every_failure_is_that_of_a_hook_of_the_manager() {
    let every = [HookOp::Install, HookOp::Activate, HookOp::Deactivate, HookOp::Remove];
    let mut none: NetworkHookManager<DrivenHook<Recorder>> = NetworkHookManager::new();
    assert!(none.enable_all().is_empty());
    assert!(none.disable_all().is_empty());
    assert!(none.cleanup_all().is_empty());
    let mut manager = full_manager(&every);
    for failure in manager.enable_all() {
        assert!(failure.index < 6);
        assert_eq!(failure.error, HookError::InstallationFailure);
    }
    assert!(manager.disable_all().is_empty());
}

#[test]
fn cleaning_up_reports_the_hooks_that_could_not_be_let_go() {
    let mut manager = NetworkHookManager::new();
    manager.add_hook(DrivenHook::new(HookType::Send, Recorder::new()));
    manager.add_hook(DrivenHook::new(HookType::Recv, Recorder::failing(&[HookOp::Deactivate])));
    manager.add_hook(DrivenHook::new(HookType::SendTo, Recorder::failing(&[HookOp::Remove])));
    manager.add_hook(DrivenHook::new(HookType::RecvFrom, Recorder::failing(&[HookOp::Remove])));
    assert!(manager.enable_send().is_ok());
    assert!(manager.enable_recv().is_ok());
    assert!(manager.enable_sendto().is_ok());
    let failures = manager.cleanup_all();
    assert_eq!(
        failures,
        vec![
            HookFailure { index: 1, error: HookError::DeactivationFailure },
            HookFailure { index: 2, error: HookError::RemovalFailure },
        ]
    );
    assert_eq!(manager.hook_count(), 0);
}
