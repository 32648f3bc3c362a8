use hook_dll_lib::hook::{DrivenHook, HookError, HookOp, HookPrimitive, NetworkHook};
use hook_dll_lib::manager::{CommandReport, HookCommand, NetworkHookManager};
use hook_dll_lib::rule::{HookType, TamperAction, TamperRule};
use hook_dll_lib::store::StoreError;

struct Stubborn;

impl HookPrimitive for Stubborn {
    fn perform(&mut self, _kind: HookType, op: HookOp) -> bool {
        op != HookOp::Install
    }
}

fn rule(id: &str) -> TamperRule {
    TamperRule {
        id: id.to_string(),
        name: String::new(),
        match_pattern: "00".to_string(),
        replace: String::new(),
        action: TamperAction::Block,
        active: true,
        hits: 3,
        hook: HookType::Recv,
    }
}

#[test]
fn the_loop_of_commands_ends_with_the_channel_only() {
    let mut manager = NetworkHookManager::new();
    manager.add_hook(DrivenHook::new(HookType::Send, Stubborn));
    let report = manager.serve(Some(HookCommand::Send(true)));
    assert_eq!(
        report,
        Some(CommandReport::HookSwitched {
            kind: HookType::Send,
            enable: true,
            result: Err(HookError::InstallationFailure),
        })
    );
    assert_eq!(
        manager.serve(Some(HookCommand::UpdateTamperRule(rule("a")))),
        Some(CommandReport::RuleUpdated(Err(StoreError::NotFound)))
    );
    assert_eq!(
        manager.serve(Some(HookCommand::AddTamperRule(rule("a")))),
        Some(CommandReport::RuleAdded(Ok(())))
    );
    assert_eq!(manager.serve(Some(HookCommand::ClearAllHits)), Some(CommandReport::HitsCleared));
    let mut cleared = rule("a");
    cleared.hits = 0;
    assert_eq!(
        manager.serve(Some(HookCommand::ListTamperRules)),
        Some(CommandReport::RulesListed(vec![cleared.clone()]))
    );
    assert_eq!(manager.serve(None), None);
    assert_eq!(manager.hook_count(), 1);
    assert!(!manager.hook(0).unwrap().is_enabled());
    assert_eq!(manager.list_tamper_rules(), vec![cleared]);
}
