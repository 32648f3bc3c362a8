//! Hook instances: one per intercepted call.
//!
//! A hook is put in place by a hook primitive that the library does not
//! contain: something that can install a trampoline at an export of
//! `ws2_32`, activate it, deactivate it and remove it again. The library
//! keeps the state of each hook and decides which of these operations a
//! request needs next; its embedding carries the operation out and reports
//! back when it succeeded.

use crate::rule::HookType;
use vstd::prelude::*;

verus! {

/// The module whose exports are intercepted.
pub open spec fn spec_target_module() -> Seq<char> {
    "ws2_32"@
}

/// The module whose exports are intercepted.
pub fn target_module() -> (r: &'static str)
    ensures
        r@ == spec_target_module(),
{
    "ws2_32"
}

impl HookType {
    /// The export of `ws2_32` that a hook of this kind intercepts.
    pub open spec fn spec_export_name(self) -> Seq<char> {
        match self {
            HookType::Send => "send"@,
            HookType::Recv => "recv"@,
            HookType::SendTo => "sendto"@,
            HookType::RecvFrom => "recvfrom"@,
            HookType::WSASend => "WSASend"@,
            HookType::WSARecv => "WSARecv"@,
        }
    }

    /// The export of `ws2_32` that a hook of this kind intercepts.
    pub fn export_name(self) -> (r: &'static str)
        ensures
            r@ == self.spec_export_name(),
    {
        match self {
            HookType::Send => "send",
            HookType::Recv => "recv",
            HookType::SendTo => "sendto",
            HookType::RecvFrom => "recvfrom",
            HookType::WSASend => "WSASend",
            HookType::WSARecv => "WSARecv",
        }
    }
}

/// What can be asked of a hook.
#[derive(Clone, Copy, Debug, PartialEq, Eq, Structural)]
pub enum HookRequest {
    /// Intercept the call from now on.
    Enable,
    /// Stop intercepting the call; the trampoline stays in place.
    Disable,
    /// Stop intercepting the call and take the trampoline away.
    Cleanup,
}

/// An operation of the hook primitive.
#[derive(Clone, Copy, Debug, PartialEq, Eq, Structural)]
pub enum HookOp {
    /// Place the trampoline at the export, without activating it.
    Install,
    /// Activate the trampoline.
    Activate,
    /// Deactivate the trampoline.
    Deactivate,
    /// Take the trampoline away.
    Remove,
}

/// Why a hook could not do what was asked: the operation of the hook
/// primitive that failed.
#[derive(Clone, Copy, Debug, PartialEq, Eq, Structural)]
pub enum HookError {
    InstallationFailure,
    ActivationFailure,
    DeactivationFailure,
    RemovalFailure,
}

/// The error that stands for the failure of an operation.
pub open spec fn failure_of(op: HookOp) -> HookError {
    match op {
        HookOp::Install => HookError::InstallationFailure,
        HookOp::Activate => HookError::ActivationFailure,
        HookOp::Deactivate => HookError::DeactivationFailure,
        HookOp::Remove => HookError::RemovalFailure,
    }
}

/// Names the error that stands for the failure of an operation.
pub fn failure(op: HookOp) -> (r: HookError)
    ensures
        r == failure_of(op),
{
    match op {
        HookOp::Install => HookError::InstallationFailure,
        HookOp::Activate => HookError::ActivationFailure,
        HookOp::Deactivate => HookError::DeactivationFailure,
        HookOp::Remove => HookError::RemovalFailure,
    }
}

/// The state of a hook.
#[derive(Clone, Copy, Debug, PartialEq, Eq, Structural)]
pub struct HookInstance {
    kind: HookType,
    installed: bool,
    enabled: bool,
}

/// The state of a hook as a mathematical value.
pub struct HookModel {
    pub kind: HookType,
    /// The trampoline is in place.
    pub installed: bool,
    /// The trampoline is active: calls are intercepted.
    pub enabled: bool,
}

/// The invariant of a hook: only an installed hook is enabled.
pub open spec fn consistent(hook: HookModel) -> bool {
    hook.enabled ==> hook.installed
}

/// Whether a hook is in a state in which the operation can be carried out.
pub open spec fn admits(hook: HookModel, op: HookOp) -> bool {
    match op {
        HookOp::Install => !hook.installed,
        HookOp::Activate => hook.installed && !hook.enabled,
        HookOp::Deactivate => hook.enabled,
        HookOp::Remove => hook.installed && !hook.enabled,
    }
}

/// The state of a hook after an operation succeeded.
pub open spec fn after(hook: HookModel, op: HookOp) -> HookModel {
    match op {
        HookOp::Install => HookModel { installed: true, ..hook },
        HookOp::Activate => HookModel { enabled: true, ..hook },
        HookOp::Deactivate => HookModel { enabled: false, ..hook },
        HookOp::Remove => HookModel { installed: false, ..hook },
    }
}

/// Whether a hook is in the state that the request asks for.
pub open spec fn meets(hook: HookModel, request: HookRequest) -> bool {
    match request {
        HookRequest::Enable => hook.enabled,
        HookRequest::Disable => !hook.enabled,
        HookRequest::Cleanup => !hook.enabled && !hook.installed,
    }
}

/// The operation that a request needs next, if it needs one.
///
/// Enabling a hook installs it first where it is not installed, then
/// activates it. Disabling deactivates an enabled hook. Cleaning up
/// deactivates an enabled hook, then removes an installed one.
pub open spec fn next_op_of(hook: HookModel, request: HookRequest) -> Option<HookOp> {
    match request {
        HookRequest::Enable => if hook.enabled {
            None
        } else if !hook.installed {
            Some(HookOp::Install)
        } else {
            Some(HookOp::Activate)
        },
        HookRequest::Disable => if hook.enabled {
            Some(HookOp::Deactivate)
        } else {
            None
        },
        HookRequest::Cleanup => if hook.enabled {
            Some(HookOp::Deactivate)
        } else if hook.installed {
            Some(HookOp::Remove)
        } else {
            None
        },
    }
}

impl View for HookInstance {
    type V = HookModel;

    closed spec fn view(&self) -> HookModel {
        HookModel { kind: self.kind, installed: self.installed, enabled: self.enabled }
    }
}

impl HookInstance {
    /// The invariant of a hook.
    pub open spec fn wf(&self) -> bool {
        consistent(self@)
    }

    /// A hook for calls of one kind, neither installed nor enabled.
    pub fn new(kind: HookType) -> (r: Self)
        ensures
            r@ == (HookModel { kind, installed: false, enabled: false }),
            r.wf(),
    {
        HookInstance { kind, installed: false, enabled: false }
    }

    /// The kind of call that the hook intercepts.
    pub fn kind(&self) -> (r: HookType)
        ensures
            r == self@.kind,
    {
        self.kind
    }

    /// The name of the hook, which is that of its kind.
    pub fn name(&self) -> (r: &'static str)
        ensures
            r@ == self@.kind.spec_name(),
    {
        self.kind.name()
    }

    /// Whether the trampoline is in place.
    pub fn is_installed(&self) -> (r: bool)
        ensures
            r == self@.installed,
    {
        self.installed
    }

    /// Whether calls are intercepted.
    pub fn is_enabled(&self) -> (r: bool)
        ensures
            r == self@.enabled,
    {
        self.enabled
    }

    /// The operation that the request needs next; `None` when the hook is
    /// in the state that the request asks for.
    pub fn next_op(&self, request: HookRequest) -> (r: Option<HookOp>)
        ensures
            r == next_op_of(self@, request),
    {
        match request {
            HookRequest::Enable => if self.enabled {
                None
            } else if !self.installed {
                Some(HookOp::Install)
            } else {
                Some(HookOp::Activate)
            },
            HookRequest::Disable => if self.enabled {
                Some(HookOp::Deactivate)
            } else {
                None
            },
            HookRequest::Cleanup => if self.enabled {
                Some(HookOp::Deactivate)
            } else if self.installed {
                Some(HookOp::Remove)
            } else {
                None
            },
        }
    }

    /// Records that the hook primitive has carried out an operation.
    ///
    /// Tells whether the hook was in a state that admits the operation; if
    /// it was not, nothing is recorded.
    pub fn record(&mut self, op: HookOp) -> (r: bool)
        requires
            old(self).wf(),
        ensures
            final(self).wf(),
            r == admits(old(self)@, op),
            final(self)@ == if r {
                after(old(self)@, op)
            } else {
                old(self)@
            },
    {
        match op {
            HookOp::Install => {
                if self.installed {
                    return false;
                }
                self.installed = true;
            },
            HookOp::Activate => {
                if !self.installed || self.enabled {
                    return false;
                }
                self.enabled = true;
            },
            HookOp::Deactivate => {
                if !self.enabled {
                    return false;
                }
                self.enabled = false;
            },
            HookOp::Remove => {
                if !self.installed || self.enabled {
                    return false;
                }
                self.installed = false;
            },
        }
        true
    }
}

/// The number of operations that a request still needs.
pub open spec fn distance(hook: HookModel, request: HookRequest) -> nat {
    match request {
        HookRequest::Enable => if hook.enabled {
            0
        } else if hook.installed {
            1
        } else {
            2
        },
        HookRequest::Disable => if hook.enabled {
            1
        } else {
            0
        },
        HookRequest::Cleanup => if hook.enabled {
            2
        } else if hook.installed {
            1
        } else {
            0
        },
    }
}

/// The state of a hook after the next `steps` operations of a request
/// succeeded, or as many as the request needs if it needs fewer.
pub open spec fn advanced(hook: HookModel, request: HookRequest, steps: nat) -> HookModel
    decreases steps,
{
    if steps == 0 {
        hook
    } else {
        match next_op_of(hook, request) {
            Some(op) => advanced(after(hook, op), request, (steps - 1) as nat),
            None => hook,
        }
    }
}

/// How a request can end.
///
/// The hook has gone some of the way that the request prescribes. Where
/// the request succeeded, the hook is in the state it asks for. Where it
/// failed, the error names the operation that the request needs next: the
/// one that the hook primitive could not carry out.
pub open spec fn outcome(
    before: HookModel,
    request: HookRequest,
    result: Result<(), HookError>,
    now: HookModel,
) -> bool {
    &&& exists|steps: nat| steps <= 2 && now == #[trigger] advanced(before, request, steps)
    &&& match result {
        Ok(_) => meets(now, request),
        Err(e) => next_op_of(now, request) matches Some(op) && e == failure_of(op),
    }
}

/// The hook primitive: what installs, activates, deactivates and removes
/// the trampoline of a call. Nothing is assumed of it; a hook that is
/// driven through it goes by what it reports.
pub trait HookPrimitive {
    /// Carries out one operation on the trampoline for calls of `kind`,
    /// and tells whether it succeeded.
    fn perform(&mut self, kind: HookType, op: HookOp) -> bool;
}

/// A hook together with the hook primitive that puts it in place.
pub struct DrivenHook<P: HookPrimitive> {
    state: HookInstance,
    primitive: P,
}

impl<P: HookPrimitive> DrivenHook<P> {
    /// The state of the hook.
    pub closed spec fn state(&self) -> HookModel {
        self.state@
    }

    /// The invariant of the hook.
    pub open spec fn wf(&self) -> bool {
        consistent(self.state())
    }

    /// A hook for calls of one kind, neither installed nor enabled.
    pub fn new(kind: HookType, primitive: P) -> (r: Self)
        ensures
            r.state() == (HookModel { kind, installed: false, enabled: false }),
            r.wf(),
    {
        DrivenHook { state: HookInstance::new(kind), primitive }
    }

    /// The kind of call that the hook intercepts.
    pub fn kind(&self) -> (r: HookType)
        ensures
            r == self.state().kind,
    {
        self.state.kind()
    }

    /// Whether the trampoline is in place.
    pub fn is_installed(&self) -> (r: bool)
        ensures
            r == self.state().installed,
    {
        self.state.is_installed()
    }

    /// The hook primitive.
    pub closed spec fn spec_primitive(&self) -> P {
        self.primitive
    }

    /// The hook primitive.
    pub fn primitive(&self) -> (r: &P)
        ensures
            *r == self.spec_primitive(),
    {
        &self.primitive
    }

    /// Carries a request through: asks the hook primitive for one
    /// operation after the other, as long as the request needs one and
    /// none has failed.
    pub fn request(&mut self, request: HookRequest) -> (r: Result<(), HookError>)
        requires
            old(self).wf(),
        ensures
            final(self).wf(),
            outcome(old(self).state(), request, r, final(self).state()),
    {
        let ghost mut steps: nat = 0;
        loop
            invariant
                self.wf(),
                steps + distance(self.state(), request) <= 2,
                self.state() == advanced(old(self).state(), request, steps),
            decreases distance(self.state(), request),
        {
            match self.state.next_op(request) {
                None => {
                    return Ok(());
                },
                Some(op) => {
                    if !self.primitive.perform(self.state.kind(), op) {
                        return Err(failure(op));
                    }
                    let _ = self.state.record(op);
                    proof {
                        lemma_advanced_step(old(self).state(), request, steps);
                        steps = steps + 1;
                    }
                },
            }
        }
    }
}

/// One more successful operation takes a hook from where `steps`
/// operations took it to where `steps + 1` take it.
proof fn lemma_advanced_step(hook: HookModel, request: HookRequest, steps: nat)
    ensures
        advanced(hook, request, steps + 1) == match next_op_of(
            advanced(hook, request, steps),
            request,
        ) {
            Some(op) => after(advanced(hook, request, steps), op),
            None => advanced(hook, request, steps),
        },
    decreases steps,
{
    reveal_with_fuel(advanced, 2);
    if steps > 0 {
        match next_op_of(hook, request) {
            Some(op) => {
                lemma_advanced_step(after(hook, op), request, (steps - 1) as nat);
                assert(advanced(hook, request, steps + 1) == advanced(
                    after(hook, op),
                    request,
                    steps,
                ));
            },
            None => {},
        }
    }
}

impl<P: HookPrimitive> NetworkHook for DrivenHook<P> {
    open spec fn hook_name(&self) -> Seq<char> {
        self.state().kind.spec_name()
    }

    open spec fn enabled(&self) -> bool {
        self.state().enabled
    }

    open spec fn installed(&self) -> bool {
        self.state().installed
    }

    open spec fn upright(&self) -> bool {
        self.wf()
    }

    fn name(&self) -> (r: &'static str) {
        self.state.name()
    }

    /// Enables the hook: installs it first if it was never installed,
    /// then activates it. An enabled hook is left as it is.
    fn enable(&mut self) -> (r: Result<(), HookError>)
        ensures
            outcome(old(self).state(), HookRequest::Enable, r, final(self).state()),
    {
        let r = self.request(HookRequest::Enable);
        proof {
            lemma_kind_kept(old(self).state(), HookRequest::Enable);
        }
        r
    }

    /// Disables the hook: deactivates it if it is enabled. It stays installed.
    fn disable(&mut self) -> (r: Result<(), HookError>)
        ensures
            outcome(old(self).state(), HookRequest::Disable, r, final(self).state()),
    {
        let r = self.request(HookRequest::Disable);
        proof {
            lemma_kind_kept(old(self).state(), HookRequest::Disable);
        }
        r
    }

    fn is_enabled(&self) -> (r: bool) {
        self.state.is_enabled()
    }

    /// Cleans the hook up: deactivates it if it is enabled, then removes
    /// it if it is installed.
    fn cleanup(&mut self) -> (r: Result<(), HookError>)
        ensures
            outcome(old(self).state(), HookRequest::Cleanup, r, final(self).state()),
    {
        let r = self.request(HookRequest::Cleanup);
        proof {
            lemma_kind_kept(old(self).state(), HookRequest::Cleanup);
            lemma_cleanup_outcome(old(self).state(), r, self.state());
        }
        r
    }
}

/// No operation changes the kind of a hook.
pub proof fn lemma_kind_kept(hook: HookModel, request: HookRequest)
    ensures
        forall|steps: nat| (#[trigger] advanced(hook, request, steps)).kind == hook.kind,
{
    assert forall|steps: nat| (#[trigger] advanced(hook, request, steps)).kind == hook.kind by {
        lemma_kind_kept_at(hook, request, steps);
    }
}

/// No operation changes the kind of a hook.
proof fn lemma_kind_kept_at(hook: HookModel, request: HookRequest, steps: nat)
    ensures
        advanced(hook, request, steps).kind == hook.kind,
    decreases steps,
{
    if steps > 0 {
        match next_op_of(hook, request) {
            Some(op) => lemma_kind_kept_at(after(hook, op), request, (steps - 1) as nat),
            None => {},
        }
    }
}

/// An operation that a hook admits leaves it consistent: a hook is never
/// enabled without being installed.
pub proof fn lemma_consistency_kept(hook: HookModel, op: HookOp)
    requires
        consistent(hook),
        admits(hook, op),
    ensures
        consistent(after(hook, op)),
        after(hook, op).kind == hook.kind,
{
}

/// The operation that a request needs next is one that the hook admits,
/// and brings the request one operation nearer to its end.
pub proof fn lemma_next_op_admitted(hook: HookModel, request: HookRequest)
    requires
        consistent(hook),
    ensures
        next_op_of(hook, request) matches Some(op) ==> admits(hook, op) && distance(
            after(hook, op),
            request,
        ) + 1 == distance(hook, request),
        next_op_of(hook, request) is None <==> meets(hook, request),
        next_op_of(hook, request) is None <==> distance(hook, request) == 0,
{
}

/// A hook is installed once: while it stays installed, no request to
/// enable or to disable it installs or removes anything; such requests
/// change nothing but whether the hook is enabled.
pub proof fn lemma_installed_once(hook: HookModel, request: HookRequest, steps: nat)
    requires
        consistent(hook),
        hook.installed,
        request != HookRequest::Cleanup,
    ensures
        next_op_of(hook, request) != Some(HookOp::Install),
        next_op_of(hook, request) != Some(HookOp::Remove),
        advanced(hook, request, steps).installed,
        advanced(hook, request, steps).kind == hook.kind,
    decreases steps,
{
    if steps > 0 {
        match next_op_of(hook, request) {
            Some(op) => lemma_installed_once(after(hook, op), request, (steps - 1) as nat),
            None => {},
        }
    }
}

/// How enabling a hook can end.
///
/// An enabled hook stays as it is. Any other is enabled and installed
/// where the request succeeds. Where the installation fails, the hook is
/// as it was: not installed and not enabled. Where the activation fails,
/// the hook is installed and not enabled.
pub proof fn lemma_enable_outcome(before: HookModel, result: Result<(), HookError>, now: HookModel)
    requires
        consistent(before),
        outcome(before, HookRequest::Enable, result, now),
    ensures
        consistent(now),
        now.kind == before.kind,
        before.enabled ==> result is Ok && now == before,
        result is Ok ==> now.enabled && now.installed,
        result is Err ==> !now.enabled,
        result matches Err(e) ==> e == HookError::InstallationFailure || e
            == HookError::ActivationFailure,
        result == Err::<(), HookError>(HookError::InstallationFailure) ==> now == before
            && !before.installed,
        result == Err::<(), HookError>(HookError::ActivationFailure) ==> now.installed,
{
    lemma_two_steps(before, HookRequest::Enable);
}

/// How disabling a hook can end.
///
/// A hook that is not enabled stays as it is. An enabled hook is disabled,
/// and stays installed, where the request succeeds; where the
/// deactivation fails, it is as it was.
pub proof fn lemma_disable_outcome(
    before: HookModel,
    result: Result<(), HookError>,
    now: HookModel,
)
    requires
        consistent(before),
        outcome(before, HookRequest::Disable, result, now),
    ensures
        consistent(now),
        now.kind == before.kind,
        now.installed == before.installed,
        !before.enabled ==> result is Ok && now == before,
        result is Ok ==> !now.enabled,
        result is Err ==> result == Err::<(), HookError>(HookError::DeactivationFailure) && now
            == before,
{
    lemma_two_steps(before, HookRequest::Disable);
}

/// How cleaning a hook up can end.
///
/// Where the request succeeds, the hook is neither enabled nor installed;
/// and it succeeds where the hook was neither, without a change. Where the
/// deactivation fails, the hook is as it was. Where the removal fails, the
/// hook is installed and not enabled. In no case is a hook enabled or
/// installed that was not.
pub proof fn lemma_cleanup_outcome(
    before: HookModel,
    result: Result<(), HookError>,
    now: HookModel,
)
    requires
        consistent(before),
        outcome(before, HookRequest::Cleanup, result, now),
    ensures
        consistent(now),
        now.kind == before.kind,
        result is Ok ==> !now.enabled && !now.installed,
        result matches Err(e) ==> e == HookError::DeactivationFailure || e
            == HookError::RemovalFailure,
        result == Err::<(), HookError>(HookError::DeactivationFailure) ==> now == before
            && before.enabled,
        result == Err::<(), HookError>(HookError::RemovalFailure) ==> now.installed && !now.enabled,
        !before.enabled && !before.installed ==> result is Ok && now == before,
        now.enabled ==> before.enabled,
        now.installed ==> before.installed,
{
    lemma_two_steps(before, HookRequest::Cleanup);
}

/// Where a hook stands after no, one, two or more operations of a request.
proof fn lemma_two_steps(hook: HookModel, request: HookRequest)
    ensures
        advanced(hook, request, 0) == hook,
        advanced(hook, request, 1) == match next_op_of(hook, request) {
            Some(op) => after(hook, op),
            None => hook,
        },
        advanced(hook, request, 2) == match next_op_of(advanced(hook, request, 1), request) {
            Some(op) => after(advanced(hook, request, 1), op),
            None => advanced(hook, request, 1),
        },
{
    lemma_advanced_step(hook, request, 0);
    lemma_advanced_step(hook, request, 1);
}

/// What a hook offers to the manager that holds it.
///
/// The manager relies on what the methods state here. [`DrivenHook`]
/// implements them for every hook primitive, and is verified to do what
/// they state.
pub trait NetworkHook {
    /// What the hook requires of itself to work; its methods keep it.
    spec fn upright(&self) -> bool;

    /// The name of the hook.
    spec fn hook_name(&self) -> Seq<char>;

    /// Whether the hook is enabled.
    spec fn enabled(&self) -> bool;

    /// Whether the hook holds something that cleaning it up gives back.
    spec fn installed(&self) -> bool;

    /// The name of the hook, for the manager to file it under and for
    /// people to read. It never changes.
    fn name(&self) -> (r: &'static str)
        ensures
            r@ == self.hook_name(),
    ;

    /// Enables the hook. Where this fails the hook is not enabled.
    fn enable(&mut self) -> (r: Result<(), HookError>)
        requires
            old(self).upright(),
        ensures
            final(self).upright(),
            final(self).hook_name() == old(self).hook_name(),
            final(self).enabled() <==> r is Ok,
    ;

    /// Disables the hook. Where this fails the hook is still enabled.
    fn disable(&mut self) -> (r: Result<(), HookError>)
        requires
            old(self).upright(),
        ensures
            final(self).upright(),
            final(self).hook_name() == old(self).hook_name(),
            !final(self).enabled() <==> r is Ok,
    ;

    /// Tells whether the hook is enabled.
    fn is_enabled(&self) -> (r: bool)
        ensures
            r == self.enabled(),
    ;

    /// Disables the hook and gives up what it holds.
    ///
    /// Where this succeeds the hook is neither enabled nor installed, and
    /// it succeeds where the hook was neither. Whether it succeeds or not,
    /// it does not enable or install a hook that was not.
    fn cleanup(&mut self) -> (r: Result<(), HookError>)
        requires
            old(self).upright(),
        ensures
            final(self).upright(),
            final(self).hook_name() == old(self).hook_name(),
            r is Ok ==> !final(self).enabled() && !final(self).installed(),
            !old(self).enabled() && !old(self).installed() ==> r is Ok,
            final(self).enabled() ==> old(self).enabled(),
            final(self).installed() ==> old(self).installed(),
    ;
}

} // verus!
