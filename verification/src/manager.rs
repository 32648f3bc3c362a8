//! The hook manager: the hooks of a process, filed by the call they
//! intercept, together with the rule store; and the commands that a
//! controller sends to it.

use crate::hook::{HookError, NetworkHook};
use crate::intercept::{inspect, CallContext, Inspection};
use crate::packet::{emitted, next_id_after, record_of, DataPlane};
use crate::rule::{
    action_of, models, ActionModel, HookType, PacketAction, RuleModel, TamperAction, TamperRule,
};
use crate::store::{
    add_result, after_add, first_applicable, lemma_found_in_prefix, lookup_result, rule_action,
    rules_after, unique_ids, with_active, with_hits_cleared, with_replaced, without_id, RuleStore,
    StoreError,
};
use crate::text::str_equal;
use crate::wildcard::wildcard_match;
use vstd::prelude::*;
use vstd::utf8::encode_utf8;

verus! {

/// The kind of call that a hook of this name intercepts; `None` for a
/// name that is not the name of one of the six kinds.
pub open spec fn kind_named(name: Seq<char>) -> Option<HookType> {
    if name == "Send"@ {
        Some(HookType::Send)
    } else if name == "Recv"@ {
        Some(HookType::Recv)
    } else if name == "SendTo"@ {
        Some(HookType::SendTo)
    } else if name == "RecvFrom"@ {
        Some(HookType::RecvFrom)
    } else if name == "WSASend"@ {
        Some(HookType::WSASend)
    } else if name == "WSARecv"@ {
        Some(HookType::WSARecv)
    } else {
        None
    }
}

/// Finds the kind of call that a hook of this name intercepts.
pub fn kind_of_name(name: &str) -> (r: Option<HookType>)
    ensures
        r == kind_named(name@),
        r matches Some(kind) ==> kind.spec_name() == name@,
{
    if str_equal(name, "Send") {
        Some(HookType::Send)
    } else if str_equal(name, "Recv") {
        Some(HookType::Recv)
    } else if str_equal(name, "SendTo") {
        Some(HookType::SendTo)
    } else if str_equal(name, "RecvFrom") {
        Some(HookType::RecvFrom)
    } else if str_equal(name, "WSASend") {
        Some(HookType::WSASend)
    } else if str_equal(name, "WSARecv") {
        Some(HookType::WSARecv)
    } else {
        None
    }
}

/// A hook that did not do what was asked of it.
#[derive(Clone, Copy, Debug, PartialEq, Eq, Structural)]
pub struct HookFailure {
    /// The position of the hook among the hooks of the manager.
    pub index: usize,
    pub error: HookError,
}

/// Whether a failure is reported for the hook at a position.
pub open spec fn reported(failures: Seq<HookFailure>, index: int) -> bool {
    exists|k: int| 0 <= k < failures.len() && (#[trigger] failures[k]).index == index
}

/// A command of the controller.
#[derive(Debug, PartialEq, Eq)]
pub enum HookCommand {
    /// Switch the hook of `send` on or off.
    Send(bool),
    /// Switch the hook of `recv` on or off.
    Recv(bool),
    /// Switch the hook of `sendto` on or off.
    SendTo(bool),
    /// Switch the hook of `recvfrom` on or off.
    RecvFrom(bool),
    /// Switch the hook of `WSASend` on or off.
    WSASend(bool),
    /// Switch the hook of `WSARecv` on or off.
    WSARecv(bool),
    /// Add a rule to the store.
    AddTamperRule(TamperRule),
    /// Remove the rule with this identifier.
    RemoveTamperRule(String),
    /// Put a rule in the place of the rule with its identifier.
    UpdateTamperRule(TamperRule),
    /// Make the rule with this identifier active.
    EnableTamperRule(String),
    /// Make the rule with this identifier inactive.
    DisableTamperRule(String),
    /// Report the rules of the store.
    ListTamperRules,
    /// Set the hit counter of every rule to zero.
    ClearAllHits,
}

/// What became of a command, for the receiver of commands to log.
#[derive(Debug, PartialEq, Eq)]
pub enum CommandReport {
    /// A hook was to be switched on or off.
    HookSwitched { kind: HookType, enable: bool, result: Result<(), HookError> },
    /// A rule was to be added.
    RuleAdded(Result<(), StoreError>),
    /// A rule was to be removed.
    RuleRemoved(Result<(), StoreError>),
    /// A rule was to be updated.
    RuleUpdated(Result<(), StoreError>),
    /// A rule was to be made active.
    RuleEnabled(Result<(), StoreError>),
    /// A rule was to be made inactive.
    RuleDisabled(Result<(), StoreError>),
    /// The rules of the store.
    RulesListed(Vec<TamperRule>),
    /// All hit counters were set to zero.
    HitsCleared,
}

/// The hooks of a process and its rule store.
pub struct NetworkHookManager<H: NetworkHook> {
    hooks: Vec<H>,
    send_hook_index: Option<usize>,
    recv_hook_index: Option<usize>,
    sendto_hook_index: Option<usize>,
    recvfrom_hook_index: Option<usize>,
    wsa_send_hook_index: Option<usize>,
    wsa_recv_hook_index: Option<usize>,
    rules: RuleStore,
}

impl<H: NetworkHook> NetworkHookManager<H> {
    /// The hooks, in the order in which they were added.
    pub closed spec fn hooks(&self) -> Seq<H> {
        self.hooks@
    }

    /// The position of the hook that is filed under a kind of call.
    pub closed spec fn slot(&self, kind: HookType) -> Option<usize> {
        match kind {
            HookType::Send => self.send_hook_index,
            HookType::Recv => self.recv_hook_index,
            HookType::SendTo => self.sendto_hook_index,
            HookType::RecvFrom => self.recvfrom_hook_index,
            HookType::WSASend => self.wsa_send_hook_index,
            HookType::WSARecv => self.wsa_recv_hook_index,
        }
    }

    /// The rules of the store.
    pub closed spec fn rules(&self) -> Seq<RuleModel> {
        self.rules@
    }

    /// The invariant of a manager: its store keeps identifiers unique, its
    /// hooks are in working order, and under each kind of call is filed,
    /// if anything, a hook that the manager holds and that bears the name
    /// of the kind.
    pub open spec fn wf(&self) -> bool {
        &&& unique_ids(self.rules())
        &&& forall|i: int| 0 <= i < self.hooks().len() ==> (#[trigger] self.hooks()[i]).upright()
        &&& forall|kind: HookType| #[trigger] self.filed_right(kind)
    }

    /// Whether what is filed under a kind of call, if anything, is a hook
    /// that the manager holds and that bears the name of the kind.
    pub open spec fn filed_right(&self, kind: HookType) -> bool {
        match self.slot(kind) {
            Some(i) => i < self.hooks().len() && self.hooks()[i as int].hook_name()
                == kind.spec_name(),
            None => true,
        }
    }

    /// A manager without hooks and without rules.
    pub fn new() -> (r: Self)
        ensures
            r.wf(),
            r.hooks() == Seq::<H>::empty(),
            r.rules() == Seq::<RuleModel>::empty(),
            forall|kind: HookType| (#[trigger] r.slot(kind)) is None,
    {
        NetworkHookManager {
            hooks: Vec::new(),
            send_hook_index: None,
            recv_hook_index: None,
            sendto_hook_index: None,
            recvfrom_hook_index: None,
            wsa_send_hook_index: None,
            wsa_recv_hook_index: None,
            rules: RuleStore::new(),
        }
    }

    /// The number of hooks.
    pub fn hook_count(&self) -> (r: usize)
        ensures
            r == self.hooks().len(),
    {
        self.hooks.len()
    }

    /// The position of the hook that is filed under a kind of call.
    pub fn hook_index(&self, kind: HookType) -> (r: Option<usize>)
        ensures
            r == self.slot(kind),
    {
        match kind {
            HookType::Send => self.send_hook_index,
            HookType::Recv => self.recv_hook_index,
            HookType::SendTo => self.sendto_hook_index,
            HookType::RecvFrom => self.recvfrom_hook_index,
            HookType::WSASend => self.wsa_send_hook_index,
            HookType::WSARecv => self.wsa_recv_hook_index,
        }
    }

    /// The hook at a position.
    pub fn hook(&self, index: usize) -> (r: Option<&H>)
        ensures
            match r {
                Some(hook) => index < self.hooks().len() && *hook == self.hooks()[index as int],
                None => index >= self.hooks().len(),
            },
    {
        if index < self.hooks.len() {
            Some(&self.hooks[index])
        } else {
            None
        }
    }

    /// The rule store.
    pub fn get_rules(&self) -> (r: &RuleStore)
        ensures
            r@ == self.rules(),
    {
        &self.rules
    }

    /// Adds a hook, and files it under the kind of call whose name it
    /// bears, in the place of any hook filed there before. A hook of any
    /// other name is held but not filed.
    pub fn add_hook(&mut self, hook: H)
        requires
            old(self).wf(),
            hook.upright(),
        ensures
            final(self).wf(),
            final(self).hooks() == old(self).hooks().push(hook),
            final(self).rules() == old(self).rules(),
            forall|kind: HookType|
                (#[trigger] final(self).slot(kind)) == if kind_named(hook.hook_name()) == Some(kind) {
                    Some(old(self).hooks().len() as usize)
                } else {
                    old(self).slot(kind)
                },
    {
        let index = self.hooks.len();
        let kind = kind_of_name(hook.name());
        match kind {
            Some(HookType::Send) => {
                self.send_hook_index = Some(index);
            },
            Some(HookType::Recv) => {
                self.recv_hook_index = Some(index);
            },
            Some(HookType::SendTo) => {
                self.sendto_hook_index = Some(index);
            },
            Some(HookType::RecvFrom) => {
                self.recvfrom_hook_index = Some(index);
            },
            Some(HookType::WSASend) => {
                self.wsa_send_hook_index = Some(index);
            },
            Some(HookType::WSARecv) => {
                self.wsa_recv_hook_index = Some(index);
            },
            None => {},
        }
        self.hooks.push(hook);
        proof {
            assert forall|k: HookType| #[trigger] self.filed_right(k) by {
                if kind == Some(k) {
                } else {
                    assert(self.slot(k) == old(self).slot(k));
                    assert(old(self).filed_right(k));
                }
            }
        }
    }

    /// Whether a manager holds the hooks of another under the same names,
    /// files them alike, and has the same rules.
    pub open spec fn same_hooks_as(&self, other: &Self) -> bool {
        &&& self.rules() == other.rules()
        &&& self.hooks().len() == other.hooks().len()
        &&& forall|i: int|
            0 <= i < self.hooks().len() ==> (#[trigger] self.hooks()[i]).hook_name()
                == other.hooks()[i].hook_name()
        &&& forall|kind: HookType| (#[trigger] self.slot(kind)) == other.slot(kind)
    }

    /// Whether a manager differs from another in the hook at one position
    /// at most.
    pub open spec fn same_but_at(&self, other: &Self, index: int) -> bool {
        &&& self.same_hooks_as(other)
        &&& forall|j: int|
            0 <= j < self.hooks().len() && j != index ==> (#[trigger] self.hooks()[j])
                == other.hooks()[j]
    }

    /// Hooks that keep their names stay filed correctly.
    proof fn lemma_slots_hold(&self, other: &Self)
        requires
            other.wf(),
            self.same_hooks_as(other),
            forall|i: int| 0 <= i < self.hooks().len() ==> (#[trigger] self.hooks()[i]).upright(),
        ensures
            self.wf(),
    {
        assert forall|kind: HookType| #[trigger] self.filed_right(kind) by {
            assert(self.slot(kind) == other.slot(kind));
            assert(other.filed_right(kind));
        }
    }

    /// Enables the hook at a position.
    fn enable_at(&mut self, index: usize) -> (r: Result<(), HookError>)
        requires
            old(self).wf(),
            index < old(self).hooks().len(),
        ensures
            final(self).wf(),
            final(self).same_but_at(old(self), index as int),
            final(self).hooks()[index as int].enabled() <==> r is Ok,
    {
        assert(self.hooks()[index as int].upright());
        let r = self.hooks[index].enable();
        proof {
            self.lemma_one_changed(old(self), index as int);
        }
        r
    }

    /// Disables the hook at a position.
    fn disable_at(&mut self, index: usize) -> (r: Result<(), HookError>)
        requires
            old(self).wf(),
            index < old(self).hooks().len(),
        ensures
            final(self).wf(),
            final(self).same_but_at(old(self), index as int),
            !final(self).hooks()[index as int].enabled() <==> r is Ok,
    {
        assert(self.hooks()[index as int].upright());
        let r = self.hooks[index].disable();
        proof {
            self.lemma_one_changed(old(self), index as int);
        }
        r
    }

    /// Cleans up the hook at a position, and no other.
    ///
    /// Where this succeeds the hook is neither enabled nor installed, and
    /// it succeeds where the hook was neither. Whether it succeeds or not,
    /// the hook is not enabled or installed unless it was.
    fn cleanup_at(&mut self, index: usize) -> (r: Result<(), HookError>)
        requires
            old(self).wf(),
            index < old(self).hooks().len(),
        ensures
            final(self).wf(),
            final(self).same_but_at(old(self), index as int),
            r is Ok ==> !final(self).hooks()[index as int].enabled(),
            r is Ok ==> !final(self).hooks()[index as int].installed(),
            !old(self).hooks()[index as int].enabled() && !old(self).hooks()[index as int].installed()
                ==> r is Ok,
            final(self).hooks()[index as int].enabled() ==> old(self).hooks()[index as int].enabled(),
            final(self).hooks()[index as int].installed() ==> old(self).hooks()[index as int].installed(),
    {
        assert(self.hooks()[index as int].upright());
        let r = self.hooks[index].cleanup();
        proof {
            self.lemma_one_changed(old(self), index as int);
        }
        r
    }

    /// A manager of which one hook has changed, and kept its name and its
    /// working order, is as well formed as it was.
    proof fn lemma_one_changed(&self, other: &Self, index: int)
        requires
            other.wf(),
            0 <= index < other.hooks().len(),
            self.rules() == other.rules(),
            forall|kind: HookType| (#[trigger] self.slot(kind)) == other.slot(kind),
            self.hooks().len() == other.hooks().len(),
            forall|j: int|
                0 <= j < self.hooks().len() && j != index ==> (#[trigger] self.hooks()[j])
                    == other.hooks()[j],
            self.hooks()[index].upright(),
            self.hooks()[index].hook_name() == other.hooks()[index].hook_name(),
        ensures
            self.wf(),
            self.same_but_at(other, index),
    {
        assert forall|i: int| 0 <= i < self.hooks().len() implies (#[trigger] self.hooks()[i]).upright() by {
            if i != index {
                assert(self.hooks()[i] == other.hooks()[i]);
                assert(other.hooks()[i].upright());
            }
        }
        assert forall|i: int| 0 <= i < self.hooks().len() implies (#[trigger] self.hooks()[i]).hook_name()
            == other.hooks()[i].hook_name() by {
            if i != index {
                assert(self.hooks()[i] == other.hooks()[i]);
            }
        }
        self.lemma_slots_hold(other);
    }

    /// Enables every hook. A hook that fails is reported, and the others
    /// are enabled all the same. Every failure is that of a hook of the
    /// manager.
    pub fn enable_all(&mut self) -> (failures: Vec<HookFailure>)
        requires
            old(self).wf(),
        ensures
            final(self).wf(),
            final(self).same_hooks_as(old(self)),
            forall|i: int|
                0 <= i < final(self).hooks().len() ==> ((#[trigger] final(self).hooks()[i]).enabled()
                    <==> !reported(failures@, i)),
            forall|k: int|
                0 <= k < failures@.len() ==> (#[trigger] failures@[k]).index < old(self).hooks().len(),
    {
        let mut failures: Vec<HookFailure> = Vec::new();
        let mut i: usize = 0;
        while i < self.hooks.len()
            invariant
                i <= self.hooks().len(),
                self.wf(),
                self.same_hooks_as(old(self)),
                forall|k: int| 0 <= k < failures@.len() ==> (#[trigger] failures@[k]).index < i,
                forall|j: int|
                    0 <= j < i ==> ((#[trigger] self.hooks()[j]).enabled() <==> !reported(
                        failures@,
                        j,
                    )),
            decreases self.hooks().len() - i,
        {
            let ghost before = *self;
            let ghost reports = failures@;
            let result = self.enable_at(i);
            match result {
                Ok(_) => {},
                Err(error) => {
                    failures.push(HookFailure { index: i, error });
                },
            }
            proof {
                self.lemma_same_hooks(&before, old(self));
                assert forall|j: int| 0 <= j < i + 1 implies ((#[trigger] self.hooks()[j]).enabled()
                    <==> !reported(failures@, j)) by {
                    lemma_reported_grows(reports, failures@, i as int, result is Err, j);
                    if j < i {
                        assert(self.hooks()[j] == before.hooks()[j]);
                    }
                }
            }
            i = i + 1;
        }
        failures
    }

    /// Disables every hook. A hook that fails is reported, and the others
    /// are disabled all the same. Every failure is that of a hook of the
    /// manager.
    pub fn disable_all(&mut self) -> (failures: Vec<HookFailure>)
        requires
            old(self).wf(),
        ensures
            final(self).wf(),
            final(self).same_hooks_as(old(self)),
            forall|i: int|
                0 <= i < final(self).hooks().len() ==> (!(#[trigger] final(self).hooks()[i]).enabled()
                    <==> !reported(failures@, i)),
            forall|k: int|
                0 <= k < failures@.len() ==> (#[trigger] failures@[k]).index < old(self).hooks().len(),
    {
        let mut failures: Vec<HookFailure> = Vec::new();
        let mut i: usize = 0;
        while i < self.hooks.len()
            invariant
                i <= self.hooks().len(),
                self.wf(),
                self.same_hooks_as(old(self)),
                forall|k: int| 0 <= k < failures@.len() ==> (#[trigger] failures@[k]).index < i,
                forall|j: int|
                    0 <= j < i ==> (!(#[trigger] self.hooks()[j]).enabled() <==> !reported(
                        failures@,
                        j,
                    )),
            decreases self.hooks().len() - i,
        {
            let ghost before = *self;
            let ghost reports = failures@;
            let result = self.disable_at(i);
            match result {
                Ok(_) => {},
                Err(error) => {
                    failures.push(HookFailure { index: i, error });
                },
            }
            proof {
                self.lemma_same_hooks(&before, old(self));
                assert forall|j: int| 0 <= j < i + 1 implies (!(#[trigger] self.hooks()[j]).enabled()
                    <==> !reported(failures@, j)) by {
                    lemma_reported_grows(reports, failures@, i as int, result is Err, j);
                    if j < i {
                        assert(self.hooks()[j] == before.hooks()[j]);
                    }
                }
            }
            i = i + 1;
        }
        failures
    }

    /// Cleans every hook up and lets go of all of them. A hook that fails
    /// is reported; the others are cleaned up all the same.
    ///
    /// Each hook is let go as [`let_go`] describes: neither enabled nor
    /// installed unless a failure is reported for it, and in no case
    /// enabled or installed where it was not. For a hook that held nothing
    /// no failure is reported.
    pub fn cleanup_all(&mut self) -> (failures: Vec<HookFailure>)
        requires
            old(self).wf(),
        ensures
            final(self).wf(),
            final(self).hooks() == Seq::<H>::empty(),
            final(self).rules() == old(self).rules(),
            forall|kind: HookType| (#[trigger] final(self).slot(kind)) is None,
            forall|k: int|
                0 <= k < failures@.len() ==> (#[trigger] failures@[k]).index < old(self).hooks().len(),
            exists|released: Seq<H>| #[trigger] let_go(old(self).hooks(), released, failures@),
            forall|i: int|
                0 <= i < old(self).hooks().len() && !(#[trigger] old(self).hooks()[i]).enabled()
                    && !old(self).hooks()[i].installed() ==> !reported(failures@, i),
    {
        let mut failures: Vec<HookFailure> = Vec::new();
        let mut i: usize = 0;
        while i < self.hooks.len()
            invariant
                i <= self.hooks().len(),
                self.wf(),
                self.same_hooks_as(old(self)),
                forall|k: int| 0 <= k < failures@.len() ==> (#[trigger] failures@[k]).index < i,
                forall|j: int|
                    i <= j < self.hooks().len() ==> (#[trigger] self.hooks()[j]) == old(self).hooks()[j],
                forall|j: int|
                    0 <= j < i ==> cleaned(
                        old(self).hooks()[j],
                        #[trigger] self.hooks()[j],
                        reported(failures@, j),
                    ),
            decreases self.hooks().len() - i,
        {
            let ghost before = *self;
            let ghost reports = failures@;
            let result = self.cleanup_at(i);
            match result {
                Ok(_) => {},
                Err(error) => {
                    failures.push(HookFailure { index: i, error });
                },
            }
            proof {
                self.lemma_same_hooks(&before, old(self));
                assert(before.hooks()[i as int] == old(self).hooks()[i as int]);
                assert forall|j: int| 0 <= j < i + 1 implies cleaned(
                    old(self).hooks()[j],
                    #[trigger] self.hooks()[j],
                    reported(failures@, j),
                ) by {
                    lemma_reported_grows(reports, failures@, i as int, result is Err, j);
                    if j < i {
                        assert(self.hooks()[j] == before.hooks()[j]);
                    }
                }
                assert forall|j: int| i + 1 <= j < self.hooks().len() implies (#[trigger] self.hooks()[j])
                    == old(self).hooks()[j] by {
                    assert(self.hooks()[j] == before.hooks()[j]);
                }
            }
            i = i + 1;
        }
        let ghost released = self.hooks();
        self.hooks.clear();
        self.send_hook_index = None;
        self.recv_hook_index = None;
        self.sendto_hook_index = None;
        self.recvfrom_hook_index = None;
        self.wsa_send_hook_index = None;
        self.wsa_recv_hook_index = None;
        proof {
            assert forall|kind: HookType| #[trigger] self.filed_right(kind) by {
                assert(self.slot(kind) is None);
            }
            assert(let_go(old(self).hooks(), released, failures@)) by {
                assert forall|j: int| 0 <= j < released.len() implies cleaned(
                    old(self).hooks()[j],
                    #[trigger] released[j],
                    reported(failures@, j),
                ) by {}
            }
            assert forall|j: int|
                0 <= j < old(self).hooks().len() && !(#[trigger] old(self).hooks()[j]).enabled()
                    && !old(self).hooks()[j].installed() implies !reported(failures@, j) by {
                assert(cleaned(old(self).hooks()[j], released[j], reported(failures@, j)));
            }
        }
        failures
    }

    /// Having the same hooks is transitive.
    proof fn lemma_same_hooks(&self, middle: &Self, first: &Self)
        requires
            self.same_hooks_as(middle),
            middle.same_hooks_as(first),
        ensures
            self.same_hooks_as(first),
    {
        assert forall|i: int| 0 <= i < self.hooks().len() implies (#[trigger] self.hooks()[i]).hook_name()
            == first.hooks()[i].hook_name() by {
            assert(middle.hooks()[i].hook_name() == first.hooks()[i].hook_name());
        }
        assert forall|kind: HookType| (#[trigger] self.slot(kind)) == first.slot(kind) by {
            assert(middle.slot(kind) == first.slot(kind));
        }
    }

    /// Switches the hook that is filed under a kind of call on or off.
    /// Succeeds without doing anything where none is filed there.
    pub fn switch_hook(&mut self, kind: HookType, enable: bool) -> (r: Result<(), HookError>)
        requires
            old(self).wf(),
        ensures
            final(self).wf(),
            hook_switched(old(self), final(self), kind, enable, r),
    {
        match self.hook_index(kind) {
            None => Ok(()),
            Some(i) => {
                assert(self.filed_right(kind));
                if enable {
                    self.enable_at(i)
                } else {
                    self.disable_at(i)
                }
            },
        }
    }

    /// Enables the hook of `send`.
    pub fn enable_send(&mut self) -> (r: Result<(), HookError>)
        requires
            old(self).wf(),
        ensures
            final(self).wf(),
            hook_switched(old(self), final(self), HookType::Send, true, r),
    {
        self.switch_hook(HookType::Send, true)
    }

    /// Disables the hook of `send`.
    pub fn disable_send(&mut self) -> (r: Result<(), HookError>)
        requires
            old(self).wf(),
        ensures
            final(self).wf(),
            hook_switched(old(self), final(self), HookType::Send, false, r),
    {
        self.switch_hook(HookType::Send, false)
    }

    /// Enables the hook of `recv`.
    pub fn enable_recv(&mut self) -> (r: Result<(), HookError>)
        requires
            old(self).wf(),
        ensures
            final(self).wf(),
            hook_switched(old(self), final(self), HookType::Recv, true, r),
    {
        self.switch_hook(HookType::Recv, true)
    }

    /// Disables the hook of `recv`.
    pub fn disable_recv(&mut self) -> (r: Result<(), HookError>)
        requires
            old(self).wf(),
        ensures
            final(self).wf(),
            hook_switched(old(self), final(self), HookType::Recv, false, r),
    {
        self.switch_hook(HookType::Recv, false)
    }

    /// Enables the hook of `sendto`.
    pub fn enable_sendto(&mut self) -> (r: Result<(), HookError>)
        requires
            old(self).wf(),
        ensures
            final(self).wf(),
            hook_switched(old(self), final(self), HookType::SendTo, true, r),
    {
        self.switch_hook(HookType::SendTo, true)
    }

    /// Disables the hook of `sendto`.
    pub fn disable_sendto(&mut self) -> (r: Result<(), HookError>)
        requires
            old(self).wf(),
        ensures
            final(self).wf(),
            hook_switched(old(self), final(self), HookType::SendTo, false, r),
    {
        self.switch_hook(HookType::SendTo, false)
    }

    /// Enables the hook of `recvfrom`.
    pub fn enable_recvfrom(&mut self) -> (r: Result<(), HookError>)
        requires
            old(self).wf(),
        ensures
            final(self).wf(),
            hook_switched(old(self), final(self), HookType::RecvFrom, true, r),
    {
        self.switch_hook(HookType::RecvFrom, true)
    }

    /// Disables the hook of `recvfrom`.
    pub fn disable_recvfrom(&mut self) -> (r: Result<(), HookError>)
        requires
            old(self).wf(),
        ensures
            final(self).wf(),
            hook_switched(old(self), final(self), HookType::RecvFrom, false, r),
    {
        self.switch_hook(HookType::RecvFrom, false)
    }

    /// Enables the hook of `WSASend`.
    pub fn enable_wsasend(&mut self) -> (r: Result<(), HookError>)
        requires
            old(self).wf(),
        ensures
            final(self).wf(),
            hook_switched(old(self), final(self), HookType::WSASend, true, r),
    {
        self.switch_hook(HookType::WSASend, true)
    }

    /// Disables the hook of `WSASend`.
    pub fn disable_wsasend(&mut self) -> (r: Result<(), HookError>)
        requires
            old(self).wf(),
        ensures
            final(self).wf(),
            hook_switched(old(self), final(self), HookType::WSASend, false, r),
    {
        self.switch_hook(HookType::WSASend, false)
    }

    /// Enables the hook of `WSARecv`.
    pub fn enable_wsarecv(&mut self) -> (r: Result<(), HookError>)
        requires
            old(self).wf(),
        ensures
            final(self).wf(),
            hook_switched(old(self), final(self), HookType::WSARecv, true, r),
    {
        self.switch_hook(HookType::WSARecv, true)
    }

    /// Disables the hook of `WSARecv`.
    pub fn disable_wsarecv(&mut self) -> (r: Result<(), HookError>)
        requires
            old(self).wf(),
        ensures
            final(self).wf(),
            hook_switched(old(self), final(self), HookType::WSARecv, false, r),
    {
        self.switch_hook(HookType::WSARecv, false)
    }

    /// Whether a manager has the hooks of another, unchanged.
    pub open spec fn hooks_untouched(&self, other: &Self) -> bool {
        &&& self.hooks() == other.hooks()
        &&& forall|kind: HookType| (#[trigger] self.slot(kind)) == other.slot(kind)
    }

    /// A manager of which only the rules have changed, and kept their
    /// identifiers unique, is as well formed as it was.
    proof fn lemma_rules_changed(&self, other: &Self)
        requires
            other.wf(),
            self.hooks_untouched(other),
            unique_ids(self.rules()),
        ensures
            self.wf(),
    {
        assert forall|kind: HookType| #[trigger] self.filed_right(kind) by {
            assert(self.slot(kind) == other.slot(kind));
            assert(other.filed_right(kind));
        }
    }

    /// Adds a rule at the end of the store.
    ///
    /// Refused, with the store unchanged, when a rule of the store has the
    /// same identifier.
    pub fn add_tamper_rule(&mut self, rule: TamperRule) -> (r: Result<(), StoreError>)
        requires
            old(self).wf(),
        ensures
            final(self).wf(),
            final(self).hooks_untouched(old(self)),
            r == add_result(old(self).rules(), rule@.id),
            final(self).rules() == after_add(old(self).rules(), rule@),
    {
        let r = self.rules.add(rule);
        proof {
            self.lemma_rules_changed(old(self));
        }
        r
    }

    /// Removes the rule with the identifier from the store. Succeeds
    /// whether or not there was one.
    pub fn remove_tamper_rule(&mut self, id: &str) -> (r: Result<(), StoreError>)
        requires
            old(self).wf(),
        ensures
            final(self).wf(),
            final(self).hooks_untouched(old(self)),
            r is Ok,
            final(self).rules() == without_id(old(self).rules(), id@),
    {
        let r = self.rules.remove(id);
        proof {
            self.lemma_rules_changed(old(self));
        }
        r
    }

    /// Puts `rule` in the place of the rule that has its identifier.
    ///
    /// Refused, with the store unchanged, when no rule has it.
    pub fn update_tamper_rule(&mut self, rule: TamperRule) -> (r: Result<(), StoreError>)
        requires
            old(self).wf(),
        ensures
            final(self).wf(),
            final(self).hooks_untouched(old(self)),
            r == lookup_result(old(self).rules(), rule@.id),
            final(self).rules() == with_replaced(old(self).rules(), rule@),
    {
        let r = self.rules.update(rule);
        proof {
            self.lemma_rules_changed(old(self));
        }
        r
    }

    /// Makes the rule with the identifier active.
    ///
    /// Refused, with the store unchanged, when no rule has it.
    pub fn enable_tamper_rule(&mut self, id: &str) -> (r: Result<(), StoreError>)
        requires
            old(self).wf(),
        ensures
            final(self).wf(),
            final(self).hooks_untouched(old(self)),
            r == lookup_result(old(self).rules(), id@),
            final(self).rules() == with_active(old(self).rules(), id@, true),
    {
        let r = self.rules.set_active(id, true);
        proof {
            self.lemma_rules_changed(old(self));
        }
        r
    }

    /// Makes the rule with the identifier inactive. Its hit counter stays.
    ///
    /// Refused, with the store unchanged, when no rule has it.
    pub fn disable_tamper_rule(&mut self, id: &str) -> (r: Result<(), StoreError>)
        requires
            old(self).wf(),
        ensures
            final(self).wf(),
            final(self).hooks_untouched(old(self)),
            r == lookup_result(old(self).rules(), id@),
            final(self).rules() == with_active(old(self).rules(), id@, false),
    {
        let r = self.rules.set_active(id, false);
        proof {
            self.lemma_rules_changed(old(self));
        }
        r
    }

    /// A copy of the rules of the store, in their order.
    pub fn list_tamper_rules(&self) -> (r: Vec<TamperRule>)
        ensures
            models(r@) == self.rules(),
    {
        self.rules.list()
    }

    /// Sets the hit counter of every rule to zero.
    pub fn clear_all_hits(&mut self)
        requires
            old(self).wf(),
        ensures
            final(self).wf(),
            final(self).hooks_untouched(old(self)),
            final(self).rules() == with_hits_cleared(old(self).rules()),
    {
        self.rules.clear_all_hits();
        proof {
            self.lemma_rules_changed(old(self));
        }
    }

    /// Inspects the payload of an intercepted call against the store of
    /// this manager, as [`inspect`] does.
    pub fn inspect(
        &mut self,
        plane: &mut DataPlane,
        kind: HookType,
        payload: &[u8],
        context: CallContext,
    ) -> (r: Inspection)
        requires
            old(self).wf(),
        ensures
            final(self).wf(),
            final(self).hooks_untouched(old(self)),
            final(plane).spec_is_open() == old(plane).spec_is_open(),
            final(plane).spec_next_id() == next_id_after(old(plane).spec_next_id(), payload@),
            record_of(r.record) == emitted(
                old(plane).spec_is_open(),
                old(plane).spec_next_id(),
                context.timestamp,
                context.process_id,
                payload@,
                kind,
                context.socket,
                context.protocol@,
                context.src_addr@,
                context.dst_addr@,
            ),
            action_of(r.rule_action) == rule_action(old(self).rules(), kind, payload@),
            final(self).rules() == rules_after(old(self).rules(), kind, payload@),
    {
        let r = inspect(plane, &mut self.rules, kind, payload, context);
        proof {
            self.lemma_rules_changed(old(self));
        }
        r
    }

    /// Finds the first rule that applies to a payload, without counting a
    /// hit: its position, and `Block` or, for a `Replace` rule, `Replace`
    /// with the bytes of the rule's replacement text as they stand.
    pub fn apply_rules(data: &[u8], hook_type: HookType, rules: &[TamperRule]) -> (r: Option<
        (usize, PacketAction),
    >)
        ensures
            match first_applicable(models(rules@), hook_type, data@) {
                Some(i) => r matches Some((index, action)) && index == i && action@ == plain_verdict(
                    rules@[i]@,
                ),
                None => r is None,
            },
    {
        let ghost all = models(rules@);
        let mut idx: usize = 0;
        while idx < rules.len()
            invariant
                idx <= rules@.len(),
                all == models(rules@),
                first_applicable(all.take(idx as int), hook_type, data@) is None,
            decreases rules@.len() - idx,
        {
            proof {
                assert(all.take(idx + 1).drop_last() =~= all.take(idx as int));
                assert(all.take(idx + 1).last() == rules@[idx as int]@);
            }
            let rule = &rules[idx];
            if rule.active && rule.hook == hook_type && wildcard_match(
                rule.match_pattern.as_str(),
                data,
            ) {
                let action = match rule.action {
                    TamperAction::Block => PacketAction::Block,
                    TamperAction::Replace => PacketAction::Replace(
                        rule.replace.as_str().as_bytes_vec(),
                    ),
                };
                proof {
                    lemma_found_in_prefix(all, hook_type, data@, idx as int);
                }
                return Some((idx, action));
            }
            idx = idx + 1;
        }
        proof {
            assert(all.take(rules@.len() as int) =~= all);
        }
        None
    }

    /// Carries out a command of the controller and reports what became of
    /// it. A command that fails changes nothing.
    pub fn handle_command(&mut self, command: HookCommand) -> (r: CommandReport)
        requires
            old(self).wf(),
        ensures
            final(self).wf(),
            handled(old(self), final(self), command, r),
    {
        match command {
            HookCommand::Send(on) => self.report_switch(HookType::Send, on),
            HookCommand::Recv(on) => self.report_switch(HookType::Recv, on),
            HookCommand::SendTo(on) => self.report_switch(HookType::SendTo, on),
            HookCommand::RecvFrom(on) => self.report_switch(HookType::RecvFrom, on),
            HookCommand::WSASend(on) => self.report_switch(HookType::WSASend, on),
            HookCommand::WSARecv(on) => self.report_switch(HookType::WSARecv, on),
            HookCommand::AddTamperRule(rule) => CommandReport::RuleAdded(self.add_tamper_rule(rule)),
            HookCommand::RemoveTamperRule(id) => CommandReport::RuleRemoved(
                self.remove_tamper_rule(id.as_str()),
            ),
            HookCommand::UpdateTamperRule(rule) => CommandReport::RuleUpdated(
                self.update_tamper_rule(rule),
            ),
            HookCommand::EnableTamperRule(id) => CommandReport::RuleEnabled(
                self.enable_tamper_rule(id.as_str()),
            ),
            HookCommand::DisableTamperRule(id) => CommandReport::RuleDisabled(
                self.disable_tamper_rule(id.as_str()),
            ),
            HookCommand::ListTamperRules => CommandReport::RulesListed(self.list_tamper_rules()),
            HookCommand::ClearAllHits => {
                self.clear_all_hits();
                CommandReport::HitsCleared
            },
        }
    }

    /// Takes one turn of the loop that receives commands. `received` is
    /// what came from the command channel: a command, or `None` when the
    /// channel is disconnected. A command is carried out and reported,
    /// whether it fails or not; only a disconnected channel ends the
    /// loop, which `None` tells.
    pub fn serve(&mut self, received: Option<HookCommand>) -> (r: Option<CommandReport>)
        requires
            old(self).wf(),
        ensures
            final(self).wf(),
            match received {
                Some(command) => r matches Some(report) && handled(
                    old(self),
                    final(self),
                    command,
                    report,
                ),
                None => r is None && *final(self) == *old(self),
            },
    {
        match received {
            Some(command) => Some(self.handle_command(command)),
            None => None,
        }
    }

    /// Switches a hook and reports on it.
    fn report_switch(&mut self, kind: HookType, enable: bool) -> (r: CommandReport)
        requires
            old(self).wf(),
        ensures
            final(self).wf(),
            switched(old(self), final(self), kind, enable, r),
    {
        let result = self.switch_hook(kind, enable);
        CommandReport::HookSwitched { kind, enable, result }
    }
}

/// What a rule that applies makes of a payload when its replacement text
/// is taken as it stands: `Block`, or `Replace` with the bytes of the text.
pub open spec fn plain_verdict(rule: RuleModel) -> ActionModel {
    match rule.action {
        TamperAction::Block => ActionModel::Block,
        TamperAction::Replace => ActionModel::Replace(encode_utf8(rule.replace)),
    }
}

/// What a command does and how it is reported.
///
/// A command for a hook switches the hook that is filed under its kind.
/// A command for a rule does to the store what the operation of its name
/// does. No command does anything else.
pub open spec fn handled<H: NetworkHook>(
    before: &NetworkHookManager<H>,
    now: &NetworkHookManager<H>,
    command: HookCommand,
    report: CommandReport,
) -> bool {
    match command {
        HookCommand::Send(on) => switched(before, now, HookType::Send, on, report),
        HookCommand::Recv(on) => switched(before, now, HookType::Recv, on, report),
        HookCommand::SendTo(on) => switched(before, now, HookType::SendTo, on, report),
        HookCommand::RecvFrom(on) => switched(
            before,
            now,
            HookType::RecvFrom,
            on,
            report,
        ),
        HookCommand::WSASend(on) => switched(
            before,
            now,
            HookType::WSASend,
            on,
            report,
        ),
        HookCommand::WSARecv(on) => switched(
            before,
            now,
            HookType::WSARecv,
            on,
            report,
        ),
        HookCommand::AddTamperRule(rule) => {
            &&& report == CommandReport::RuleAdded(add_result(before.rules(), rule@.id))
            &&& now.rules() == after_add(before.rules(), rule@)
            &&& now.hooks_untouched(before)
        },
        HookCommand::RemoveTamperRule(id) => {
            &&& report matches CommandReport::RuleRemoved(result)
            &&& result is Ok
            &&& now.rules() == without_id(before.rules(), id@)
            &&& now.hooks_untouched(before)
        },
        HookCommand::UpdateTamperRule(rule) => {
            &&& report == CommandReport::RuleUpdated(
                lookup_result(before.rules(), rule@.id),
            )
            &&& now.rules() == with_replaced(before.rules(), rule@)
            &&& now.hooks_untouched(before)
        },
        HookCommand::EnableTamperRule(id) => {
            &&& report == CommandReport::RuleEnabled(lookup_result(before.rules(), id@))
            &&& now.rules() == with_active(before.rules(), id@, true)
            &&& now.hooks_untouched(before)
        },
        HookCommand::DisableTamperRule(id) => {
            &&& report == CommandReport::RuleDisabled(lookup_result(before.rules(), id@))
            &&& now.rules() == with_active(before.rules(), id@, false)
            &&& now.hooks_untouched(before)
        },
        HookCommand::ListTamperRules => {
            &&& report matches CommandReport::RulesListed(rules)
            &&& models(rules@) == before.rules()
            &&& now.rules() == before.rules()
            &&& now.hooks_untouched(before)
        },
        HookCommand::ClearAllHits => {
            &&& report is HitsCleared
            &&& now.rules() == with_hits_cleared(before.rules())
            &&& now.hooks_untouched(before)
        },
    }
}

/// What cleaning up makes of one hook: it keeps its name; it is neither
/// enabled nor installed unless its failure is reported; it is in no case
/// enabled or installed where it was not; and no failure is reported
/// where it held nothing.
pub open spec fn cleaned<H: NetworkHook>(held: H, released: H, failed: bool) -> bool {
    &&& released.hook_name() == held.hook_name()
    &&& !failed ==> !released.enabled() && !released.installed()
    &&& released.enabled() ==> held.enabled()
    &&& released.installed() ==> held.installed()
    &&& !held.enabled() && !held.installed() ==> !failed
}

/// How a manager lets go of its hooks: `released` is what became of the
/// hooks that it held, one for one, each cleaned up as [`cleaned`]
/// describes, its failure reported or not.
pub open spec fn let_go<H: NetworkHook>(
    held: Seq<H>,
    released: Seq<H>,
    failures: Seq<HookFailure>,
) -> bool {
    &&& released.len() == held.len()
    &&& forall|i: int|
        0 <= i < released.len() ==> cleaned(held[i], #[trigger] released[i], reported(failures, i))
}

/// What switching the hook of a kind of call on or off does: the hook
/// filed under the kind is switched, or the result tells that it could
/// not be; no other hook and no rule changes. Where no hook is filed under
/// the kind, nothing happens and the result is `Ok`.
pub open spec fn hook_switched<H: NetworkHook>(
    before: &NetworkHookManager<H>,
    now: &NetworkHookManager<H>,
    kind: HookType,
    enable: bool,
    result: Result<(), HookError>,
) -> bool {
    match before.slot(kind) {
        Some(i) => {
            &&& now.same_but_at(before, i as int)
            &&& (now.hooks()[i as int].enabled() == enable) <==> result is Ok
        },
        None => result is Ok && now.hooks_untouched(before) && now.rules() == before.rules(),
    }
}

/// What a command that switches a hook does, and how it is reported.
pub open spec fn switched<H: NetworkHook>(
    before: &NetworkHookManager<H>,
    now: &NetworkHookManager<H>,
    kind: HookType,
    enable: bool,
    report: CommandReport,
) -> bool {
    &&& report matches CommandReport::HookSwitched { kind: k, enable: e, result }
    &&& k == kind
    &&& e == enable
    &&& hook_switched(before, now, kind, enable, result)
}

/// A failure that is added for one position is reported for that
/// position, and changes nothing for any other.
proof fn lemma_reported_grows(
    before: Seq<HookFailure>,
    now: Seq<HookFailure>,
    at: int,
    failed: bool,
    index: int,
)
    requires
        forall|k: int| 0 <= k < before.len() ==> (#[trigger] before[k]).index < at,
        failed ==> now.len() == before.len() + 1 && now.last().index == at && now.drop_last()
            =~= before,
        !failed ==> now == before,
    ensures
        index == at ==> (reported(now, index) <==> failed),
        index != at ==> (reported(now, index) <==> reported(before, index)),
{
    if failed {
        assert(now[now.len() - 1].index == at);
        if reported(before, index) {
            let k = choose|k: int| 0 <= k < before.len() && (#[trigger] before[k]).index == index;
            assert(now.drop_last()[k] == now[k]);
        }
        if reported(now, index) && index != at {
            let k = choose|k: int| 0 <= k < now.len() && (#[trigger] now[k]).index == index;
            assert(k < before.len());
            assert(now.drop_last()[k] == now[k]);
        }
    }
}

} // verus!
