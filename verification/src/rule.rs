//! Tamper rules: what to look for in a payload, on which intercepted call,
//! and what to do with the payload when it is found.

use vstd::prelude::*;

verus! {

/// The intercepted socket calls.
#[derive(Clone, Copy, Debug, PartialEq, Eq, Hash, Structural)]
pub enum HookType {
    Send,
    Recv,
    SendTo,
    RecvFrom,
    WSASend,
    WSARecv,
}

/// What a rule does to a payload it matches.
#[derive(Clone, Copy, Debug, PartialEq, Eq, Hash, Structural)]
pub enum TamperAction {
    /// Rewrite the matched bytes.
    Replace,
    /// Keep the payload from going any further.
    Block,
}

/// The way a payload travels through an intercepted call.
#[derive(Clone, Copy, Debug, PartialEq, Eq, Hash, Structural)]
pub enum Direction {
    /// From the application to the network.
    Outbound,
    /// From the network to the application.
    Inbound,
}

/// A rule of the store.
#[derive(Debug, PartialEq, Eq)]
pub struct TamperRule {
    /// Identifies the rule; no two rules of a store share one.
    pub id: String,
    /// A name for people to read.
    pub name: String,
    /// The hex pattern, with `??` wildcards, that selects payloads.
    pub match_pattern: String,
    /// For `Replace`: what takes the place of the matched bytes.
    pub replace: String,
    pub action: TamperAction,
    /// Only active rules are consulted.
    pub active: bool,
    /// How many payloads the rule has matched.
    pub hits: u64,
    /// The intercepted call the rule applies to.
    pub hook: HookType,
}

/// A rule as a mathematical value.
pub struct RuleModel {
    pub id: Seq<char>,
    pub name: Seq<char>,
    pub match_pattern: Seq<char>,
    pub replace: Seq<char>,
    pub action: TamperAction,
    pub active: bool,
    pub hits: u64,
    pub hook: HookType,
}

impl View for TamperRule {
    type V = RuleModel;

    open spec fn view(&self) -> RuleModel {
        RuleModel {
            id: self.id@,
            name: self.name@,
            match_pattern: self.match_pattern@,
            replace: self.replace@,
            action: self.action,
            active: self.active,
            hits: self.hits,
            hook: self.hook,
        }
    }
}

impl Clone for TamperRule {
    fn clone(&self) -> (r: Self)
        ensures
            r@ == self@,
    {
        TamperRule {
            id: self.id.clone(),
            name: self.name.clone(),
            match_pattern: self.match_pattern.clone(),
            replace: self.replace.clone(),
            action: self.action,
            active: self.active,
            hits: self.hits,
            hook: self.hook,
        }
    }
}

/// The rules of a sequence, each as a mathematical value.
pub open spec fn models(rules: Seq<TamperRule>) -> Seq<RuleModel> {
    rules.map_values(|r: TamperRule| r@)
}

/// What becomes of an intercepted payload.
#[derive(Debug, PartialEq, Eq)]
pub enum PacketAction {
    /// It passes unchanged.
    Allow,
    /// It goes no further.
    Block,
    /// These bytes pass in its place.
    Replace(Vec<u8>),
}

/// A packet action as a mathematical value.
pub enum ActionModel {
    Allow,
    Block,
    Replace(Seq<u8>),
}

impl View for PacketAction {
    type V = ActionModel;

    open spec fn view(&self) -> ActionModel {
        match self {
            PacketAction::Allow => ActionModel::Allow,
            PacketAction::Block => ActionModel::Block,
            PacketAction::Replace(bytes) => ActionModel::Replace(bytes@),
        }
    }
}

/// An optional packet action as a mathematical value.
pub open spec fn action_of(action: Option<PacketAction>) -> Option<ActionModel> {
    match action {
        Some(a) => Some(a@),
        None => None,
    }
}

impl Clone for PacketAction {
    fn clone(&self) -> (r: Self)
        ensures
            r@ == self@,
    {
        match self {
            PacketAction::Allow => PacketAction::Allow,
            PacketAction::Block => PacketAction::Block,
            PacketAction::Replace(bytes) => PacketAction::Replace(bytes.clone()),
        }
    }
}

impl HookType {
    /// The way payloads travel through this call.
    pub open spec fn spec_direction(self) -> Direction {
        match self {
            HookType::Send | HookType::SendTo | HookType::WSASend => Direction::Outbound,
            HookType::Recv | HookType::RecvFrom | HookType::WSARecv => Direction::Inbound,
        }
    }

    /// The way payloads travel through this call.
    #[verifier::when_used_as_spec(spec_direction)]
    pub fn direction(self) -> (r: Direction)
        ensures
            r == self.spec_direction(),
    {
        match self {
            HookType::Send | HookType::SendTo | HookType::WSASend => Direction::Outbound,
            HookType::Recv | HookType::RecvFrom | HookType::WSARecv => Direction::Inbound,
        }
    }

    /// The name of this call: `"Send"`, `"Recv"`, `"SendTo"`, `"RecvFrom"`,
    /// `"WSASend"` or `"WSARecv"`.
    pub open spec fn spec_name(self) -> Seq<char> {
        match self {
            HookType::Send => "Send"@,
            HookType::Recv => "Recv"@,
            HookType::SendTo => "SendTo"@,
            HookType::RecvFrom => "RecvFrom"@,
            HookType::WSASend => "WSASend"@,
            HookType::WSARecv => "WSARecv"@,
        }
    }

    /// The name of this call.
    pub fn name(self) -> (r: &'static str)
        ensures
            r@ == self.spec_name(),
    {
        match self {
            HookType::Send => "Send",
            HookType::Recv => "Recv",
            HookType::SendTo => "SendTo",
            HookType::RecvFrom => "RecvFrom",
            HookType::WSASend => "WSASend",
            HookType::WSARecv => "WSARecv",
        }
    }
}

} // verus!
