//! Start-up: what the library does when it is loaded into a process.
//!
//! The loader calls the entry point of the library while it holds its
//! lock, so the entry point does one thing only: on attachment it starts a
//! worker. The worker then goes through the steps of the start-up in
//! their order, and ends in the loop that receives commands.

use vstd::prelude::*;

verus! {

/// The reason with which the loader calls the entry point when the
/// library is unloaded from a process.
pub const DLL_PROCESS_DETACH: u32 = 0;

/// The reason with which the loader calls the entry point when the
/// library is loaded into a process.
pub const DLL_PROCESS_ATTACH: u32 = 1;

/// What the entry point does for a call of the loader.
#[derive(Clone, Copy, Debug, PartialEq, Eq, Structural)]
pub enum LoadAction {
    /// Start the worker, and return.
    SpawnWorker,
    /// Return.
    Nothing,
}

/// What the entry point does when the loader calls it with a reason.
pub open spec fn load_action_of(reason: u32) -> LoadAction {
    if reason == DLL_PROCESS_ATTACH {
        LoadAction::SpawnWorker
    } else {
        LoadAction::Nothing
    }
}

/// Decides what the entry point does for a call of the loader: the worker
/// is started on attachment to a process, and on no other occasion.
pub fn load_action(reason: u32) -> (r: LoadAction)
    ensures
        r == load_action_of(reason),
{
    if reason == DLL_PROCESS_ATTACH {
        LoadAction::SpawnWorker
    } else {
        LoadAction::Nothing
    }
}

/// The steps of the worker, in their order.
#[derive(Clone, Copy, Debug, PartialEq, Eq, Structural)]
pub enum StartupStep {
    /// Set up logging.
    InitLogging,
    /// Open the data channel, on which packet records go out.
    OpenDataChannel,
    /// Make the hook primitive ready and hand the six hooks to the manager.
    PrepareHooks,
    /// Enable all hooks.
    EnableHooks,
    /// Make the rule store known to the interception path.
    PublishRules,
    /// Open the command channel.
    OpenCommandChannel,
    /// Receive commands, until the channel is disconnected.
    Serve,
}

/// Why the start-up was given up.
#[derive(Clone, Copy, Debug, PartialEq, Eq, Structural)]
pub enum StartupError {
    /// The data channel could not be opened.
    DataChannel,
    /// The hook primitive could not be made ready.
    HookPrimitive,
    /// The command channel could not be opened.
    CommandChannel,
}

/// The place of a step in the start-up.
pub open spec fn rank(step: StartupStep) -> nat {
    match step {
        StartupStep::InitLogging => 0,
        StartupStep::OpenDataChannel => 1,
        StartupStep::PrepareHooks => 2,
        StartupStep::EnableHooks => 3,
        StartupStep::PublishRules => 4,
        StartupStep::OpenCommandChannel => 5,
        StartupStep::Serve => 6,
    }
}

/// The error with which the start-up is given up when a step fails; `None`
/// for a step whose failure is logged and passed over.
pub open spec fn fatal(step: StartupStep) -> Option<StartupError> {
    match step {
        StartupStep::OpenDataChannel => Some(StartupError::DataChannel),
        StartupStep::PrepareHooks => Some(StartupError::HookPrimitive),
        StartupStep::OpenCommandChannel => Some(StartupError::CommandChannel),
        _ => None,
    }
}

/// The step that follows a step; `None` after the last.
pub open spec fn successor(step: StartupStep) -> Option<StartupStep> {
    match step {
        StartupStep::InitLogging => Some(StartupStep::OpenDataChannel),
        StartupStep::OpenDataChannel => Some(StartupStep::PrepareHooks),
        StartupStep::PrepareHooks => Some(StartupStep::EnableHooks),
        StartupStep::EnableHooks => Some(StartupStep::PublishRules),
        StartupStep::PublishRules => Some(StartupStep::OpenCommandChannel),
        StartupStep::OpenCommandChannel => Some(StartupStep::Serve),
        StartupStep::Serve => None,
    }
}

/// How the start-up goes on after a step.
pub open spec fn after_step(step: StartupStep, succeeded: bool) -> Result<
    Option<StartupStep>,
    StartupError,
> {
    if !succeeded && fatal(step) is Some {
        Err(fatal(step)->0)
    } else {
        Ok(successor(step))
    }
}

/// The step with which the worker begins.
pub fn first_step() -> (r: StartupStep)
    ensures
        rank(r) == 0,
{
    StartupStep::InitLogging
}

/// Decides how the start-up goes on after a step that succeeded or failed.
///
/// The start-up is given up when a channel cannot be opened or the hook
/// primitive cannot be made ready. Any other failure is passed over: a
/// hook that cannot be enabled does not keep the library from serving.
/// After the last step, which ends when the command channel is
/// disconnected, nothing follows.
pub fn next_step(step: StartupStep, succeeded: bool) -> (r: Result<
    Option<StartupStep>,
    StartupError,
>)
    ensures
        r == after_step(step, succeeded),
{
    match step {
        StartupStep::InitLogging => Ok(Some(StartupStep::OpenDataChannel)),
        StartupStep::OpenDataChannel => if succeeded {
            Ok(Some(StartupStep::PrepareHooks))
        } else {
            Err(StartupError::DataChannel)
        },
        StartupStep::PrepareHooks => if succeeded {
            Ok(Some(StartupStep::EnableHooks))
        } else {
            Err(StartupError::HookPrimitive)
        },
        StartupStep::EnableHooks => Ok(Some(StartupStep::PublishRules)),
        StartupStep::PublishRules => Ok(Some(StartupStep::OpenCommandChannel)),
        StartupStep::OpenCommandChannel => if succeeded {
            Ok(Some(StartupStep::Serve))
        } else {
            Err(StartupError::CommandChannel)
        },
        StartupStep::Serve => Ok(None),
    }
}

/// The steps follow one another in their order, none is left out, and
/// only the last has no successor.
pub proof fn lemma_steps_in_order(step: StartupStep, succeeded: bool)
    ensures
        match after_step(step, succeeded) {
            Ok(Some(next)) => rank(next) == rank(step) + 1,
            Ok(None) => step == StartupStep::Serve,
            Err(_) => !succeeded,
        },
        succeeded ==> after_step(step, succeeded) is Ok,
{
}

} // verus!
