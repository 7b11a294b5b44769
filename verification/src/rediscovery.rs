//! How the payload has controllers looked for again when blocking ends.
//!
//! Each procedure is a succession of stages. The caller carries out what a stage
//! stands for and hands back whether it succeeded.

use vstd::prelude::*;

use crate::pe::smaller;

verus! {

/// When the second discovery request follows the first, in milliseconds. It must
/// come after the cleanup that the first one queues.
pub const SECOND_DISCOVERY_DELAY: u64 = 2200;

/// How long a device-change message may take, in milliseconds.
pub const SDL_DEVICE_CHANGE_TIMEOUT: u32 = 2000;

/// A stage of the rediscovery after blocking ended.
#[derive(Clone, Copy, Debug, PartialEq, Eq, Structural)]
pub enum RescanStage {
    /// See whether a new lease blocks again.
    CheckingBlock,
    /// Refresh the controllers that SDL holds.
    RefreshingSdl,
    /// Request discovery, whatever budget is left.
    Requesting,
    /// Arm the timer for the second request.
    Scheduling,
    /// Pause for [`SECOND_DISCOVERY_DELAY`], as there is no timer.
    Pausing,
    /// See once more whether a new lease blocks again.
    CheckingAgain,
    /// Request discovery for the second time.
    RequestingAgain,
    /// Post a device-change notification to the process's windows.
    Notifying,
    /// Nothing is left to do.
    Finished,
}

/// The stage that follows. At a check the outcome is whether blocking is
/// effective, elsewhere whether the stage succeeded.
pub open spec fn rescan_after(stage: RescanStage, outcome: bool) -> RescanStage {
    match stage {
        RescanStage::CheckingBlock => if outcome {
            RescanStage::Finished
        } else {
            RescanStage::RefreshingSdl
        },
        RescanStage::RefreshingSdl => RescanStage::Requesting,
        RescanStage::Requesting => if outcome {
            RescanStage::Scheduling
        } else {
            RescanStage::Notifying
        },
        RescanStage::Scheduling => if outcome {
            RescanStage::Finished
        } else {
            RescanStage::Pausing
        },
        RescanStage::Pausing => RescanStage::CheckingAgain,
        RescanStage::CheckingAgain => if outcome {
            RescanStage::Finished
        } else {
            RescanStage::RequestingAgain
        },
        RescanStage::RequestingAgain => RescanStage::Finished,
        RescanStage::Notifying => RescanStage::Finished,
        RescanStage::Finished => RescanStage::Finished,
    }
}

/// Decides the stage that follows.
///
/// A new lease does its own rediscovery when it ends, so nothing is done while
/// blocking is effective again. A build whose scheduler is unknown gets a plain
/// notification.
pub fn notify_controller_rescan(stage: RescanStage, outcome: bool) -> (next: RescanStage)
    ensures
        next == rescan_after(stage, outcome),
{
    match stage {
        RescanStage::CheckingBlock => if outcome {
            RescanStage::Finished
        } else {
            RescanStage::RefreshingSdl
        },
        RescanStage::RefreshingSdl => RescanStage::Requesting,
        RescanStage::Requesting => if outcome {
            RescanStage::Scheduling
        } else {
            RescanStage::Notifying
        },
        RescanStage::Scheduling => if outcome {
            RescanStage::Finished
        } else {
            RescanStage::Pausing
        },
        RescanStage::Pausing => RescanStage::CheckingAgain,
        RescanStage::CheckingAgain => if outcome {
            RescanStage::Finished
        } else {
            RescanStage::RequestingAgain
        },
        _ => RescanStage::Finished,
    }
}

/// The stage after a whole history of outcomes.
pub open spec fn rescan_stage(outcomes: Seq<bool>) -> RescanStage
    decreases outcomes.len(),
{
    if outcomes.len() == 0 {
        RescanStage::CheckingBlock
    } else {
        rescan_after(rescan_stage(outcomes.drop_last()), outcomes.last())
    }
}

/// Discovery is requested only after blocking was seen to be off: right before a
/// second request on this path, and two stages before a first one.
pub proof fn law_rediscovery_respects_new_leases(outcomes: Seq<bool>)
    ensures
        rescan_stage(outcomes) is Requesting ==> outcomes.len() == 2 && !outcomes[0],
        rescan_stage(outcomes) is RequestingAgain ==> outcomes.len() > 0 && rescan_stage(
            outcomes.drop_last(),
        ) is CheckingAgain && !outcomes.last(),
{
    if outcomes.len() > 0 {
        let before = outcomes.drop_last();
        if rescan_stage(outcomes) is Requesting {
            assert(rescan_stage(before) is RefreshingSdl);
            assert(before.len() > 0);
            let start = before.drop_last();
            assert(rescan_stage(start) is CheckingBlock && !before.last());
            lemma_check_is_the_start(start);
            assert(outcomes[0] == before.last());
        }
    }
}

proof fn lemma_check_is_the_start(outcomes: Seq<bool>)
    requires
        rescan_stage(outcomes) is CheckingBlock,
    ensures
        outcomes.len() == 0,
{
    if outcomes.len() > 0 {
        let before = rescan_stage(outcomes.drop_last());
        assert(!(rescan_after(before, outcomes.last()) is CheckingBlock));
    }
}

/// A successful first request is never the last thing done: the second is
/// scheduled, or made, or left to a lease that blocks again.
pub proof fn law_a_first_request_is_followed_up(outcomes: Seq<bool>)
    requires
        outcomes.len() > 0,
        rescan_stage(outcomes.drop_last()) is Requesting,
        outcomes.last(),
    ensures
        rescan_stage(outcomes) is Scheduling,
        rescan_after(RescanStage::Scheduling, false) is Pausing,
        rescan_after(RescanStage::Pausing, true) is CheckingAgain,
        rescan_after(RescanStage::Pausing, false) is CheckingAgain,
        rescan_after(RescanStage::CheckingAgain, false) is RequestingAgain,
{
}

/// A stage of the refresh of the controllers that SDL holds.
#[derive(Clone, Copy, Debug, PartialEq, Eq, Structural)]
pub enum SdlStage {
    /// Find the next device-detection window.
    FindingWindow,
    /// See whether the window belongs to this process.
    CheckingOwner,
    /// Send the window a device arrival and wait for its answer.
    Sending,
    /// Find the loaded SDL module.
    FindingModule,
    /// Find its update function.
    FindingUpdate,
    /// Update, which may drop a dead controller.
    Updating,
    /// Update again, which adds the controller anew.
    UpdatingAgain,
    /// The refresh is over; whether it ran.
    Finished(bool),
}

/// The stage that follows. A window of another process is passed over; any other
/// failure ends the refresh.
pub open spec fn sdl_after(stage: SdlStage, succeeded: bool) -> SdlStage {
    match stage {
        SdlStage::CheckingOwner => if succeeded {
            SdlStage::Sending
        } else {
            SdlStage::FindingWindow
        },
        SdlStage::Updating => SdlStage::UpdatingAgain,
        SdlStage::UpdatingAgain => SdlStage::Finished(true),
        SdlStage::Finished(ran) => SdlStage::Finished(ran),
        SdlStage::FindingWindow => if succeeded {
            SdlStage::CheckingOwner
        } else {
            SdlStage::Finished(false)
        },
        SdlStage::Sending => if succeeded {
            SdlStage::FindingModule
        } else {
            SdlStage::Finished(false)
        },
        SdlStage::FindingModule => if succeeded {
            SdlStage::FindingUpdate
        } else {
            SdlStage::Finished(false)
        },
        SdlStage::FindingUpdate => if succeeded {
            SdlStage::Updating
        } else {
            SdlStage::Finished(false)
        },
    }
}

/// Decides the stage that follows.
///
/// SDL keeps a failed controller until its device-change generation advances, so
/// asking Steam alone cannot bring such a controller back. The message must be
/// delivered before the two updates.
pub fn refresh_sdl_hidapi_devices(stage: SdlStage, succeeded: bool) -> (next: SdlStage)
    ensures
        next == sdl_after(stage, succeeded),
{
    match (stage, succeeded) {
        (SdlStage::CheckingOwner, true) => SdlStage::Sending,
        (SdlStage::CheckingOwner, false) => SdlStage::FindingWindow,
        (SdlStage::Updating, _) => SdlStage::UpdatingAgain,
        (SdlStage::UpdatingAgain, _) => SdlStage::Finished(true),
        (SdlStage::Finished(ran), _) => SdlStage::Finished(ran),
        (SdlStage::FindingWindow, true) => SdlStage::CheckingOwner,
        (SdlStage::Sending, true) => SdlStage::FindingModule,
        (SdlStage::FindingModule, true) => SdlStage::FindingUpdate,
        (SdlStage::FindingUpdate, true) => SdlStage::Updating,
        (_, _) => SdlStage::Finished(false),
    }
}

/// Whether a device arrival counts as delivered: the call succeeded in time and
/// the window answered.
pub fn arrival_delivered(sent: usize, answer: usize) -> (delivered: bool)
    ensures
        delivered == (sent != 0 && answer != 0),
{
    sent != 0 && answer != 0
}

/// The stage after a whole history of outcomes.
pub open spec fn sdl_stage(outcomes: Seq<bool>) -> SdlStage
    decreases outcomes.len(),
{
    if outcomes.len() == 0 {
        SdlStage::FindingWindow
    } else {
        sdl_after(sdl_stage(outcomes.drop_last()), outcomes.last())
    }
}

/// A refresh that ran delivered its message to a window of this process and then
/// updated twice.
pub proof fn law_a_refresh_updates_after_delivery(outcomes: Seq<bool>)
    requires
        sdl_stage(outcomes) is UpdatingAgain,
    ensures
        outcomes.len() >= 6,
        ({
            let end = outcomes.len() as int;
            &&& sdl_stage(outcomes.take(end - 5)) is CheckingOwner && outcomes[end - 5]
            &&& sdl_stage(outcomes.take(end - 4)) is Sending && outcomes[end - 4]
            &&& sdl_stage(outcomes.take(end - 1)) is Updating
        }),
{
    let end = outcomes.len() as int;
    let updating = outcomes.take(end - 1);
    assert(outcomes.drop_last() =~= updating);
    assert(sdl_stage(updating) is Updating);
    let finding = outcomes.take(end - 2);
    assert(updating.drop_last() =~= finding);
    assert(sdl_stage(finding) is FindingUpdate);
    let module = outcomes.take(end - 3);
    assert(finding.drop_last() =~= module);
    assert(sdl_stage(module) is FindingModule);
    let sending = outcomes.take(end - 4);
    assert(module.drop_last() =~= sending);
    assert(sdl_stage(sending) is Sending);
    let owner = outcomes.take(end - 5);
    assert(sending.drop_last() =~= owner);
    assert(sdl_stage(owner) is CheckingOwner);
    assert(owner.len() > 0);
}

/// What the timer thread does next.
#[derive(Clone, Copy, Debug, PartialEq, Eq, Structural)]
pub enum TimerStep {
    /// Wait until the timer is armed.
    WaitForArming,
    /// Wait for that many milliseconds, or until the timer is armed anew.
    Wait(u64),
    /// The second request is due.
    Due,
}

/// The timer for second discovery requests. Arming it again replaces the deadline,
/// so that releases do not pile up.
#[derive(Clone, Copy, Debug, PartialEq, Eq, Structural)]
pub struct RescanTimer {
    /// Whether the timer's thread runs.
    pub started: bool,
    /// When the next request is due, in milliseconds.
    pub deadline: Option<u64>,
}

impl RescanTimer {
    /// A timer that is neither started nor armed.
    pub fn new() -> (timer: RescanTimer)
        ensures
            timer == (RescanTimer { started: false, deadline: None }),
    {
        RescanTimer { started: false, deadline: None }
    }

    /// Arms the timer. `spawned` is whether its thread could be started, where it
    /// did not run yet; without a thread nothing is armed and a later release
    /// tries again.
    pub fn schedule_second_discovery(&mut self, spawned: bool, now: u64) -> (scheduled: bool)
        ensures
            scheduled == (old(self).started || spawned),
            *final(self) == if scheduled {
                RescanTimer {
                    started: true,
                    deadline: Some(smaller(now + SECOND_DISCOVERY_DELAY, u64::MAX as int) as u64),
                }
            } else {
                *old(self)
            },
    {
        if !self.started && !spawned {
            return false;
        }
        self.started = true;
        self.deadline = Some(now.saturating_add(SECOND_DISCOVERY_DELAY));
        true
    }

    /// What the timer's thread does at a time. A due request is taken out.
    pub fn rescan_timer_loop(&mut self, now: u64) -> (step: TimerStep)
        ensures
            final(self).started == old(self).started,
            match old(self).deadline {
                None => step == TimerStep::WaitForArming && final(self).deadline is None,
                Some(at) => if now < at {
                    step == TimerStep::Wait((at - now) as u64) && final(self).deadline == Some(at)
                } else {
                    step == TimerStep::Due && final(self).deadline is None
                },
            },
    {
        match self.deadline {
            None => TimerStep::WaitForArming,
            Some(at) => if now < at {
                TimerStep::Wait(at - now)
            } else {
                self.deadline = None;
                TimerStep::Due
            },
        }
    }
}

/// When blocking ended and no new lease blocks, discovery is requested whatever became of
/// the refresh before it; while a new lease blocks, nothing is done at all.
pub proof fn law_each_end_of_blocking_requests_discovery(outcomes: Seq<bool>)
    ensures
        outcomes.len() > 0 && outcomes[0] ==> rescan_stage(outcomes) is Finished,
        outcomes.len() == 1 && !outcomes[0] ==> rescan_stage(outcomes) is RefreshingSdl,
        outcomes.len() == 2 && !outcomes[0] ==> rescan_stage(outcomes) is Requesting,
    decreases outcomes.len(),
{
    if outcomes.len() > 0 {
        let before = outcomes.drop_last();
        law_each_end_of_blocking_requests_discovery(before);
        if before.len() == 0 {
            assert(outcomes[0] == outcomes.last());
        } else {
            assert(outcomes[0] == before[0]);
        }
    }
}

/// A request that could not be made is replaced by a notification. One that was made is
/// repeated: by the timer, or else after a pause, unless a new lease blocks by then.
pub proof fn law_a_request_is_repeated_or_replaced(outcomes: Seq<bool>)
    requires
        rescan_stage(outcomes) is Requesting,
    ensures
        rescan_stage(outcomes.push(false)) is Notifying,
        rescan_stage(outcomes.push(false).push(true)) is Finished,
        rescan_stage(outcomes.push(true).push(true)) is Finished,
        rescan_stage(outcomes.push(true)) is Scheduling,
        rescan_stage(outcomes.push(true).push(false)) is Pausing,
        forall|paused: bool|
            #![trigger outcomes.push(true).push(false).push(paused)]
            {
                let waited = outcomes.push(true).push(false).push(paused);
                &&& rescan_stage(waited) is CheckingAgain
                &&& rescan_stage(waited.push(true)) is Finished
                &&& rescan_stage(waited.push(false)) is RequestingAgain
                &&& rescan_stage(waited.push(false).push(paused)) is Finished
            },
{
    let refused = outcomes.push(false);
    let made = outcomes.push(true);
    let untimed = made.push(false);
    assert(refused.drop_last() =~= outcomes);
    assert(refused.push(true).drop_last() =~= refused);
    assert(made.drop_last() =~= outcomes);
    assert(made.push(true).drop_last() =~= made);
    assert(untimed.drop_last() =~= made);
    assert forall|paused: bool|
        #![trigger outcomes.push(true).push(false).push(paused)]
        {
            let waited = outcomes.push(true).push(false).push(paused);
            &&& rescan_stage(waited) is CheckingAgain
            &&& rescan_stage(waited.push(true)) is Finished
            &&& rescan_stage(waited.push(false)) is RequestingAgain
            &&& rescan_stage(waited.push(false).push(paused)) is Finished
        } by {
        let waited = untimed.push(paused);
        assert(waited.drop_last() =~= untimed);
        assert(waited.push(true).drop_last() =~= waited);
        assert(waited.push(false).drop_last() =~= waited);
        assert(waited.push(false).push(paused).drop_last() =~= waited.push(false));
    }
}

/// What is over stays over.
pub proof fn law_a_finished_rediscovery_stays_finished(outcomes: Seq<bool>, outcome: bool)
    ensures
        rescan_stage(outcomes) is Finished ==> rescan_stage(outcomes.push(outcome)) is Finished,
        sdl_stage(outcomes) is Finished ==> sdl_stage(outcomes.push(outcome)) == sdl_stage(
            outcomes,
        ),
{
    assert(outcomes.push(outcome).drop_last() =~= outcomes);
}

proof fn lemma_sdl_step(outcomes: Seq<bool>, outcome: bool)
    ensures
        sdl_stage(outcomes.push(outcome)) == sdl_after(sdl_stage(outcomes), outcome),
{
    assert(outcomes.push(outcome).drop_last() =~= outcomes);
}

/// A window of another process is passed over and the next one is looked for; from the
/// first window of this process on, a refresh runs to its end where nothing fails, however
/// many windows were passed over.
pub proof fn law_a_refresh_finds_its_own_window(outcomes: Seq<bool>, update: bool, again: bool)
    requires
        sdl_stage(outcomes) is FindingWindow,
    ensures
        sdl_stage(outcomes.push(true).push(false)) is FindingWindow,
        sdl_stage(outcomes.push(false)) == SdlStage::Finished(false),
        sdl_stage(
            outcomes.push(true).push(true).push(true).push(true).push(true).push(update).push(
                again,
            ),
        ) == SdlStage::Finished(true),
{
    lemma_sdl_step(outcomes, true);
    lemma_sdl_step(outcomes, false);
    let found = outcomes.push(true);
    lemma_sdl_step(found, false);
    lemma_sdl_step(found, true);
    let own = found.push(true);
    lemma_sdl_step(own, true);
    let sent = own.push(true);
    lemma_sdl_step(sent, true);
    let module = sent.push(true);
    lemma_sdl_step(module, true);
    let function = module.push(true);
    lemma_sdl_step(function, update);
    lemma_sdl_step(function.push(update), again);
}

/// A message that was not delivered, or a module or function that is missing, ends a
/// refresh without an update.
pub proof fn law_a_failed_refresh_updates_nothing(outcomes: Seq<bool>)
    ensures
        sdl_stage(outcomes) is Sending || sdl_stage(outcomes) is FindingModule || sdl_stage(
            outcomes,
        ) is FindingUpdate ==> sdl_stage(outcomes.push(false)) == SdlStage::Finished(false),
        sdl_stage(outcomes) == SdlStage::Finished(true) ==> outcomes.len() > 0 && (sdl_stage(
            outcomes.drop_last(),
        ) is UpdatingAgain || sdl_stage(outcomes.drop_last()) == SdlStage::Finished(true)),
{
    assert(outcomes.push(false).drop_last() =~= outcomes);
}

} // verus!
