//! The decisions of the configuration watcher: what a watch response asks
//! for, how a burst of changes is gathered, and where a new watch starts.
use vstd::prelude::*;

use crate::text::concat;

verus! {

/// What the watcher does after a response.
#[derive(Debug, Clone, Copy, PartialEq, Eq, Structural)]
pub enum WatchResponseAction {
    Continue,
    Reload,
    ReloadAndReconnect,
}

/// What a watch response says.
#[derive(Debug, Clone)]
pub struct WatchResponseFacts {
    pub canceled: bool,
    pub created: bool,
    pub compact_revision: i64,
    pub cancel_reason: String,
    pub event_count: usize,
}

/// Classifies a watch response: a cancel after compaction asks for a reload
/// and a new watch, any other cancel is an error; the creation response and
/// responses without events change nothing; events ask for a reload.
pub fn classify_watch_response(response: &WatchResponseFacts) -> (res: Result<
    WatchResponseAction,
    String,
>)
    ensures
        response.canceled && response.compact_revision > 0 ==> res == Ok::<
            WatchResponseAction,
            String,
        >(WatchResponseAction::ReloadAndReconnect),
        response.canceled && response.compact_revision <= 0 ==> (res matches Err(m) && m@
            == "etcd watch canceled: "@ + response.cancel_reason@),
        !response.canceled && (response.created || response.event_count == 0) ==> res == Ok::<
            WatchResponseAction,
            String,
        >(WatchResponseAction::Continue),
        !response.canceled && !response.created && response.event_count > 0 ==> res == Ok::<
            WatchResponseAction,
            String,
        >(WatchResponseAction::Reload),
{
    if response.canceled {
        if response.compact_revision > 0 {
            return Ok(WatchResponseAction::ReloadAndReconnect);
        }
        return Err(concat("etcd watch canceled: ", response.cancel_reason.as_str()));
    }
    if response.created || response.event_count == 0 {
        return Ok(WatchResponseAction::Continue);
    }
    Ok(WatchResponseAction::Reload)
}

/// The revision a new watch starts from: the one after the last loaded,
/// kept at the largest revision when there is none after it.
pub fn watch_start_revision(loaded: i64) -> (start: i64)
    ensures
        loaded < i64::MAX ==> start == loaded + 1,
        loaded == i64::MAX ==> start == i64::MAX,
{
    if loaded < i64::MAX {
        loaded + 1
    } else {
        i64::MAX
    }
}

/// What a response seen while a burst of changes is gathered does: nothing,
/// restart the quiet period, or end the burst with a reconnect.
#[derive(Debug, Clone, Copy, PartialEq, Eq, Structural)]
pub enum BurstStep {
    Wait,
    RestartQuietPeriod,
    Finish(WatchResponseAction),
}

/// The step of a burst for a classified response.
pub fn burst_step(action: WatchResponseAction) -> (step: BurstStep)
    ensures
        action == WatchResponseAction::Continue ==> step == BurstStep::Wait,
        action == WatchResponseAction::Reload ==> step == BurstStep::RestartQuietPeriod,
        action == WatchResponseAction::ReloadAndReconnect ==> step == BurstStep::Finish(
            WatchResponseAction::ReloadAndReconnect,
        ),
{
    match action {
        WatchResponseAction::Continue => BurstStep::Wait,
        WatchResponseAction::Reload => BurstStep::RestartQuietPeriod,
        WatchResponseAction::ReloadAndReconnect => BurstStep::Finish(
            WatchResponseAction::ReloadAndReconnect,
        ),
    }
}

/// What a burst ends with when the quiet period passes or the stream ends:
/// a reload on the same watch.
pub fn quiet_burst_end() -> (action: WatchResponseAction)
    ensures
        action == WatchResponseAction::Reload,
{
    WatchResponseAction::Reload
}

/// Whether the watch ends after reloading for `action`: it does when the
/// action, or the burst that followed it, asked for a reconnect.
pub fn reconnect_after(action: WatchResponseAction, burst_end: WatchResponseAction) -> (res: bool)
    ensures
        res == (action == WatchResponseAction::ReloadAndReconnect || (action
            == WatchResponseAction::Reload && burst_end
            == WatchResponseAction::ReloadAndReconnect)),
{
    match action {
        WatchResponseAction::ReloadAndReconnect => true,
        WatchResponseAction::Reload => match burst_end {
            WatchResponseAction::ReloadAndReconnect => true,
            _ => false,
        },
        WatchResponseAction::Continue => false,
    }
}

} // verus!
