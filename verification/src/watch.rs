//! The watch loop's decisions: the sliding-window debounce state machine
//! and the bookkeeping of one rebuild cycle. The loop around these (the
//! filesystem watcher, the clock, the renderer) lives outside the library
//! and feeds events in as plain values.

use vstd::prelude::*;
use crate::cache::{BuildState, spec_classify, spec_expand};
use crate::cache::{classify_changes, expand_targets};
use crate::digest_map::DigestMap;
use crate::targets::TargetSet;

verus! {

/// The quiet period that must follow a burst of change events before a
/// rebuild runs, in milliseconds.
pub const DEBOUNCE_MS: u64 = 300;

/// The debounce machine's state: waiting for a first event, or draining a
/// burst until its deadline passes quietly.
#[derive(Debug, Clone, Copy, PartialEq, Eq, Structural)]
pub enum WatchState {
    Idle,
    Draining { deadline_ms: u64 },
}

/// What the loop feeds the machine: a filesystem change noticed at some
/// instant, or the clock reaching an instant with nothing new.
#[derive(Debug, Clone, Copy, PartialEq, Eq, Structural)]
pub enum WatchEvent {
    ChangeNoticed { at_ms: u64 },
    Tick { at_ms: u64 },
}

/// What the loop must do after a step: keep waiting, or run one rebuild
/// cycle now.
#[derive(Debug, Clone, Copy, PartialEq, Eq, Structural)]
pub enum WatchAction {
    Wait,
    Rebuild,
}

/// The debounce transition: any change (re)arms the deadline one window
/// ahead of that change, a tick at or past an armed deadline fires exactly
/// one rebuild and returns to `Idle`, and every other tick changes nothing.
pub open spec fn spec_watch_step(state: WatchState, event: WatchEvent) -> (WatchState, WatchAction) {
    match event {
        WatchEvent::ChangeNoticed { at_ms } => (
            WatchState::Draining { deadline_ms: (at_ms + DEBOUNCE_MS) as u64 },
            WatchAction::Wait,
        ),
        WatchEvent::Tick { at_ms } => match state {
            WatchState::Idle => (WatchState::Idle, WatchAction::Wait),
            WatchState::Draining { deadline_ms } => if at_ms >= deadline_ms {
                (WatchState::Idle, WatchAction::Rebuild)
            } else {
                (WatchState::Draining { deadline_ms }, WatchAction::Wait)
            },
        },
    }
}

/// Runs one debounce step.
pub fn watch_step(state: &WatchState, event: &WatchEvent) -> (r: (WatchState, WatchAction))
    requires
        event matches WatchEvent::ChangeNoticed { at_ms } ==> at_ms <= u64::MAX - DEBOUNCE_MS,
    ensures
        r == spec_watch_step(*state, *event),
{
    match event {
        WatchEvent::ChangeNoticed { at_ms } => (
            WatchState::Draining { deadline_ms: *at_ms + DEBOUNCE_MS },
            WatchAction::Wait,
        ),
        WatchEvent::Tick { at_ms } => match state {
            WatchState::Idle => (WatchState::Idle, WatchAction::Wait),
            WatchState::Draining { deadline_ms } => {
                if *at_ms >= *deadline_ms {
                    (WatchState::Idle, WatchAction::Rebuild)
                } else {
                    (WatchState::Draining { deadline_ms: *deadline_ms }, WatchAction::Wait)
                }
            },
        },
    }
}

/// A change never fires a rebuild directly; only a quiet tick does.
pub proof fn lemma_change_only_arms(state: WatchState, at_ms: u64)
    ensures
        spec_watch_step(state, WatchEvent::ChangeNoticed { at_ms }).1 == WatchAction::Wait,
{
}

/// A tick before an armed deadline leaves the machine exactly as it was.
pub proof fn lemma_early_tick_waits(deadline_ms: u64, at_ms: u64)
    requires
        at_ms < deadline_ms,
    ensures
        spec_watch_step(WatchState::Draining { deadline_ms }, WatchEvent::Tick { at_ms }) == (
            WatchState::Draining { deadline_ms },
            WatchAction::Wait,
        ),
{
}

/// Plans one rebuild cycle against the stored snapshot: with no prior state
/// there is nothing to diff and the build is unconditionally full (`None`);
/// with one, the fresh hashes are classified against it and expanded into
/// the invalidation set.
pub fn plan_rebuild(previous: &Option<BuildState>, new_hashes: &DigestMap) -> (r: Option<
    TargetSet,
>)
    ensures
        match previous {
            None => r is None,
            Some(prev) => r matches Some(ts) && ts@ == spec_expand(
                spec_classify(prev.content_hashes@, new_hashes@),
            ),
        },
{
    match previous {
        None => None,
        Some(prev) => {
            let classification = classify_changes(&prev.content_hashes, new_hashes);
            Some(expand_targets(&classification))
        },
    }
}

/// Applies a render outcome to the orchestrator's shared bookkeeping: a
/// success adopts the fresh snapshot and clears the stored error, so a
/// stored snapshot always describes real on-disk output; a failure keeps
/// the last-known-good snapshot and records the error for the serving
/// layer.
pub fn apply_render_outcome(
    previous: Option<BuildState>,
    fresh: BuildState,
    outcome: Result<(), String>,
) -> (r: (Option<BuildState>, Option<String>))
    ensures
        outcome is Ok ==> {
            &&& r.0 matches Some(s) && s.content_hashes@ == fresh.content_hashes@
            &&& r.1 is None
        },
        outcome matches Err(e) ==> {
            &&& r.1 == Some(e)
            &&& (r.0 is Some <==> previous is Some)
            &&& (previous matches Some(p) ==> r.0 matches Some(s) && s.content_hashes@
                == p.content_hashes@)
        },
{
    match outcome {
        Ok(_) => (Some(fresh), None),
        Err(e) => (previous, Some(e)),
    }
}

} // verus!
