//! The destructive formatting steps as checked state machines.  The
//! library decides which tool runs next; the application performs the run
//! (spawning the low-level format tool, the partitioning tool, the settle
//! wait) and reports what happened.

use vstd::prelude::*;

use crate::errors::DasdError;

verus! {

/// The partitioning tool silently honors only this many records; more must
/// be rejected before the tool is ever invoked.
pub const MAX_PARTITIONS: usize = 3;

/// What the prepare flow needs next.  Each state names the one check or
/// tool run the application must perform before stepping again.
#[derive(Debug, Clone, Copy, PartialEq, Eq, Structural)]
pub enum PrepareState {
    /// Read the device's status attribute and report whether it is already
    /// low-level formatted.
    NeedFormattedCheck,
    /// Run the low-level format tool (block size 4096, compatible disk
    /// layout, full, non-interactive), then wait for the device tree to
    /// settle.
    NeedLowLevelFormat,
    /// Probe the partition label and report whether it is invalid.
    NeedLabelCheck,
    /// Run the partitioning tool in full-disk auto mode, then settle.
    NeedAutoFormat,
    /// The device is prepared.
    Done,
}

/// What the application observed while performing the requested step.
#[derive(Debug, Clone, Copy, PartialEq, Eq, Structural)]
pub enum PrepareEvent {
    /// The status attribute was read; `true` means already formatted.
    FormattedStatus(bool),
    /// The requested tool ran to completion and the device tree settled.
    ToolRan,
    /// The label was probed; `true` means the label is invalid.
    LabelStatus(bool),
}

/// Transition relation of the prepare flow.  A device that already reports
/// formatted state skips the low-level format entirely; an invalid label
/// after formatting is corrected by one auto-format.  An event that does
/// not answer the pending state changes nothing.
pub open spec fn prepare_next(s: PrepareState, e: PrepareEvent) -> PrepareState {
    match (s, e) {
        (PrepareState::NeedFormattedCheck, PrepareEvent::FormattedStatus(f)) => if f {
            PrepareState::NeedLabelCheck
        } else {
            PrepareState::NeedLowLevelFormat
        },
        (PrepareState::NeedLowLevelFormat, PrepareEvent::ToolRan) => PrepareState::NeedLabelCheck,
        (PrepareState::NeedLabelCheck, PrepareEvent::LabelStatus(invalid)) => if invalid {
            PrepareState::NeedAutoFormat
        } else {
            PrepareState::Done
        },
        (PrepareState::NeedAutoFormat, PrepareEvent::ToolRan) => PrepareState::Done,
        _ => s,
    }
}

/// The states visited when the events are fed in order, starting at `s`.
pub open spec fn prepare_run(s: PrepareState, events: Seq<PrepareEvent>) -> Seq<PrepareState>
    decreases events.len(),
{
    if events.len() == 0 {
        seq![s]
    } else {
        seq![s] + prepare_run(prepare_next(s, events[0]), events.drop_first())
    }
}

/// The prepare flow, driven by the application.
pub struct PrepareMachine {
    pub state: PrepareState,
}

impl PrepareMachine {
    /// Begin preparing a device: its formatted status is read first.
    pub fn new() -> (m: Self)
        ensures
            m.state == PrepareState::NeedFormattedCheck,
    {
        PrepareMachine { state: PrepareState::NeedFormattedCheck }
    }

    /// Feed back what the application observed; the new state names the
    /// next required step.
    pub fn step(&mut self, e: PrepareEvent) -> (s: PrepareState)
        ensures
            final(self).state == prepare_next(old(self).state, e),
            s == final(self).state,
    {
        let next = match (self.state, e) {
            (PrepareState::NeedFormattedCheck, PrepareEvent::FormattedStatus(f)) => if f {
                PrepareState::NeedLabelCheck
            } else {
                PrepareState::NeedLowLevelFormat
            },
            (PrepareState::NeedLowLevelFormat, PrepareEvent::ToolRan) => PrepareState::NeedLabelCheck,
            (PrepareState::NeedLabelCheck, PrepareEvent::LabelStatus(invalid)) => if invalid {
                PrepareState::NeedAutoFormat
            } else {
                PrepareState::Done
            },
            (PrepareState::NeedAutoFormat, PrepareEvent::ToolRan) => PrepareState::Done,
            (s, _) => s,
        };
        self.state = next;
        next
    }
}

/// From any state past the formatted check, the low-level format state is
/// unreachable.
proof fn lemma_no_low_level_reachable(s: PrepareState, events: Seq<PrepareEvent>)
    requires
        s == PrepareState::NeedLabelCheck || s == PrepareState::NeedAutoFormat || s
            == PrepareState::Done,
    ensures
        forall|i: int|
            0 <= i < prepare_run(s, events).len() ==> #[trigger] prepare_run(s, events)[i]
                != PrepareState::NeedLowLevelFormat,
    decreases events.len(),
{
    if events.len() > 0 {
        let s2 = prepare_next(s, events[0]);
        lemma_no_low_level_reachable(s2, events.drop_first());
        let run = prepare_run(s, events);
        let run2 = prepare_run(s2, events.drop_first());
        assert forall|i: int| 0 <= i < run.len() implies #[trigger] run[i]
            != PrepareState::NeedLowLevelFormat by {
            if i > 0 {
                assert(run[i] == run2[i - 1]);
            }
        }
    }
}

/// A device that already reports formatted state is never low-level
/// formatted again: whatever events follow, the prepare flow never reaches
/// the state that runs the low-level format tool.
pub proof fn lemma_formatted_device_skips_low_level_format(events: Seq<PrepareEvent>)
    requires
        events.len() > 0,
        events[0] == PrepareEvent::FormattedStatus(true),
    ensures
        forall|i: int|
            0 <= i < prepare_run(PrepareState::NeedFormattedCheck, events).len()
                ==> #[trigger] prepare_run(PrepareState::NeedFormattedCheck, events)[i]
                != PrepareState::NeedLowLevelFormat,
{
    let s2 = prepare_next(PrepareState::NeedFormattedCheck, events[0]);
    assert(s2 == PrepareState::NeedLabelCheck);
    lemma_no_low_level_reachable(s2, events.drop_first());
    let run = prepare_run(PrepareState::NeedFormattedCheck, events);
    let run2 = prepare_run(s2, events.drop_first());
    assert forall|i: int| 0 <= i < run.len() implies #[trigger] run[i]
        != PrepareState::NeedLowLevelFormat by {
        if i > 0 {
            assert(run[i] == run2[i - 1]);
        }
    }
}

/// What the partition-apply flow needs next.
#[derive(Debug, Clone, Copy, PartialEq, Eq, Structural)]
pub enum ApplyState {
    /// Run the partitioning tool in config mode, feeding it the descriptor
    /// config over its standard input; `retried` records whether the
    /// corrective auto-format already happened.
    NeedTryFormat { retried: bool },
    /// Run the corrective full-disk auto-format, then settle.
    NeedAutoFormat,
    /// The flow failed with this error.
    Failed(DasdError),
    /// The partitions are applied.
    Done,
}

/// Transition relation of the partition-apply flow: one config-mode
/// attempt, and on failure a single auto-format followed by exactly one
/// retry.  The event is whether the requested tool run succeeded.
pub open spec fn apply_next(s: ApplyState, ok: bool) -> ApplyState {
    match s {
        ApplyState::NeedTryFormat { retried } => if ok {
            ApplyState::Done
        } else if retried {
            ApplyState::Failed(DasdError::ToolInvocation)
        } else {
            ApplyState::NeedAutoFormat
        },
        ApplyState::NeedAutoFormat => if ok {
            ApplyState::NeedTryFormat { retried: true }
        } else {
            ApplyState::Failed(DasdError::ToolInvocation)
        },
        _ => s,
    }
}

/// The states visited when tool outcomes are fed in order, starting at `s`.
pub open spec fn apply_run(s: ApplyState, outcomes: Seq<bool>) -> Seq<ApplyState>
    decreases outcomes.len(),
{
    if outcomes.len() == 0 {
        seq![s]
    } else {
        seq![s] + apply_run(apply_next(s, outcomes[0]), outcomes.drop_first())
    }
}

/// Does this state ask the application to invoke an external tool?
pub open spec fn apply_invokes_tool(s: ApplyState) -> bool {
    s is NeedTryFormat || s is NeedAutoFormat
}

/// The partition-apply flow, driven by the application.
pub struct ApplyMachine {
    pub state: ApplyState,
}

impl ApplyMachine {
    /// Begin applying `descriptor_count` partition records.  More records
    /// than the partitioning tool honors fail immediately, before any
    /// external tool is invoked.
    pub fn new(descriptor_count: usize) -> (m: Self)
        ensures
            descriptor_count > MAX_PARTITIONS ==> m.state == ApplyState::Failed(
                DasdError::ConfigLimit { requested: descriptor_count },
            ),
            descriptor_count <= MAX_PARTITIONS ==> m.state == (ApplyState::NeedTryFormat {
                retried: false,
            }),
    {
        if descriptor_count > MAX_PARTITIONS {
            ApplyMachine {
                state: ApplyState::Failed(DasdError::ConfigLimit { requested: descriptor_count }),
            }
        } else {
            ApplyMachine { state: ApplyState::NeedTryFormat { retried: false } }
        }
    }

    /// Feed back whether the requested tool run succeeded.
    pub fn step(&mut self, ok: bool) -> (s: ApplyState)
        ensures
            final(self).state == apply_next(old(self).state, ok),
            s == final(self).state,
    {
        let next = match self.state {
            ApplyState::NeedTryFormat { retried } => if ok {
                ApplyState::Done
            } else if retried {
                ApplyState::Failed(DasdError::ToolInvocation)
            } else {
                ApplyState::NeedAutoFormat
            },
            ApplyState::NeedAutoFormat => if ok {
                ApplyState::NeedTryFormat { retried: true }
            } else {
                ApplyState::Failed(DasdError::ToolInvocation)
            },
            s => s,
        };
        self.state = next;
        next
    }
}

/// A failed flow stays failed and asks for nothing further.
proof fn lemma_failed_stays_failed(e: DasdError, outcomes: Seq<bool>)
    ensures
        forall|i: int|
            0 <= i < apply_run(ApplyState::Failed(e), outcomes).len() ==> #[trigger] apply_run(
                ApplyState::Failed(e),
                outcomes,
            )[i] == ApplyState::Failed(e),
    decreases outcomes.len(),
{
    if outcomes.len() > 0 {
        lemma_failed_stays_failed(e, outcomes.drop_first());
        let run = apply_run(ApplyState::Failed(e), outcomes);
        let run2 = apply_run(ApplyState::Failed(e), outcomes.drop_first());
        assert forall|i: int| 0 <= i < run.len() implies #[trigger] run[i] == ApplyState::Failed(
            e,
        ) by {
            if i > 0 {
                assert(run[i] == run2[i - 1]);
            }
        }
    }
}

/// Requesting more partition records than the tool honors fails with the
/// config-limit error before any external tool is invoked: whatever
/// outcomes are fed, no visited state asks for a tool run.
pub proof fn lemma_too_many_partitions_invokes_no_tool(count: int, outcomes: Seq<bool>)
    requires
        count > MAX_PARTITIONS,
        0 <= count <= usize::MAX,
    ensures
        forall|i: int|
            0 <= i < apply_run(
                ApplyState::Failed(DasdError::ConfigLimit { requested: count as usize }),
                outcomes,
            ).len() ==> !apply_invokes_tool(
                #[trigger] apply_run(
                    ApplyState::Failed(DasdError::ConfigLimit { requested: count as usize }),
                    outcomes,
                )[i],
            ),
{
    let e = DasdError::ConfigLimit { requested: count as usize };
    lemma_failed_stays_failed(e, outcomes);
}

} // verus!
