//! What setting up, joining and switching promise: what is done where nothing is in the way, and
//! how each ends where something is.
use vstd::prelude::*;

use crate::apply::OutcomeView;
use crate::cycle::{page_walked, with_outcome, MaterializationReport};
use crate::daemon::DaemonProblem;
use crate::history::PageView;
use crate::joining::{join_run, JoinAction, JoinStage};
use crate::setup::{setup_run, Place, SetupAction, SetupEvent, SetupRefusal, SetupStage};
use crate::switching::{
    refusal_text, switch_run, SwitchAction, SwitchEvent, SwitchRefusal, SwitchStage,
};

verus! {

/// What setting up a device takes, in order: nothing is there, the directories are made, the
/// secrets are written, that of the group only where the device founds it, and the configuration
/// comes last.
pub open spec fn planned_setup(joins: bool) -> Seq<SetupAction> {
    seq![
        SetupAction::Look(Place::Config),
        SetupAction::MakeConfigDirectory,
        SetupAction::MakeSyncRoot,
        SetupAction::Look(Place::DeviceSecret),
        SetupAction::WriteSecret(Place::DeviceSecret),
    ] + if joins {
        seq![SetupAction::ReadGroupSecret]
    } else {
        seq![SetupAction::Look(Place::GroupSecret), SetupAction::WriteSecret(Place::GroupSecret)]
    } + seq![SetupAction::WriteConfig, SetupAction::Finish]
}

/// What happened lets the setup go on: nothing was there, or what was asked for was done.
pub open spec fn lets_go_on(action: SetupAction, event: SetupEvent) -> bool {
    match action {
        SetupAction::Look(_) => event == SetupEvent::Absent,
        _ => event == SetupEvent::Done,
    }
}

/// Where nothing is in the way and nothing fails, a device is set up as planned.
pub proof fn law_setup_goes_as_planned(joins: bool, events: Seq<SetupEvent>)
    requires
        events.len() < planned_setup(joins).len(),
        forall|i: int|
            0 <= i < events.len() ==> lets_go_on(planned_setup(joins)[i], #[trigger] events[i]),
    ensures
        setup_run(joins, events).1 == planned_setup(joins)[events.len() as int],
{
    lemma_setup_stage(joins, events);
}

/// The stage at which the setup waits for the outcome of each action.
pub open spec fn stage_of(joins: bool, count: int) -> SetupStage {
    if count == 0 {
        SetupStage::LookForConfig
    } else if count == 1 {
        SetupStage::MakeConfigDirectory
    } else if count == 2 {
        SetupStage::MakeSyncRoot
    } else if count == 3 {
        SetupStage::LookForDeviceSecret
    } else if count == 4 {
        SetupStage::WriteDeviceSecret
    } else if count == 5 {
        if joins {
            SetupStage::ReadGroupSecret
        } else {
            SetupStage::LookForGroupSecret
        }
    } else if count == 6 {
        if joins {
            SetupStage::WriteConfig
        } else {
            SetupStage::WriteGroupSecret
        }
    } else if count == 7 && !joins {
        SetupStage::WriteConfig
    } else {
        SetupStage::Over
    }
}

proof fn lemma_setup_stage(joins: bool, events: Seq<SetupEvent>)
    requires
        events.len() < planned_setup(joins).len(),
        forall|i: int|
            0 <= i < events.len() ==> lets_go_on(planned_setup(joins)[i], #[trigger] events[i]),
    ensures
        setup_run(joins, events) == (
            stage_of(joins, events.len() as int),
            planned_setup(joins)[events.len() as int],
        ),
    decreases events.len(),
{
    if events.len() > 0 {
        let before = events.drop_last();
        assert forall|i: int| 0 <= i < before.len() implies lets_go_on(
            planned_setup(joins)[i],
            #[trigger] before[i],
        ) by {
            assert(before[i] == events[i]);
        }
        lemma_setup_stage(joins, before);
        assert(events.last() == events[events.len() - 1]);
    }
}

/// What is in the way of a setup ends it, with the reason: a file that is there, roots that lie in
/// each other, or what could not be done.
pub proof fn law_setup_ends_where_something_is_in_the_way(
    joins: bool,
    events: Seq<SetupEvent>,
    event: SetupEvent,
)
    requires
        events.len() + 1 < planned_setup(joins).len(),
        forall|i: int|
            0 <= i < events.len() ==> lets_go_on(planned_setup(joins)[i], #[trigger] events[i]),
        !lets_go_on(planned_setup(joins)[events.len() as int], event),
    ensures
        setup_run(joins, events.push(event)).0 == SetupStage::Over,
        setup_run(joins, events.push(event)).1 matches SetupAction::Refuse { refusal, removal } && {
            let action = planned_setup(joins)[events.len() as int];
            refusal == match (action, event) {
                (SetupAction::Look(place), SetupEvent::Present) => SetupRefusal::Occupied(place),
                (SetupAction::MakeConfigDirectory, SetupEvent::Overlapping) =>
                SetupRefusal::OverlappingRoots,
                _ => SetupRefusal::Failed,
            }
        },
{
    lemma_setup_stage(joins, events);
    assert(events.push(event).drop_last() =~= events);
}

/// A client that was invited imports the secret, sets the device up and enters the inviter; one
/// that was not sets the device up.
pub open spec fn planned_joining(invited: bool) -> Seq<JoinAction> {
    if invited {
        seq![
            JoinAction::ImportSecret,
            JoinAction::Initialize,
            JoinAction::AddInviter,
            JoinAction::Finish,
        ]
    } else {
        seq![JoinAction::Initialize, JoinAction::Finish]
    }
}

/// Where nothing fails, a device joins as planned.
pub proof fn law_joining_goes_as_planned(invited: bool, done: Seq<bool>)
    requires
        done.len() < planned_joining(invited).len(),
        forall|i: int| 0 <= i < done.len() ==> #[trigger] done[i],
    ensures
        join_run(invited, done).1 == planned_joining(invited)[done.len() as int],
{
    lemma_joining_stage(invited, done);
}

proof fn lemma_joining_stage(invited: bool, done: Seq<bool>)
    requires
        done.len() < planned_joining(invited).len(),
        forall|i: int| 0 <= i < done.len() ==> #[trigger] done[i],
    ensures
        join_run(invited, done).1 == planned_joining(invited)[done.len() as int],
        join_run(invited, done).0 == match planned_joining(invited)[done.len() as int] {
            JoinAction::ImportSecret => JoinStage::ImportSecret,
            JoinAction::Initialize => JoinStage::Initialize,
            JoinAction::AddInviter => JoinStage::AddInviter,
            _ => JoinStage::Over,
        },
    decreases done.len(),
{
    if done.len() > 0 {
        let before = done.drop_last();
        assert forall|i: int| 0 <= i < before.len() implies #[trigger] before[i] by {
            assert(before[i] == done[i]);
        }
        lemma_joining_stage(invited, before);
        assert(done.last() == done[done.len() - 1]);
    }
}

/// A joining in which something fails ends in a refusal: at once, or once the secret that was
/// imported is removed.
pub proof fn law_failed_joining_is_refused(invited: bool, done: Seq<bool>, removed: bool)
    requires
        done.len() + 1 < planned_joining(invited).len(),
        forall|i: int| 0 <= i < done.len() ==> #[trigger] done[i],
    ensures
        ({
            let failed = done.push(false);
            if invited && planned_joining(invited)[done.len() as int] == JoinAction::Initialize {
                &&& join_run(invited, failed).1 == JoinAction::RemoveSecret
                &&& join_run(invited, failed.push(removed)).1 == JoinAction::Refuse
            } else {
                join_run(invited, failed).1 == JoinAction::Refuse
            }
        }),
{
    lemma_joining_stage(invited, done);
    let failed = done.push(false);
    assert(failed.drop_last() =~= done);
    assert(failed.push(removed).drop_last() =~= failed);
}

/// Whether the service runs after a part of a switch: it is stopped first, and runs again where
/// it was started.
pub open spec fn service_runs(events: Seq<SwitchEvent>) -> bool
    decreases events.len(),
{
    if events.len() == 0 {
        false
    } else {
        let before = events.drop_last();
        if switch_run(before).action == SwitchAction::StartService {
            events.last() != SwitchEvent::Failed
        } else {
            service_runs(before)
        }
    }
}

/// Where nothing fails, a switch stops the service, keeps the secret, enters the workspace and
/// starts the service again where it had been running.
pub proof fn law_switch_goes_as_planned(events: Seq<SwitchEvent>)
    requires
        forall|i: int| 0 <= i < events.len() ==> #[trigger] events[i] != SwitchEvent::Failed,
    ensures
        ({
            let action = switch_run(events).action;
            let running = events.len() > 0 && events[0] == SwitchEvent::Changed;
            action == if events.len() == 0 {
                SwitchAction::StopService
            } else if events.len() == 1 {
                SwitchAction::KeepSecret
            } else if events.len() == 2 {
                SwitchAction::UpdateConfig
            } else if events.len() == 3 && running {
                SwitchAction::StartService
            } else {
                SwitchAction::Finish
            }
        }),
{
    lemma_switch_stage(events);
}

proof fn lemma_switch_stage(events: Seq<SwitchEvent>)
    requires
        forall|i: int| 0 <= i < events.len() ==> #[trigger] events[i] != SwitchEvent::Failed,
    ensures
        ({
            let run = switch_run(events);
            let running = events.len() > 0 && events[0] == SwitchEvent::Changed;
            &&& (run.switch.stage, run.action) == if events.len() == 0 {
                (SwitchStage::StopService, SwitchAction::StopService)
            } else if events.len() == 1 {
                (SwitchStage::KeepSecret, SwitchAction::KeepSecret)
            } else if events.len() == 2 {
                (SwitchStage::UpdateConfig, SwitchAction::UpdateConfig)
            } else if events.len() == 3 && running {
                (SwitchStage::StartNew, SwitchAction::StartService)
            } else {
                (SwitchStage::Over, SwitchAction::Finish)
            }
            &&& run.switch.restart == running
        }),
    decreases events.len(),
{
    if events.len() > 0 {
        let before = events.drop_last();
        assert forall|i: int| 0 <= i < before.len() implies #[trigger] before[i]
            != SwitchEvent::Failed by {
            assert(before[i] == events[i]);
        }
        lemma_switch_stage(before);
        assert(events.last() == events[events.len() - 1]);
        assert(events.last() != SwitchEvent::Failed);
        if before.len() > 0 {
            assert(before[0] == events[0]);
        }
    }
}

/// What is known of the service and of its restart at each stage of a switch.
pub open spec fn keeps_the_service(events: Seq<SwitchEvent>) -> bool {
    let run = switch_run(events);
    let was_running = events.len() > 0 && events[0] == SwitchEvent::Changed;
    let restart = run.switch.restart;
    &&& match run.switch.stage {
        SwitchStage::StopService => events.len() == 0 && !restart && run.action
            == SwitchAction::StopService,
        SwitchStage::KeepSecret => !service_runs(events) && run.action == SwitchAction::KeepSecret,
        SwitchStage::UpdateConfig => !service_runs(events) && run.action
            == SwitchAction::UpdateConfig,
        SwitchStage::WithdrawSecret => !service_runs(events) && run.action
            == SwitchAction::RemoveSecret,
        SwitchStage::StartPrevious => restart && !service_runs(events) && run.action
            == SwitchAction::StartService,
        SwitchStage::StartNew => restart && !service_runs(events) && run.action
            == SwitchAction::StartService,
        SwitchStage::RestoreConfig => restart && !service_runs(events) && run.action
            == SwitchAction::RestoreConfig,
        SwitchStage::RollSecretBack => restart && !service_runs(events) && run.action
            == SwitchAction::RemoveSecret,
        SwitchStage::StartRestored => restart && !service_runs(events) && run.action
            == SwitchAction::StartService,
        SwitchStage::Over => match run.action {
            SwitchAction::Finish => service_runs(events) == was_running,
            SwitchAction::Refuse(SwitchRefusal::First) => service_runs(events) == was_running,
            SwitchAction::Refuse(SwitchRefusal::Restored) => service_runs(events),
            SwitchAction::Refuse(SwitchRefusal::Last) => !service_runs(events),
            SwitchAction::Refuse(SwitchRefusal::Stopped) => !service_runs(events),
            _ => false,
        },
    }
    &&& events.len() > 0 && run.switch.stage != SwitchStage::Over ==> restart == was_running
    &&& restart ==> was_running
}

proof fn lemma_service(events: Seq<SwitchEvent>)
    ensures
        keeps_the_service(events),
    decreases events.len(),
{
    if events.len() > 0 {
        let before = events.drop_last();
        lemma_service(before);
        if before.len() > 0 {
            assert(before[0] == events[0]);
        }
    }
}

/// However a switch ends, the service that was running runs again, unless what is said is that it
/// could not be started or that the configuration could not be written back; a service that was
/// not running is not started.
pub proof fn law_service_runs_again_after_a_switch(events: Seq<SwitchEvent>)
    requires
        switch_run(events).switch.stage == SwitchStage::Over,
    ensures
        ({
            let was_running = events.len() > 0 && events[0] == SwitchEvent::Changed;
            match switch_run(events).action {
                SwitchAction::Finish => service_runs(events) == was_running,
                SwitchAction::Refuse(SwitchRefusal::First) => service_runs(events) == was_running,
                SwitchAction::Refuse(SwitchRefusal::Restored) => was_running && service_runs(
                    events,
                ),
                SwitchAction::Refuse(SwitchRefusal::Last) => was_running && !service_runs(events),
                SwitchAction::Refuse(SwitchRefusal::Stopped) => was_running && !service_runs(
                    events,
                ),
                _ => false,
            }
        }),
    decreases events.len(),
{
    lemma_service(events);
    if events.len() > 0 {
        let before = events.drop_last();
        lemma_service(before);
        if before.len() > 0 {
            assert(before[0] == events[0]);
        }
        if switch_run(before).switch.stage == SwitchStage::Over {
            law_service_runs_again_after_a_switch(before);
        }
    }
}

/// What a refused switch says: the failure that came first or last, and, where the new workspace
/// did not start, how the previous one fares.
pub proof fn law_refused_switch_says_what_failed(first: Seq<char>, last: Seq<char>)
    ensures
        refusal_text(SwitchRefusal::First, first, last) == first,
        refusal_text(SwitchRefusal::Last, first, last) == last,
        refusal_text(SwitchRefusal::Restored, first, last)
            == "Could not start the invited workspace: "@ + first
            + ". The previous workspace was restored."@,
        refusal_text(SwitchRefusal::Stopped, first, last)
            == "Could not start the invited workspace: "@ + first
            + ". The previous workspace was restored but its service could not restart: "@ + last,
{
}

/// The records of a report whose fate is known.
pub open spec fn settled_count(report: MaterializationReport) -> int {
    report.records_applied + report.records_unchanged + report.records_kept_local
        + report.conflicts_kept_both
}

/// Every record that is applied, unchanged, kept out or kept beside is counted once, under its own
/// head; a record of which objects are missing is counted nowhere and stops the walk.
pub proof fn law_every_fate_is_counted_once(report: MaterializationReport, outcome: OutcomeView)
    requires
        report.has_room(),
    ensures
        match with_outcome(report, outcome) {
            Ok(after) => {
                &&& outcome !is MissingObjects
                &&& settled_count(after) == settled_count(report) + 1
                &&& after.records_applied > report.records_applied <==> outcome is Applied
                &&& after.records_unchanged > report.records_unchanged <==> outcome is NoChange
                &&& after.records_kept_local > report.records_kept_local <==> outcome is KeptLocal
                &&& after.conflicts_kept_both > report.conflicts_kept_both <==> outcome is KeptBoth
                &&& after.records_applied >= report.records_applied
                &&& after.records_unchanged >= report.records_unchanged
                &&& after.records_kept_local >= report.records_kept_local
                &&& after.conflicts_kept_both >= report.conflicts_kept_both
                &&& after.recovered == report.recovered
                &&& after.records_examined == report.records_examined
                &&& after.unsigned_records_skipped == report.unsigned_records_skipped
            },
            Err(problem) => {
                &&& outcome matches OutcomeView::MissingObjects { content_ids }
                &&& problem matches DaemonProblem::AdmittedChangeMissingObjects { count }
                &&& count == content_ids.len()
            },
        },
{
}

/// The walk through the log goes on behind the last record of a page while the log has more, and
/// never stands still.
pub proof fn law_walk_goes_on_behind_the_page(after_sequence: u64, page: PageView)
    ensures
        match page_walked(after_sequence, page) {
            Ok(Some(next)) => {
                &&& page.records.len() > 0
                &&& next == page.records.last().sequence
                &&& after_sequence < next < page.high_watermark
            },
            Ok(None) => page.records.len() == 0 || (after_sequence < page.records.last().sequence
                && page.high_watermark <= page.records.last().sequence),
            Err(problem) => {
                &&& page.records.len() > 0
                &&& page.records.last().sequence <= after_sequence
                &&& problem == (DaemonProblem::MaterializationMadeNoProgress {
                    sequence: after_sequence,
                })
            },
        },
{
}

} // verus!
