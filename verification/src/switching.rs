//! How a device moves to the workspace of an invitation: what is done next, and what is undone
//! where something fails.
use vstd::prelude::*;

use crate::workspace::{failure_text, switch_failure};

verus! {

/// What is to be done next.
#[derive(Clone, Copy, Debug, PartialEq, Eq, Structural)]
pub enum SwitchAction {
    /// Stop the service, where it runs.
    StopService,
    /// Write the secret of the new group, unless it is there.
    KeepSecret,
    /// Write a configuration that names the new group.
    UpdateConfig,
    /// Write the configuration back as it was.
    RestoreConfig,
    /// Remove the secret that was written.
    RemoveSecret,
    /// Start the service with the configuration that is there.
    StartService,
    /// Nothing: the device is in the new workspace.
    Finish,
    /// Nothing: the device is not in the new workspace.
    Refuse(SwitchRefusal),
}

/// Why a device is not in the new workspace.
#[derive(Clone, Copy, Debug, PartialEq, Eq, Structural)]
pub enum SwitchRefusal {
    /// What failed first.
    First,
    /// What failed last.
    Last,
    /// The service did not start with the new workspace, and runs again with the previous one.
    Restored,
    /// The service started neither with the new workspace nor with the previous one.
    Stopped,
}

/// What came of the last action.
#[derive(Clone, Copy, Debug, PartialEq, Eq, Structural)]
pub enum SwitchEvent {
    /// It was done. The service was running, or the secret was not there before.
    Changed,
    /// It was done, or there was nothing to do.
    Done,
    Failed,
}

/// What is being waited for.
#[derive(Clone, Copy, Debug, PartialEq, Eq, Structural)]
pub enum SwitchStage {
    StopService,
    KeepSecret,
    UpdateConfig,
    WithdrawSecret,
    StartPrevious,
    StartNew,
    RestoreConfig,
    RollSecretBack,
    StartRestored,
    Over,
}

/// A switch that is under way: whether the service has to run again, and whether the secret of the
/// new group was written.
#[derive(Clone, Copy, Debug, PartialEq, Eq, Structural)]
pub struct Switch {
    pub stage: SwitchStage,
    pub restart: bool,
    pub created: bool,
}

/// The end of a switch that is refused.
pub open spec fn switch_refused(switch: Switch, refusal: SwitchRefusal) -> (Switch, SwitchAction) {
    (Switch { stage: SwitchStage::Over, ..switch }, SwitchAction::Refuse(refusal))
}

/// A switch that waits for an action.
pub open spec fn switch_at(switch: Switch, stage: SwitchStage, action: SwitchAction) -> (
    Switch,
    SwitchAction,
) {
    (Switch { stage, ..switch }, action)
}

/// What follows where nothing but the service is left to put right before a switch is refused.
pub open spec fn switch_abandoned(switch: Switch) -> (Switch, SwitchAction) {
    if switch.restart {
        switch_at(switch, SwitchStage::StartPrevious, SwitchAction::StartService)
    } else {
        switch_refused(switch, SwitchRefusal::First)
    }
}

/// The state and the action after an event.
pub open spec fn switch_step(switch: Switch, event: SwitchEvent) -> (Switch, SwitchAction) {
    match (switch.stage, event) {
        (SwitchStage::StopService, SwitchEvent::Failed) => switch_refused(
            switch,
            SwitchRefusal::First,
        ),
        (SwitchStage::StopService, _) => (
            Switch {
                stage: SwitchStage::KeepSecret,
                restart: event == SwitchEvent::Changed,
                ..switch
            },
            SwitchAction::KeepSecret,
        ),
        (SwitchStage::KeepSecret, SwitchEvent::Failed) => switch_abandoned(switch),
        (SwitchStage::KeepSecret, _) => (
            Switch {
                stage: SwitchStage::UpdateConfig,
                created: event == SwitchEvent::Changed,
                ..switch
            },
            SwitchAction::UpdateConfig,
        ),
        (SwitchStage::UpdateConfig, SwitchEvent::Failed) => if switch.created {
            switch_at(switch, SwitchStage::WithdrawSecret, SwitchAction::RemoveSecret)
        } else {
            switch_abandoned(switch)
        },
        (SwitchStage::UpdateConfig, _) => if switch.restart {
            switch_at(switch, SwitchStage::StartNew, SwitchAction::StartService)
        } else {
            switch_at(switch, SwitchStage::Over, SwitchAction::Finish)
        },
        (SwitchStage::WithdrawSecret, _) => switch_abandoned(switch),
        (SwitchStage::StartPrevious, SwitchEvent::Failed) => switch_refused(
            switch,
            SwitchRefusal::Last,
        ),
        (SwitchStage::StartPrevious, _) => switch_refused(switch, SwitchRefusal::First),
        (SwitchStage::StartNew, SwitchEvent::Failed) => switch_at(
            switch,
            SwitchStage::RestoreConfig,
            SwitchAction::RestoreConfig,
        ),
        (SwitchStage::StartNew, _) => switch_at(switch, SwitchStage::Over, SwitchAction::Finish),
        (SwitchStage::RestoreConfig, SwitchEvent::Failed) => switch_refused(
            switch,
            SwitchRefusal::Last,
        ),
        (SwitchStage::RestoreConfig, _) => if switch.created {
            switch_at(switch, SwitchStage::RollSecretBack, SwitchAction::RemoveSecret)
        } else {
            switch_at(switch, SwitchStage::StartRestored, SwitchAction::StartService)
        },
        (SwitchStage::RollSecretBack, _) => switch_at(
            switch,
            SwitchStage::StartRestored,
            SwitchAction::StartService,
        ),
        (SwitchStage::StartRestored, SwitchEvent::Failed) => switch_refused(
            switch,
            SwitchRefusal::Stopped,
        ),
        (SwitchStage::StartRestored, _) => switch_refused(switch, SwitchRefusal::Restored),
        (SwitchStage::Over, _) => switch_refused(switch, SwitchRefusal::First),
    }
}

impl Switch {
    /// Begins to switch, with the first action.
    pub fn begin() -> (begun: (Switch, SwitchAction))
        ensures
            begun.0 == (Switch {
                stage: SwitchStage::StopService,
                restart: false,
                created: false,
            }),
            begun.1 == SwitchAction::StopService,
    {
        (
            Switch { stage: SwitchStage::StopService, restart: false, created: false },
            SwitchAction::StopService,
        )
    }

    fn go(&mut self, stage: SwitchStage, action: SwitchAction) -> (next: SwitchAction)
        ensures
            (*final(self), next) == switch_at(*old(self), stage, action),
    {
        self.stage = stage;
        action
    }

    fn abandon(&mut self) -> (action: SwitchAction)
        ensures
            (*final(self), action) == switch_abandoned(*old(self)),
    {
        if self.restart {
            self.go(SwitchStage::StartPrevious, SwitchAction::StartService)
        } else {
            self.go(SwitchStage::Over, SwitchAction::Refuse(SwitchRefusal::First))
        }
    }

    /// Takes in what came of the last action, and gives the next one.
    pub fn step(&mut self, event: SwitchEvent) -> (action: SwitchAction)
        ensures
            (*final(self), action) == switch_step(*old(self), event),
    {
        let failed: bool = event == SwitchEvent::Failed;
        let changed: bool = event == SwitchEvent::Changed;
        match self.stage {
            SwitchStage::StopService => if failed {
                self.go(SwitchStage::Over, SwitchAction::Refuse(SwitchRefusal::First))
            } else {
                self.restart = changed;
                self.go(SwitchStage::KeepSecret, SwitchAction::KeepSecret)
            },
            SwitchStage::KeepSecret => if failed {
                self.abandon()
            } else {
                self.created = changed;
                self.go(SwitchStage::UpdateConfig, SwitchAction::UpdateConfig)
            },
            SwitchStage::UpdateConfig => if failed {
                if self.created {
                    self.go(SwitchStage::WithdrawSecret, SwitchAction::RemoveSecret)
                } else {
                    self.abandon()
                }
            } else if self.restart {
                self.go(SwitchStage::StartNew, SwitchAction::StartService)
            } else {
                self.go(SwitchStage::Over, SwitchAction::Finish)
            },
            SwitchStage::WithdrawSecret => self.abandon(),
            SwitchStage::StartPrevious => if failed {
                self.go(SwitchStage::Over, SwitchAction::Refuse(SwitchRefusal::Last))
            } else {
                self.go(SwitchStage::Over, SwitchAction::Refuse(SwitchRefusal::First))
            },
            SwitchStage::StartNew => if failed {
                self.go(SwitchStage::RestoreConfig, SwitchAction::RestoreConfig)
            } else {
                self.go(SwitchStage::Over, SwitchAction::Finish)
            },
            SwitchStage::RestoreConfig => if failed {
                self.go(SwitchStage::Over, SwitchAction::Refuse(SwitchRefusal::Last))
            } else if self.created {
                self.go(SwitchStage::RollSecretBack, SwitchAction::RemoveSecret)
            } else {
                self.go(SwitchStage::StartRestored, SwitchAction::StartService)
            },
            SwitchStage::RollSecretBack => self.go(
                SwitchStage::StartRestored,
                SwitchAction::StartService,
            ),
            SwitchStage::StartRestored => if failed {
                self.go(SwitchStage::Over, SwitchAction::Refuse(SwitchRefusal::Stopped))
            } else {
                self.go(SwitchStage::Over, SwitchAction::Refuse(SwitchRefusal::Restored))
            },
            SwitchStage::Over => self.go(
                SwitchStage::Over,
                SwitchAction::Refuse(SwitchRefusal::First),
            ),
        }
    }
}

/// What the client says where a switch is refused, given what failed first and what failed last.
pub open spec fn refusal_text(
    refusal: SwitchRefusal,
    first: Seq<char>,
    last: Seq<char>,
) -> Seq<char> {
    match refusal {
        SwitchRefusal::First => first,
        SwitchRefusal::Last => last,
        SwitchRefusal::Restored => failure_text(first, None),
        SwitchRefusal::Stopped => failure_text(first, Some(last)),
    }
}

/// What the client says where a switch is refused, given what failed first and what failed last.
pub fn switch_refusal(refusal: SwitchRefusal, first: &str, last: &str) -> (message: String)
    ensures
        message@ == refusal_text(refusal, first@, last@),
{
    match refusal {
        SwitchRefusal::First => first.to_owned(),
        SwitchRefusal::Last => last.to_owned(),
        SwitchRefusal::Restored => switch_failure(first, None),
        SwitchRefusal::Stopped => switch_failure(first, Some(last)),
    }
}

/// What a device looks like in the middle of a switch: the state and the next action, whether the
/// configuration names the new group, whether a secret is there that was not there before, and
/// whether undoing one of the two has failed.
pub struct SwitchTrace {
    pub switch: Switch,
    pub action: SwitchAction,
    pub config_is_new: bool,
    pub secret_is_new: bool,
    pub undoing_failed: bool,
}

/// What a device looks like after a number of events. An action that fails changes nothing, and
/// nothing happens once the switch is over.
pub open spec fn switch_run(events: Seq<SwitchEvent>) -> SwitchTrace
    decreases events.len(),
{
    if events.len() == 0 {
        SwitchTrace {
            switch: Switch { stage: SwitchStage::StopService, restart: false, created: false },
            action: SwitchAction::StopService,
            config_is_new: false,
            secret_is_new: false,
            undoing_failed: false,
        }
    } else if switch_run(events.drop_last()).switch.stage == SwitchStage::Over {
        switch_run(events.drop_last())
    } else {
        let before = switch_run(events.drop_last());
        let event = events.last();
        let failed = event == SwitchEvent::Failed;
        let (switch, action) = switch_step(before.switch, event);
        SwitchTrace {
            switch,
            action,
            config_is_new: match before.action {
                SwitchAction::UpdateConfig => !failed || before.config_is_new,
                SwitchAction::RestoreConfig => failed && before.config_is_new,
                _ => before.config_is_new,
            },
            secret_is_new: match before.action {
                SwitchAction::KeepSecret => event == SwitchEvent::Changed || before.secret_is_new,
                SwitchAction::RemoveSecret => failed && before.secret_is_new,
                _ => before.secret_is_new,
            },
            undoing_failed: before.undoing_failed || (failed && (before.action
                == SwitchAction::RestoreConfig || before.action == SwitchAction::RemoveSecret)),
        }
    }
}

/// The action that a stage waits for.
pub open spec fn awaited(stage: SwitchStage) -> Option<SwitchAction> {
    match stage {
        SwitchStage::StopService => Some(SwitchAction::StopService),
        SwitchStage::KeepSecret => Some(SwitchAction::KeepSecret),
        SwitchStage::UpdateConfig => Some(SwitchAction::UpdateConfig),
        SwitchStage::WithdrawSecret | SwitchStage::RollSecretBack => Some(
            SwitchAction::RemoveSecret,
        ),
        SwitchStage::StartPrevious | SwitchStage::StartNew | SwitchStage::StartRestored => Some(
            SwitchAction::StartService,
        ),
        SwitchStage::RestoreConfig => Some(SwitchAction::RestoreConfig),
        SwitchStage::Over => None,
    }
}

proof fn lemma_switch_run(events: Seq<SwitchEvent>)
    ensures
        ({
            let trace = switch_run(events);
            let stage = trace.switch.stage;
            &&& awaited(stage) matches Some(action) ==> trace.action == action
            &&& stage == SwitchStage::Over ==> trace.action == SwitchAction::Finish
                || trace.action is Refuse
            &&& match stage {
                SwitchStage::StopService | SwitchStage::KeepSecret => !trace.config_is_new
                    && !trace.secret_is_new,
                SwitchStage::UpdateConfig | SwitchStage::WithdrawSecret => !trace.config_is_new
                    && trace.secret_is_new == trace.switch.created,
                SwitchStage::StartNew | SwitchStage::RestoreConfig => trace.config_is_new
                    && trace.secret_is_new == trace.switch.created,
                SwitchStage::RollSecretBack => !trace.config_is_new && trace.secret_is_new,
                SwitchStage::StartPrevious | SwitchStage::StartRestored => !trace.config_is_new && (
                trace.secret_is_new ==> trace.undoing_failed),
                SwitchStage::Over => true,
            }
            &&& trace.action is Refuse && (trace.config_is_new || trace.secret_is_new)
                ==> trace.undoing_failed
            &&& trace.action == SwitchAction::Finish ==> trace.config_is_new
        }),
    decreases events.len(),
{
    if events.len() > 0 {
        lemma_switch_run(events.drop_last());
    }
}

/// A switch that is refused leaves the device as it was: the configuration is the previous one and
/// no secret is left that was not there before, unless undoing one of the two has failed.
pub proof fn law_refused_switch_leaves_the_previous_workspace(events: Seq<SwitchEvent>)
    requires
        switch_run(events).action is Refuse,
        !switch_run(events).undoing_failed,
    ensures
        !switch_run(events).config_is_new,
        !switch_run(events).secret_is_new,
{
    lemma_switch_run(events);
}

/// A switch that finishes has written the configuration that names the new group.
pub proof fn law_finished_switch_is_in_the_new_workspace(events: Seq<SwitchEvent>)
    requires
        switch_run(events).action == SwitchAction::Finish,
    ensures
        switch_run(events).config_is_new,
{
    lemma_switch_run(events);
}

} // verus!
