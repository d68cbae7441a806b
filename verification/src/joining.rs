//! How the client sets up a new device, with an invitation or without: what is done next, and what
//! is undone where something fails.
use vstd::prelude::*;

verus! {

/// What is to be done next.
#[derive(Clone, Copy, Debug, PartialEq, Eq, Structural)]
pub enum JoinAction {
    /// Write the secret of the group of the invitation.
    ImportSecret,
    /// Set up the device.
    Initialize,
    /// Remove the secret that was written.
    RemoveSecret,
    /// Enter the device that has invited into the configuration.
    AddInviter,
    /// Nothing: the device is set up.
    Finish,
    /// Nothing: the first failure is what the client says.
    Refuse,
}

/// What is being waited for.
#[derive(Clone, Copy, Debug, PartialEq, Eq, Structural)]
pub enum JoinStage {
    ImportSecret,
    Initialize,
    RemoveSecret,
    AddInviter,
    Over,
}

/// A device that is being set up, with an invitation or without.
#[derive(Clone, Copy, Debug, PartialEq, Eq, Structural)]
pub struct Joining {
    pub invited: bool,
    pub stage: JoinStage,
}

/// The stage and the action with which a device begins to be set up.
pub open spec fn join_begun(invited: bool) -> (JoinStage, JoinAction) {
    if invited {
        (JoinStage::ImportSecret, JoinAction::ImportSecret)
    } else {
        (JoinStage::Initialize, JoinAction::Initialize)
    }
}

/// The stage and the action after one that was done, or that has failed.
pub open spec fn join_step(invited: bool, stage: JoinStage, done: bool) -> (JoinStage, JoinAction) {
    match stage {
        JoinStage::ImportSecret if done => (JoinStage::Initialize, JoinAction::Initialize),
        JoinStage::Initialize if invited && done => (JoinStage::AddInviter, JoinAction::AddInviter),
        JoinStage::Initialize if invited => (JoinStage::RemoveSecret, JoinAction::RemoveSecret),
        JoinStage::Initialize if done => (JoinStage::Over, JoinAction::Finish),
        JoinStage::AddInviter if done => (JoinStage::Over, JoinAction::Finish),
        _ => (JoinStage::Over, JoinAction::Refuse),
    }
}

impl Joining {
    /// Begins to set up a device, with the first action.
    pub fn begin(invited: bool) -> (begun: (Joining, JoinAction))
        ensures
            begun.0.invited == invited,
            (begun.0.stage, begun.1) == join_begun(invited),
    {
        if invited {
            (Joining { invited, stage: JoinStage::ImportSecret }, JoinAction::ImportSecret)
        } else {
            (Joining { invited, stage: JoinStage::Initialize }, JoinAction::Initialize)
        }
    }

    /// Takes in whether the last action was done, and gives the next one.
    pub fn step(&mut self, done: bool) -> (action: JoinAction)
        ensures
            final(self).invited == old(self).invited,
            (final(self).stage, action) == join_step(old(self).invited, old(self).stage, done),
    {
        let next: (JoinStage, JoinAction) = match self.stage {
            JoinStage::ImportSecret if done => (JoinStage::Initialize, JoinAction::Initialize),
            JoinStage::Initialize if self.invited && done => (
                JoinStage::AddInviter,
                JoinAction::AddInviter,
            ),
            JoinStage::Initialize if self.invited => (
                JoinStage::RemoveSecret,
                JoinAction::RemoveSecret,
            ),
            JoinStage::Initialize if done => (JoinStage::Over, JoinAction::Finish),
            JoinStage::AddInviter if done => (JoinStage::Over, JoinAction::Finish),
            _ => (JoinStage::Over, JoinAction::Refuse),
        };
        self.stage = next.0;
        next.1
    }
}

/// The stage and the action after a number of actions, each of which was done or has failed.
pub open spec fn join_run(invited: bool, done: Seq<bool>) -> (JoinStage, JoinAction)
    decreases done.len(),
{
    if done.len() == 0 {
        join_begun(invited)
    } else {
        let before = join_run(invited, done.drop_last());
        if before.0 == JoinStage::Over {
            before
        } else {
            join_step(invited, before.0, done.last())
        }
    }
}

/// Where a device that was invited cannot be set up, the secret of the group is removed again
/// before the failure is told; where the device is set up, nothing is removed.
pub proof fn law_imported_secret_is_removed_where_setup_fails(invited: bool, done: Seq<bool>)
    requires
        done.len() > 0,
        join_run(invited, done.drop_last()).1 == JoinAction::Initialize,
    ensures
        !done.last() ==> join_run(invited, done).1 == if invited {
            JoinAction::RemoveSecret
        } else {
            JoinAction::Refuse
        },
        !done.last() && invited ==> forall|removed: bool| #[trigger]
            join_run(invited, done.push(removed)).1 == JoinAction::Refuse,
        done.last() ==> join_run(invited, done).1 == if invited {
            JoinAction::AddInviter
        } else {
            JoinAction::Finish
        },
{
    lemma_initializes(invited, done.drop_last());
    assert forall|removed: bool| !done.last() && invited implies #[trigger] join_run(
        invited,
        done.push(removed),
    ).1 == JoinAction::Refuse by {
        assert(done.push(removed).drop_last() =~= done);
    }
}

proof fn lemma_initializes(invited: bool, done: Seq<bool>)
    ensures
        join_run(invited, done).1 == JoinAction::Initialize ==> join_run(invited, done).0
            == JoinStage::Initialize,
    decreases done.len(),
{
    if done.len() > 0 {
        lemma_initializes(invited, done.drop_last());
    }
}

} // verus!
