//! How a new device is set up: which file is looked for, written or removed next.
use vstd::prelude::*;

use crate::cycle::InitializationOptions;
use crate::daemon::{validate_roots, DaemonError, DaemonProblem};
use crate::placement::{components_view, is_inside};

verus! {

/// A file of a new device.
#[derive(Clone, Copy, Debug, PartialEq, Eq, Structural)]
pub enum Place {
    Config,
    DeviceSecret,
    GroupSecret,
}

/// The secrets that are written and have to be removed again.
#[derive(Clone, Copy, Debug, PartialEq, Eq, Structural)]
pub struct Removal {
    pub device_secret: bool,
    pub group_secret: bool,
}

/// Why a device is not set up.
#[derive(Clone, Copy, Debug, PartialEq, Eq, Structural)]
pub enum SetupRefusal {
    /// There is a file where one has to be written.
    Occupied(Place),
    /// The folder and the store lie in each other.
    OverlappingRoots,
    /// What was asked for could not be done.
    Failed,
}

/// What is to be done next.
#[derive(Clone, Copy, Debug, PartialEq, Eq, Structural)]
pub enum SetupAction {
    /// Tell whether the file is there.
    Look(Place),
    /// Make the directory of the configuration, and compare the roots.
    MakeConfigDirectory,
    /// Make the folder.
    MakeSyncRoot,
    /// Write a fresh secret to the file.
    WriteSecret(Place),
    /// Read the secret of the group that is joined.
    ReadGroupSecret,
    /// Write the configuration.
    WriteConfig,
    /// Nothing: the device is set up.
    Finish,
    /// Nothing but to remove what was written: the device is not set up.
    Refuse { refusal: SetupRefusal, removal: Removal },
}

/// What came of the last action.
#[derive(Clone, Copy, Debug, PartialEq, Eq, Structural)]
pub enum SetupEvent {
    Absent,
    Present,
    Done,
    Overlapping,
    Failed,
}

/// What is being waited for.
#[derive(Clone, Copy, Debug, PartialEq, Eq, Structural)]
pub enum SetupStage {
    LookForConfig,
    MakeConfigDirectory,
    MakeSyncRoot,
    LookForDeviceSecret,
    WriteDeviceSecret,
    ReadGroupSecret,
    LookForGroupSecret,
    WriteGroupSecret,
    WriteConfig,
    Over,
}

/// The secrets that have been written at a stage.
pub open spec fn written_at(joins: bool, stage: SetupStage) -> Removal {
    Removal {
        device_secret: stage == SetupStage::ReadGroupSecret || stage
            == SetupStage::LookForGroupSecret || stage == SetupStage::WriteGroupSecret || stage
            == SetupStage::WriteConfig,
        group_secret: stage == SetupStage::WriteConfig && !joins,
    }
}

/// Nothing is removed.
pub open spec fn nothing() -> Removal {
    Removal { device_secret: false, group_secret: false }
}

/// The end of a setup that is refused.
pub open spec fn refused(refusal: SetupRefusal, removal: Removal) -> (SetupStage, SetupAction) {
    (SetupStage::Over, SetupAction::Refuse { refusal, removal })
}

/// The stage and the action after an event: `joins` where the group is not new. What was written
/// is removed where the secret of a new group is in the way or the configuration cannot be
/// written, and stays where another action fails.
pub open spec fn setup_step(joins: bool, stage: SetupStage, event: SetupEvent) -> (
    SetupStage,
    SetupAction,
) {
    match (stage, event) {
        (SetupStage::LookForConfig, SetupEvent::Absent) => (
            SetupStage::MakeConfigDirectory,
            SetupAction::MakeConfigDirectory,
        ),
        (SetupStage::LookForConfig, SetupEvent::Present) => refused(
            SetupRefusal::Occupied(Place::Config),
            nothing(),
        ),
        (SetupStage::MakeConfigDirectory, SetupEvent::Done) => (
            SetupStage::MakeSyncRoot,
            SetupAction::MakeSyncRoot,
        ),
        (SetupStage::MakeConfigDirectory, SetupEvent::Overlapping) => refused(
            SetupRefusal::OverlappingRoots,
            nothing(),
        ),
        (SetupStage::MakeSyncRoot, SetupEvent::Done) => (
            SetupStage::LookForDeviceSecret,
            SetupAction::Look(Place::DeviceSecret),
        ),
        (SetupStage::LookForDeviceSecret, SetupEvent::Absent) => (
            SetupStage::WriteDeviceSecret,
            SetupAction::WriteSecret(Place::DeviceSecret),
        ),
        (SetupStage::LookForDeviceSecret, SetupEvent::Present) => refused(
            SetupRefusal::Occupied(Place::DeviceSecret),
            nothing(),
        ),
        (SetupStage::WriteDeviceSecret, SetupEvent::Done) => if joins {
            (SetupStage::ReadGroupSecret, SetupAction::ReadGroupSecret)
        } else {
            (SetupStage::LookForGroupSecret, SetupAction::Look(Place::GroupSecret))
        },
        (SetupStage::ReadGroupSecret, SetupEvent::Done) => (
            SetupStage::WriteConfig,
            SetupAction::WriteConfig,
        ),
        (SetupStage::LookForGroupSecret, SetupEvent::Absent) => (
            SetupStage::WriteGroupSecret,
            SetupAction::WriteSecret(Place::GroupSecret),
        ),
        (SetupStage::LookForGroupSecret, SetupEvent::Present) => refused(
            SetupRefusal::Occupied(Place::GroupSecret),
            written_at(joins, stage),
        ),
        (SetupStage::WriteGroupSecret, SetupEvent::Done) => (
            SetupStage::WriteConfig,
            SetupAction::WriteConfig,
        ),
        (SetupStage::WriteConfig, SetupEvent::Done) => (SetupStage::Over, SetupAction::Finish),
        (SetupStage::WriteConfig, SetupEvent::Failed) => refused(
            SetupRefusal::Failed,
            written_at(joins, stage),
        ),
        _ => refused(SetupRefusal::Failed, nothing()),
    }
}

/// A setup that is under way.
#[derive(Clone, Copy, Debug, PartialEq, Eq, Structural)]
pub struct Setup {
    pub joins: bool,
    pub stage: SetupStage,
}

fn refuse(refusal: SetupRefusal, removal: Removal) -> (next: (SetupStage, SetupAction))
    ensures
        next == refused(refusal, removal),
{
    (SetupStage::Over, SetupAction::Refuse { refusal, removal })
}

impl Setup {
    /// Begins to set up a device, with the first action. A group that is joined has to be named by
    /// its identifier and the file of its secret.
    pub fn begin(options: &InitializationOptions) -> (result: Result<
        (Setup, SetupAction),
        DaemonError,
    >)
        ensures
            match result {
                Ok((setup, action)) => {
                    &&& options.group_id is Some == options.group_secret_file is Some
                    &&& setup.joins == options.group_id is Some
                    &&& setup.stage == SetupStage::LookForConfig
                    &&& action == SetupAction::Look(Place::Config)
                },
                Err(error) => options.group_id is Some != options.group_secret_file is Some
                    && error@ == DaemonProblem::IncompleteGroupJoin,
            },
    {
        if options.group_id.is_some() != options.group_secret_file.is_some() {
            return Err(DaemonError::IncompleteGroupJoin);
        }
        Ok(
            (
                Setup { joins: options.group_id.is_some(), stage: SetupStage::LookForConfig },
                SetupAction::Look(Place::Config),
            ),
        )
    }

    /// Takes in what came of the last action, and gives the next one.
    pub fn step(&mut self, event: SetupEvent) -> (action: SetupAction)
        ensures
            final(self).joins == old(self).joins,
            (final(self).stage, action) == setup_step(old(self).joins, old(self).stage, event),
    {
        let none: Removal = Removal { device_secret: false, group_secret: false };
        let next: (SetupStage, SetupAction) = match (self.stage, event) {
            (SetupStage::LookForConfig, SetupEvent::Absent) => (
                SetupStage::MakeConfigDirectory,
                SetupAction::MakeConfigDirectory,
            ),
            (SetupStage::LookForConfig, SetupEvent::Present) => refuse(
                SetupRefusal::Occupied(Place::Config),
                none,
            ),
            (SetupStage::MakeConfigDirectory, SetupEvent::Done) => (
                SetupStage::MakeSyncRoot,
                SetupAction::MakeSyncRoot,
            ),
            (SetupStage::MakeConfigDirectory, SetupEvent::Overlapping) => refuse(
                SetupRefusal::OverlappingRoots,
                none,
            ),
            (SetupStage::MakeSyncRoot, SetupEvent::Done) => (
                SetupStage::LookForDeviceSecret,
                SetupAction::Look(Place::DeviceSecret),
            ),
            (SetupStage::LookForDeviceSecret, SetupEvent::Absent) => (
                SetupStage::WriteDeviceSecret,
                SetupAction::WriteSecret(Place::DeviceSecret),
            ),
            (SetupStage::LookForDeviceSecret, SetupEvent::Present) => refuse(
                SetupRefusal::Occupied(Place::DeviceSecret),
                none,
            ),
            (SetupStage::WriteDeviceSecret, SetupEvent::Done) => if self.joins {
                (SetupStage::ReadGroupSecret, SetupAction::ReadGroupSecret)
            } else {
                (SetupStage::LookForGroupSecret, SetupAction::Look(Place::GroupSecret))
            },
            (SetupStage::ReadGroupSecret, SetupEvent::Done) => (
                SetupStage::WriteConfig,
                SetupAction::WriteConfig,
            ),
            (SetupStage::LookForGroupSecret, SetupEvent::Absent) => (
                SetupStage::WriteGroupSecret,
                SetupAction::WriteSecret(Place::GroupSecret),
            ),
            (SetupStage::LookForGroupSecret, SetupEvent::Present) => refuse(
                SetupRefusal::Occupied(Place::GroupSecret),
                Removal { device_secret: true, group_secret: false },
            ),
            (SetupStage::WriteGroupSecret, SetupEvent::Done) => (
                SetupStage::WriteConfig,
                SetupAction::WriteConfig,
            ),
            (SetupStage::WriteConfig, SetupEvent::Done) => (
                SetupStage::Over,
                SetupAction::Finish,
            ),
            (SetupStage::WriteConfig, SetupEvent::Failed) => refuse(
                SetupRefusal::Failed,
                Removal { device_secret: true, group_secret: !self.joins },
            ),
            _ => refuse(SetupRefusal::Failed, none),
        };
        self.stage = next.0;
        next.1
    }
}

/// What comes of comparing the roots of a new device, given by their components.
pub fn compare_roots(sync_root: &Vec<Vec<u8>>, store_root: &Vec<Vec<u8>>) -> (event: SetupEvent)
    ensures
        event == if is_inside(components_view(sync_root@), components_view(store_root@))
            || is_inside(components_view(store_root@), components_view(sync_root@)) {
            SetupEvent::Overlapping
        } else {
            SetupEvent::Done
        },
{
    match validate_roots(sync_root, store_root) {
        Ok(_) => SetupEvent::Done,
        Err(_) => SetupEvent::Overlapping,
    }
}

/// The stage and the action after a number of events.
pub open spec fn setup_run(joins: bool, events: Seq<SetupEvent>) -> (SetupStage, SetupAction)
    decreases events.len(),
{
    if events.len() == 0 {
        (SetupStage::LookForConfig, SetupAction::Look(Place::Config))
    } else {
        setup_step(joins, setup_run(joins, events.drop_last()).0, events.last())
    }
}

/// The place has been looked for, and nothing was there.
pub open spec fn was_absent(joins: bool, events: Seq<SetupEvent>, place: Place) -> bool {
    exists|count: int|
        0 <= count < events.len() && events[count] == SetupEvent::Absent && (
        #[trigger] setup_run(joins, events.take(count))).1 == SetupAction::Look(place)
}

proof fn lemma_absent_before(joins: bool, events: Seq<SetupEvent>, place: Place)
    requires
        events.len() > 0,
        was_absent(joins, events.drop_last(), place),
    ensures
        was_absent(joins, events, place),
{
    let front = events.drop_last();
    let count = choose|count: int|
        0 <= count < front.len() && front[count] == SetupEvent::Absent && (#[trigger] setup_run(
            joins,
            front.take(count),
        )).1 == SetupAction::Look(place);
    assert(events.take(count) =~= front.take(count));
    assert(events[count] == SetupEvent::Absent);
}

proof fn lemma_config_was_absent(joins: bool, events: Seq<SetupEvent>)
    ensures
        setup_run(joins, events).0 != SetupStage::LookForConfig && setup_run(joins, events).0
            != SetupStage::Over ==> was_absent(joins, events, Place::Config),
        setup_run(joins, events).1 matches SetupAction::Look(place) ==> setup_run(joins, events).0
            == match place {
            Place::Config => SetupStage::LookForConfig,
            Place::DeviceSecret => SetupStage::LookForDeviceSecret,
            Place::GroupSecret => SetupStage::LookForGroupSecret,
        },
        setup_run(joins, events).0 == SetupStage::LookForConfig ==> setup_run(joins, events).1
            == SetupAction::Look(Place::Config),
        setup_run(joins, events).0 == SetupStage::LookForDeviceSecret ==> setup_run(
            joins,
            events,
        ).1 == SetupAction::Look(Place::DeviceSecret),
        setup_run(joins, events).0 == SetupStage::LookForGroupSecret ==> setup_run(
            joins,
            events,
        ).1 == SetupAction::Look(Place::GroupSecret),
    decreases events.len(),
{
    if events.len() > 0 {
        let front = events.drop_last();
        lemma_config_was_absent(joins, front);
        let (stage, action) = setup_run(joins, front);
        if stage == SetupStage::LookForConfig {
            assert(events.take(events.len() - 1) =~= front);
            assert(events[events.len() - 1] == events.last());
            if events.last() == SetupEvent::Absent {
                assert(was_absent(joins, events, Place::Config));
            }
        } else if stage != SetupStage::Over {
            lemma_absent_before(joins, events, Place::Config);
        }
    }
}

/// A setup overwrites nothing: whatever it writes, it has looked for before, and nothing was there.
pub proof fn law_setup_overwrites_nothing(joins: bool, events: Seq<SetupEvent>)
    ensures
        setup_run(joins, events).1 matches SetupAction::WriteSecret(place) ==> was_absent(
            joins,
            events,
            place,
        ),
        setup_run(joins, events).1 == SetupAction::WriteConfig ==> was_absent(
            joins,
            events,
            Place::Config,
        ),
{
    lemma_config_was_absent(joins, events);
    if events.len() > 0 {
        let front = events.drop_last();
        lemma_config_was_absent(joins, front);
        assert(events.take(events.len() - 1) =~= front);
        assert(events[events.len() - 1] == events.last());
    }
}

/// A secret has been written to the place.
pub open spec fn was_written(joins: bool, events: Seq<SetupEvent>, place: Place) -> bool {
    exists|count: int|
        0 <= count < events.len() && events[count] == SetupEvent::Done && (
        #[trigger] setup_run(joins, events.take(count))).1 == SetupAction::WriteSecret(place)
}

proof fn lemma_written_so_far(joins: bool, events: Seq<SetupEvent>, place: Place)
    requires
        events.len() > 0,
    ensures
        was_written(joins, events, place) == (was_written(joins, events.drop_last(), place) || (
        events.last() == SetupEvent::Done && setup_run(joins, events.drop_last()).1
            == SetupAction::WriteSecret(place))),
{
    let front = events.drop_last();
    assert(events.take(events.len() - 1) =~= front);
    if was_written(joins, front, place) {
        let count = choose|count: int|
            0 <= count < front.len() && front[count] == SetupEvent::Done && (
            #[trigger] setup_run(joins, front.take(count))).1 == SetupAction::WriteSecret(place);
        assert(events.take(count) =~= front.take(count));
        assert(events[count] == SetupEvent::Done);
    }
    if events.last() == SetupEvent::Done && setup_run(joins, front).1 == SetupAction::WriteSecret(
        place,
    ) {
        assert(events[events.len() - 1] == SetupEvent::Done);
    }
    if was_written(joins, events, place) {
        let count = choose|count: int|
            0 <= count < events.len() && events[count] == SetupEvent::Done && (
            #[trigger] setup_run(joins, events.take(count))).1 == SetupAction::WriteSecret(place);
        if count < front.len() {
            assert(front.take(count) =~= events.take(count));
            assert(front[count] == SetupEvent::Done);
        }
    }
}

proof fn lemma_written_at(joins: bool, events: Seq<SetupEvent>)
    ensures
        setup_run(joins, events).0 != SetupStage::Over ==> {
            &&& written_at(joins, setup_run(joins, events).0).device_secret == was_written(
                joins,
                events,
                Place::DeviceSecret,
            )
            &&& written_at(joins, setup_run(joins, events).0).group_secret == was_written(
                joins,
                events,
                Place::GroupSecret,
            )
        },
        setup_run(joins, events).1 matches SetupAction::WriteSecret(place) ==> setup_run(
            joins,
            events,
        ).0 == if place == Place::DeviceSecret {
            SetupStage::WriteDeviceSecret
        } else {
            SetupStage::WriteGroupSecret
        } && place != Place::Config,
        setup_run(joins, events).0 == SetupStage::WriteDeviceSecret ==> setup_run(
            joins,
            events,
        ).1 == SetupAction::WriteSecret(Place::DeviceSecret),
        setup_run(joins, events).0 == SetupStage::WriteGroupSecret ==> !joins && setup_run(
            joins,
            events,
        ).1 == SetupAction::WriteSecret(Place::GroupSecret),
        setup_run(joins, events).0 == SetupStage::ReadGroupSecret ==> joins,
        setup_run(joins, events).0 == SetupStage::LookForGroupSecret ==> !joins,
    decreases events.len(),
{
    if events.len() > 0 {
        lemma_written_at(joins, events.drop_last());
        lemma_written_so_far(joins, events, Place::DeviceSecret);
        lemma_written_so_far(joins, events, Place::GroupSecret);
    }
}

/// A setup that finds a file in its way, or cannot write its configuration, removes the secrets
/// that it has written, and no others.
pub proof fn law_setup_in_the_way_leaves_no_secret(joins: bool, events: Seq<SetupEvent>)
    requires
        events.len() > 0,
        setup_run(joins, events).1 matches SetupAction::Refuse { refusal, removal } && (
        refusal is Occupied || setup_run(joins, events.drop_last()).1 == SetupAction::WriteConfig
            && events.last() == SetupEvent::Failed),
    ensures
        setup_run(joins, events).1 matches SetupAction::Refuse { refusal, removal } && {
            &&& removal.device_secret == was_written(joins, events, Place::DeviceSecret)
            &&& removal.group_secret == was_written(joins, events, Place::GroupSecret)
        },
{
    lemma_written_at(joins, events.drop_last());
    lemma_written_so_far(joins, events, Place::DeviceSecret);
    lemma_written_so_far(joins, events, Place::GroupSecret);
    let (stage, action) = setup_run(joins, events.drop_last());
    assert(action == SetupAction::WriteConfig ==> stage == SetupStage::WriteConfig) by {
        if events.drop_last().len() > 0 {
            let before = setup_run(joins, events.drop_last().drop_last()).0;
            assert((stage, action) == setup_step(joins, before, events.drop_last().last()));
        }
    }
}

} // verus!
