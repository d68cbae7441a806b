//! What the daemon does in one cycle: it walks its catalog, scans its files and pulls its peers.
use vstd::prelude::*;

use crate::apply::{ApplyOutcome, MaterializationRecoveryReport, OutcomeView};
use crate::catalog::{RevisionKey, StoreError};
use crate::crypto::random_bytes;
use crate::daemon::{
    DaemonConfig, DaemonError, DaemonProblem, PeerConfig, DEFAULT_MAXIMUM_RECORDS_PER_PAGE,
    DEFAULT_SCAN_INTERVAL_SECONDS, DEFAULT_SYNC_INTERVAL_SECONDS, MATERIALIZATION_PAGE_SIZE,
};
use crate::history::{change_page, ChangePage, PageView, StoredChange};
use crate::identity::{
    device_id_of, AuthorizationView, ChangeAuthorization, DeviceIdentity,
};
use crate::ids::{array_of, hyphenated, DeviceId, GroupId};
use crate::loading::signature_view;
use crate::pull::PullReport;
use crate::scan::ScanReport;
use crate::serve::ServeReport;
use crate::store::{Store, StoreView};
use crate::table::lookup;
use crate::text::{decimal_nat, hex_text, push_decimal, push_hex};

verus! {

#[derive(Clone, Copy, Debug, Default, PartialEq, Eq, Structural)]
pub struct MaterializationReport {
    pub recovered: usize,
    pub records_examined: usize,
    pub records_applied: usize,
    pub records_unchanged: usize,
    pub records_kept_local: usize,
    pub conflicts_kept_both: usize,
    pub unsigned_records_skipped: usize,
}

impl MaterializationReport {
    /// There is room in the report for one more record.
    pub open spec fn has_room(self) -> bool {
        &&& self.records_examined < usize::MAX
        &&& self.records_applied < usize::MAX
        &&& self.records_unchanged < usize::MAX
        &&& self.records_kept_local < usize::MAX
        &&& self.conflicts_kept_both < usize::MAX
        &&& self.unsigned_records_skipped < usize::MAX
    }
}

#[derive(Clone, Copy, Debug, Default, PartialEq, Eq, Structural)]
pub struct MaintenanceReport {
    pub materialization: MaterializationReport,
    pub scan: ScanReport,
}

#[derive(Clone, Debug, Default, PartialEq, Eq)]
pub struct SynchronizationReport {
    pub peers_synchronized: usize,
    pub peers_failed: usize,
    pub peer_errors: Vec<String>,
    pub pages_received: usize,
    pub records_committed: usize,
    pub objects_stored: usize,
    pub encrypted_bytes_received: u64,
    pub materialization: MaterializationReport,
}

/// The contents of a `SynchronizationReport`.
pub struct SynchronizationView {
    pub peers_synchronized: nat,
    pub peers_failed: nat,
    pub peer_errors: Seq<Seq<char>>,
    pub pages_received: nat,
    pub records_committed: nat,
    pub objects_stored: nat,
    pub encrypted_bytes_received: nat,
    pub materialization: MaterializationReport,
}

impl View for SynchronizationReport {
    type V = SynchronizationView;

    open spec fn view(&self) -> SynchronizationView {
        SynchronizationView {
            peers_synchronized: self.peers_synchronized as nat,
            peers_failed: self.peers_failed as nat,
            peer_errors: self.peer_errors@.map_values(|text: String| text@),
            pages_received: self.pages_received as nat,
            records_committed: self.records_committed as nat,
            objects_stored: self.objects_stored as nat,
            encrypted_bytes_received: self.encrypted_bytes_received as nat,
            materialization: self.materialization,
        }
    }
}

#[derive(Clone, Debug, Default, PartialEq, Eq)]
pub struct CycleReport {
    pub maintenance: MaintenanceReport,
    pub synchronization: SynchronizationReport,
}

/// What went wrong with a peer, in words.
pub open spec fn peer_failure(device_id: DeviceId, address: Seq<char>, error: Seq<char>) -> Seq<
    char,
> {
    "Peer "@ + hyphenated(device_id.value) + " at "@ + address + ": "@ + error
}

impl SynchronizationReport {
    /// There is room in the report for one more peer from which so much was pulled.
    pub open spec fn room_for(self, pull: PullReport) -> bool {
        &&& self.peers_synchronized < usize::MAX
        &&& self.pages_received + pull.pages_received <= usize::MAX
        &&& self.records_committed + pull.records_committed <= usize::MAX
        &&& self.objects_stored + pull.objects_stored <= usize::MAX
        &&& self.encrypted_bytes_received + pull.encrypted_bytes_received <= u64::MAX
    }

    /// Counts a peer that was pulled.
    pub fn add_pull(&mut self, pull: PullReport)
        requires
            old(self).room_for(pull),
        ensures
            final(self)@ == (SynchronizationView {
                peers_synchronized: old(self)@.peers_synchronized + 1,
                pages_received: old(self)@.pages_received + pull.pages_received as nat,
                records_committed: old(self)@.records_committed + pull.records_committed as nat,
                objects_stored: old(self)@.objects_stored + pull.objects_stored as nat,
                encrypted_bytes_received: old(self)@.encrypted_bytes_received
                    + pull.encrypted_bytes_received as nat,
                ..old(self)@
            }),
    {
        self.peers_synchronized = self.peers_synchronized + 1;
        self.pages_received = self.pages_received + pull.pages_received;
        self.records_committed = self.records_committed + pull.records_committed;
        self.objects_stored = self.objects_stored + pull.objects_stored;
        self.encrypted_bytes_received = self.encrypted_bytes_received
            + pull.encrypted_bytes_received;
    }

    /// Counts a peer with which something went wrong.
    pub fn add_failure(&mut self, device_id: DeviceId, address: &str, error: &str)
        requires
            old(self).peers_failed < usize::MAX,
        ensures
            final(self)@ == (SynchronizationView {
                peers_failed: old(self)@.peers_failed + 1,
                peer_errors: old(self)@.peer_errors.push(
                    peer_failure(device_id, address@, error@),
                ),
                ..old(self)@
            }),
    {
        let ghost before = self@.peer_errors;
        let mut text: String = "Peer ".to_owned();
        vstd::string::StringExecFns::append(&mut text, device_id.to_string().as_str());
        vstd::string::StringExecFns::append(&mut text, " at ");
        vstd::string::StringExecFns::append(&mut text, address);
        vstd::string::StringExecFns::append(&mut text, ": ");
        vstd::string::StringExecFns::append(&mut text, error);
        let ghost view = text@;
        assert(view =~= peer_failure(device_id, address@, error@));
        self.peers_failed = self.peers_failed + 1;
        self.peer_errors.push(text);
        assert(self@.peer_errors =~= before.push(view));
    }
}

/// Checks that every peer was pulled.
pub fn require_all_peers(report: &CycleReport) -> (result: Result<(), DaemonError>)
    ensures
        match result {
            Ok(_) => report.synchronization.peers_failed == 0,
            Err(error) => report.synchronization.peers_failed != 0 && error@
                == (DaemonProblem::PeerSynchronizationsFailed {
                count: report.synchronization.peers_failed as nat,
            }),
        },
{
    if report.synchronization.peers_failed != 0 {
        return Err(
            DaemonError::PeerSynchronizationsFailed {
                count: report.synchronization.peers_failed,
            },
        );
    }
    Ok(())
}

/// Checks that nothing that was left undone stays blocked.
pub fn ensure_recovery_unblocked(recovery: &MaterializationRecoveryReport) -> (result: Result<
    (),
    DaemonError,
>)
    ensures
        match result {
            Ok(_) => recovery@.blocked.len() == 0,
            Err(error) => recovery@.blocked.len() > 0 && error@
                == (DaemonProblem::BlockedMaterializations { count: recovery@.blocked.len() }),
        },
{
    if recovery.blocked.len() == 0 {
        return Ok(());
    }
    Err(DaemonError::BlockedMaterializations { count: recovery.blocked.len() })
}

/// How far the catalog was walked: every change of another device in the log is applied.
#[derive(Clone, Copy, Debug, PartialEq, Eq)]
pub struct CatalogWalk {
    pub after_sequence: u64,
    pub report: MaterializationReport,
}

/// The signature under which a change is applied, none where the change is passed over: it is
/// unsigned, or the device's own.
pub open spec fn change_to_apply(
    store: StoreView,
    group_id: GroupId,
    device_id: DeviceId,
    change: StoredChange,
) -> Option<AuthorizationView> {
    match lookup(
        store.authentications,
        RevisionKey { group_id, revision_id: change.revision_id },
    ) {
        None => None,
        Some(row) => if row.authorization.author_device_id == device_id {
            None
        } else {
            Some(row.authorization)
        },
    }
}

/// The report with one more change that was looked at.
pub open spec fn with_examined(
    store: StoreView,
    group_id: GroupId,
    report: MaterializationReport,
    change: StoredChange,
) -> MaterializationReport {
    MaterializationReport {
        records_examined: (report.records_examined + 1) as usize,
        unsigned_records_skipped: if lookup(
            store.authentications,
            RevisionKey { group_id, revision_id: change.revision_id },
        ) is None {
            (report.unsigned_records_skipped + 1) as usize
        } else {
            report.unsigned_records_skipped
        },
        ..report
    }
}

/// The report with one more change that was applied, or why the walk ends there.
pub open spec fn with_outcome(report: MaterializationReport, outcome: OutcomeView) -> Result<
    MaterializationReport,
    DaemonProblem,
> {
    match outcome {
        OutcomeView::Applied { .. } => Ok(
            MaterializationReport {
                records_applied: (report.records_applied + 1) as usize,
                ..report
            },
        ),
        OutcomeView::NoChange => Ok(
            MaterializationReport {
                records_unchanged: (report.records_unchanged + 1) as usize,
                ..report
            },
        ),
        OutcomeView::KeptLocal { .. } => Ok(
            MaterializationReport {
                records_kept_local: (report.records_kept_local + 1) as usize,
                ..report
            },
        ),
        OutcomeView::KeptBoth { .. } => Ok(
            MaterializationReport {
                conflicts_kept_both: (report.conflicts_kept_both + 1) as usize,
                ..report
            },
        ),
        OutcomeView::MissingObjects { content_ids } => Err(
            DaemonProblem::AdmittedChangeMissingObjects { count: content_ids.len() },
        ),
    }
}

/// Where the walk goes on after a page, none where the catalog ends there.
pub open spec fn page_walked(after_sequence: u64, page: PageView) -> Result<
    Option<u64>,
    DaemonProblem,
> {
    if page.records.len() == 0 {
        Ok(None)
    } else {
        let next = page.records.last().sequence;
        if next <= after_sequence {
            Err(DaemonProblem::MaterializationMadeNoProgress { sequence: after_sequence })
        } else if next >= page.high_watermark {
            Ok(None)
        } else {
            Ok(Some(next))
        }
    }
}

impl CatalogWalk {
    /// Starts to walk the catalog, once nothing that was left undone stays blocked.
    pub fn new(recovery: &MaterializationRecoveryReport) -> (result: Result<Self, DaemonError>)
        ensures
            match result {
                Ok(walk) => recovery@.blocked.len() == 0 && walk == (CatalogWalk {
                    after_sequence: 0,
                    report: MaterializationReport {
                        recovered: recovery.completed,
                        records_examined: 0,
                        records_applied: 0,
                        records_unchanged: 0,
                        records_kept_local: 0,
                        conflicts_kept_both: 0,
                        unsigned_records_skipped: 0,
                    },
                }),
                Err(error) => recovery@.blocked.len() > 0 && error@
                    == (DaemonProblem::BlockedMaterializations { count: recovery@.blocked.len() }),
            },
    {
        ensure_recovery_unblocked(recovery)?;
        Ok(
            CatalogWalk {
                after_sequence: 0,
                report: MaterializationReport {
                    recovered: recovery.completed,
                    records_examined: 0,
                    records_applied: 0,
                    records_unchanged: 0,
                    records_kept_local: 0,
                    conflicts_kept_both: 0,
                    unsigned_records_skipped: 0,
                },
            },
        )
    }

    /// The next page of the catalog.
    pub fn page(&self, group_id: GroupId, store: &Store) -> (result: Result<
        ChangePage,
        DaemonError,
    >)
        ensures
            ({
                let outcome = change_page(
                    store@,
                    group_id,
                    self.after_sequence,
                    MATERIALIZATION_PAGE_SIZE as nat,
                );
                match result {
                    Ok(page) => outcome == Ok::<PageView, StoreError>(page@),
                    Err(error) => outcome is Err && error@ == DaemonProblem::Store(
                        outcome->Err_0,
                    ),
                }
            }),
    {
        match store.changes_after(group_id, self.after_sequence, MATERIALIZATION_PAGE_SIZE) {
            Ok(page) => Ok(page),
            Err(error) => Err(DaemonError::Store(error)),
        }
    }

    /// Looks at a change: gives the signature under which it is applied, none where it is passed
    /// over.
    pub fn examine(
        &mut self,
        change: StoredChange,
        device_id: DeviceId,
        group_id: GroupId,
        store: &Store,
    ) -> (authorization: Option<ChangeAuthorization>)
        requires
            old(self).report.has_room(),
        ensures
            signature_view(authorization) == change_to_apply(
                store@,
                group_id,
                device_id,
                change,
            ),
            *final(self) == (CatalogWalk {
                report: with_examined(store@, group_id, old(self).report, change),
                ..*old(self)
            }),
    {
        self.report.records_examined = self.report.records_examined + 1;
        match store.change_authentication(group_id, change.revision_id) {
            None => {
                self.report.unsigned_records_skipped = self.report.unsigned_records_skipped + 1;
                None
            },
            Some(authentication) => {
                if authentication.authorization.author_device_id == device_id {
                    None
                } else {
                    Some(authentication.authorization)
                }
            },
        }
    }

    /// Counts what became of a change.
    pub fn count(&mut self, outcome: &ApplyOutcome) -> (result: Result<(), DaemonError>)
        requires
            old(self).report.has_room(),
        ensures
            match result {
                Ok(_) => with_outcome(old(self).report, outcome@) == Ok::<
                    MaterializationReport,
                    DaemonProblem,
                >(final(self).report) && final(self).after_sequence == old(self).after_sequence,
                Err(error) => with_outcome(old(self).report, outcome@) == Err::<
                    MaterializationReport,
                    DaemonProblem,
                >(error@) && *final(self) == *old(self),
            },
    {
        match outcome {
            ApplyOutcome::Applied { revision_id: _, kind: _ } => {
                self.report.records_applied = self.report.records_applied + 1;
            },
            ApplyOutcome::NoChange => {
                self.report.records_unchanged = self.report.records_unchanged + 1;
            },
            ApplyOutcome::KeptLocal { revision_id: _ } => {
                self.report.records_kept_local = self.report.records_kept_local + 1;
            },
            ApplyOutcome::KeptBoth {
                canonical_revision: _,
                conflict_revision: _,
                conflict_path: _,
            } => {
                self.report.conflicts_kept_both = self.report.conflicts_kept_both + 1;
            },
            ApplyOutcome::MissingObjects { content_ids } => {
                return Err(
                    DaemonError::AdmittedChangeMissingObjects { count: content_ids.len() },
                );
            },
        }
        Ok(())
    }

    /// Goes on after a page, and tells whether there is another: each page goes further than the
    /// one before.
    pub fn finish_page(&mut self, page: &ChangePage) -> (result: Result<bool, DaemonError>)
        ensures
            ({
                let outcome = page_walked(old(self).after_sequence, page@);
                match result {
                    Ok(more) => {
                        &&& outcome is Ok
                        &&& more == (outcome->Ok_0 is Some)
                        &&& more ==> final(self).after_sequence == outcome->Ok_0->0
                            && final(self).after_sequence > old(self).after_sequence
                        &&& final(self).after_sequence == if page@.records.len() == 0 {
                            old(self).after_sequence
                        } else {
                            page@.records.last().sequence
                        }
                        &&& final(self).report == old(self).report
                    },
                    Err(error) => outcome is Err && outcome->Err_0 == error@ && *final(self)
                        == *old(self),
                }
            }),
    {
        let count: usize = page.records.len();
        if count == 0 {
            return Ok(false);
        }
        let next: u64 = page.records[count - 1].sequence;
        if next <= self.after_sequence {
            return Err(
                DaemonError::MaterializationMadeNoProgress { sequence: self.after_sequence },
            );
        }
        self.after_sequence = next;
        Ok(next < page.high_watermark)
    }
}

/// What maintenance has done, in words; none where it has done nothing.
pub open spec fn maintenance_text(report: MaintenanceReport) -> Option<Seq<char>> {
    let changes = report.scan.file_changes + report.scan.tombstones_created;
    let applied = report.materialization.records_applied;
    let conflicts = report.materialization.conflicts_kept_both;
    if changes != 0 || applied != 0 || conflicts != 0 {
        Some(
            "maintenance: "@ + decimal_nat(changes as nat) + " local changes, "@ + decimal_nat(
                applied as nat,
            ) + " remote changes applied, "@ + decimal_nat(conflicts as nat)
                + " conflicts kept"@,
        )
    } else {
        None
    }
}

/// Says what maintenance has done, where it has done something.
pub fn maintenance_summary(report: &MaintenanceReport) -> (line: Option<String>)
    requires
        report.scan.file_changes + report.scan.tombstones_created <= usize::MAX,
    ensures
        match line {
            Some(text) => maintenance_text(*report) == Some(text@),
            None => maintenance_text(*report) is None,
        },
{
    let changes: usize = report.scan.changes_committed();
    let applied: usize = report.materialization.records_applied;
    let conflicts: usize = report.materialization.conflicts_kept_both;
    if changes == 0 && applied == 0 && conflicts == 0 {
        return None;
    }
    let mut text: String = "maintenance: ".to_owned();
    push_decimal(&mut text, changes as u64);
    vstd::string::StringExecFns::append(&mut text, " local changes, ");
    push_decimal(&mut text, applied as u64);
    vstd::string::StringExecFns::append(&mut text, " remote changes applied, ");
    push_decimal(&mut text, conflicts as u64);
    vstd::string::StringExecFns::append(&mut text, " conflicts kept");
    Some(text)
}

/// What synchronization has done, in words; none where there was no peer.
pub open spec fn synchronization_text(report: SynchronizationView) -> Option<Seq<char>> {
    if report.peers_synchronized != 0 || report.peers_failed != 0 {
        Some(
            "synchronization: "@ + decimal_nat(report.peers_synchronized) + " peers complete, "@
                + decimal_nat(report.peers_failed) + " failed, "@ + decimal_nat(
                report.records_committed,
            ) + " records and "@ + decimal_nat(report.objects_stored) + " objects admitted"@,
        )
    } else {
        None
    }
}

/// Says what synchronization has done, where there was a peer.
pub fn synchronization_summary(report: &SynchronizationReport) -> (line: Option<String>)
    ensures
        match line {
            Some(text) => synchronization_text(report@) == Some(text@),
            None => synchronization_text(report@) is None,
        },
{
    if report.peers_synchronized == 0 && report.peers_failed == 0 {
        return None;
    }
    let mut text: String = "synchronization: ".to_owned();
    push_decimal(&mut text, report.peers_synchronized as u64);
    vstd::string::StringExecFns::append(&mut text, " peers complete, ");
    push_decimal(&mut text, report.peers_failed as u64);
    vstd::string::StringExecFns::append(&mut text, " failed, ");
    push_decimal(&mut text, report.records_committed as u64);
    vstd::string::StringExecFns::append(&mut text, " records and ");
    push_decimal(&mut text, report.objects_stored as u64);
    vstd::string::StringExecFns::append(&mut text, " objects admitted");
    Some(text)
}

/// What a peer was served, in words.
pub open spec fn serve_text(report: ServeReport) -> Seq<char> {
    "served peer: "@ + decimal_nat(report.pages_sent as nat) + " pages and "@ + decimal_nat(
        report.objects_sent as nat,
    ) + " objects ("@ + decimal_nat(report.encrypted_bytes_sent as nat) + " encrypted bytes)"@
}

/// Says what a peer was served.
pub fn serve_summary(report: &ServeReport) -> (line: String)
    ensures
        line@ == serve_text(*report),
{
    let mut text: String = "served peer: ".to_owned();
    push_decimal(&mut text, report.pages_sent as u64);
    vstd::string::StringExecFns::append(&mut text, " pages and ");
    push_decimal(&mut text, report.objects_sent as u64);
    vstd::string::StringExecFns::append(&mut text, " objects (");
    push_decimal(&mut text, report.encrypted_bytes_sent);
    vstd::string::StringExecFns::append(&mut text, " encrypted bytes)");
    text
}

/// What a new device is made with. Paths and addresses are texts.
#[derive(Clone, Debug, PartialEq, Eq)]
pub struct InitializationOptions {
    pub config_path: String,
    pub sync_root: String,
    pub store_root: String,
    pub listen_address: String,
    pub group_id: Option<GroupId>,
    pub group_secret_file: Option<String>,
}

/// The files of the secrets of a new device: that of the group's secret where the group is new.
#[derive(Clone, Debug, PartialEq, Eq)]
pub struct InitializationPlan {
    pub device_secret_name: String,
    pub group_secret_name: Option<String>,
}

#[derive(Clone, Debug, PartialEq, Eq)]
pub struct InitializedIdentity {
    pub config_path: String,
    pub group_id: GroupId,
    pub device_id: DeviceId,
    pub public_key_hex: String,
}

/// Plans a new device whose configuration file has the given stem: it joins a group whose
/// identifier and secret are both given, or makes one where neither is.
pub fn plan_initialization(options: &InitializationOptions, stem: &str) -> (result: Result<
    InitializationPlan,
    DaemonError,
>)
    ensures
        match result {
            Ok(plan) => {
                &&& options.group_id is Some == options.group_secret_file is Some
                &&& plan.device_secret_name@ == stem@ + ".device.key"@
                &&& match plan.group_secret_name {
                    Some(name) => options.group_id is None && name@ == stem@ + ".group.key"@,
                    None => options.group_id is Some,
                }
            },
            Err(error) => options.group_id is Some != options.group_secret_file is Some && error@
                == DaemonProblem::IncompleteGroupJoin,
        },
{
    if options.group_id.is_some() != options.group_secret_file.is_some() {
        return Err(DaemonError::IncompleteGroupJoin);
    }
    let mut device_secret_name: String = stem.to_owned();
    vstd::string::StringExecFns::append(&mut device_secret_name, ".device.key");
    let group_secret_name: Option<String> = if options.group_id.is_some() {
        None
    } else {
        let mut name: String = stem.to_owned();
        vstd::string::StringExecFns::append(&mut name, ".group.key");
        Some(name)
    };
    Ok(InitializationPlan { device_secret_name, group_secret_name })
}

/// A fresh random secret, unless there is no randomness.
pub fn random_secret() -> (result: Result<[u8; 32], DaemonError>)
    ensures
        result matches Err(error) ==> error@ == DaemonProblem::Randomness,
{
    match random_bytes(32) {
        Some(bytes) => Ok(array_of(bytes.as_slice())),
        None => Err(DaemonError::Randomness),
    }
}

/// The configuration of a new device, without peers.
pub fn initial_config(
    options: &InitializationOptions,
    plan: &InitializationPlan,
    group_id: GroupId,
    group_secret_file: &str,
) -> (config: DaemonConfig)
    ensures
        config.group_id == group_id,
        config.sync_root@ == options.sync_root@,
        config.store_root@ == options.store_root@,
        config.listen_address@ == options.listen_address@,
        config.device_secret_file@ == plan.device_secret_name@,
        config.group_secret_file@ == group_secret_file@,
        config.scan_interval_seconds == DEFAULT_SCAN_INTERVAL_SECONDS,
        config.sync_interval_seconds == DEFAULT_SYNC_INTERVAL_SECONDS,
        config.maximum_records_per_page == DEFAULT_MAXIMUM_RECORDS_PER_PAGE,
        config.peers@.len() == 0,
{
    let peers: Vec<PeerConfig> = Vec::new();
    DaemonConfig {
        group_id,
        sync_root: options.sync_root.as_str().to_owned(),
        store_root: options.store_root.as_str().to_owned(),
        listen_address: options.listen_address.as_str().to_owned(),
        device_secret_file: plan.device_secret_name.as_str().to_owned(),
        group_secret_file: group_secret_file.to_owned(),
        scan_interval_seconds: DEFAULT_SCAN_INTERVAL_SECONDS,
        sync_interval_seconds: DEFAULT_SYNC_INTERVAL_SECONDS,
        maximum_records_per_page: DEFAULT_MAXIMUM_RECORDS_PER_PAGE,
        peers,
    }
}

/// What a new device is.
pub fn initialized_identity(
    options: &InitializationOptions,
    group_id: GroupId,
    identity: &DeviceIdentity,
) -> (initialized: InitializedIdentity)
    ensures
        initialized.config_path@ == options.config_path@,
        initialized.group_id == group_id,
        initialized.device_id == device_id_of(identity.key()),
        initialized.public_key_hex@ == hex_text(identity.key()),
{
    let mut public_key_hex: String = String::new();
    push_hex(&mut public_key_hex, identity.public_key().as_bytes().as_slice());
    assert(public_key_hex@ =~= hex_text(identity.key()));
    InitializedIdentity {
        config_path: options.config_path.as_str().to_owned(),
        group_id,
        device_id: identity.device_id(),
        public_key_hex,
    }
}

} // verus!
