use orbit::conflict::{reconcile_change, reconcile_file, ReconcileAction, ReconcileError};
use orbit::conflict_name::{conflict_copy_path, portable_device_label};
use orbit::ids::{ContentId, DeviceId, FileId, GroupId, PathId, RevisionId};
use orbit::path::{PathError, RelativePath};
use orbit::record::{ChangeRecord, ChangeRecordKind, ChunkRef, FileManifest, Tombstone};
use orbit::version::{VersionRelation, VersionVector, VersionVectorError};

fn device(value: u128) -> DeviceId {
    DeviceId::from_u128(value)
}

fn manifest(file_id: FileId, revision: u128, device_value: u128) -> FileManifest {
    let mut version = VersionVector::default();
    version.increment(device(device_value)).unwrap();

    FileManifest {
        file_id,
        revision_id: RevisionId::from_u128(revision),
        relative_path: RelativePath::new("docs/report.txt").unwrap(),
        size: 4,
        modified_at_unix_ms: 1,
        version,
        chunks: vec![ChunkRef { content_id: ContentId::from_bytes([1; 32]), plaintext_size: 4 }],
    }
}

fn tombstone(file_id: FileId, revision: u128, deleted_at: i64, version: VersionVector) -> ChangeRecord {
    ChangeRecord::Tombstone(Tombstone {
        file_id,
        revision_id: RevisionId::from_u128(revision),
        relative_path: RelativePath::new("docs/report.txt").unwrap(),
        deleted_at_unix_ms: deleted_at,
        version,
    })
}

#[test]
fn empty_vectors_are_equal() {
    assert_eq!(
        VersionVector::default().relation(&VersionVector::default()),
        VersionRelation::Equal
    );
}

#[test]
fn detects_ancestor_and_descendant() {
    let first = device(1);
    let mut older = VersionVector::default();
    older.increment(first).unwrap();

    let mut newer = older.clone();
    newer.increment(first).unwrap();

    assert_eq!(older.relation(&newer), VersionRelation::Ancestor);
    assert_eq!(newer.relation(&older), VersionRelation::Descendant);
}

#[test]
fn detects_concurrent_updates() {
    let mut left = VersionVector::default();
    left.increment(device(1)).unwrap();

    let mut right = VersionVector::default();
    right.increment(device(2)).unwrap();

    assert_eq!(left.relation(&right), VersionRelation::Concurrent);
    assert_eq!(right.relation(&left), VersionRelation::Concurrent);
}

#[test]
fn merge_takes_each_devices_highest_counter() {
    let first = device(1);
    let second = device(2);
    let mut left = VersionVector::default();
    left.increment(first).unwrap();

    let mut right = VersionVector::default();
    right.increment(first).unwrap();
    right.increment(first).unwrap();
    right.increment(second).unwrap();

    left.merge(&right);

    assert_eq!(left.counter(first), 2);
    assert_eq!(left.counter(second), 1);
    assert_eq!(left.relation(&right), VersionRelation::Equal);
}

#[test]
fn checked_entries_are_sorted_for_canonical_encoding() {
    let first = device(1);
    let second = device(2);
    let version = VersionVector::from_entries(vec![(second, 4), (first, 2)]).unwrap();

    assert_eq!(version.iter(), vec![(first, 2), (second, 4)]);
}

#[test]
fn checked_entries_reject_zero_and_duplicate_counters() {
    let first = device(1);

    assert_eq!(
        VersionVector::from_entries(vec![(first, 0)]),
        Err(VersionVectorError::ZeroCounter { device_id: first })
    );
    assert_eq!(
        VersionVector::from_entries(vec![(first, 1), (first, 2)]),
        Err(VersionVectorError::DuplicateDevice { device_id: first })
    );
}

#[test]
fn the_first_faulty_entry_is_reported() {
    assert_eq!(
        VersionVector::from_entries(vec![(device(1), 1), (device(1), 2), (device(2), 0)]),
        Err(VersionVectorError::DuplicateDevice { device_id: device(1) })
    );
    assert_eq!(
        VersionVector::from_entries(vec![(device(2), 0), (device(1), 1), (device(1), 2)]),
        Err(VersionVectorError::ZeroCounter { device_id: device(2) })
    );
}

#[test]
fn a_full_counter_cannot_grow() {
    let mut version = VersionVector::from_entries(vec![(device(1), u64::MAX)]).unwrap();
    assert_eq!(
        version.increment(device(1)),
        Err(VersionVectorError::CounterOverflow { device_id: device(1) })
    );
    assert_eq!(version.counter(device(1)), u64::MAX);
    assert_eq!(version.increment(device(2)), Ok(1));
}

#[test]
fn merge_is_commutative_and_idempotent() {
    let left = VersionVector::from_entries(vec![(device(1), 3), (device(2), 1)]).unwrap();
    let right = VersionVector::from_entries(vec![(device(1), 2), (device(3), 5)]).unwrap();
    let mut forward = left.clone();
    forward.merge(&right);
    let mut backward = right.clone();
    backward.merge(&left);
    assert_eq!(forward, backward);
    assert_eq!(forward.iter(), vec![(device(1), 3), (device(2), 1), (device(3), 5)]);
    let mut again = forward.clone();
    again.merge(&right);
    assert_eq!(again, forward);
    assert_eq!(left.relation(&forward), VersionRelation::Ancestor);
}

#[test]
fn selects_newer_descendant() {
    let file_id = FileId::from_u128(1);
    let local = manifest(file_id, 10, 100);
    let mut incoming = local.clone();
    incoming.version.increment(device(100)).unwrap();
    incoming.revision_id = RevisionId::from_u128(11);

    assert_eq!(reconcile_file(&local, &incoming).unwrap(), ReconcileAction::UseIncoming);
}

#[test]
fn concurrent_choice_is_independent_of_arrival_order() {
    let file_id = FileId::from_u128(1);
    let left = manifest(file_id, 10, 100);
    let right = manifest(file_id, 20, 200);

    let forward = reconcile_file(&left, &right).unwrap();
    let reverse = reconcile_file(&right, &left).unwrap();

    assert_eq!(forward, reverse);
    assert!(matches!(forward, ReconcileAction::KeepBoth { .. }));
}

#[test]
fn conflict_name_is_portable_and_preserves_extension() {
    let original = RelativePath::new("docs/quarterly.report.pdf").unwrap();
    let revision = RevisionId::from_u128(0x1234);

    let conflict = conflict_copy_path(&original, "Eloi/Desktop:1", 1_700_000, revision)
        .expect("conflict path should remain portable");

    assert_eq!(
        conflict.as_str(),
        "docs/quarterly.report (Orbit conflict Eloi_Desktop_1 1700000 00000000).pdf"
    );
}

#[test]
fn concurrent_edit_delete_keeps_the_edit_independent_of_arrival_order() {
    let file_id = FileId::from_u128(1);
    let file = ChangeRecord::File(manifest(file_id, 10, 100));
    let tombstone = tombstone(
        file_id,
        20,
        2,
        VersionVector::from_entries(vec![(device(200), 1)]).unwrap(),
    );

    assert_eq!(reconcile_change(&file, &tombstone).unwrap(), ReconcileAction::KeepLocal);
    assert_eq!(reconcile_change(&tombstone, &file).unwrap(), ReconcileAction::UseIncoming);
}

#[test]
fn descendant_delete_wins_and_concurrent_tombstones_converge() {
    let file_id = FileId::from_u128(1);
    let file = ChangeRecord::File(manifest(file_id, 10, 100));
    let mut delete_version = file.version().clone();
    delete_version.increment(device(100)).unwrap();
    let delete = tombstone(file_id, 20, 2, delete_version);
    assert_eq!(reconcile_change(&file, &delete).unwrap(), ReconcileAction::UseIncoming);

    let left = tombstone(
        file_id,
        30,
        3,
        VersionVector::from_entries(vec![(device(1), 1)]).unwrap(),
    );
    let right = tombstone(
        file_id,
        40,
        4,
        VersionVector::from_entries(vec![(device(2), 1)]).unwrap(),
    );
    assert_eq!(reconcile_change(&left, &right).unwrap(), ReconcileAction::UseIncoming);
    assert_eq!(reconcile_change(&right, &left).unwrap(), ReconcileAction::KeepLocal);
}

#[test]
fn records_of_different_files_are_not_reconciled() {
    let left = manifest(FileId::from_u128(1), 10, 100);
    let right = manifest(FileId::from_u128(2), 20, 200);
    assert_eq!(
        reconcile_file(&left, &right),
        Err(ReconcileError::DifferentFiles {
            local: FileId::from_u128(1),
            incoming: FileId::from_u128(2),
        })
    );
}

#[test]
fn one_revision_has_one_content() {
    let file_id = FileId::from_u128(1);
    let left = manifest(file_id, 10, 100);
    let mut right = left.clone();
    right.modified_at_unix_ms = 2;
    assert_eq!(
        reconcile_file(&left, &right),
        Err(ReconcileError::RevisionCollision { revision_id: RevisionId::from_u128(10) })
    );
    assert_eq!(reconcile_file(&left, &left.clone()), Ok(ReconcileAction::NoChange));
}

#[test]
fn an_ancestor_leaves_the_local_record() {
    let file_id = FileId::from_u128(1);
    let incoming = manifest(file_id, 10, 100);
    let mut local = incoming.clone();
    local.version.increment(device(100)).unwrap();
    local.revision_id = RevisionId::from_u128(11);
    assert_eq!(reconcile_file(&local, &incoming).unwrap(), ReconcileAction::KeepLocal);
}

#[test]
fn normalizes_display_path_to_nfc() {
    let path = RelativePath::new("notes/cafe\u{301}.txt").unwrap();

    assert_eq!(path.as_str(), "notes/café.txt");
}

#[test]
fn creates_full_unicode_case_fold_key() {
    let left = RelativePath::new("Straße/FILE.txt").unwrap();
    let right = RelativePath::new("STRASSE/file.txt").unwrap();

    assert_eq!(left.comparison_key(), right.comparison_key());
    assert_ne!(left, right);
}

#[test]
fn rejects_ambiguous_or_non_portable_components() {
    let invalid = [
        "../secret.txt",
        "folder//file.txt",
        "folder\\file.txt",
        "CON.txt",
        "folder/trailing. ",
        "/absolute.txt",
    ];

    for value in invalid {
        assert!(RelativePath::new(value).is_err(), "accepted {value}");
    }
}

#[test]
fn each_fault_of_a_path_is_named() {
    assert_eq!(RelativePath::new(""), Err(PathError::Empty));
    assert_eq!(RelativePath::new("/a"), Err(PathError::NotRelative));
    assert_eq!(RelativePath::new("a//b"), Err(PathError::EmptyComponent));
    assert_eq!(
        RelativePath::new("a/.."),
        Err(PathError::TraversalComponent { component: "..".to_owned() })
    );
    assert_eq!(
        RelativePath::new("a/b*c"),
        Err(PathError::ForbiddenCharacter { component: "b*c".to_owned(), character: '*' })
    );
    assert_eq!(
        RelativePath::new("tail "),
        Err(PathError::TrailingDotOrSpace { component: "tail ".to_owned() })
    );
    assert_eq!(
        RelativePath::new("lpt1.tar.gz"),
        Err(PathError::ReservedName { component: "lpt1.tar.gz".to_owned() })
    );
    assert_eq!(
        RelativePath::new(&"x".repeat(256)),
        Err(PathError::ComponentTooLong { actual: 256, maximum: 255 })
    );
    let long = vec!["y".repeat(255); 17].join("/");
    assert_eq!(
        RelativePath::new(&long),
        Err(PathError::PathTooLong { actual: 4351, maximum: 4096 })
    );
}

#[test]
fn a_path_is_its_own_normal_form() {
    let path = RelativePath::new("Docs/cafe\u{301}/Read Me.TXT").unwrap();
    assert_eq!(RelativePath::new(path.as_str()).unwrap(), path);
    assert_eq!(path.comparison_key(), "docs/caf\u{e9}/read me.txt");
    assert_eq!(path.file_name(), "Read Me.TXT");
    assert_eq!(path.to_string(), path.as_str());
}

#[test]
fn device_labels_become_portable() {
    assert_eq!(portable_device_label("Eloi/Desktop:1"), "Eloi_Desktop_1");
    assert_eq!(portable_device_label("  . "), "device");
    assert_eq!(portable_device_label(&"é".repeat(40)), "é".repeat(24));
}

#[test]
fn records_tell_their_parts() {
    let file_id = FileId::from_u128(1);
    let file = ChangeRecord::File(manifest(file_id, 10, 100));
    assert_eq!(file.kind(), ChangeRecordKind::File);
    assert_eq!(file.file_id(), file_id);
    assert_eq!(file.revision_id(), RevisionId::from_u128(10));
    assert_eq!(file.relative_path().as_str(), "docs/report.txt");
    assert_eq!(file.version().counter(device(100)), 1);
    assert_eq!(file.chunk_ids(), vec![ContentId::from_bytes([1; 32])]);
    let gone = tombstone(file_id, 11, 5, VersionVector::default());
    assert_eq!(gone.kind(), ChangeRecordKind::Tombstone);
    assert!(gone.chunk_ids().is_empty());
}

#[test]
fn identifiers_round_trip_through_text_and_bytes() {
    let text = "12345678-9abc-def0-1234-56789abcdef0";
    let id = GroupId::parse(text).unwrap();
    assert_eq!(id.as_u128(), 0x1234_5678_9abc_def0_1234_5678_9abc_def0);
    assert_eq!(id.to_string(), text);
    assert_eq!(GroupId::from_bytes(&id.to_bytes()), id);
    assert_eq!(id.to_bytes()[0], 0x12);
    assert!(GroupId::parse("not an identifier").is_err());
    assert_ne!(DeviceId::new(), DeviceId::new());
    assert_ne!(FileId::new(), FileId::new());
    assert_ne!(RevisionId::new(), RevisionId::new());
    assert_ne!(GroupId::new(), GroupId::new());
    assert_eq!(GroupId::new().to_string().as_bytes()[14], b'4');
}

#[test]
fn content_identifiers_are_ordered_by_their_bytes() {
    let mut low = [0; 32];
    low[31] = 9;
    let mut high = [0; 32];
    high[0] = 1;
    let low = ContentId::from_bytes(low);
    let high = ContentId::from_bytes(high);
    assert!(low.is_before(&high));
    assert!(!high.is_before(&low));
    assert_eq!(high.as_bytes()[0], 1);
    assert_eq!(ContentId::from_slice(&low.into_bytes()), Some(low));
    assert_eq!(ContentId::from_slice(&[1; 31]), None);
    assert_eq!(PathId::from_slice(&[7; 32]), Some(PathId::from_bytes([7; 32])));
}
