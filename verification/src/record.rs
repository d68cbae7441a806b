//! Change records: what a revision of a file is, or that it was deleted.
use vstd::prelude::*;

use crate::ids::{ContentId, DeviceId, FileId, RevisionId};
use crate::path::{path_wf, PathForms, RelativePath};
use crate::version::{version_wf, VersionVector};

verus! {

/// One chunk of a file: the object that holds it and its size before encryption.
#[derive(Clone, Copy, Debug, PartialEq, Eq)]
pub struct ChunkRef {
    pub content_id: ContentId,
    pub plaintext_size: u32,
}

impl ChunkRef {
    /// Tests whether the two chunks are the same.
    pub fn same(&self, other: &Self) -> (same: bool)
        ensures
            same == (*self == *other),
    {
        self.content_id == other.content_id && self.plaintext_size == other.plaintext_size
    }
}

/// A revision of a file.
#[derive(Debug, PartialEq, Eq)]
pub struct FileManifest {
    pub file_id: FileId,
    pub revision_id: RevisionId,
    pub relative_path: RelativePath,
    pub size: u64,
    pub modified_at_unix_ms: i64,
    pub version: VersionVector,
    pub chunks: Vec<ChunkRef>,
}

/// The contents of a `FileManifest`.
pub struct ManifestView {
    pub file_id: FileId,
    pub revision_id: RevisionId,
    pub path: PathForms,
    pub size: u64,
    pub modified_at_unix_ms: i64,
    pub version: Seq<(DeviceId, u64)>,
    pub chunks: Seq<ChunkRef>,
}

impl View for FileManifest {
    type V = ManifestView;

    open spec fn view(&self) -> ManifestView {
        ManifestView {
            file_id: self.file_id,
            revision_id: self.revision_id,
            path: self.relative_path@,
            size: self.size,
            modified_at_unix_ms: self.modified_at_unix_ms,
            version: self.version@,
            chunks: self.chunks@,
        }
    }
}

/// A copy of a list of chunks.
pub fn copy_chunks(chunks: &Vec<ChunkRef>) -> (copy: Vec<ChunkRef>)
    ensures
        copy@ == chunks@,
{
    let mut copy: Vec<ChunkRef> = Vec::new();
    let mut index: usize = 0;
    while index < chunks.len()
        invariant
            index <= chunks.len(),
            copy@ == chunks@.take(index as int),
        decreases chunks.len() - index,
    {
        copy.push(chunks[index]);
        proof {
            assert(chunks@.take(index + 1) =~= chunks@.take(index as int).push(
                chunks@[index as int],
            ));
        }
        index += 1;
    }
    assert(copy@ =~= chunks@);
    copy
}

/// Tests whether two lists of chunks are the same.
pub fn same_chunks(left: &Vec<ChunkRef>, right: &Vec<ChunkRef>) -> (same: bool)
    ensures
        same == (left@ == right@),
{
    if left.len() != right.len() {
        return false;
    }
    let mut index: usize = 0;
    while index < left.len()
        invariant
            index <= left.len(),
            left.len() == right.len(),
            forall|i: int| 0 <= i < index ==> left@[i] == right@[i],
        decreases left.len() - index,
    {
        if !left[index].same(&right[index]) {
            return false;
        }
        index += 1;
    }
    assert(left@ =~= right@);
    true
}

impl Clone for FileManifest {
    fn clone(&self) -> (manifest: Self)
        ensures
            manifest@ == self@,
    {
        FileManifest {
            file_id: self.file_id,
            revision_id: self.revision_id,
            relative_path: self.relative_path.clone(),
            size: self.size,
            modified_at_unix_ms: self.modified_at_unix_ms,
            version: self.version.clone(),
            chunks: copy_chunks(&self.chunks),
        }
    }
}

impl FileManifest {
    /// Tests whether the two manifests have the same contents.
    pub fn same(&self, other: &Self) -> (same: bool)
        ensures
            same == (self@ == other@),
    {
        self.file_id == other.file_id && self.revision_id == other.revision_id
            && self.relative_path.same(&other.relative_path) && self.size == other.size
            && self.modified_at_unix_ms == other.modified_at_unix_ms && self.version.same(
            &other.version,
        ) && same_chunks(&self.chunks, &other.chunks)
    }
}

/// The deletion of a file.
#[derive(Debug, PartialEq, Eq)]
pub struct Tombstone {
    pub file_id: FileId,
    pub revision_id: RevisionId,
    pub relative_path: RelativePath,
    pub deleted_at_unix_ms: i64,
    pub version: VersionVector,
}

/// The contents of a `Tombstone`.
pub struct TombstoneView {
    pub file_id: FileId,
    pub revision_id: RevisionId,
    pub path: PathForms,
    pub deleted_at_unix_ms: i64,
    pub version: Seq<(DeviceId, u64)>,
}

impl View for Tombstone {
    type V = TombstoneView;

    open spec fn view(&self) -> TombstoneView {
        TombstoneView {
            file_id: self.file_id,
            revision_id: self.revision_id,
            path: self.relative_path@,
            deleted_at_unix_ms: self.deleted_at_unix_ms,
            version: self.version@,
        }
    }
}

impl Clone for Tombstone {
    fn clone(&self) -> (tombstone: Self)
        ensures
            tombstone@ == self@,
    {
        Tombstone {
            file_id: self.file_id,
            revision_id: self.revision_id,
            relative_path: self.relative_path.clone(),
            deleted_at_unix_ms: self.deleted_at_unix_ms,
            version: self.version.clone(),
        }
    }
}

impl Tombstone {
    /// Tests whether the two tombstones have the same contents.
    pub fn same(&self, other: &Self) -> (same: bool)
        ensures
            same == (self@ == other@),
    {
        self.file_id == other.file_id && self.revision_id == other.revision_id
            && self.relative_path.same(&other.relative_path) && self.deleted_at_unix_ms
            == other.deleted_at_unix_ms && self.version.same(&other.version)
    }
}

#[derive(Debug, PartialEq, Eq)]
pub enum ChangeRecord {
    File(FileManifest),
    Tombstone(Tombstone),
}

/// The contents of a `ChangeRecord`.
pub enum RecordView {
    File(ManifestView),
    Tombstone(TombstoneView),
}

#[derive(Clone, Copy, Debug, PartialEq, Eq, Structural)]
pub enum ChangeRecordKind {
    File,
    Tombstone,
}

impl RecordView {
    pub open spec fn kind(self) -> ChangeRecordKind {
        match self {
            RecordView::File(_) => ChangeRecordKind::File,
            RecordView::Tombstone(_) => ChangeRecordKind::Tombstone,
        }
    }

    pub open spec fn file_id(self) -> FileId {
        match self {
            RecordView::File(manifest) => manifest.file_id,
            RecordView::Tombstone(tombstone) => tombstone.file_id,
        }
    }

    pub open spec fn revision_id(self) -> RevisionId {
        match self {
            RecordView::File(manifest) => manifest.revision_id,
            RecordView::Tombstone(tombstone) => tombstone.revision_id,
        }
    }

    pub open spec fn path(self) -> PathForms {
        match self {
            RecordView::File(manifest) => manifest.path,
            RecordView::Tombstone(tombstone) => tombstone.path,
        }
    }

    pub open spec fn version(self) -> Seq<(DeviceId, u64)> {
        match self {
            RecordView::File(manifest) => manifest.version,
            RecordView::Tombstone(tombstone) => tombstone.version,
        }
    }

    /// The record's path and version are in canonical form, as those of every record are.
    pub open spec fn wf(self) -> bool {
        path_wf(self.path()) && version_wf(self.version())
    }

    /// The objects that the record refers to, in order and with repetitions.
    pub open spec fn chunk_ids(self) -> Seq<ContentId> {
        match self {
            RecordView::File(manifest) => manifest.chunks.map_values(
                |chunk: ChunkRef| chunk.content_id,
            ),
            RecordView::Tombstone(_) => seq![],
        }
    }
}

impl View for ChangeRecord {
    type V = RecordView;

    open spec fn view(&self) -> RecordView {
        match *self {
            ChangeRecord::File(manifest) => RecordView::File(manifest@),
            ChangeRecord::Tombstone(tombstone) => RecordView::Tombstone(tombstone@),
        }
    }
}

impl Clone for ChangeRecord {
    fn clone(&self) -> (record: Self)
        ensures
            record@ == self@,
    {
        match self {
            ChangeRecord::File(manifest) => ChangeRecord::File(manifest.clone()),
            ChangeRecord::Tombstone(tombstone) => ChangeRecord::Tombstone(tombstone.clone()),
        }
    }
}

impl ChangeRecord {
    pub fn kind(&self) -> (kind: ChangeRecordKind)
        ensures
            kind == self@.kind(),
    {
        match self {
            ChangeRecord::File(_) => ChangeRecordKind::File,
            ChangeRecord::Tombstone(_) => ChangeRecordKind::Tombstone,
        }
    }

    pub fn file_id(&self) -> (id: FileId)
        ensures
            id == self@.file_id(),
    {
        match self {
            ChangeRecord::File(manifest) => manifest.file_id,
            ChangeRecord::Tombstone(tombstone) => tombstone.file_id,
        }
    }

    pub fn revision_id(&self) -> (id: RevisionId)
        ensures
            id == self@.revision_id(),
    {
        match self {
            ChangeRecord::File(manifest) => manifest.revision_id,
            ChangeRecord::Tombstone(tombstone) => tombstone.revision_id,
        }
    }

    pub fn relative_path(&self) -> (path: &RelativePath)
        ensures
            path@ == self@.path(),
            path_wf(path@),
    {
        let path: &RelativePath = match self {
            ChangeRecord::File(manifest) => &manifest.relative_path,
            ChangeRecord::Tombstone(tombstone) => &tombstone.relative_path,
        };
        proof {
            use_type_invariant(path);
        }
        path
    }

    pub fn version(&self) -> (version: &VersionVector)
        ensures
            version@ == self@.version(),
            version_wf(version@),
    {
        let version: &VersionVector = match self {
            ChangeRecord::File(manifest) => &manifest.version,
            ChangeRecord::Tombstone(tombstone) => &tombstone.version,
        };
        proof {
            use_type_invariant(version);
        }
        version
    }

    /// Tests whether the two records have the same contents.
    pub fn same(&self, other: &Self) -> (same: bool)
        ensures
            same == (self@ == other@),
    {
        match (self, other) {
            (ChangeRecord::File(left), ChangeRecord::File(right)) => left.same(right),
            (ChangeRecord::Tombstone(left), ChangeRecord::Tombstone(right)) => left.same(right),
            _ => false,
        }
    }

    /// The objects that the record refers to, in order and with repetitions.
    pub fn chunk_ids(&self) -> (ids: Vec<ContentId>)
        ensures
            ids@ == self@.chunk_ids(),
    {
        let mut ids: Vec<ContentId> = Vec::new();
        if let ChangeRecord::File(manifest) = self {
            let mut index: usize = 0;
            while index < manifest.chunks.len()
                invariant
                    index <= manifest.chunks.len(),
                    ids@.len() == index,
                    forall|i: int|
                        0 <= i < index ==> ids@[i] == manifest.chunks@[i].content_id,
                decreases manifest.chunks.len() - index,
            {
                ids.push(manifest.chunks[index].content_id);
                index += 1;
            }
        }
        assert(ids@ =~= self@.chunk_ids());
        ids
    }
}

} // verus!
