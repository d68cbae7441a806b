//! Content-defined chunking, and what a new version of a file adds to the chunks at hand.
use vstd::prelude::*;

use crate::bytes::joined;
use crate::envelope::ObjectKind;
use crate::ids::ContentId;
use crate::keys::GroupKeys;
use crate::record::ChunkRef;

verus! {

pub const DEFAULT_MINIMUM_CHUNK_SIZE: usize = 65536;

pub const DEFAULT_AVERAGE_CHUNK_SIZE: usize = 262144;

pub const DEFAULT_MAXIMUM_CHUNK_SIZE: usize = 1048576;

pub const MINIMUM_MIN: usize = 64;

pub const MINIMUM_MAX: usize = 1048576;

pub const AVERAGE_MIN: usize = 256;

pub const AVERAGE_MAX: usize = 4194304;

pub const MAXIMUM_MIN: usize = 1024;

pub const MAXIMUM_MAX: usize = 16777216;

#[derive(Clone, Debug, PartialEq, Eq)]
pub enum ChunkingError {
    MinimumSizeOutOfRange { value: usize, minimum: usize, maximum: usize },
    AverageSizeOutOfRange { value: usize, minimum: usize, maximum: usize },
    MaximumSizeOutOfRange { value: usize, minimum: usize, maximum: usize },
    InvalidSizeOrder { minimum: usize, average: usize, maximum: usize },
    AverageSizeNotPowerOfTwo(usize),
    ChunkTooLarge(usize),
    SourceTooLarge,
    Read(String),
    FastCdc(String),
}

/// A power of two.
pub open spec fn power_of_two(value: nat) -> bool
    decreases value,
{
    value == 1 || (value > 1 && value % 2 == 0 && power_of_two(value / 2))
}

fn is_power_of_two(value: usize) -> (result: bool)
    ensures
        result == power_of_two(value as nat),
    decreases value,
{
    if value == 1 {
        true
    } else if value == 0 || value % 2 != 0 {
        false
    } else {
        is_power_of_two(value / 2)
    }
}

/// What is wrong with the sizes of a chunking profile, where something is.
pub open spec fn size_problem(minimum: usize, average: usize, maximum: usize) -> Option<
    ChunkingError,
> {
    if minimum < MINIMUM_MIN || minimum > MINIMUM_MAX {
        Some(
            ChunkingError::MinimumSizeOutOfRange {
                value: minimum,
                minimum: MINIMUM_MIN,
                maximum: MINIMUM_MAX,
            },
        )
    } else if average < AVERAGE_MIN || average > AVERAGE_MAX {
        Some(
            ChunkingError::AverageSizeOutOfRange {
                value: average,
                minimum: AVERAGE_MIN,
                maximum: AVERAGE_MAX,
            },
        )
    } else if maximum < MAXIMUM_MIN || maximum > MAXIMUM_MAX {
        Some(
            ChunkingError::MaximumSizeOutOfRange {
                value: maximum,
                minimum: MAXIMUM_MIN,
                maximum: MAXIMUM_MAX,
            },
        )
    } else if minimum > average || average > maximum {
        Some(ChunkingError::InvalidSizeOrder { minimum, average, maximum })
    } else if !power_of_two(average as nat) {
        Some(ChunkingError::AverageSizeNotPowerOfTwo(average))
    } else {
        None
    }
}

/// The offsets and lengths of the chunks into which `fastcdc` cuts a source.
pub uninterp spec fn fastcdc_chunks(
    source: Seq<u8>,
    minimum: usize,
    average: usize,
    maximum: usize,
) -> Seq<(usize, usize)>;

/// Chunks that follow each other without gaps from the start of a source to its end, none of them
/// empty or longer than the maximum.
pub open spec fn is_partition(chunks: Seq<(usize, usize)>, length: nat, maximum: usize) -> bool {
    &&& forall|i: int|
        0 <= i < chunks.len() ==> 1 <= (#[trigger] chunks[i]).1 <= maximum && chunks[i].0
            + chunks[i].1 == chunk_end(chunks, i, length)
    &&& chunks.len() == 0 ==> length == 0
    &&& chunks.len() > 0 ==> chunks[0].0 == 0
}

/// Where the chunk at `index` ends: where the next one starts, or at the end of the source.
pub open spec fn chunk_end(chunks: Seq<(usize, usize)>, index: int, length: nat) -> int {
    if index + 1 < chunks.len() {
        chunks[index + 1].0 as int
    } else {
        length as int
    }
}

/// Each chunk but the last has the minimum size, or one byte less where that is odd.
pub open spec fn is_filled(chunks: Seq<(usize, usize)>, minimum: usize) -> bool {
    forall|i: int|
        0 <= i < chunks.len() - 1 ==> (#[trigger] chunks[i]).1 >= minimum - minimum % 2
}

/// `fastcdc::v2020::FastCDC`, collected: the offset and length of each chunk. They are a function
/// of the arguments, named `fastcdc_chunks`, and follow each other without gaps from the start of
/// the source to its end; each takes at least one byte and at most the maximum. Each but the last
/// has the minimum size, rounded down to an even number: a cut is looked for two bytes at a time.
#[verifier::external_body]
pub(crate) fn fastcdc_cut(source: &[u8], minimum: usize, average: usize, maximum: usize) -> (chunks:
    Vec<(usize, usize)>)
    requires
        size_problem(minimum, average, maximum) is None,
    ensures
        chunks@ == fastcdc_chunks(source@, minimum, average, maximum),
        is_partition(chunks@, source@.len(), maximum),
        is_filled(chunks@, minimum),
{
    fastcdc::v2020::FastCDC::new(source, minimum, average, maximum)
        .map(|chunk| (chunk.offset, chunk.length))
        .collect()
}

/// The sizes that bound chunks.
#[derive(Clone, Copy, Debug, PartialEq, Eq, Structural)]
pub struct ChunkingConfig {
    minimum_size: usize,
    average_size: usize,
    maximum_size: usize,
}

impl ChunkingConfig {
    pub closed spec fn minimum(self) -> usize {
        self.minimum_size
    }

    pub closed spec fn average(self) -> usize {
        self.average_size
    }

    pub closed spec fn maximum(self) -> usize {
        self.maximum_size
    }

    /// The sizes are acceptable.
    #[verifier::type_invariant]
    pub open spec fn acceptable(self) -> bool {
        size_problem(self.minimum(), self.average(), self.maximum()) is None
    }

    /// The profile with the given sizes, where they are acceptable.
    pub fn new(minimum_size: usize, average_size: usize, maximum_size: usize) -> (result: Result<
        Self,
        ChunkingError,
    >)
        ensures
            match result {
                Ok(config) => size_problem(minimum_size, average_size, maximum_size) is None
                    && config.minimum() == minimum_size && config.average() == average_size
                    && config.maximum() == maximum_size,
                Err(error) => size_problem(minimum_size, average_size, maximum_size) == Some(error),
            },
    {
        if minimum_size < MINIMUM_MIN || minimum_size > MINIMUM_MAX {
            return Err(
                ChunkingError::MinimumSizeOutOfRange {
                    value: minimum_size,
                    minimum: MINIMUM_MIN,
                    maximum: MINIMUM_MAX,
                },
            );
        }
        if average_size < AVERAGE_MIN || average_size > AVERAGE_MAX {
            return Err(
                ChunkingError::AverageSizeOutOfRange {
                    value: average_size,
                    minimum: AVERAGE_MIN,
                    maximum: AVERAGE_MAX,
                },
            );
        }
        if maximum_size < MAXIMUM_MIN || maximum_size > MAXIMUM_MAX {
            return Err(
                ChunkingError::MaximumSizeOutOfRange {
                    value: maximum_size,
                    minimum: MAXIMUM_MIN,
                    maximum: MAXIMUM_MAX,
                },
            );
        }
        if minimum_size > average_size || average_size > maximum_size {
            return Err(
                ChunkingError::InvalidSizeOrder {
                    minimum: minimum_size,
                    average: average_size,
                    maximum: maximum_size,
                },
            );
        }
        if !is_power_of_two(average_size) {
            return Err(ChunkingError::AverageSizeNotPowerOfTwo(average_size));
        }
        Ok(ChunkingConfig { minimum_size, average_size, maximum_size })
    }

    pub fn minimum_size(self) -> (size: usize)
        ensures
            size == self.minimum(),
    {
        self.minimum_size
    }

    pub fn average_size(self) -> (size: usize)
        ensures
            size == self.average(),
    {
        self.average_size
    }

    pub fn maximum_size(self) -> (size: usize)
        ensures
            size == self.maximum(),
    {
        self.maximum_size
    }

    /// Cuts a source into chunks and identifies each.
    pub fn chunk_slice(self, source: &[u8], keys: &GroupKeys) -> (result: Result<
        ChunkPlan,
        ChunkingError,
    >)
        ensures
            result is Ok,
            result->Ok_0.total() == source@.len(),
            is_plan_of(
                result->Ok_0@,
                fastcdc_chunks(source@, self.minimum(), self.average(), self.maximum()),
                source@,
                keys@,
            ),
            is_partition(
                fastcdc_chunks(source@, self.minimum(), self.average(), self.maximum()),
                source@.len(),
                self.maximum(),
            ),
            is_filled(
                fastcdc_chunks(source@, self.minimum(), self.average(), self.maximum()),
                self.minimum(),
            ),
    {
        proof {
            use_type_invariant(&self);
        }
        let cuts: Vec<(usize, usize)> = fastcdc_cut(
            source,
            self.minimum_size,
            self.average_size,
            self.maximum_size,
        );
        plan_of_cuts(source, &cuts, self.maximum_size, keys)
    }
}

/// The plan for a source that is cut into the given chunks.
pub fn plan_of_cuts(
    source: &[u8],
    cuts: &Vec<(usize, usize)>,
    maximum_size: usize,
    keys: &GroupKeys,
) -> (result: Result<ChunkPlan, ChunkingError>)
    requires
        is_partition(cuts@, source@.len(), maximum_size),
        maximum_size <= MAXIMUM_MAX,
    ensures
        result is Ok,
        result->Ok_0.total() == source@.len(),
        is_plan_of(result->Ok_0@, cuts@, source@, keys@),
{
    let mut chunks: Vec<ChunkDescriptor> = Vec::new();
    let mut index: usize = 0;
    let total_size: usize = source.len();
    let ghost length = source@.len();
    while index < cuts.len()
        invariant
            index <= cuts@.len(),
            total_size == length,
            is_partition(cuts@, source@.len(), maximum_size),
            maximum_size <= MAXIMUM_MAX,
            length == source@.len(),
            chunks@.len() == index,
            is_plan_of(chunks@, cuts@.take(index as int), source@, keys@),
            bytes_of(chunks@) == (if index < cuts@.len() {
                cuts@[index as int].0 as int
            } else {
                length as int
            }),
        decreases cuts@.len() - index,
    {
        let (offset, size) = cuts[index];
        proof {
            lemma_partition_bounds(cuts@, length, maximum_size, index as int);
        }
        let data: &[u8] = vstd::slice::slice_subrange(source, offset, offset + size);
        let descriptor: ChunkDescriptor = ChunkDescriptor::new(
            offset as u64,
            size,
            keys.identify_chunk(data),
        )?;
        let ghost before = chunks@;
        chunks.push(descriptor);
        proof {
            assert(chunks@.drop_last() =~= before);
            let next = cuts@.take(index + 1);
            assert forall|i: int| 0 <= i < next.len() implies is_chunk_of(
                #[trigger] chunks@[i],
                next[i],
                source@,
                keys@,
            ) by {
                if i < index {
                    assert(chunks@[i] == before[i]);
                    assert(is_chunk_of(before[i], cuts@.take(index as int)[i], source@, keys@));
                }
            }
        }
        index += 1;
    }
    assert(cuts@.take(index as int) =~= cuts@);
    Ok(ChunkPlan { total_size: total_size as u64, chunks })
}

proof fn lemma_partition_bounds(
    chunks: Seq<(usize, usize)>,
    length: nat,
    maximum: usize,
    index: int,
)
    requires
        is_partition(chunks, length, maximum),
        0 <= index < chunks.len(),
    ensures
        chunks[index].0 + chunks[index].1 <= length,
    decreases chunks.len() - index,
{
    if index + 1 < chunks.len() {
        lemma_partition_bounds(chunks, length, maximum, index + 1);
    }
}

/// `chunk` describes the part of `source` at `cut`.
pub open spec fn is_chunk_of(
    chunk: ChunkDescriptor,
    cut: (usize, usize),
    source: Seq<u8>,
    keys: crate::keys::KeysView,
) -> bool {
    &&& chunk.offset == cut.0
    &&& chunk.plaintext_size == cut.1
    &&& chunk.content_id == keys.content_id(
        ObjectKind::Chunk,
        source.subrange(cut.0 as int, cut.0 + cut.1),
    )
}

/// `chunks` describe the parts of `source` at `cuts`, one for one.
pub open spec fn is_plan_of(
    chunks: Seq<ChunkDescriptor>,
    cuts: Seq<(usize, usize)>,
    source: Seq<u8>,
    keys: crate::keys::KeysView,
) -> bool {
    &&& chunks.len() == cuts.len()
    &&& forall|i: int|
        0 <= i < chunks.len() ==> is_chunk_of(#[trigger] chunks[i], cuts[i], source, keys)
}

impl Default for ChunkingConfig {
    fn default() -> (config: Self)
        ensures
            config.minimum() == DEFAULT_MINIMUM_CHUNK_SIZE,
            config.average() == DEFAULT_AVERAGE_CHUNK_SIZE,
            config.maximum() == DEFAULT_MAXIMUM_CHUNK_SIZE,
    {
        proof {
            reveal_with_fuel(power_of_two, 19);
        }
        ChunkingConfig {
            minimum_size: DEFAULT_MINIMUM_CHUNK_SIZE,
            average_size: DEFAULT_AVERAGE_CHUNK_SIZE,
            maximum_size: DEFAULT_MAXIMUM_CHUNK_SIZE,
        }
    }
}

/// One chunk of a source: where it starts, its size and its identifier.
#[derive(Clone, Copy, Debug, PartialEq, Eq, Structural)]
pub struct ChunkDescriptor {
    pub offset: u64,
    pub plaintext_size: u32,
    pub content_id: ContentId,
}

impl ChunkDescriptor {
    pub fn new(offset: u64, plaintext_size: usize, content_id: ContentId) -> (result: Result<
        Self,
        ChunkingError,
    >)
        ensures
            match result {
                Ok(chunk) => plaintext_size <= u32::MAX && chunk.offset == offset
                    && chunk.plaintext_size == plaintext_size && chunk.content_id == content_id,
                Err(error) => plaintext_size > u32::MAX && error == ChunkingError::ChunkTooLarge(
                    plaintext_size,
                ),
            },
    {
        if plaintext_size as u64 > u32::MAX as u64 {
            return Err(ChunkingError::ChunkTooLarge(plaintext_size));
        }
        Ok(ChunkDescriptor { offset, plaintext_size: plaintext_size as u32, content_id })
    }

    pub fn offset(&self) -> (offset: u64)
        ensures
            offset == self.offset,
    {
        self.offset
    }

    pub fn plaintext_size(&self) -> (size: u32)
        ensures
            size == self.plaintext_size,
    {
        self.plaintext_size
    }

    pub fn content_id(&self) -> (id: ContentId)
        ensures
            id == self.content_id,
    {
        self.content_id
    }

    /// The reference to the chunk in a manifest.
    pub open spec fn reference(self) -> ChunkRef {
        ChunkRef { content_id: self.content_id, plaintext_size: self.plaintext_size }
    }

    pub fn chunk_ref(&self) -> (chunk: ChunkRef)
        ensures
            chunk == self.reference(),
    {
        ChunkRef { content_id: self.content_id, plaintext_size: self.plaintext_size }
    }
}

/// The number of bytes in chunks.
pub open spec fn bytes_of(chunks: Seq<ChunkDescriptor>) -> int
    decreases chunks.len(),
{
    if chunks.len() == 0 {
        0
    } else {
        bytes_of(chunks.drop_last()) + chunks.last().plaintext_size
    }
}

/// How a source is cut into chunks.
#[derive(Debug, PartialEq, Eq)]
pub struct ChunkPlan {
    total_size: u64,
    chunks: Vec<ChunkDescriptor>,
}

impl View for ChunkPlan {
    type V = Seq<ChunkDescriptor>;

    closed spec fn view(&self) -> Seq<ChunkDescriptor> {
        self.chunks@
    }
}

/// The chunks that are neither at hand nor already asked for, each once and in order.
pub open spec fn missing_chunks(chunks: Seq<ChunkDescriptor>, available: Seq<ContentId>) -> Seq<
    ChunkRef,
>
    decreases chunks.len(),
{
    if chunks.len() == 0 {
        seq![]
    } else {
        let earlier = missing_chunks(chunks.drop_last(), available);
        if is_missing(chunks, chunks.len() - 1, available) {
            earlier.push(chunks.last().reference())
        } else {
            earlier
        }
    }
}

/// The chunk at `index` is not at hand, and no earlier chunk has the same content.
pub open spec fn is_missing(
    chunks: Seq<ChunkDescriptor>,
    index: int,
    available: Seq<ContentId>,
) -> bool {
    &&& !available.contains(chunks[index].content_id)
    &&& forall|j: int|
        0 <= j < index ==> (#[trigger] chunks[j]).content_id != chunks[index].content_id
}

/// The number of bytes that chunk references stand for.
pub open spec fn reference_bytes(chunks: Seq<ChunkRef>) -> int
    decreases chunks.len(),
{
    if chunks.len() == 0 {
        0
    } else {
        reference_bytes(chunks.drop_last()) + chunks.last().plaintext_size
    }
}

fn contains_id(ids: &Vec<ContentId>, id: ContentId) -> (found: bool)
    ensures
        found == ids@.contains(id),
{
    let mut index: usize = 0;
    while index < ids.len()
        invariant
            index <= ids@.len(),
            forall|i: int| 0 <= i < index ==> ids@[i] != id,
        decreases ids@.len() - index,
    {
        if ids[index] == id {
            assert(ids@[index as int] == id);
            return true;
        }
        index += 1;
    }
    false
}

impl ChunkPlan {
    pub closed spec fn total(self) -> u64 {
        self.total_size
    }

    /// The sizes of the chunks add up to a number that can be represented.
    #[verifier::type_invariant]
    pub closed spec fn representable(self) -> bool {
        bytes_of(self.chunks@) <= u64::MAX
    }

    /// The plan with the given chunks, where their sizes can be added up.
    pub fn new(total_size: u64, chunks: Vec<ChunkDescriptor>) -> (result: Result<
        Self,
        ChunkingError,
    >)
        ensures
            match result {
                Ok(plan) => bytes_of(chunks@) <= u64::MAX && plan@ == chunks@ && plan.total()
                    == total_size,
                Err(error) => bytes_of(chunks@) > u64::MAX && error
                    == ChunkingError::SourceTooLarge,
            },
    {
        let mut sum: u64 = 0;
        let mut index: usize = 0;
        while index < chunks.len()
            invariant
                index <= chunks@.len(),
                sum == bytes_of(chunks@.take(index as int)),
            decreases chunks@.len() - index,
        {
            let size: u64 = chunks[index].plaintext_size as u64;
            proof {
                let next = chunks@.take(index + 1);
                assert(next.drop_last() =~= chunks@.take(index as int));
                lemma_bytes_take(chunks@, index + 1);
            }
            if size > u64::MAX - sum {
                return Err(ChunkingError::SourceTooLarge);
            }
            sum += size;
            index += 1;
        }
        assert(chunks@.take(index as int) =~= chunks@);
        Ok(ChunkPlan { total_size, chunks })
    }

    pub fn total_size(&self) -> (size: u64)
        ensures
            size == self.total(),
    {
        self.total_size
    }

    pub fn chunks(&self) -> (chunks: &[ChunkDescriptor])
        ensures
            chunks@ == self@,
    {
        self.chunks.as_slice()
    }

    /// The references to the chunks in a manifest.
    pub fn chunk_refs(&self) -> (chunks: Vec<ChunkRef>)
        ensures
            chunks@ == self@.map_values(|chunk: ChunkDescriptor| chunk.reference()),
    {
        let mut chunks: Vec<ChunkRef> = Vec::new();
        let mut index: usize = 0;
        while index < self.chunks.len()
            invariant
                index <= self.chunks@.len(),
                chunks@.len() == index,
                forall|i: int| 0 <= i < index ==> chunks@[i] == self.chunks@[i].reference(),
            decreases self.chunks@.len() - index,
        {
            chunks.push(self.chunks[index].chunk_ref());
            index += 1;
        }
        assert(chunks@ =~= self@.map_values(|chunk: ChunkDescriptor| chunk.reference()));
        chunks
    }

    /// What has to be transferred where the objects in `available_content` are at hand.
    pub fn delta_against(&self, available_content: &Vec<ContentId>) -> (delta: DeltaPlan)
        ensures
            delta.missing() == missing_chunks(self@, available_content@),
            delta.transferred() == reference_bytes(delta.missing()),
            delta.missing().len() + delta.reused() == self@.len(),
            delta.transferred() + delta.kept() == bytes_of(self@),
    {
        proof {
            use_type_invariant(self);
        }
        let mut required: Vec<ChunkRef> = Vec::new();
        let mut reused_chunks: usize = 0;
        let mut reused_bytes: u64 = 0;
        let mut transfer_bytes: u64 = 0;
        let mut index: usize = 0;
        while index < self.chunks.len()
            invariant
                index <= self.chunks@.len(),
                bytes_of(self.chunks@) <= u64::MAX,
                required@ == missing_chunks(self.chunks@.take(index as int), available_content@),
                transfer_bytes == reference_bytes(required@),
                required@.len() + reused_chunks == index,
                transfer_bytes + reused_bytes == bytes_of(self.chunks@.take(index as int)),
            decreases self.chunks@.len() - index,
        {
            let chunk: ChunkDescriptor = self.chunks[index];
            let ghost next = self.chunks@.take(index + 1);
            proof {
                assert(next.drop_last() =~= self.chunks@.take(index as int));
                assert(next.last() == chunk);
                lemma_bytes_take(self.chunks@, index + 1);
            }
            let mut fresh: bool = !contains_id(available_content, chunk.content_id);
            let mut earlier: usize = 0;
            while earlier < index
                invariant
                    earlier <= index < self.chunks@.len(),
                    chunk == self.chunks@[index as int],
                    fresh == (!available_content@.contains(chunk.content_id) && forall|j: int|
                        0 <= j < earlier ==> (#[trigger] self.chunks@[j]).content_id
                            != chunk.content_id),
                decreases index - earlier,
            {
                if self.chunks[earlier].content_id == chunk.content_id {
                    fresh = false;
                }
                earlier += 1;
            }
            proof {
                assert(fresh == is_missing(next, index as int, available_content@)) by {
                    assert(forall|j: int| 0 <= j < index ==> next[j] == self.chunks@[j]);
                    if fresh {
                        assert(is_missing(next, index as int, available_content@));
                    } else if is_missing(next, index as int, available_content@) {
                        assert forall|j: int| 0 <= j < index implies (
                        #[trigger] self.chunks@[j]).content_id != chunk.content_id by {
                            assert(next[j].content_id != next[index as int].content_id);
                        }
                        assert(false);
                    }
                }
            }
            if fresh {
                let ghost before = required@;
                required.push(chunk.chunk_ref());
                proof {
                    assert(required@.drop_last() =~= before);
                }
                transfer_bytes += chunk.plaintext_size as u64;
            } else {
                reused_chunks += 1;
                reused_bytes += chunk.plaintext_size as u64;
            }
            index += 1;
        }
        assert(self.chunks@.take(index as int) =~= self.chunks@);
        DeltaPlan { required, reused_chunks, reused_bytes, transfer_bytes }
    }
}

proof fn lemma_bytes_take(chunks: Seq<ChunkDescriptor>, count: int)
    requires
        0 <= count <= chunks.len(),
    ensures
        0 <= bytes_of(chunks.take(count)) <= bytes_of(chunks),
    decreases chunks.len(),
{
    if count < chunks.len() {
        lemma_bytes_take(chunks.drop_last(), count);
        assert(chunks.drop_last().take(count) =~= chunks.take(count));
    } else {
        assert(chunks.take(count) =~= chunks);
        if chunks.len() > 0 {
            lemma_bytes_take(chunks.drop_last(), count - 1);
        }
    }
}

/// What has to be transferred for a plan.
#[derive(Debug, PartialEq, Eq)]
pub struct DeltaPlan {
    required: Vec<ChunkRef>,
    reused_chunks: usize,
    reused_bytes: u64,
    transfer_bytes: u64,
}

impl DeltaPlan {
    pub closed spec fn missing(self) -> Seq<ChunkRef> {
        self.required@
    }

    pub closed spec fn reused(self) -> usize {
        self.reused_chunks
    }

    pub closed spec fn kept(self) -> u64 {
        self.reused_bytes
    }

    pub closed spec fn transferred(self) -> u64 {
        self.transfer_bytes
    }

    pub fn required(&self) -> (chunks: &[ChunkRef])
        ensures
            chunks@ == self.missing(),
    {
        self.required.as_slice()
    }

    pub fn reused_chunks(&self) -> (count: usize)
        ensures
            count == self.reused(),
    {
        self.reused_chunks
    }

    pub fn reused_bytes(&self) -> (count: u64)
        ensures
            count == self.kept(),
    {
        self.reused_bytes
    }

    pub fn transfer_bytes(&self) -> (count: u64)
        ensures
            count == self.transferred(),
    {
        self.transfer_bytes
    }

    pub fn is_complete(&self) -> (complete: bool)
        ensures
            complete == (self.missing().len() == 0),
    {
        self.required.is_empty()
    }
}

/// Why reading the next chunk of a stream failed.
#[derive(Clone, Debug, PartialEq, Eq)]
pub enum StreamFailure {
    Read(String),
    Empty,
    Other(String),
}

impl ChunkingError {
    /// The error for a stream that failed.
    pub fn from_fastcdc(failure: StreamFailure) -> (error: Self)
        ensures
            match failure {
                StreamFailure::Read(message) => error == ChunkingError::Read(message),
                StreamFailure::Empty => error matches ChunkingError::FastCdc(message) && message@
                    == "unexpected end of source"@,
                StreamFailure::Other(message) => error == ChunkingError::FastCdc(message),
            },
    {
        match failure {
            StreamFailure::Read(message) => ChunkingError::Read(message),
            StreamFailure::Empty => ChunkingError::FastCdc("unexpected end of source".to_owned()),
            StreamFailure::Other(message) => ChunkingError::FastCdc(message),
        }
    }
}

/// One chunk of a stream with its bytes.
#[derive(Debug, PartialEq, Eq)]
pub struct ChunkPayload {
    offset: u64,
    content_id: ContentId,
    data: Vec<u8>,
}

impl View for ChunkPayload {
    type V = Seq<u8>;

    closed spec fn view(&self) -> Seq<u8> {
        self.data@
    }
}

impl ChunkPayload {
    pub closed spec fn position(self) -> u64 {
        self.offset
    }

    pub closed spec fn id(self) -> ContentId {
        self.content_id
    }

    /// The size of the chunk can be represented in a manifest.
    #[verifier::type_invariant]
    pub closed spec fn representable(self) -> bool {
        self.data@.len() <= u32::MAX
    }

    /// The chunk that a stream gave.
    pub fn new(offset: u64, data: Vec<u8>, keys: &GroupKeys) -> (result: Result<
        Self,
        ChunkingError,
    >)
        ensures
            match result {
                Ok(payload) => data@.len() <= u32::MAX && payload@ == data@ && payload.position()
                    == offset && payload.id() == keys@.content_id(ObjectKind::Chunk, data@),
                Err(error) => data@.len() > u32::MAX && error == ChunkingError::ChunkTooLarge(
                    data@.len() as usize,
                ),
            },
    {
        if data.len() as u64 > u32::MAX as u64 {
            return Err(ChunkingError::ChunkTooLarge(data.len()));
        }
        let content_id: ContentId = keys.identify_chunk(data.as_slice());
        Ok(ChunkPayload { offset, content_id, data })
    }

    pub fn offset(&self) -> (offset: u64)
        ensures
            offset == self.position(),
    {
        self.offset
    }

    pub fn content_id(&self) -> (id: ContentId)
        ensures
            id == self.id(),
    {
        self.content_id
    }

    pub fn plaintext_size(&self) -> (size: u32)
        ensures
            size == self@.len(),
    {
        proof {
            use_type_invariant(self);
        }
        self.data.len() as u32
    }

    pub fn data(&self) -> (data: &[u8])
        ensures
            data@ == self@,
    {
        self.data.as_slice()
    }

    pub fn into_data(self) -> (data: Vec<u8>)
        ensures
            data@ == self@,
    {
        self.data
    }

    pub fn descriptor(&self) -> (chunk: ChunkDescriptor)
        ensures
            chunk.offset == self.position(),
            chunk.plaintext_size == self@.len(),
            chunk.content_id == self.id(),
    {
        ChunkDescriptor {
            offset: self.offset,
            plaintext_size: self.plaintext_size(),
            content_id: self.content_id,
        }
    }
}

/// The plan for a stream whose chunks were read one after the other: its size is where the last
/// chunk ends.
pub fn chunk_reader(payloads: &Vec<ChunkPayload>) -> (result: Result<ChunkPlan, ChunkingError>)
    ensures
        match result {
            Ok(plan) => {
                &&& plan@.len() == payloads@.len()
                &&& forall|i: int|
                    0 <= i < payloads@.len() ==> (#[trigger] plan@[i]).offset
                        == payloads@[i].position() && plan@[i].plaintext_size
                        == payloads@[i]@.len() && plan@[i].content_id == payloads@[i].id()
                &&& plan.total() == if payloads@.len() == 0 {
                    0
                } else {
                    payloads@.last().position() + payloads@.last()@.len()
                }
            },
            Err(error) => error == ChunkingError::SourceTooLarge && (bytes_in(payloads@) > u64::MAX
                || exists|i: int|
                0 <= i < payloads@.len() && (#[trigger] payloads@[i]).position()
                    + payloads@[i]@.len() > u64::MAX),
        },
        (bytes_in(payloads@) <= u64::MAX && forall|i: int|
            0 <= i < payloads@.len() ==> (#[trigger] payloads@[i]).position() + payloads@[i]@.len()
                <= u64::MAX) ==> result is Ok,
{
    let mut chunks: Vec<ChunkDescriptor> = Vec::new();
    let mut total_size: u64 = 0;
    let mut index: usize = 0;
    while index < payloads.len()
        invariant
            index <= payloads@.len(),
            chunks@.len() == index,
            bytes_of(chunks@) == bytes_in(payloads@.take(index as int)),
            forall|i: int|
                0 <= i < index ==> (#[trigger] chunks@[i]).offset == payloads@[i].position()
                    && chunks@[i].plaintext_size == payloads@[i]@.len() && chunks@[i].content_id
                    == payloads@[i].id(),
            total_size == (if index == 0 {
                0
            } else {
                payloads@[index - 1].position() + payloads@[index - 1]@.len()
            }),
        decreases payloads@.len() - index,
    {
        let descriptor: ChunkDescriptor = payloads[index].descriptor();
        let size: u64 = descriptor.plaintext_size as u64;
        if size > u64::MAX - descriptor.offset {
            assert(payloads@[index as int].position() + payloads@[index as int]@.len() > u64::MAX);
            return Err(ChunkingError::SourceTooLarge);
        }
        total_size = descriptor.offset + size;
        let ghost before = chunks@;
        chunks.push(descriptor);
        proof {
            assert(chunks@.drop_last() =~= before);
            let next = payloads@.take(index + 1);
            assert(next.drop_last() =~= payloads@.take(index as int));
            assert(next.last() == payloads@[index as int]);
        }
        index += 1;
    }
    assert(payloads@.take(index as int) =~= payloads@);
    ChunkPlan::new(total_size, chunks)
}

/// The number of bytes that payloads hold.
pub open spec fn bytes_in(payloads: Seq<ChunkPayload>) -> int
    decreases payloads.len(),
{
    if payloads.len() == 0 {
        0
    } else {
        bytes_in(payloads.drop_last()) + payloads.last()@.len()
    }
}

/// The chunks of a plan cover the source from its start to its end, without gaps or overlaps.
pub proof fn law_plan_covers_the_source(
    chunks: Seq<ChunkDescriptor>,
    cuts: Seq<(usize, usize)>,
    source: Seq<u8>,
    keys: crate::keys::KeysView,
    maximum: usize,
)
    requires
        is_partition(cuts, source.len(), maximum),
        is_plan_of(chunks, cuts, source, keys),
    ensures
        bytes_of(chunks) == source.len(),
        forall|i: int|
            0 <= i < chunks.len() ==> (#[trigger] chunks[i]).offset == bytes_of(chunks.take(i)),
{
    assert forall|i: int| 0 <= i < chunks.len() implies (#[trigger] chunks[i]).offset == bytes_of(
        chunks.take(i),
    ) by {
        lemma_offset_is_sum(chunks, cuts, source, keys, maximum, i);
    }
    if chunks.len() > 0 {
        let last = chunks.len() - 1;
        lemma_offset_is_sum(chunks, cuts, source, keys, maximum, last);
        assert(chunks.drop_last() =~= chunks.take(last));
        assert(is_chunk_of(chunks[last], cuts[last], source, keys));
        assert(cuts[last].0 + cuts[last].1 == chunk_end(cuts, last, source.len()));
    }
}

proof fn lemma_offset_is_sum(
    chunks: Seq<ChunkDescriptor>,
    cuts: Seq<(usize, usize)>,
    source: Seq<u8>,
    keys: crate::keys::KeysView,
    maximum: usize,
    index: int,
)
    requires
        is_partition(cuts, source.len(), maximum),
        is_plan_of(chunks, cuts, source, keys),
        0 <= index < chunks.len(),
    ensures
        chunks[index].offset == bytes_of(chunks.take(index)),
    decreases index,
{
    assert(is_chunk_of(chunks[index], cuts[index], source, keys));
    if index == 0 {
        assert(chunks.take(0) =~= seq![]);
    } else {
        lemma_offset_is_sum(chunks, cuts, source, keys, maximum, index - 1);
        assert(is_chunk_of(chunks[index - 1], cuts[index - 1], source, keys));
        assert(cuts[index - 1].0 + cuts[index - 1].1 == chunk_end(cuts, index - 1, source.len()));
        assert(chunks.take(index).drop_last() =~= chunks.take(index - 1));
        assert(chunks.take(index).last() == chunks[index - 1]);
    }
}

/// The parts of a source at the given cuts.
pub open spec fn parts_at(cuts: Seq<(usize, usize)>, source: Seq<u8>) -> Seq<Seq<u8>> {
    Seq::new(cuts.len(), |i: int| source.subrange(cuts[i].0 as int, cuts[i].0 + cuts[i].1))
}

proof fn lemma_parts_join(
    cuts: Seq<(usize, usize)>,
    source: Seq<u8>,
    maximum: usize,
    count: int,
)
    requires
        is_partition(cuts, source.len(), maximum),
        0 < count <= cuts.len(),
    ensures
        joined(parts_at(cuts.take(count), source)) == source.take(
            chunk_end(cuts, count - 1, source.len()),
        ),
    decreases count,
{
    let last = count - 1;
    let parts = parts_at(cuts.take(count), source);
    lemma_partition_bounds(cuts, source.len(), maximum, last);
    assert(cuts[last].0 + cuts[last].1 == chunk_end(cuts, last, source.len()));
    assert(parts.drop_last() =~= parts_at(cuts.take(last), source));
    assert(parts.last() == source.subrange(cuts[last].0 as int, cuts[last].0 + cuts[last].1));
    if last > 0 {
        lemma_parts_join(cuts, source, maximum, last);
        lemma_partition_bounds(cuts, source.len(), maximum, last - 1);
        assert(cuts[last - 1].0 + cuts[last - 1].1 == chunk_end(cuts, last - 1, source.len()));
    } else {
        assert(parts.drop_last() =~= Seq::<Seq<u8>>::empty());
        assert(joined(parts.drop_last()) =~= source.take(0));
    }
    let start = cuts[last].0 as int;
    assert(joined(parts.drop_last()) == source.take(start));
    assert(source.take(start) + source.subrange(start, start + cuts[last].1) =~= source.take(
        start + cuts[last].1,
    ));
    assert(joined(parts) =~= source.take(cuts[last].0 + cuts[last].1));
}

/// The parts that the chunks of a plan describe, one after the other, are the source: each chunk
/// has the identifier and the size of its part.
pub proof fn law_plan_parts_are_the_source(
    chunks: Seq<ChunkDescriptor>,
    cuts: Seq<(usize, usize)>,
    source: Seq<u8>,
    keys: crate::keys::KeysView,
    maximum: usize,
)
    requires
        is_partition(cuts, source.len(), maximum),
        is_plan_of(chunks, cuts, source, keys),
    ensures
        joined(parts_at(cuts, source)) == source,
        forall|i: int|
            0 <= i < chunks.len() ==> {
                let part = parts_at(cuts, source)[i];
                &&& (#[trigger] chunks[i]).content_id == keys.content_id(ObjectKind::Chunk, part)
                &&& chunks[i].plaintext_size == part.len()
            },
{
    if cuts.len() > 0 {
        assert(cuts.take(cuts.len() as int) =~= cuts);
        lemma_parts_join(cuts, source, maximum, cuts.len() as int);
        assert(source.take(source.len() as int) =~= source);
    } else {
        assert(parts_at(cuts, source) =~= Seq::<Seq<u8>>::empty());
        assert(source =~= Seq::<u8>::empty());
    }
    assert forall|i: int| 0 <= i < chunks.len() implies {
        let part = parts_at(cuts, source)[i];
        &&& (#[trigger] chunks[i]).content_id == keys.content_id(ObjectKind::Chunk, part)
        &&& chunks[i].plaintext_size == part.len()
    } by {
        assert(is_chunk_of(chunks[i], cuts[i], source, keys));
        lemma_partition_bounds(cuts, source.len(), maximum, i);
    }
}

/// No content is asked for twice, and none that is at hand.
pub proof fn law_delta_requests_each_content_once(
    chunks: Seq<ChunkDescriptor>,
    available: Seq<ContentId>,
)
    ensures
        ({
            let missing = missing_chunks(chunks, available);
            &&& forall|i: int, j: int|
                0 <= i < j < missing.len() ==> (#[trigger] missing[i]).content_id != (
                #[trigger] missing[j]).content_id
            &&& forall|i: int|
                0 <= i < missing.len() ==> !available.contains((#[trigger] missing[i]).content_id)
        }),
    decreases chunks.len(),
{
    if chunks.len() > 0 {
        law_delta_requests_each_content_once(chunks.drop_last(), available);
        lemma_missing_are_chunks(chunks.drop_last(), available);
        let earlier = missing_chunks(chunks.drop_last(), available);
        let missing = missing_chunks(chunks, available);
        if is_missing(chunks, chunks.len() - 1, available) {
            assert forall|i: int| 0 <= i < earlier.len() implies (#[trigger] earlier[i]).content_id
                != chunks.last().content_id by {
                let j = choose|j: int|
                    0 <= j < chunks.len() - 1 && (#[trigger] chunks.drop_last()[j]).content_id
                        == earlier[i].content_id;
                assert(chunks[j] == chunks.drop_last()[j]);
            }
            assert forall|i: int, j: int| 0 <= i < j < missing.len() implies (
            #[trigger] missing[i]).content_id != (#[trigger] missing[j]).content_id by {
                assert(missing[i] == earlier[i]);
                if j < earlier.len() {
                    assert(missing[j] == earlier[j]);
                }
            }
        }
    }
}

proof fn lemma_missing_are_chunks(chunks: Seq<ChunkDescriptor>, available: Seq<ContentId>)
    ensures
        forall|i: int|
            0 <= i < missing_chunks(chunks, available).len() ==> exists|j: int|
                0 <= j < chunks.len() && (#[trigger] chunks[j]).content_id == (
                #[trigger] missing_chunks(chunks, available)[i]).content_id,
    decreases chunks.len(),
{
    if chunks.len() > 0 {
        lemma_missing_are_chunks(chunks.drop_last(), available);
        let earlier = missing_chunks(chunks.drop_last(), available);
        let missing = missing_chunks(chunks, available);
        assert forall|i: int| 0 <= i < missing.len() implies exists|j: int|
            0 <= j < chunks.len() && (#[trigger] chunks[j]).content_id == (
            #[trigger] missing[i]).content_id by {
            if i < earlier.len() {
                assert(missing[i] == earlier[i]);
                let j = choose|j: int|
                    0 <= j < chunks.len() - 1 && (#[trigger] chunks.drop_last()[j]).content_id
                        == earlier[i].content_id;
                assert(chunks[j] == chunks.drop_last()[j]);
            } else {
                assert(missing[i] == chunks.last().reference());
                assert(chunks[chunks.len() - 1].content_id == missing[i].content_id);
            }
        }
    }
}

/// Whatever a plan needs is at hand once what it lacks has been transferred.
pub proof fn law_delta_completes_the_plan(
    chunks: Seq<ChunkDescriptor>,
    available: Seq<ContentId>,
    index: int,
)
    requires
        0 <= index < chunks.len(),
    ensures
        available.contains(chunks[index].content_id) || exists|i: int|
            0 <= i < missing_chunks(chunks, available).len() && (#[trigger] missing_chunks(
                chunks,
                available,
            )[i]).content_id == chunks[index].content_id,
    decreases chunks.len(),
{
    let missing = missing_chunks(chunks, available);
    let earlier = missing_chunks(chunks.drop_last(), available);
    if !available.contains(chunks[index].content_id) {
        if index < chunks.len() - 1 {
            law_delta_completes_the_plan(chunks.drop_last(), available, index);
            assert(chunks.drop_last()[index] == chunks[index]);
            let i = choose|i: int|
                0 <= i < earlier.len() && (#[trigger] earlier[i]).content_id
                    == chunks[index].content_id;
            assert(missing[i] == earlier[i]);
        } else if is_missing(chunks, index, available) {
            assert(missing[missing.len() - 1].content_id == chunks[index].content_id);
        } else {
            let j = choose|j: int|
                0 <= j < index && (#[trigger] chunks[j]).content_id == chunks[index].content_id;
            law_delta_completes_the_plan(chunks.drop_last(), available, j);
            assert(chunks.drop_last()[j] == chunks[j]);
            let i = choose|i: int|
                0 <= i < earlier.len() && (#[trigger] earlier[i]).content_id
                    == chunks[j].content_id;
            assert(missing[i] == earlier[i]);
        }
    }
}

} // verus!
