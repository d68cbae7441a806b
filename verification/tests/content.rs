use std::io::{self, Cursor, Read};

use orbit::content::{
    chunk_reader, ChunkDescriptor, ChunkPayload, ChunkPlan, ChunkingConfig, ChunkingError,
    StreamFailure,
};
use orbit::ids::{ContentId, GroupId};
use orbit::keys::{GroupKeys, GroupSecret};

fn keys() -> GroupKeys {
    let group_id = GroupId::parse("00000000-0000-0000-0000-000000000001").unwrap();
    GroupSecret::from_bytes([41; 32]).derive_keys(group_id).unwrap()
}

fn test_config() -> ChunkingConfig {
    ChunkingConfig::new(64, 256, 1024).unwrap()
}

fn fixture(length: usize) -> Vec<u8> {
    let mut state = 0x4d59_5df4_d0f3_3173_u64;
    (0..length)
        .map(|_| {
            state ^= state << 13;
            state ^= state >> 7;
            state ^= state << 17;
            state as u8
        })
        .collect()
}

fn plan_of_stream<R: Read>(
    config: ChunkingConfig,
    reader: R,
    keys: &GroupKeys,
) -> Result<ChunkPlan, ChunkingError> {
    let stream = fastcdc::v2020::StreamCDC::new(
        reader,
        config.minimum_size(),
        config.average_size(),
        config.maximum_size(),
    );
    let mut payloads = Vec::new();
    for chunk in stream {
        let chunk = chunk.map_err(|error| {
            ChunkingError::from_fastcdc(match error {
                fastcdc::v2020::Error::IoError(error) => StreamFailure::Read(error.to_string()),
                fastcdc::v2020::Error::Empty => StreamFailure::Empty,
                error => StreamFailure::Other(error.to_string()),
            })
        })?;
        payloads.push(ChunkPayload::new(chunk.offset, chunk.data, keys)?);
    }
    chunk_reader(&payloads)
}

#[test]
fn default_profile_is_64k_256k_1m() {
    let config = ChunkingConfig::default();
    assert_eq!(config.minimum_size(), 64 * 1024);
    assert_eq!(config.average_size(), 256 * 1024);
    assert_eq!(config.maximum_size(), 1024 * 1024);
}

#[test]
fn invalid_profiles_are_rejected_before_reaching_fastcdc() {
    assert!(matches!(
        ChunkingConfig::new(63, 256, 1024),
        Err(ChunkingError::MinimumSizeOutOfRange { .. })
    ));
    assert!(matches!(
        ChunkingConfig::new(512, 256, 1024),
        Err(ChunkingError::InvalidSizeOrder { .. })
    ));
    assert!(matches!(
        ChunkingConfig::new(64, 300, 1024),
        Err(ChunkingError::AverageSizeNotPowerOfTwo(300))
    ));
}

#[test]
fn profiles_out_of_range_name_the_bound() {
    assert!(matches!(
        ChunkingConfig::new(64, 8 * 1024 * 1024, 16 * 1024 * 1024),
        Err(ChunkingError::AverageSizeOutOfRange { .. })
    ));
    assert!(matches!(
        ChunkingConfig::new(64, 256, 32 * 1024 * 1024),
        Err(ChunkingError::MaximumSizeOutOfRange { .. })
    ));
}

#[test]
fn slice_plan_covers_source_and_hashes_each_chunk() {
    let keys = keys();
    let source = fixture(32 * 1024);
    let plan = test_config().chunk_slice(&source, &keys).unwrap();

    assert_eq!(plan.total_size(), source.len() as u64);
    assert!(!plan.chunks().is_empty());

    let mut expected_offset = 0_u64;
    for (index, chunk) in plan.chunks().iter().enumerate() {
        assert_eq!(chunk.offset(), expected_offset);
        assert!(usize::try_from(chunk.plaintext_size()).unwrap() <= 1024);
        if index + 1 < plan.chunks().len() {
            assert!(chunk.plaintext_size() >= 64);
        }
        let start = usize::try_from(chunk.offset()).unwrap();
        let end = start + usize::try_from(chunk.plaintext_size()).unwrap();
        assert_eq!(chunk.content_id(), keys.identify_chunk(&source[start..end]));
        expected_offset = end as u64;
    }
    assert_eq!(expected_offset, source.len() as u64);
}

#[test]
fn slice_and_fragmented_stream_produce_identical_plans() {
    let keys = keys();
    let source = fixture(32 * 1024);
    let slice_plan = test_config().chunk_slice(&source, &keys).unwrap();
    let reader = FragmentedReader { inner: Cursor::new(&source), maximum_read: 37 };
    let stream_plan = plan_of_stream(test_config(), reader, &keys).unwrap();

    assert_eq!(stream_plan, slice_plan);
}

#[test]
fn a_local_insertion_reuses_most_existing_content() {
    let keys = keys();
    let original = fixture(64 * 1024);
    let original_plan = test_config().chunk_slice(&original, &keys).unwrap();
    let available: Vec<ContentId> =
        original_plan.chunks().iter().map(ChunkDescriptor::content_id).collect();

    let insertion_point = original.len() / 2;
    let mut modified = original[..insertion_point].to_vec();
    modified.extend_from_slice(b"an inserted Orbit delta");
    modified.extend_from_slice(&original[insertion_point..]);
    let modified_plan = test_config().chunk_slice(&modified, &keys).unwrap();
    let delta = modified_plan.delta_against(&available);

    assert!(delta.reused_bytes() > modified_plan.total_size() / 2);
    assert!(delta.transfer_bytes() < modified_plan.total_size() / 2);
}

#[test]
fn delta_plan_requests_a_repeated_missing_object_only_once() {
    let content_id = ContentId::from_bytes([3; 32]);
    let plan = ChunkPlan::new(
        20,
        vec![
            ChunkDescriptor::new(0, 10, content_id).unwrap(),
            ChunkDescriptor::new(10, 10, content_id).unwrap(),
        ],
    )
    .unwrap();

    let delta = plan.delta_against(&Vec::new());
    assert_eq!(delta.required().len(), 1);
    assert_eq!(delta.transfer_bytes(), 10);
    assert_eq!(delta.reused_chunks(), 1);
    assert_eq!(delta.reused_bytes(), 10);
    assert!(!delta.is_complete());
    assert!(plan.delta_against(&vec![content_id]).is_complete());
}

#[test]
fn stream_surfaces_reader_errors() {
    let keys = keys();
    let result = plan_of_stream(test_config(), FailingReader, &keys);
    assert!(matches!(result, Err(ChunkingError::Read(_))));
}

#[test]
fn an_empty_source_has_an_empty_plan() {
    let plan = test_config().chunk_slice(&[], &keys()).unwrap();
    assert_eq!(plan.total_size(), 0);
    assert!(plan.chunks().is_empty());
    assert!(plan.delta_against(&Vec::new()).is_complete());
}

#[test]
fn streams_that_end_unexpectedly_say_so() {
    assert_eq!(
        ChunkingError::from_fastcdc(StreamFailure::Empty),
        ChunkingError::FastCdc("unexpected end of source".to_owned())
    );
    assert_eq!(
        ChunkingError::from_fastcdc(StreamFailure::Other("other".to_owned())),
        ChunkingError::FastCdc("other".to_owned())
    );
}

#[test]
fn a_plan_past_the_end_of_a_file_is_refused() {
    let keys = keys();
    let payloads = vec![ChunkPayload::new(u64::MAX, vec![1, 2], &keys).unwrap()];
    assert_eq!(chunk_reader(&payloads), Err(ChunkingError::SourceTooLarge));
}

#[test]
fn payloads_describe_their_bytes() {
    let keys = keys();
    let payload = ChunkPayload::new(5, b"bytes".to_vec(), &keys).unwrap();
    assert_eq!(payload.offset(), 5);
    assert_eq!(payload.plaintext_size(), 5);
    assert_eq!(payload.content_id(), keys.identify_chunk(b"bytes"));
    assert_eq!(payload.descriptor().chunk_ref().plaintext_size, 5);
    assert_eq!(payload.data(), b"bytes");
    assert_eq!(payload.into_data(), b"bytes".to_vec());
}

struct FragmentedReader<R> {
    inner: R,
    maximum_read: usize,
}

impl<R: Read> Read for FragmentedReader<R> {
    fn read(&mut self, buffer: &mut [u8]) -> io::Result<usize> {
        let length = buffer.len().min(self.maximum_read);
        self.inner.read(&mut buffer[..length])
    }
}

struct FailingReader;

impl Read for FailingReader {
    fn read(&mut self, _buffer: &mut [u8]) -> io::Result<usize> {
        Err(io::Error::other("fixture failure"))
    }
}

#[test]
fn chunks_but_the_last_have_the_minimum_size() {
    let source: Vec<u8> =
        (0u32..200_000).map(|value| (value.wrapping_mul(2_654_435_761) >> 13) as u8).collect();
    for minimum in [64usize, 65, 1024, 1025] {
        let config = ChunkingConfig::new(minimum, 2048, 8192).unwrap();
        let plan = config.chunk_slice(&source, &keys()).unwrap();
        let sizes: Vec<usize> =
            plan.chunks().iter().map(|chunk| chunk.plaintext_size() as usize).collect();
        assert_eq!(sizes.iter().sum::<usize>(), source.len());
        assert!(sizes.len() > 1);
        assert!(sizes[..sizes.len() - 1].iter().all(|size| *size >= minimum - minimum % 2));
    }
}
