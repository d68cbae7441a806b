//! Requests for objects, offers of them, and the streams that carry them.
use vstd::prelude::*;

use crate::bytes::copy_bytes;
use crate::fields::byte_strings;
use crate::ids::{lemma_uuid_bytes, uuid_bytes, ContentId, DeviceId};
use crate::order::has_content_id;
use crate::outcome::agrees;
use crate::protocol::{
    content_identifier, identifier, parse_content_id, parse_uuid, LimitsView, ProtocolError,
    ProtocolLimits, MINIMUM_ENCRYPTED_OBJECT_BYTES,
};
use crate::wire::{
    ObjectOffer, ObjectOfferView, ObjectRangeRequest, ObjectRangeRequestView, ObjectRequest,
    ObjectRequestView, ObjectStreamHeader, ObjectStreamHeaderView,
};

verus! {

/// A request for objects that has been tested.
#[derive(Debug, PartialEq, Eq)]
pub struct ValidatedObjectRequest {
    request_id: u128,
    content_ids: Vec<ContentId>,
}

/// The contents of a `ValidatedObjectRequest`.
pub struct RequestView {
    pub request_id: u128,
    pub content_ids: Seq<ContentId>,
}

impl View for ValidatedObjectRequest {
    type V = RequestView;

    closed spec fn view(&self) -> RequestView {
        RequestView { request_id: self.request_id, content_ids: self.content_ids@ }
    }
}

impl ValidatedObjectRequest {
    pub fn request_id(&self) -> (id: u128)
        ensures
            id == self@.request_id,
    {
        self.request_id
    }

    pub fn content_ids(&self) -> (ids: &[ContentId])
        ensures
            ids@ == self@.content_ids,
    {
        self.content_ids.as_slice()
    }
}

/// The bytes of content identifiers.
pub open spec fn content_id_bytes(ids: Seq<ContentId>) -> Seq<Seq<u8>> {
    Seq::new(ids.len(), |i: int| ids[i]@)
}

/// The content identifiers that byte strings spell, each of them once.
pub open spec fn requested_ids(strings: Seq<Seq<u8>>) -> Result<Seq<ContentId>, ProtocolError>
    decreases strings.len(),
{
    if strings.len() == 0 {
        Ok(seq![])
    } else {
        match requested_ids(strings.drop_last()) {
            Err(error) => Err(error),
            Ok(ids) => match content_identifier(
                "object_request.content_ids",
                strings.len() - 1,
                strings.last(),
            ) {
                Err(error) => Err(error),
                Ok(id) => if ids.contains(id) {
                    Err(ProtocolError::DuplicateContentId(id))
                } else {
                    Ok(ids.push(id))
                },
            },
        }
    }
}

/// What a request asks for, or why it is refused.
pub open spec fn requested(request: ObjectRequestView, limits: LimitsView) -> Result<
    RequestView,
    ProtocolError,
> {
    match identifier("request_id", request.request_id) {
        Err(error) => Err(error),
        Ok(request_id) => if request.content_ids.len() == 0 {
            Err(ProtocolError::EmptyObjectRequest)
        } else if request.content_ids.len() > limits.maximum_content_ids_per_request {
            Err(
                ProtocolError::TooManyContentIds {
                    actual: request.content_ids.len() as usize,
                    maximum: limits.maximum_content_ids_per_request,
                },
            )
        } else {
            match requested_ids(request.content_ids) {
                Err(error) => Err(error),
                Ok(content_ids) => Ok(RequestView { request_id, content_ids }),
            }
        },
    }
}

proof fn lemma_requested_prefix(strings: Seq<Seq<u8>>, count: int)
    requires
        0 <= count <= strings.len(),
        requested_ids(strings.take(count)) is Err,
    ensures
        requested_ids(strings) == requested_ids(strings.take(count)),
    decreases strings.len(),
{
    if count < strings.len() {
        assert(strings.drop_last().take(count) =~= strings.take(count));
        lemma_requested_prefix(strings.drop_last(), count);
    } else {
        assert(strings.take(count) =~= strings);
    }
}

/// Tests a request for objects.
pub fn validate_object_request(request: &ObjectRequest, limits: ProtocolLimits) -> (result: Result<
    ValidatedObjectRequest,
    ProtocolError,
>)
    ensures
        agrees(result, requested(request@, limits@)),
{
    let request_id: u128 = parse_uuid("request_id", request.request_id.as_slice())?;
    if request.content_ids.len() == 0 {
        return Err(ProtocolError::EmptyObjectRequest);
    }
    let maximum: usize = limits.maximum_content_ids_per_request();
    if request.content_ids.len() > maximum {
        return Err(
            ProtocolError::TooManyContentIds { actual: request.content_ids.len(), maximum },
        );
    }
    let ghost strings = byte_strings(request.content_ids@);
    let mut content_ids: Vec<ContentId> = Vec::new();
    let mut index: usize = 0;
    assert(strings.take(0) =~= seq![]);
    while index < request.content_ids.len()
        invariant
            index <= request.content_ids@.len(),
            strings == byte_strings(request.content_ids@),
            request@.content_ids == strings,
            strings.len() > 0,
            strings.len() <= limits@.maximum_content_ids_per_request,
            identifier("request_id", request@.request_id) == Ok::<u128, ProtocolError>(request_id),
            requested_ids(strings.take(index as int)) == Ok::<Seq<ContentId>, ProtocolError>(
                content_ids@,
            ),
        decreases request.content_ids@.len() - index,
    {
        let ghost next = strings.take(index + 1);
        proof {
            assert(next.drop_last() =~= strings.take(index as int));
            assert(next.last() == request.content_ids@[index as int]@);
            if requested_ids(next) is Err {
                lemma_requested_prefix(strings, index + 1);
            }
        }
        let content_id: ContentId = parse_content_id(
            "object_request.content_ids",
            index,
            request.content_ids[index].as_slice(),
        )?;
        if has_content_id(&content_ids, content_id) {
            return Err(ProtocolError::DuplicateContentId(content_id));
        }
        content_ids.push(content_id);
        index += 1;
    }
    assert(strings.take(index as int) =~= strings);
    Ok(ValidatedObjectRequest { request_id, content_ids })
}

/// The request for the given objects.
pub open spec fn request_of(request_id: u128, content_ids: Seq<ContentId>) -> ObjectRequestView {
    ObjectRequestView {
        request_id: uuid_bytes(request_id),
        content_ids: content_id_bytes(content_ids),
    }
}

/// Builds a request for objects.
pub fn build_object_request(
    request_id: u128,
    content_ids: Vec<ContentId>,
    limits: ProtocolLimits,
) -> (result: Result<ObjectRequest, ProtocolError>)
    ensures
        match result {
            Ok(request) => request@ == request_of(request_id, content_ids@) && requested(
                request@,
                limits@,
            ) is Ok,
            Err(error) => requested(request_of(request_id, content_ids@), limits@) == Err::<
                RequestView,
                ProtocolError,
            >(error),
        },
{
    let mut strings: Vec<Vec<u8>> = Vec::new();
    let mut index: usize = 0;
    while index < content_ids.len()
        invariant
            index <= content_ids@.len(),
            strings@.len() == index,
            forall|i: int| 0 <= i < index ==> (#[trigger] strings@[i])@ == content_ids@[i]@,
        decreases content_ids@.len() - index,
    {
        strings.push(copy_bytes(content_ids[index].as_bytes().as_slice()));
        index += 1;
    }
    let request: ObjectRequest = ObjectRequest {
        request_id: request_id_bytes(request_id),
        content_ids: strings,
    };
    assert(request@.content_ids =~= content_id_bytes(content_ids@));
    validate_object_request(&request, limits)?;
    Ok(request)
}

fn request_id_bytes(request_id: u128) -> (bytes: Vec<u8>)
    ensures
        bytes@ == uuid_bytes(request_id),
{
    copy_bytes(DeviceId::from_u128(request_id).to_bytes().as_slice())
}

/// A request for the rest of an object that has been tested.
#[derive(Clone, Copy, Debug, PartialEq, Eq, Structural)]
pub struct ValidatedObjectRangeRequest {
    pub request_id: u128,
    pub content_id: ContentId,
    pub start_offset: u64,
}

/// What a request for the rest of an object asks for, or why it is refused.
pub open spec fn range_requested(request: ObjectRangeRequestView, limits: LimitsView) -> Result<
    ValidatedObjectRangeRequest,
    ProtocolError,
> {
    match identifier("object_range_request.request_id", request.request_id) {
        Err(error) => Err(error),
        Ok(request_id) => match content_identifier(
            "object_range_request.content_id",
            0,
            request.content_id,
        ) {
            Err(error) => Err(error),
            Ok(content_id) => if request.start_offset >= limits.maximum_encrypted_object_bytes {
                Err(
                    ProtocolError::ObjectRangeOffsetTooLarge {
                        actual: request.start_offset,
                        maximum: limits.maximum_encrypted_object_bytes,
                    },
                )
            } else {
                Ok(
                    ValidatedObjectRangeRequest {
                        request_id,
                        content_id,
                        start_offset: request.start_offset,
                    },
                )
            },
        },
    }
}

/// Tests a request for the rest of an object.
pub fn validate_object_range_request(
    request: &ObjectRangeRequest,
    limits: ProtocolLimits,
) -> (result: Result<ValidatedObjectRangeRequest, ProtocolError>)
    ensures
        result == range_requested(request@, limits@),
{
    let request_id: u128 = parse_uuid(
        "object_range_request.request_id",
        request.request_id.as_slice(),
    )?;
    let content_id: ContentId = parse_content_id(
        "object_range_request.content_id",
        0,
        request.content_id.as_slice(),
    )?;
    let maximum: u64 = limits.maximum_encrypted_object_bytes();
    if request.start_offset >= maximum {
        return Err(
            ProtocolError::ObjectRangeOffsetTooLarge { actual: request.start_offset, maximum },
        );
    }
    Ok(ValidatedObjectRangeRequest { request_id, content_id, start_offset: request.start_offset })
}

/// The request for the rest of an object.
pub open spec fn range_request_of(
    request_id: u128,
    content_id: ContentId,
    start_offset: u64,
) -> ObjectRangeRequestView {
    ObjectRangeRequestView {
        request_id: uuid_bytes(request_id),
        content_id: content_id@,
        start_offset,
    }
}

/// Builds a request for the rest of an object.
pub fn build_object_range_request(
    request_id: u128,
    content_id: ContentId,
    start_offset: u64,
    limits: ProtocolLimits,
) -> (result: Result<ObjectRangeRequest, ProtocolError>)
    ensures
        match result {
            Ok(request) => request@ == range_request_of(request_id, content_id, start_offset)
                && range_requested(request@, limits@) is Ok,
            Err(error) => range_requested(
                range_request_of(request_id, content_id, start_offset),
                limits@,
            ) == Err::<ValidatedObjectRangeRequest, ProtocolError>(error),
        },
{
    let request: ObjectRangeRequest = ObjectRangeRequest {
        request_id: request_id_bytes(request_id),
        content_id: copy_bytes(content_id.as_bytes().as_slice()),
        start_offset,
    };
    validate_object_range_request(&request, limits)?;
    Ok(request)
}

/// The transfer of the rest of an object.
#[derive(Clone, Copy, Debug, PartialEq, Eq, Structural)]
pub struct ValidatedObjectTransfer {
    pub request_id: u128,
    pub content_id: ContentId,
    pub encrypted_size: u64,
    pub start_offset: u64,
}

/// The transfer that an offer or a stream announces, or why it is refused.
pub open spec fn transfer_of(
    field: &'static str,
    request_id: Seq<u8>,
    content_id: Seq<u8>,
    encrypted_size: u64,
    start_offset: u64,
    limits: LimitsView,
) -> Result<ValidatedObjectTransfer, ProtocolError> {
    match identifier(field, request_id) {
        Err(error) => Err(error),
        Ok(request_id) => match content_identifier(field, 0, content_id) {
            Err(error) => Err(error),
            Ok(content_id) => if !(MINIMUM_ENCRYPTED_OBJECT_BYTES <= encrypted_size
                <= limits.maximum_encrypted_object_bytes) {
                Err(
                    ProtocolError::InvalidObjectTransferSize {
                        actual: encrypted_size,
                        minimum: MINIMUM_ENCRYPTED_OBJECT_BYTES,
                        maximum: limits.maximum_encrypted_object_bytes,
                    },
                )
            } else if start_offset >= encrypted_size {
                Err(ProtocolError::InvalidObjectTransferRange { start_offset, encrypted_size })
            } else {
                Ok(ValidatedObjectTransfer { request_id, content_id, encrypted_size, start_offset })
            },
        },
    }
}

fn validate_object_transfer_metadata(
    field: &'static str,
    request_id: &[u8],
    content_id: &[u8],
    encrypted_size: u64,
    start_offset: u64,
    limits: ProtocolLimits,
) -> (result: Result<ValidatedObjectTransfer, ProtocolError>)
    ensures
        result == transfer_of(
            field,
            request_id@,
            content_id@,
            encrypted_size,
            start_offset,
            limits@,
        ),
{
    let request_id: u128 = parse_uuid(field, request_id)?;
    let content_id: ContentId = parse_content_id(field, 0, content_id)?;
    let maximum: u64 = limits.maximum_encrypted_object_bytes();
    if encrypted_size < MINIMUM_ENCRYPTED_OBJECT_BYTES || encrypted_size > maximum {
        return Err(
            ProtocolError::InvalidObjectTransferSize {
                actual: encrypted_size,
                minimum: MINIMUM_ENCRYPTED_OBJECT_BYTES,
                maximum,
            },
        );
    }
    if start_offset >= encrypted_size {
        return Err(ProtocolError::InvalidObjectTransferRange { start_offset, encrypted_size });
    }
    Ok(ValidatedObjectTransfer { request_id, content_id, encrypted_size, start_offset })
}

/// What an offer announces, or why it is refused.
pub open spec fn offered(offer: ObjectOfferView, limits: LimitsView) -> Result<
    ValidatedObjectTransfer,
    ProtocolError,
> {
    transfer_of(
        "object_offer",
        offer.request_id,
        offer.content_id,
        offer.encrypted_size,
        offer.start_offset,
        limits,
    )
}

/// Tests an offer.
pub fn validate_object_offer(offer: &ObjectOffer, limits: ProtocolLimits) -> (result: Result<
    ValidatedObjectTransfer,
    ProtocolError,
>)
    ensures
        result == offered(offer@, limits@),
{
    validate_object_transfer_metadata(
        "object_offer",
        offer.request_id.as_slice(),
        offer.content_id.as_slice(),
        offer.encrypted_size,
        offer.start_offset,
        limits,
    )
}

/// What an offer that answers a request announces, or why it is refused.
pub open spec fn offered_for(
    offer: ObjectOfferView,
    request: ValidatedObjectRangeRequest,
    limits: LimitsView,
) -> Result<ValidatedObjectTransfer, ProtocolError> {
    match offered(offer, limits) {
        Err(error) => Err(error),
        Ok(transfer) => if transfer.request_id != request.request_id || transfer.content_id
            != request.content_id || transfer.start_offset != request.start_offset {
            Err(ProtocolError::ObjectTransferRequestMismatch)
        } else {
            Ok(transfer)
        },
    }
}

/// Tests an offer that answers a request.
pub fn validate_object_offer_for_request(
    offer: &ObjectOffer,
    request: ValidatedObjectRangeRequest,
    limits: ProtocolLimits,
) -> (result: Result<ValidatedObjectTransfer, ProtocolError>)
    ensures
        result == offered_for(offer@, request, limits@),
{
    let transfer: ValidatedObjectTransfer = validate_object_offer(offer, limits)?;
    if transfer.request_id != request.request_id || transfer.content_id != request.content_id
        || transfer.start_offset != request.start_offset {
        return Err(ProtocolError::ObjectTransferRequestMismatch);
    }
    Ok(transfer)
}

/// The offer that answers a request.
pub open spec fn offer_of(request: ValidatedObjectRangeRequest, encrypted_size: u64) -> ObjectOfferView {
    ObjectOfferView {
        request_id: uuid_bytes(request.request_id),
        content_id: request.content_id@,
        encrypted_size,
        start_offset: request.start_offset,
    }
}

/// Builds the offer that answers a request.
pub fn build_object_offer(
    request: ValidatedObjectRangeRequest,
    encrypted_size: u64,
    limits: ProtocolLimits,
) -> (result: Result<ObjectOffer, ProtocolError>)
    ensures
        match result {
            Ok(offer) => offer@ == offer_of(request, encrypted_size) && offered(offer@, limits@)
                is Ok,
            Err(error) => offered(offer_of(request, encrypted_size), limits@) == Err::<
                ValidatedObjectTransfer,
                ProtocolError,
            >(error),
        },
{
    let offer: ObjectOffer = ObjectOffer {
        request_id: request_id_bytes(request.request_id),
        content_id: copy_bytes(request.content_id.as_bytes().as_slice()),
        encrypted_size,
        start_offset: request.start_offset,
    };
    validate_object_offer(&offer, limits)?;
    Ok(offer)
}

/// The header of the stream that carries a transfer.
pub open spec fn header_of(transfer: ValidatedObjectTransfer) -> ObjectStreamHeaderView {
    ObjectStreamHeaderView {
        request_id: uuid_bytes(transfer.request_id),
        content_id: transfer.content_id@,
        encrypted_size: transfer.encrypted_size,
        start_offset: transfer.start_offset,
    }
}

/// Builds the header of the stream that carries a transfer.
pub fn build_object_stream_header(transfer: ValidatedObjectTransfer) -> (header: ObjectStreamHeader)
    ensures
        header@ == header_of(transfer),
{
    ObjectStreamHeader {
        request_id: request_id_bytes(transfer.request_id),
        content_id: copy_bytes(transfer.content_id.as_bytes().as_slice()),
        encrypted_size: transfer.encrypted_size,
        start_offset: transfer.start_offset,
    }
}

/// What the header of a stream announces, or why it is refused.
pub open spec fn streamed(header: ObjectStreamHeaderView, limits: LimitsView) -> Result<
    ValidatedObjectTransfer,
    ProtocolError,
> {
    transfer_of(
        "object_stream_header",
        header.request_id,
        header.content_id,
        header.encrypted_size,
        header.start_offset,
        limits,
    )
}

/// Tests the header of a stream.
pub fn validate_object_stream_header(header: &ObjectStreamHeader, limits: ProtocolLimits) -> (result:
    Result<ValidatedObjectTransfer, ProtocolError>)
    ensures
        result == streamed(header@, limits@),
{
    validate_object_transfer_metadata(
        "object_stream_header",
        header.request_id.as_slice(),
        header.content_id.as_slice(),
        header.encrypted_size,
        header.start_offset,
        limits,
    )
}

/// What the header of a stream that carries an accepted offer announces, or why it is refused.
pub open spec fn streamed_for(
    header: ObjectStreamHeaderView,
    offer: ValidatedObjectTransfer,
    limits: LimitsView,
) -> Result<ValidatedObjectTransfer, ProtocolError> {
    match streamed(header, limits) {
        Err(error) => Err(error),
        Ok(transfer) => if transfer != offer {
            Err(ProtocolError::ObjectTransferMetadataMismatch)
        } else {
            Ok(transfer)
        },
    }
}

/// Tests the header of a stream that carries an accepted offer.
pub fn validate_object_stream_header_for_offer(
    header: &ObjectStreamHeader,
    offer: ValidatedObjectTransfer,
    limits: ProtocolLimits,
) -> (result: Result<ValidatedObjectTransfer, ProtocolError>)
    ensures
        result == streamed_for(header@, offer, limits@),
{
    let transfer: ValidatedObjectTransfer = validate_object_stream_header(header, limits)?;
    if transfer != offer {
        return Err(ProtocolError::ObjectTransferMetadataMismatch);
    }
    Ok(transfer)
}

/// A request for objects comes out as it was built: the same objects in the same order.
pub proof fn law_request_round_trips(
    request_id: u128,
    content_ids: Seq<ContentId>,
    limits: LimitsView,
)
    requires
        request_id != 0,
        0 < content_ids.len() <= limits.maximum_content_ids_per_request,
        content_ids.no_duplicates(),
    ensures
        requested(request_of(request_id, content_ids), limits) == Ok::<RequestView, ProtocolError>(
            RequestView { request_id, content_ids },
        ),
{
    lemma_uuid_bytes(request_id);
    lemma_requested_ids_round_trip(content_ids);
}

proof fn lemma_requested_ids_round_trip(content_ids: Seq<ContentId>)
    requires
        content_ids.no_duplicates(),
    ensures
        requested_ids(content_id_bytes(content_ids)) == Ok::<Seq<ContentId>, ProtocolError>(
            content_ids,
        ),
    decreases content_ids.len(),
{
    if content_ids.len() > 0 {
        let front = content_ids.drop_last();
        let last = content_ids.last();
        lemma_requested_ids_round_trip(front);
        assert(content_id_bytes(content_ids).drop_last() =~= content_id_bytes(front));
        last.lemma_view();
        assert(!front.contains(last)) by {
            if front.contains(last) {
                let k = choose|k: int| 0 <= k < front.len() && front[k] == last;
                assert(content_ids[k] == content_ids[content_ids.len() - 1]);
            }
        }
        assert(front.push(last) =~= content_ids);
    } else {
        assert(content_ids =~= seq![]);
    }
}

/// Whatever is accepted asks for each object once, and for no more objects than the limit.
pub proof fn law_accepted_request_is_bounded_and_distinct(
    request: ObjectRequestView,
    limits: LimitsView,
)
    requires
        requested(request, limits) is Ok,
    ensures
        ({
            let ids = requested(request, limits)->Ok_0.content_ids;
            &&& 0 < ids.len() <= limits.maximum_content_ids_per_request
            &&& ids.no_duplicates()
        }),
{
    lemma_requested_ids_distinct(request.content_ids);
}

proof fn lemma_requested_ids_distinct(strings: Seq<Seq<u8>>)
    ensures
        requested_ids(strings) matches Ok(ids) ==> ids.len() == strings.len()
            && ids.no_duplicates(),
    decreases strings.len(),
{
    if strings.len() > 0 {
        lemma_requested_ids_distinct(strings.drop_last());
        if let Ok(ids) = requested_ids(strings) {
            let front = requested_ids(strings.drop_last())->Ok_0;
            let id = ids.last();
            assert(ids =~= front.push(id));
            assert forall|i: int, j: int| 0 <= i < ids.len() && 0 <= j < ids.len() && i != j implies
                ids[i] != ids[j] by {
                if i < front.len() && j < front.len() {
                    assert(front[i] != front[j]);
                } else if i < front.len() {
                    assert(front.contains(front[i]));
                } else {
                    assert(front.contains(front[j]));
                }
            }
        }
    }
}

/// The offer that answers a request, and the stream that carries the offer, are accepted as such,
/// and all three speak of the same object and the same offset.
pub proof fn law_transfer_is_correlated(
    request_id: u128,
    content_id: ContentId,
    start_offset: u64,
    encrypted_size: u64,
    limits: LimitsView,
)
    requires
        request_id != 0,
        MINIMUM_ENCRYPTED_OBJECT_BYTES <= encrypted_size <= limits.maximum_encrypted_object_bytes,
        start_offset < encrypted_size,
    ensures
        ({
            let request = ValidatedObjectRangeRequest { request_id, content_id, start_offset };
            let transfer = ValidatedObjectTransfer {
                request_id,
                content_id,
                encrypted_size,
                start_offset,
            };
            &&& range_requested(range_request_of(request_id, content_id, start_offset), limits)
                == Ok::<ValidatedObjectRangeRequest, ProtocolError>(request)
            &&& offered_for(offer_of(request, encrypted_size), request, limits) == Ok::<
                ValidatedObjectTransfer,
                ProtocolError,
            >(transfer)
            &&& streamed_for(header_of(transfer), transfer, limits) == Ok::<
                ValidatedObjectTransfer,
                ProtocolError,
            >(transfer)
        }),
{
    lemma_uuid_bytes(request_id);
    content_id.lemma_view();
}

/// What is accepted leaves something to transfer and stays within the limit.
pub proof fn law_accepted_transfer_is_bounded(
    offer: ObjectOfferView,
    request: ValidatedObjectRangeRequest,
    limits: LimitsView,
)
    requires
        offered_for(offer, request, limits) is Ok,
    ensures
        ({
            let transfer = offered_for(offer, request, limits)->Ok_0;
            &&& transfer.start_offset < transfer.encrypted_size
            &&& transfer.encrypted_size <= limits.maximum_encrypted_object_bytes
            &&& transfer.request_id == request.request_id
            &&& transfer.content_id == request.content_id
            &&& transfer.start_offset == request.start_offset
        }),
{
}

} // verus!
