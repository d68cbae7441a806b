use std::collections::BTreeMap;

use orbit::catalog::{MemberRole, MemberStatus, StoreError};
use orbit::envelope::ObjectKind;
use orbit::footprint::asked_objects;
use orbit::frame::{decode_control_frame, encode_control_frame};
use orbit::identity::DeviceIdentity;
use orbit::ids::{ContentId, DeviceId, FileId, GroupId, RevisionId};
use orbit::keys::{GroupKeys, GroupSecret};
use orbit::manifest::encode_change_record;
use orbit::oneof::{ControlEnvelope, ControlMessage};
use orbit::opening::ObjectFiles;
use orbit::path::RelativePath;
use orbit::protocol::{ProtocolError, ProtocolLimits};
use orbit::pull::{
    accept_offer, begin_object_with, begin_pull, end_pull, ObjectStep, PullReport, PullState,
    OBJECT_TRANSFER_BUFFER_SIZE,
};
use orbit::record::{ChangeRecord, ChangeRecordKind, ChunkRef, FileManifest};
use orbit::serve::{ServeAction, ServeReport, ServeState};
use orbit::session::{
    build_session_hello, verify_session_proof, SessionNonce, SessionTransportBinding,
};
use orbit::store::Store;
use orbit::transport::{
    answer_incoming, begin_outgoing, control_envelope, control_message_name, finish_outgoing,
    frame_payload_length, negotiated_protocol_limits, require_active_member,
    require_control_message, validate_object_acknowledgement, validate_page_size,
    validate_session_group, AcknowledgementStatus, TransportError,
};
use orbit::transfer::build_object_offer;
use orbit::version::VersionVector;
use orbit::wire;

fn group(value: u128) -> GroupId {
    GroupId::parse(&format!("{value:032x}")).unwrap()
}

fn keys() -> GroupKeys {
    GroupSecret::from_bytes([81; 32]).derive_keys(group(1)).unwrap()
}

fn register_pair(store: &mut Store, keys: &GroupKeys, identities: [&DeviceIdentity; 2]) {
    for identity in identities {
        store
            .add_group_member(keys.group_id(), identity.public_key(), MemberRole::Member)
            .unwrap();
    }
}

/// A store with its object files and the files of what is arriving.
struct Node {
    keys: GroupKeys,
    store: Store,
    objects: BTreeMap<ContentId, Vec<u8>>,
    arriving: BTreeMap<ContentId, Vec<u8>>,
}

impl Node {
    fn new(identities: [&DeviceIdentity; 2]) -> Self {
        let keys = keys();
        let mut store = Store::new();
        register_pair(&mut store, &keys, identities);
        Node { keys, store, objects: BTreeMap::new(), arriving: BTreeMap::new() }
    }

    fn files_of(&self, content_ids: &[ContentId]) -> ObjectFiles {
        let mut files = ObjectFiles::new();
        for content_id in content_ids {
            if let Some(bytes) = self.objects.get(content_id) {
                files.put(*content_id, bytes.clone());
            }
        }
        files
    }

    fn files(&self) -> ObjectFiles {
        let mut files = ObjectFiles::new();
        for (id, bytes) in &self.objects {
            files.put(*id, bytes.clone());
        }
        files
    }

    fn publish(&mut self, author: &DeviceIdentity, path: &str, contents: &[u8]) {
        let group_id = self.keys.group_id();
        let chunk = self.keys.seal_chunk(contents).unwrap();
        let chunk_bytes = chunk.to_bytes().unwrap();
        self.store
            .admit_object(
                &self.keys,
                ObjectKind::Chunk,
                chunk.content_id(),
                &chunk_bytes,
                None,
                1,
            )
            .unwrap();
        self.objects.insert(chunk.content_id(), chunk_bytes);
        let record = ChangeRecord::File(FileManifest {
            file_id: FileId::new(),
            revision_id: RevisionId::new(),
            relative_path: RelativePath::new(path).unwrap(),
            size: contents.len() as u64,
            modified_at_unix_ms: 5,
            version: VersionVector::from_entries(vec![(author.device_id(), 1)]).unwrap(),
            chunks: vec![ChunkRef {
                content_id: chunk.content_id(),
                plaintext_size: contents.len() as u32,
            }],
        });
        let manifest = self.keys.seal_manifest(&encode_change_record(&record).unwrap()).unwrap();
        let id = manifest.content_id();
        let bytes = manifest.to_bytes().unwrap();
        self.store
            .commit_signed_local_change(
                &self.keys,
                self.keys.identify_path(record.relative_path()),
                None,
                record.revision_id(),
                ChangeRecordKind::File,
                id,
                author.authorize_change(group_id, record.revision_id(), id),
                &bytes,
                &vec![chunk.content_id()],
                None,
                2,
            )
            .unwrap();
        self.objects.insert(id, bytes);
    }

    fn changes(&self) -> usize {
        self.store.changes_after(self.keys.group_id(), 0, 10).unwrap().records.len()
    }
}

/// A peer that answers, and what it sends beside the control messages.
struct Server<'a> {
    node: &'a mut Node,
    state: ServeState,
    limits: ProtocolLimits,
    replies: Vec<ControlEnvelope>,
    streams: Vec<Vec<u8>>,
    cut: Option<usize>,
}

impl Server<'_> {
    fn hear(&mut self, envelope: ControlEnvelope) -> Result<(), TransportError> {
        let frame = encode_control_frame(&envelope, self.limits).unwrap();
        let envelope = decode_control_frame(&frame, self.limits).unwrap();
        let content_ids = asked_objects(&envelope, &self.node.keys, &self.node.store);
        let files = self.node.files_of(&content_ids);
        let action = self.state.hear(
            envelope,
            &self.node.keys,
            &mut self.node.store,
            self.limits,
            &files,
        )?;
        assert!(self.state.has_room_for(1 << 20));
        self.state.done(&action);
        match action {
            ServeAction::Wait => {}
            ServeAction::Reply(reply) => self.replies.push(reply),
            ServeAction::Send { offer, transfer, encrypted_bytes } => {
                assert_eq!(
                    transfer.encrypted_size - transfer.start_offset,
                    encrypted_bytes.len() as u64
                );
                self.replies.push(offer);
                let sent = self.cut.unwrap_or(encrypted_bytes.len());
                self.streams.push(encrypted_bytes[..sent].to_vec());
            }
        }
        Ok(())
    }

    fn next(&mut self) -> ControlEnvelope {
        self.replies.remove(0)
    }
}

fn pull_object(
    receiver: &mut Node,
    server: &mut Server<'_>,
    peer: DeviceId,
    state: &mut PullState,
    content_id: ContentId,
    request_id: u128,
) -> Result<(), TransportError> {
    let limits = server.limits;
    let group_id = receiver.keys.group_id();
    let step = begin_object_with(
        content_id,
        peer,
        &receiver.keys,
        &mut receiver.store,
        request_id,
        limits,
        receiver.arriving.get(&content_id).map(Vec::as_slice),
        receiver.objects.get(&content_id).map(Vec::as_slice),
        7,
    )?;
    let object = match step {
        ObjectStep::Done(object) => object,
        ObjectStep::Ask { envelope, request } => {
            server.hear(envelope)?;
            let mut receipt = accept_offer(
                server.next(),
                request,
                group_id,
                peer,
                &mut receiver.store,
                limits,
                receiver.objects.contains_key(&content_id),
            )?;
            let file = receiver.arriving.entry(content_id).or_default();
            let stream = server.streams.remove(0);
            let mut rest = stream.as_slice();
            while receipt.wanted() > 0 {
                let count = receipt.wanted().min(rest.len());
                let received = if count == 0 { None } else { Some(&rest[..count]) };
                receipt.take(
                    received,
                    group_id,
                    peer,
                    &mut receiver.store,
                    Some(file.len() as u64),
                )?;
                file.extend_from_slice(&rest[..count]);
                rest = &rest[count..];
            }
            let received = receipt.finish(!rest.is_empty())?;
            let (object, acknowledgement) = receipt.settle(
                &receiver.keys,
                peer,
                &mut receiver.store,
                received,
                receiver.arriving.get(&content_id).map(Vec::as_slice),
                receiver.objects.get(&content_id).map(Vec::as_slice),
                8,
            )?;
            server.hear(acknowledgement)?;
            object
        }
    };
    let bytes = receiver.arriving.remove(&content_id).unwrap();
    receiver.objects.insert(content_id, bytes);
    assert!(state.report.has_room_for_object(object.encrypted_bytes_received));
    state.report.add_object(object);
    Ok(())
}

fn pull(
    receiver: &mut Node,
    source: &mut Node,
    peer: DeviceId,
    page_size: usize,
    cut: Option<usize>,
) -> (Result<PullReport, TransportError>, Result<ServeReport, TransportError>) {
    let limits = ProtocolLimits::default();
    let mut server = Server {
        node: source,
        state: ServeState::new(),
        limits,
        replies: Vec::new(),
        streams: Vec::new(),
        cut,
    };
    let pulled = (|| {
        let group_id = receiver.keys.group_id();
        let mut state = begin_pull(
            group_id,
            peer,
            &receiver.keys,
            &receiver.store,
            page_size,
            limits,
        )?;
        let mut request_id = 40;
        loop {
            server.hear(state.request())?;
            let envelope = server.next();
            let records = match &envelope.message {
                Some(ControlMessage::ChangeBatch(batch)) => batch.records.clone(),
                _ => panic!("expected a batch"),
            };
            assert!(state.report.has_room_for(records.len()));
            let files = receiver.files();
            let present: Vec<ContentId> = receiver.objects.keys().copied().collect();
            let mut page = state.receive_page(
                envelope,
                peer,
                &receiver.keys,
                &mut receiver.store,
                limits,
                &files,
                &present,
                3,
            )?;
            for record in &records {
                let id = ContentId::from_slice(&record.content_id).unwrap();
                receiver.objects.entry(id).or_insert_with(|| record.encrypted_record.clone());
            }
            for content_id in page.missing_content_ids.clone() {
                let here = receiver.objects.contains_key(&content_id);
                if receiver.store.has_object(group_id, content_id, here) {
                    state.report.add_reused();
                } else {
                    request_id += 1;
                    pull_object(
                        receiver,
                        &mut server,
                        peer,
                        &mut state,
                        content_id,
                        request_id,
                    )?;
                }
            }
            if !page.missing_content_ids.is_empty() {
                let files = receiver.files();
                let present: Vec<ContentId> = receiver.objects.keys().copied().collect();
                state.retry_page(
                    &mut page,
                    peer,
                    &receiver.keys,
                    &mut receiver.store,
                    limits,
                    &files,
                    &present,
                    9,
                )?;
            }
            if !state.finish_page(&page)? {
                break;
            }
        }
        end_pull(None)?;
        Ok(state.report)
    })();
    (pulled, server.state.finish())
}

#[test]
fn loopback_quic_enrolls_workspace_member_before_control_exchange() {
    let keys = keys();
    let initiator = DeviceIdentity::from_secret_bytes([1; 32]);
    let responder = DeviceIdentity::from_secret_bytes([2; 32]);
    let mut initiator_store = Store::new();
    let mut responder_store = Store::new();
    register_pair(&mut initiator_store, &keys, [&initiator, &responder]);
    responder_store
        .add_group_member(keys.group_id(), responder.public_key(), MemberRole::Owner)
        .unwrap();
    let limits = ProtocolLimits::default();
    let binding = SessionTransportBinding::from_bytes([9; 32]).unwrap();

    let peer_key = begin_outgoing(
        &initiator,
        responder.device_id(),
        keys.group_id(),
        &initiator_store,
    )
    .unwrap();
    let hello = build_session_hello(
        &initiator,
        &keys,
        limits,
        SessionNonce::from_bytes([3; 32]).unwrap(),
        binding,
        48_177,
    );
    let answer = answer_incoming(
        &hello,
        &responder,
        SessionNonce::from_bytes([4; 32]).unwrap(),
        binding,
        &keys,
        &mut responder_store,
        limits,
    )
    .unwrap();
    let (outgoing, proof) = finish_outgoing(
        &hello,
        &answer.challenge,
        &initiator,
        peer_key,
        responder.device_id(),
        binding,
        keys.group_id(),
        limits,
    )
    .unwrap();
    let incoming = verify_session_proof(
        &hello,
        &answer.challenge,
        &proof,
        &responder,
        answer.peer_public_key,
        binding,
        keys.group_id(),
        limits,
    )
    .unwrap();

    assert_eq!(incoming.remote_device_id(), initiator.device_id());
    assert_eq!(answer.listen_port, Some(48_177));
    assert_eq!(outgoing.remote_device_id(), responder.device_id());
    assert_eq!(
        responder_store
            .group_member(keys.group_id(), initiator.device_id())
            .unwrap()
            .unwrap()
            .status,
        MemberStatus::Active
    );
    let limits = negotiated_protocol_limits(limits, &outgoing).unwrap();
    let request = control_envelope(ControlMessage::ChangeLogRequest(wire::ChangeLogRequest {
        after_sequence: 7,
        maximum_records: 32,
    }));
    let frame = encode_control_frame(&request, limits).unwrap();
    let header = [frame[0], frame[1], frame[2], frame[3]];
    assert_eq!(frame_payload_length(&header, limits), Ok(frame.len() - 4));
    assert_eq!(decode_control_frame::<ControlEnvelope>(&frame, limits), Ok(request));
}

#[test]
fn revoked_peers_are_not_admitted_again() {
    let keys = keys();
    let initiator = DeviceIdentity::from_secret_bytes([1; 32]);
    let responder = DeviceIdentity::from_secret_bytes([2; 32]);
    let mut store = Store::new();
    register_pair(&mut store, &keys, [&initiator, &responder]);
    store.revoke_group_member(keys.group_id(), initiator.device_id());
    let binding = SessionTransportBinding::from_bytes([9; 32]).unwrap();
    let limits = ProtocolLimits::default();
    let hello = build_session_hello(
        &initiator,
        &keys,
        limits,
        SessionNonce::from_bytes([3; 32]).unwrap(),
        binding,
        0,
    );
    let refused = answer_incoming(
        &hello,
        &responder,
        SessionNonce::from_bytes([4; 32]).unwrap(),
        binding,
        &keys,
        &mut store,
        limits,
    );
    assert!(matches!(
        refused,
        Err(TransportError::Store(StoreError::MemberRevoked { device_id }))
            if device_id == initiator.device_id()
    ));
    assert_eq!(
        require_active_member(&store, keys.group_id(), DeviceId::from_u128(5)),
        Err(StoreError::UnknownGroupMember { device_id: DeviceId::from_u128(5) })
    );
}

#[test]
fn loopback_pull_admits_objects_and_reconnects_without_duplicate_changes() {
    let receiver_identity = DeviceIdentity::from_secret_bytes([11; 32]);
    let source_identity = DeviceIdentity::from_secret_bytes([12; 32]);
    let mut receiver = Node::new([&receiver_identity, &source_identity]);
    let mut source = Node::new([&receiver_identity, &source_identity]);
    let contents = (0..256 * 1024).map(|index| ((index * 31) % 251) as u8).collect::<Vec<_>>();
    source.publish(&source_identity, "payload.bin", &contents);
    let source_high_watermark =
        source.store.changes_after(source.keys.group_id(), 0, 10).unwrap().high_watermark;
    let peer = source_identity.device_id();

    let (pulled, served) = pull(&mut receiver, &mut source, peer, 1, None);
    let pulled = pulled.unwrap();
    let served = served.unwrap();
    assert_eq!(served.pages_sent, 1);
    assert!(served.objects_sent > 0);
    assert_eq!(served.objects_sent, served.acknowledgements_received);
    assert_eq!(pulled.pages_received, 1);
    assert_eq!(pulled.records_committed, 1);
    assert!(pulled.objects_stored > 0);
    assert_eq!(pulled.peer_high_watermark, source_high_watermark);
    assert_eq!(receiver.changes(), 1);

    let (pulled_again, served_again) = pull(&mut receiver, &mut source, peer, 1, None);
    let pulled_again = pulled_again.unwrap();
    assert_eq!(served_again.unwrap().objects_sent, 0);
    assert_eq!(pulled_again.objects_requested, 0);
    assert_eq!(pulled_again.records_committed, 0);
    assert_eq!(pulled_again.records_replayed, 0);
    assert_eq!(pulled_again.peer_high_watermark, source_high_watermark);
    assert_eq!(receiver.changes(), 1);
}

#[test]
fn several_pages_are_pulled_one_after_the_other() {
    let receiver_identity = DeviceIdentity::from_secret_bytes([11; 32]);
    let source_identity = DeviceIdentity::from_secret_bytes([12; 32]);
    let mut receiver = Node::new([&receiver_identity, &source_identity]);
    let mut source = Node::new([&receiver_identity, &source_identity]);
    for path in ["a", "b", "c"] {
        source.publish(&source_identity, path, path.as_bytes());
    }
    let (pulled, served) =
        pull(&mut receiver, &mut source, source_identity.device_id(), 2, None);
    let pulled = pulled.unwrap();
    assert_eq!(pulled.pages_received, 2);
    assert_eq!(pulled.records_committed, 3);
    assert_eq!(pulled.objects_stored, 3);
    assert_eq!(pulled.peer_high_watermark, 3);
    assert_eq!(served.unwrap().pages_sent, 2);
}

#[test]
fn interrupted_object_stream_resumes_from_exact_durable_offset() {
    let receiver_identity = DeviceIdentity::from_secret_bytes([21; 32]);
    let source_identity = DeviceIdentity::from_secret_bytes([22; 32]);
    let mut receiver = Node::new([&receiver_identity, &source_identity]);
    let mut source = Node::new([&receiver_identity, &source_identity]);
    source.publish(&source_identity, "payload.bin", b"resumable peer payload");
    let group_id = source.keys.group_id();
    let peer = source_identity.device_id();
    let source_high_watermark =
        source.store.changes_after(group_id, 0, 10).unwrap().high_watermark;
    let content_id = source.keys.identify_chunk(b"resumable peer payload");
    let encrypted_size = source.objects[&content_id].len() as u64;
    let split = encrypted_size / 2;
    assert!(split > 0);

    let (interrupted, served) =
        pull(&mut receiver, &mut source, peer, 10, Some(split as usize));
    assert!(matches!(
        interrupted,
        Err(TransportError::ObjectStreamFinishedEarly { expected, actual })
            if expected == encrypted_size && actual == split
    ));
    assert_eq!(served, Err(TransportError::MissingObjectAcknowledgement));
    let durable = receiver
        .store
        .incoming_object_transfer(group_id, peer, content_id)
        .unwrap()
        .unwrap();
    assert_eq!(durable.encrypted_size, encrypted_size);
    assert_eq!(durable.received_size, split);
    assert_eq!(receiver.store.peer_high_watermark(group_id, peer), 0);

    let (resumed, served) = pull(&mut receiver, &mut source, peer, 10, None);
    let resumed = resumed.unwrap();
    let served = served.unwrap();
    assert_eq!(served.objects_sent, 1);
    assert_eq!(served.encrypted_bytes_sent, encrypted_size - split);
    assert_eq!(resumed.encrypted_bytes_received, encrypted_size - split);
    assert_eq!(resumed.records_committed, 1);
    assert_eq!(resumed.peer_high_watermark, source_high_watermark);
    assert!(receiver
        .store
        .incoming_object_transfer(group_id, peer, content_id)
        .unwrap()
        .is_none());
    assert_eq!(receiver.changes(), 1);
}

#[test]
fn each_fault_of_an_exchange_is_named() {
    let keys = keys();
    let limits = ProtocolLimits::default();
    assert_eq!(
        require_control_message(ControlEnvelope { message: None }),
        Err(TransportError::MissingControlMessage)
    );
    assert_eq!(
        validate_page_size(0, limits),
        Err(TransportError::InvalidPageSize { actual: 0, maximum: 1024 })
    );
    assert_eq!(
        validate_page_size(1025, limits),
        Err(TransportError::InvalidPageSize { actual: 1025, maximum: 1024 })
    );
    assert_eq!(validate_page_size(1024, limits), Ok(()));
    assert_eq!(
        validate_session_group(group(2), &keys),
        Err(TransportError::SessionGroupMismatch { session: group(2), keys: group(1) })
    );
    let content_id = ContentId::from_bytes([1; 32]);
    let acknowledgement = |request_id: u128, status: i32| wire::ObjectAcknowledgement {
        request_id: request_id.to_be_bytes().to_vec(),
        content_id: content_id.as_bytes().to_vec(),
        status,
    };
    let verified = AcknowledgementStatus::Verified.number();
    assert_eq!(
        validate_object_acknowledgement(&acknowledgement(7, verified), 7, content_id),
        Ok(())
    );
    assert_eq!(
        validate_object_acknowledgement(&acknowledgement(8, verified), 7, content_id),
        Err(TransportError::ObjectAcknowledgementMismatch)
    );
    assert_eq!(
        validate_object_acknowledgement(&acknowledgement(7, 0), 7, content_id),
        Err(TransportError::InvalidObjectAcknowledgementStatus { actual: 0 })
    );
    assert_eq!(
        validate_object_acknowledgement(&acknowledgement(7, 99), 7, content_id),
        Err(TransportError::InvalidObjectAcknowledgementStatus { actual: 99 })
    );
    assert_eq!(
        frame_payload_length(&[1, 0, 0, 0], limits),
        Err(ProtocolError::ControlFrameTooLarge { actual: 1 << 24, maximum: 1 << 20 })
    );
    let request = ControlMessage::ChangeLogRequest(wire::ChangeLogRequest::default());
    assert_eq!(control_message_name(&request), "change_log_request");
    assert_eq!(
        end_pull(Some(control_envelope(request))),
        Err(TransportError::UnexpectedControlMessage {
            expected: "control stream completion",
            actual: "change_log_request",
        })
    );
    assert_eq!(OBJECT_TRANSFER_BUFFER_SIZE, 64 * 1024);
}

#[test]
fn offers_must_continue_where_the_receiver_stopped() {
    let receiver_identity = DeviceIdentity::from_secret_bytes([21; 32]);
    let source_identity = DeviceIdentity::from_secret_bytes([22; 32]);
    let mut receiver = Node::new([&receiver_identity, &source_identity]);
    let peer = source_identity.device_id();
    let group_id = receiver.keys.group_id();
    let limits = ProtocolLimits::default();
    let content_id = ContentId::from_bytes([4; 32]);
    receiver.store.queue_object_requests(group_id, peer, &vec![content_id], &Vec::new(), 1);
    let ObjectStep::Ask { request, .. } = begin_object_with(
        content_id,
        peer,
        &receiver.keys,
        &mut receiver.store,
        5,
        limits,
        None,
        None,
        2,
    )
    .unwrap() else {
        panic!("expected a question");
    };
    assert_eq!(request.start_offset, 0);
    let mut later = request;
    later.start_offset = 10;
    let offer = build_object_offer(later, 100, limits).unwrap();
    let offer = control_envelope(ControlMessage::ObjectOffer(offer));
    assert!(matches!(
        accept_offer(offer, later, group_id, peer, &mut receiver.store, limits, false),
        Err(TransportError::TransferResumeOffsetMismatch { requested: 10, durable: 0 })
    ));
}
