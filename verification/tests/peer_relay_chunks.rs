use tagsyd::ids::FileId;
use tagsyd::peer::messages::{Frame, SyncMessage};
use tagsyd::peer::relay::chunks::ChunkKey;
use tagsyd::peer::relay::{ChunkRelay, Delivery, PeerDirectory};
use tagsyd::peer::transfer::{
    answer_chunk_request, ChunkReply, SourceReader, VerifiedHashCache, CHUNK_SIZE, HOP_TIMEOUT,
};

fn peers(count: usize) -> PeerDirectory {
    PeerDirectory {
        connected: (0..count).map(|i| format!("peer{i}")).collect(),
    }
}

/// The public keys that a request was sent to.
fn asked(deliveries: &[Delivery<ChunkReply>]) -> Vec<String> {
    deliveries
        .iter()
        .filter_map(|delivery| match delivery {
            Delivery::ToPeer {
                public_key,
                frame: Frame::Sync(SyncMessage::ChunkRequest { offset: 0, .. }),
            } => Some(public_key.clone()),
            _ => None,
        })
        .collect()
}

/// The requesters that were told of a miss.
fn missed(deliveries: &[Delivery<ChunkReply>]) -> Vec<u64> {
    deliveries
        .iter()
        .filter_map(|delivery| match delivery {
            Delivery::ToLocal {
                requester,
                reply: ChunkReply::Miss { offset: 0 },
            } => Some(*requester),
            _ => None,
        })
        .collect()
}

#[test]
fn chunks_local_request_no_peers_misses() {
    let mut engine = ChunkRelay::new();
    let replies = engine.request_chunk_local(
        FileId::new(),
        "hash".to_owned(),
        0,
        None,
        1,
        None,
        &peers(0),
        0,
    );
    assert_eq!(replies.len(), 1);
    match &replies[0] {
        Delivery::ToLocal {
            requester,
            reply: ChunkReply::Miss { offset },
        } => {
            assert_eq!(*requester, 1);
            assert_eq!(*offset, 0);
        }
        other => panic!("expected miss, got {other:?}"),
    }
    assert!(engine.is_empty());
}

#[test]
fn local_request_is_answered_from_the_outbox_first() {
    let mut engine = ChunkRelay::new();
    let outbox = b"outbox bytes".to_vec();
    let hash = blake3::hash(&outbox).to_hex().to_string();
    let file_id = FileId::new();
    let mut cache = VerifiedHashCache::new();

    let mut reader = SourceReader::new(&outbox);
    let answer = answer_chunk_request(&mut reader, None, &mut cache, &hash, 0, true);
    let replies = engine.request_chunk_local(
        file_id,
        hash.clone(),
        0,
        None,
        1,
        Some(answer),
        &peers(1),
        0,
    );
    assert_eq!(replies.len(), 1, "no peer was asked");
    match &replies[0] {
        Delivery::ToLocal {
            requester: 1,
            reply: ChunkReply::Data { bytes, .. },
        } => assert_eq!(bytes, b"outbox bytes"),
        other => panic!("expected outbox data, got {other:?}"),
    }

    let replies = engine.request_chunk_from_peers(file_id, hash, 0, None, 2, &peers(1), 0);
    assert_eq!(asked(&replies), vec!["peer0".to_owned()], "the peer was asked");
}

#[test]
fn outbox_miss_asks_the_peers() {
    let mut engine = ChunkRelay::new();
    let outbox = b"other bytes".to_vec();
    let mut cache = VerifiedHashCache::new();
    let mut reader = SourceReader::new(&outbox);
    let answer = answer_chunk_request(&mut reader, None, &mut cache, "h", 0, false);
    let replies = engine.request_chunk_local(
        FileId::new(),
        "h".to_owned(),
        0,
        None,
        1,
        Some(answer),
        &peers(2),
        0,
    );
    assert_eq!(asked(&replies), vec!["peer0".to_owned(), "peer1".to_owned()]);
}

#[test]
fn chunks_coalesces_and_fans_out() {
    let mut engine = ChunkRelay::new();
    let peers = peers(1);
    let file_id = FileId::new();

    let first = engine.request_chunk_local(
        file_id,
        "h".to_owned(),
        0,
        Some("peer0"),
        1,
        None,
        &peers,
        0,
    );
    let second = engine.request_chunk_local(
        file_id,
        "h".to_owned(),
        0,
        Some("peer0"),
        2,
        None,
        &peers,
        0,
    );
    assert_eq!(first.len(), 1);
    assert_eq!(asked(&first), vec!["peer0".to_owned()]);
    assert!(second.is_empty(), "second request not coalesced");

    let replies =
        engine.handle_chunk_data(file_id, "h".to_owned(), 0, b"payload".to_vec(), &peers);
    assert_eq!(replies.len(), 2);
    for (reply, expected) in replies.iter().zip([1u64, 2]) {
        match reply {
            Delivery::ToLocal {
                requester,
                reply: ChunkReply::Data { bytes, .. },
            } => {
                assert_eq!(*requester, expected);
                assert_eq!(bytes, b"payload");
            }
            other => panic!("expected data, got {other:?}"),
        }
    }
    let late = engine.handle_chunk_data(file_id, "h".to_owned(), 0, b"payload".to_vec(), &peers);
    assert!(late.is_empty());
}

#[test]
fn chunks_exhaustion_fans_miss() {
    let mut engine = ChunkRelay::new();
    let peers = peers(2);
    let file_id = FileId::new();

    let sent =
        engine.request_chunk_local(file_id, "h".to_owned(), 0, None, 1, None, &peers, 0);
    assert_eq!(asked(&sent), vec!["peer0".to_owned(), "peer1".to_owned()]);

    let first = engine.handle_chunk_miss("peer0", file_id, "h".to_owned(), 0, &peers);
    assert!(first.is_empty());

    let second = engine.handle_chunk_miss("peer1", file_id, "h".to_owned(), 0, &peers);
    assert_eq!(second.len(), 1);
    assert_eq!(missed(&second), vec![1]);
}

#[test]
fn link_drop_prunes_and_fails() {
    let mut engine = ChunkRelay::new();
    let file_id = FileId::new();
    let sent = engine.request_chunk_local(
        file_id,
        "h".to_owned(),
        0,
        Some("peer0"),
        1,
        None,
        &peers(1),
        0,
    );
    assert_eq!(asked(&sent), vec!["peer0".to_owned()]);

    let replies = engine.prune_link("peer0", &Vec::new(), &peers(0));
    assert_eq!(missed(&replies), vec![1]);
    assert!(engine.is_empty());
}

#[test]
fn link_drop_keeps_what_others_can_answer() {
    let mut engine = ChunkRelay::new();
    let file_id = FileId::new();
    engine.request_chunk_local(file_id, "h".to_owned(), 0, None, 1, None, &peers(2), 0);
    assert!(engine.prune_link("peer0", &Vec::new(), &peers(2)).is_empty());
    assert!(!engine.is_empty());

    let gone = engine.prune_link("peer9", &vec![1], &peers(2));
    assert!(gone.is_empty(), "nobody waits any more");
    assert!(engine.is_empty());
}

#[test]
fn ttl_expiry_fans_miss() {
    let mut engine = ChunkRelay::new();
    let peers = peers(1);
    let file_id = FileId::new();
    let start = 1_000;
    let sent = engine.request_chunk_local(
        file_id,
        "h".to_owned(),
        0,
        Some("peer0"),
        1,
        None,
        &peers,
        start,
    );
    assert_eq!(asked(&sent), vec!["peer0".to_owned()]);

    let key = ChunkKey {
        file_id,
        content_hash: "h".to_owned(),
        offset: 0,
    };
    let early = engine.expire_chunk(&key, &peers, start + HOP_TIMEOUT - 1);
    assert!(early.is_empty());
    let replies = engine.expire_chunk(&key, &peers, start + HOP_TIMEOUT + 1);
    assert_eq!(missed(&replies), vec![1]);
    assert!(engine.is_empty());
}

#[test]
fn joining_does_not_extend_the_deadline() {
    let mut engine = ChunkRelay::new();
    let peers = peers(1);
    let file_id = FileId::new();
    engine.request_chunk_from_peers(file_id, "h".to_owned(), 0, None, 1, &peers, 0);
    engine.request_chunk_from_peers(file_id, "h".to_owned(), 0, None, 2, &peers, 5_000);
    let key = ChunkKey {
        file_id,
        content_hash: "h".to_owned(),
        offset: 0,
    };
    assert_eq!(missed(&engine.expire_chunk(&key, &peers, HOP_TIMEOUT)), vec![1, 2]);
}

#[test]
fn relay_holds_no_bytes() {
    let mut engine = ChunkRelay::new();
    let peers = peers(2);
    let file_id = FileId::new();

    let sent = engine.relay_chunk_request("peer0", file_id, "h".to_owned(), 0, &peers, 0);
    assert_eq!(sent.len(), 1, "the sender is never echoed to");
    assert_eq!(asked(&sent), vec!["peer1".to_owned()]);

    let replies = engine.handle_chunk_data(file_id, "h".to_owned(), 0, b"bytes".to_vec(), &peers);
    assert_eq!(replies.len(), 1);
    match &replies[0] {
        Delivery::ToPeer {
            public_key,
            frame: Frame::Sync(SyncMessage::ChunkData { offset, bytes, .. }),
        } => {
            assert_eq!(public_key, "peer0");
            assert_eq!(*offset, 0);
            assert_eq!(bytes, b"bytes");
        }
        other => panic!("expected data for the sender, got {other:?}"),
    }
    assert!(engine.is_empty());
}

#[test]
fn relayed_request_with_no_other_peer_misses_at_once() {
    let mut engine = ChunkRelay::new();
    let file_id = FileId::new();
    let replies =
        engine.relay_chunk_request("peer0", file_id, "h".to_owned(), CHUNK_SIZE as u64, &peers(1), 0);
    assert_eq!(replies.len(), 1);
    match &replies[0] {
        Delivery::ToPeer {
            public_key,
            frame: Frame::Sync(SyncMessage::ChunkMiss { offset, .. }),
        } => {
            assert_eq!(public_key, "peer0");
            assert_eq!(*offset, CHUNK_SIZE as u64);
        }
        other => panic!("expected a miss for the sender, got {other:?}"),
    }
    assert!(engine.is_empty());
}

#[test]
fn chunks_of_one_file_do_not_interfere() {
    let mut engine = ChunkRelay::new();
    let peers = peers(1);
    let file_id = FileId::new();
    engine.request_chunk_from_peers(file_id, "h".to_owned(), 0, None, 1, &peers, 0);
    engine.request_chunk_from_peers(file_id, "h".to_owned(), CHUNK_SIZE as u64, None, 2, &peers, 0);
    let replies = engine.handle_chunk_data(
        file_id,
        "h".to_owned(),
        CHUNK_SIZE as u64,
        vec![7],
        &peers,
    );
    assert_eq!(replies.len(), 1);
    assert!(matches!(
        &replies[0],
        Delivery::ToLocal { requester: 2, .. }
    ));
    assert!(!engine.is_empty());
}

#[test]
fn unreachable_preferred_peer_is_replaced_by_all() {
    let mut engine = ChunkRelay::new();
    let sent = engine.request_chunk_from_peers(
        FileId::new(),
        "h".to_owned(),
        0,
        Some("peer7"),
        1,
        &peers(2),
        0,
    );
    assert_eq!(asked(&sent), vec!["peer0".to_owned(), "peer1".to_owned()]);
}
