use tagsyd::ids::FileId;
use tagsyd::peer::messages::{Frame, SyncMessage};
use tagsyd::peer::relay::previews::PreviewKey;
use tagsyd::peer::relay::{Delivery, PeerDirectory, PreviewRelay, PreviewReply};
use tagsyd::peer::transfer::HOP_TIMEOUT;
use tagsyd::state::Preview;

fn peers(count: usize) -> PeerDirectory {
    PeerDirectory {
        connected: (0..count).map(|i| format!("peer{i}")).collect(),
    }
}

/// The public keys that a request was sent to.
fn asked(deliveries: &[Delivery<PreviewReply>]) -> Vec<String> {
    deliveries
        .iter()
        .filter_map(|delivery| match delivery {
            Delivery::ToPeer {
                public_key,
                frame: Frame::Sync(SyncMessage::PreviewRequest { .. }),
            } => Some(public_key.clone()),
            _ => None,
        })
        .collect()
}

#[test]
fn previews_local_request_no_peers_misses() {
    let mut engine = PreviewRelay::new();
    let replies = engine.request_preview_local(FileId::new(), "hash".to_owned(), 1, &peers(0), 0);
    assert_eq!(replies.len(), 1);
    assert!(matches!(
        &replies[0],
        Delivery::ToLocal {
            requester: 1,
            reply: PreviewReply::Miss
        }
    ));
}

#[test]
fn previews_coalesces_and_fans_out() {
    let mut engine = PreviewRelay::new();
    let peers = peers(1);
    let file_id = FileId::new();

    let first = engine.request_preview_local(file_id, "h".to_owned(), 1, &peers, 0);
    let second = engine.request_preview_local(file_id, "h".to_owned(), 2, &peers, 0);
    assert_eq!(first.len(), 1);
    assert_eq!(asked(&first), vec!["peer0".to_owned()]);
    assert!(second.is_empty(), "second not coalesced");

    let replies = engine.handle_preview_data(
        file_id,
        "h".to_owned(),
        Preview::Text("hi".to_owned()),
        &peers,
    );
    assert_eq!(replies.len(), 2);
    assert!(matches!(
        &replies[0],
        Delivery::ToLocal { requester: 1, reply: PreviewReply::Data(Preview::Text(text)) }
            if text == "hi"
    ));
    assert!(matches!(
        &replies[1],
        Delivery::ToLocal { requester: 2, reply: PreviewReply::Data(Preview::Text(text)) }
            if text == "hi"
    ));
}

#[test]
fn previews_exhaustion_fans_miss() {
    let mut engine = PreviewRelay::new();
    let peers = peers(2);
    let file_id = FileId::new();

    let sent = engine.request_preview_local(file_id, "h".to_owned(), 1, &peers, 0);
    assert_eq!(asked(&sent), vec!["peer0".to_owned(), "peer1".to_owned()]);

    let first = engine.handle_preview_miss("peer0", file_id, "h".to_owned(), &peers);
    assert!(first.is_empty());
    let second = engine.handle_preview_miss("peer1", file_id, "h".to_owned(), &peers);
    assert_eq!(second.len(), 1);
    assert!(matches!(
        &second[0],
        Delivery::ToLocal {
            requester: 1,
            reply: PreviewReply::Miss
        }
    ));
}

#[test]
fn relay_forwards_and_drops() {
    let mut engine = PreviewRelay::new();
    let peers = peers(2);
    let file_id = FileId::new();

    let sent = engine.relay_preview_request("peer0", file_id, "h".to_owned(), &peers, 0);
    assert_eq!(sent.len(), 1);
    assert_eq!(asked(&sent), vec!["peer1".to_owned()]);

    let replies = engine.handle_preview_data(file_id, "h".to_owned(), Preview::Absent, &peers);
    assert_eq!(replies.len(), 1);
    assert!(matches!(
        &replies[0],
        Delivery::ToPeer {
            public_key,
            frame: Frame::Sync(SyncMessage::PreviewData { preview: Preview::Absent, .. }),
        } if public_key == "peer0"
    ));
    assert!(engine.is_empty());
}

#[test]
fn preview_request_expires_and_is_pruned() {
    let mut engine = PreviewRelay::new();
    let file_id = FileId::new();
    engine.request_preview_local(file_id, "h".to_owned(), 1, &peers(1), 0);
    let key = PreviewKey {
        file_id,
        content_hash: "h".to_owned(),
    };
    assert!(engine
        .expire_preview(&key, &peers(1), HOP_TIMEOUT - 1)
        .is_empty());
    let replies = engine.expire_preview(&key, &peers(1), HOP_TIMEOUT);
    assert!(matches!(
        &replies[..],
        [Delivery::ToLocal {
            requester: 1,
            reply: PreviewReply::Miss
        }]
    ));

    engine.relay_preview_request("peer0", file_id, "h".to_owned(), &peers(2), 0);
    let replies = engine.prune_link("peer1", &Vec::new(), &peers(1));
    assert!(matches!(
        &replies[..],
        [Delivery::ToPeer {
            public_key,
            frame: Frame::Sync(SyncMessage::PreviewMiss { .. }),
        }] if public_key == "peer0"
    ));
    assert!(engine.is_empty());
}

#[test]
fn waiter_that_left_is_not_sent_to() {
    let mut engine = PreviewRelay::new();
    let file_id = FileId::new();
    engine.relay_preview_request("peer0", file_id, "h".to_owned(), &peers(2), 0);
    let only_peer1 = PeerDirectory {
        connected: vec!["peer1".to_owned()],
    };
    let replies = engine.handle_preview_data(file_id, "h".to_owned(), Preview::Absent, &only_peer1);
    assert!(replies.is_empty());
}
