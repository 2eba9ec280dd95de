use std::cell::{Cell, RefCell};

use tagsyd::file_bytes::FileBytes;
use tagsyd::peer::fetch::{answer_local_chunk, fetch_result, is_available, FetchError};
use tagsyd::peer::fetch::{pull_from_origin, read_local_if_hash_matches, LocalHoldings};
use tagsyd::peer::messages::ChangeOrigin;
use tagsyd::peer::transfer::receive::{
    judge_digest, receive_outcome, LivenessWindow, ReceiveEvent,
};
use tagsyd::peer::transfer::serve::{hash_source, settle_digest, SourceFile};
use tagsyd::peer::transfer::{
    answer_chunk_request, short_hash, ChunkAnswer, ChunkReply, ChunkRequest, ChunkSource,
    ReceiveOutcome, Receiver, SourceReader, TransferError, VerifiedHashCache, CHUNK_SIZE,
    HOP_TIMEOUT, WINDOW,
};

fn hash_of(bytes: &[u8]) -> String {
    blake3::hash(bytes).to_hex().to_string()
}

fn chunk_at(bytes: &[u8], offset: u64) -> Vec<u8> {
    let start = (offset as usize).min(bytes.len());
    let end = (start + CHUNK_SIZE).min(bytes.len());
    bytes[start..end].to_vec()
}

/// Drives a receive against `answer`, which replies to each request in turn. When the requests
/// run out, no reply will come any more.
fn drive(
    content_hash: &str,
    size: u64,
    mut answer: impl FnMut(ChunkRequest) -> Vec<ChunkReply>,
) -> (Vec<u8>, Result<(), TransferError>) {
    let (mut receiver, mut requests) = Receiver::start(content_hash, size);
    let mut file = Vec::new();
    let mut replies = Vec::new();
    loop {
        for request in requests.drain(..) {
            replies.extend(answer(request));
        }
        let event = if replies.is_empty() {
            ReceiveEvent::Closed
        } else {
            ReceiveEvent::Reply(replies.remove(0))
        };
        if let ReceiveEvent::Reply(reply) = &event {
            assert!(receiver.has_room(reply));
        }
        let step = receiver.step(event);
        for write in &step.writes {
            file.extend_from_slice(write);
        }
        if let Some(end) = step.end {
            return (file, end);
        }
        requests = step.requests;
    }
}

fn drive_receive_from(bytes: Vec<u8>) -> Result<Vec<u8>, TransferError> {
    let (file, end) = drive(&hash_of(&bytes), bytes.len() as u64, |ChunkRequest { offset }| {
        vec![ChunkReply::Data {
            offset,
            bytes: chunk_at(&bytes, offset),
        }]
    });
    end.map(|()| file)
}

#[test]
fn receive_small() {
    let bytes = b"hello transfer".to_vec();
    assert_eq!(drive_receive_from(bytes.clone()).unwrap(), bytes);
}

#[test]
fn receive_empty() {
    assert!(drive_receive_from(Vec::new()).unwrap().is_empty());
}

#[test]
fn receive_multi_chunk() {
    let bytes: Vec<u8> = (0..(CHUNK_SIZE * 5 + 123)).map(|i| i as u8).collect();
    assert_eq!(drive_receive_from(bytes.clone()).unwrap(), bytes);
}

#[test]
fn duplicate_data_ignored() {
    let bytes: Vec<u8> = (0..(CHUNK_SIZE + 10)).map(|i| i as u8).collect();
    let (file, end) = drive(&hash_of(&bytes), bytes.len() as u64, |ChunkRequest { offset }| {
        let mut replies = vec![ChunkReply::Data {
            offset,
            bytes: chunk_at(&bytes, offset),
        }];
        if offset == 0 {
            replies.push(ChunkReply::Data {
                offset,
                bytes: chunk_at(&bytes, offset),
            });
        }
        replies
    });
    end.unwrap();
    assert_eq!(file, bytes);
}

#[test]
fn total_miss_fails() {
    let bytes: Vec<u8> = (0..(CHUNK_SIZE * 2)).map(|i| i as u8).collect();
    let (_, end) = drive(&hash_of(&bytes), bytes.len() as u64, |ChunkRequest { offset }| {
        if offset == 0 {
            vec![ChunkReply::Data {
                offset,
                bytes: chunk_at(&bytes, offset),
            }]
        } else {
            vec![ChunkReply::Miss { offset }]
        }
    });
    assert!(matches!(end, Err(TransferError::ChunkUnavailable { .. })));
}

#[test]
fn hash_mismatch_rejected() {
    let bytes = b"real bytes".to_vec();
    let wrong_hash = hash_of(b"different");
    let (_, end) = drive(&wrong_hash, bytes.len() as u64, |ChunkRequest { offset }| {
        vec![ChunkReply::Data {
            offset,
            bytes: chunk_at(&bytes, offset),
        }]
    });
    match end {
        Err(TransferError::HashMismatch { expected, actual }) => {
            assert_eq!(expected, wrong_hash);
            assert_eq!(actual, hash_of(b"real bytes"));
        }
        other => panic!("expected HashMismatch, got {other:?}"),
    }
}

#[test]
fn liveness_timeout_fails() {
    let size = (CHUNK_SIZE * 2) as u64;
    let (mut receiver, requests) = Receiver::start(&hash_of(&vec![0u8; size as usize]), size);
    assert_eq!(requests.len(), 2);
    let step = receiver.step(ReceiveEvent::Silent);
    assert!(matches!(step.end, Some(Err(TransferError::LivenessTimeout))));
}

#[test]
fn closed_channel_fails() {
    let (_, end) = drive("h", 10, |_| Vec::new());
    assert!(matches!(end, Err(TransferError::ChannelClosed)));
}

#[test]
fn window_is_filled_and_refilled() {
    let size = CHUNK_SIZE as u64 * 20;
    let (mut receiver, requests) = Receiver::start("h", size);
    let offsets: Vec<u64> = requests.iter().map(|request| request.offset).collect();
    let expected: Vec<u64> = (0..WINDOW).map(|i| i * CHUNK_SIZE as u64).collect();
    assert_eq!(offsets, expected);

    let step = receiver.step(ReceiveEvent::Reply(ChunkReply::Data {
        offset: 0,
        bytes: vec![0; CHUNK_SIZE],
    }));
    assert_eq!(step.requests, vec![ChunkRequest { offset: WINDOW * CHUNK_SIZE as u64 }]);
    assert_eq!(step.writes.len(), 1);
    assert!(step.end.is_none());
}

#[test]
fn chunks_out_of_order_are_written_in_order() {
    let bytes: Vec<u8> = (0..(CHUNK_SIZE * 3 + 1)).map(|i| (i / 7) as u8).collect();
    let (mut receiver, requests) = Receiver::start(&hash_of(&bytes), bytes.len() as u64);
    let mut file = Vec::new();
    let mut end = None;
    for request in requests.iter().rev() {
        assert!(end.is_none());
        let step = receiver.step(ReceiveEvent::Reply(ChunkReply::Data {
            offset: request.offset,
            bytes: chunk_at(&bytes, request.offset),
        }));
        for write in &step.writes {
            file.extend_from_slice(write);
        }
        end = step.end;
    }
    assert!(matches!(end, Some(Ok(()))));
    assert_eq!(file, bytes);
}

#[test]
fn outcome_names_the_file_to_move() {
    match receive_outcome(Ok(()), "/tmp/part".to_owned()) {
        ReceiveOutcome::Complete(content) => {
            assert!(matches!(&content, FileBytes::FileToMove(path) if path == "/tmp/part"));
            assert_eq!(content.path(), Some("/tmp/part"));
        }
        other => panic!("expected the content, got {other:?}"),
    }
    assert!(matches!(
        receive_outcome(Err(TransferError::ChannelClosed), "/tmp/part".to_owned()),
        ReceiveOutcome::Failed(TransferError::ChannelClosed)
    ));
    assert!(judge_digest(&"a".to_owned(), "a".to_owned()).is_ok());
    assert!(judge_digest(&"a".to_owned(), "b".to_owned()).is_err());
}

#[test]
fn answer_serves_and_verifies() {
    let bytes: Vec<u8> = (0..(CHUNK_SIZE + 5)).map(|i| i as u8).collect();
    let hash = hash_of(&bytes);
    let mut cache = VerifiedHashCache::new();

    match answer_chunk_request(&mut SourceReader::new(&bytes), None, &mut cache, &hash, 0, false) {
        ChunkAnswer::Data(chunk) => assert_eq!(chunk, bytes[..CHUNK_SIZE]),
        ChunkAnswer::Miss => panic!("expected data"),
    }
    assert!(matches!(
        answer_chunk_request(&mut SourceReader::new(&bytes), None, &mut cache, &hash, 1, true),
        ChunkAnswer::Miss
    ));
    let wrong = hash_of(b"nope");
    assert!(matches!(
        answer_chunk_request(&mut SourceReader::new(&bytes), None, &mut cache, &wrong, 0, false),
        ChunkAnswer::Miss
    ));
}

/// A provider that answers reads from bytes and counts how often the end of them was reached.
struct Provider {
    bytes: Vec<u8>,
    completed: Cell<u32>,
}

impl ChunkSource for Provider {
    fn read_chunk_at(&self, offset: u64, max_len: usize) -> Result<(Vec<u8>, bool), String> {
        let read = self.bytes.read_chunk_at(offset, max_len)?;
        if read.1 {
            self.completed.set(self.completed.get() + 1);
        }
        Ok(read)
    }
}

#[test]
fn provider_pre_verified_serves_all_chunks_without_completing() {
    let bytes: Vec<u8> = (0..(CHUNK_SIZE * 3 + 9)).map(|i| i as u8).collect();
    let hash = hash_of(&bytes);
    let provider = Provider {
        bytes: bytes.clone(),
        completed: Cell::new(0),
    };
    let mut cache = VerifiedHashCache::new();

    let mut offset = 0u64;
    while offset < bytes.len() as u64 {
        assert_eq!(provider.completed.get(), 0);
        let mut reader = SourceReader::new(&provider);
        match answer_chunk_request(&mut reader, None, &mut cache, &hash, offset, true) {
            ChunkAnswer::Data(chunk) => {
                let start = offset as usize;
                let end = (start + CHUNK_SIZE).min(bytes.len());
                assert_eq!(chunk, bytes[start..end], "chunk at {offset} mismatched");
            }
            ChunkAnswer::Miss => panic!("chunk at {offset} unexpectedly missed"),
        }
        offset += CHUNK_SIZE as u64;
    }
    assert_eq!(provider.completed.get(), 1, "the end is reached once");
}

/// A file whose content can change between reads.
struct Changing {
    bytes: RefCell<Vec<u8>>,
    reads: Cell<u32>,
}

impl ChunkSource for Changing {
    fn read_chunk_at(&self, offset: u64, max_len: usize) -> Result<(Vec<u8>, bool), String> {
        self.reads.set(self.reads.get() + 1);
        self.bytes.borrow().read_chunk_at(offset, max_len)
    }
}

#[test]
fn verified_cache_invalidates_on_change() {
    let source = Changing {
        bytes: RefCell::new(b"first".to_vec()),
        reads: Cell::new(0),
    };
    let mut cache = VerifiedHashCache::new();
    let file = SourceFile {
        path: "f.bin".to_owned(),
        stat: Some((Some(1), 5)),
    };
    let first_hash = hash_of(b"first");
    assert!(matches!(
        answer_chunk_request(
            &mut SourceReader::new(&source),
            Some(&file),
            &mut cache,
            &first_hash,
            0,
            false,
        ),
        ChunkAnswer::Data(_)
    ));
    assert_eq!(cache.get("f.bin", Some(1), 5), Some(first_hash.clone()));
    source.reads.set(0);
    assert!(matches!(
        answer_chunk_request(
            &mut SourceReader::new(&source),
            Some(&file),
            &mut cache,
            &first_hash,
            0,
            false,
        ),
        ChunkAnswer::Data(_)
    ));
    assert_eq!(source.reads.get(), 1, "a cached file is not hashed again");

    *source.bytes.borrow_mut() = b"second content longer".to_vec();
    let file = SourceFile {
        path: "f.bin".to_owned(),
        stat: Some((Some(1), 21)),
    };
    assert!(matches!(
        answer_chunk_request(
            &mut SourceReader::new(&source),
            Some(&file),
            &mut cache,
            &first_hash,
            0,
            false,
        ),
        ChunkAnswer::Miss
    ));
    let second_hash = hash_of(b"second content longer");
    assert!(matches!(
        answer_chunk_request(
            &mut SourceReader::new(&source),
            Some(&file),
            &mut cache,
            &second_hash,
            0,
            false,
        ),
        ChunkAnswer::Data(_)
    ));
    assert_eq!(cache.get("f.bin", Some(1), 5), None);
    assert_eq!(cache.get("f.bin", Some(2), 21), None);
    assert_eq!(cache.get("f.bin", None, 21), None);
}

#[test]
fn file_without_a_stat_is_a_miss() {
    let bytes = b"abc".to_vec();
    let mut cache = VerifiedHashCache::new();
    let file = SourceFile {
        path: "gone".to_owned(),
        stat: None,
    };
    assert!(matches!(
        answer_chunk_request(
            &mut SourceReader::new(&bytes),
            Some(&file),
            &mut cache,
            &hash_of(&bytes),
            0,
            false,
        ),
        ChunkAnswer::Miss
    ));
}

/// A source that cannot be read.
struct Broken;

impl ChunkSource for Broken {
    fn read_chunk_at(&self, _offset: u64, _max_len: usize) -> Result<(Vec<u8>, bool), String> {
        Err("gone".to_owned())
    }
}

#[test]
fn unreadable_source_is_a_miss() {
    let mut cache = VerifiedHashCache::new();
    assert_eq!(hash_source(&mut SourceReader::new(&Broken)), None);
    for pre_verified in [false, true] {
        assert!(matches!(
            answer_chunk_request(
                &mut SourceReader::new(&Broken),
                None,
                &mut cache,
                "h",
                0,
                pre_verified,
            ),
            ChunkAnswer::Miss
        ));
    }
}

#[test]
fn source_is_hashed_whole() {
    assert_eq!(
        hash_source(&mut SourceReader::new(&Vec::new())),
        Some("af1349b9f5f9a1a6a0404dea36dcc9499bcb25c9adc112b7cc9a93cae41f3262".to_owned())
    );
    let bytes: Vec<u8> = (0..(CHUNK_SIZE * 2)).map(|i| (i % 251) as u8).collect();
    assert_eq!(hash_source(&mut SourceReader::new(&bytes)), Some(hash_of(&bytes)));
}

#[test]
fn digest_of_a_file_is_remembered_whether_it_matches_or_not() {
    let mut cache = VerifiedHashCache::new();
    let wanted = "aa".to_owned();
    assert!(!settle_digest(Some("bb".to_owned()), Some(("p", None, 1)), &mut cache, &wanted));
    assert_eq!(cache.get("p", None, 1), Some("bb".to_owned()));
    assert!(settle_digest(Some("aa".to_owned()), None, &mut cache, &wanted));
    assert!(!settle_digest(None, Some(("q", None, 1)), &mut cache, &wanted));
    assert_eq!(cache.get("q", None, 1), None);
}

#[test]
fn local_file_is_asked_before_the_provider() {
    let held = b"on disk".to_vec();
    let provided = b"provided".to_vec();
    let file = SourceFile {
        path: "p".to_owned(),
        stat: Some((None, 7)),
    };
    let mut cache = VerifiedHashCache::new();
    let hash = hash_of(&held);
    let mut holdings = LocalHoldings {
        file: Some((SourceReader::new(&held), file)),
        provider: Some(SourceReader::new(&provided)),
    };
    match answer_local_chunk(&mut holdings, &mut cache, &hash, 0) {
        Some(ChunkAnswer::Data(bytes)) => assert_eq!(bytes, held),
        other => panic!("expected the local file, got {other:?}"),
    }
    holdings.file = None;
    match answer_local_chunk(&mut holdings, &mut cache, "not checked", 0) {
        Some(ChunkAnswer::Data(bytes)) => assert_eq!(bytes, provided),
        other => panic!("expected the provider, got {other:?}"),
    }
    holdings.provider = None;
    assert!(answer_local_chunk(&mut holdings, &mut cache, "h", 0).is_none());
}

#[test]
fn each_request_reads_only_what_it_needs() {
    let bytes: Vec<u8> = (0..(CHUNK_SIZE * 2 + 7)).map(|i| i as u8).collect();
    let hash = hash_of(&bytes);
    let source = Changing {
        bytes: RefCell::new(bytes.clone()),
        reads: Cell::new(0),
    };
    let mut cache = VerifiedHashCache::new();
    let file = SourceFile {
        path: "f.bin".to_owned(),
        stat: Some((Some(1), bytes.len() as u64)),
    };
    let mut reads_of = |file: Option<&SourceFile>, hash: &str, offset: u64, verified: bool| {
        let before = source.reads.get();
        let mut reader = SourceReader::new(&source);
        let answer = answer_chunk_request(&mut reader, file, &mut cache, hash, offset, verified);
        (source.reads.get() - before, matches!(answer, ChunkAnswer::Data(_)))
    };
    assert_eq!(reads_of(None, &hash, 5, false), (0, false), "not at a chunk boundary");
    assert_eq!(reads_of(None, &hash, 0, true), (1, true), "verified already");
    assert_eq!(reads_of(Some(&file), &hash, 0, false), (4, true), "three to hash, one to serve");
    assert_eq!(reads_of(Some(&file), &hash, CHUNK_SIZE as u64, false), (1, true), "remembered");
    assert_eq!(reads_of(Some(&file), "other", 0, false), (0, false), "known to differ");
    assert_eq!(reads_of(None, "other", 0, false), (3, false), "hashed, and it differs");
}

#[test]
fn fetch_reports_what_came() {
    assert!(matches!(fetch_result(None), Err(FetchError::NotAvailable)));
    assert!(matches!(
        fetch_result(Some(ReceiveOutcome::Failed(TransferError::LivenessTimeout))),
        Err(FetchError::NotAvailable)
    ));
    assert!(matches!(
        fetch_result(Some(ReceiveOutcome::Complete(FileBytes::InMemory(vec![1])))),
        Ok(FileBytes::InMemory(bytes)) if bytes == [1]
    ));
    assert!(is_available(&Some(ChunkReply::Data { offset: 0, bytes: Vec::new() })));
    assert!(!is_available(&Some(ChunkReply::Miss { offset: 0 })));
    assert!(!is_available(&None));
}

#[test]
fn local_bytes_are_used_only_with_the_right_hash() {
    let read = || Some((FileBytes::InMemory(vec![1]), "aa".to_owned()));
    assert!(read_local_if_hash_matches(read(), "aa").is_some());
    assert!(read_local_if_hash_matches(read(), "ab").is_none());
    assert!(read_local_if_hash_matches(None, "aa").is_none());
    let peer = ChangeOrigin::Peer {
        public_key: "k".to_owned(),
    };
    assert_eq!(pull_from_origin(&peer), Some("k".to_owned()));
    assert_eq!(pull_from_origin(&ChangeOrigin::Local), None);
}

#[test]
fn short_hash_ends_on_a_character() {
    assert_eq!(short_hash("0123456789abcdef"), "01234567");
    assert_eq!(short_hash("0123"), "0123");
    assert_eq!(short_hash("\u{e9}\u{e9}\u{e9}\u{e9}\u{e9}"), "\u{e9}\u{e9}\u{e9}\u{e9}");
    assert_eq!(short_hash("a\u{e9}\u{e9}\u{e9}\u{e9}"), "a\u{e9}\u{e9}\u{e9}\u{e9}");
}

#[test]
fn only_a_written_chunk_restarts_the_liveness_window() {
    let bytes: Vec<u8> = (0..CHUNK_SIZE * 2).map(|i| i as u8).collect();
    let (mut receiver, _) = Receiver::start(&hash_of(&bytes), bytes.len() as u64);
    let first = || {
        ReceiveEvent::Reply(ChunkReply::Data {
            offset: 0,
            bytes: chunk_at(&bytes, 0),
        })
    };
    let window = LivenessWindow::open(100);
    assert_eq!(window.deadline, 100 + HOP_TIMEOUT);

    let step = receiver.step(first());
    assert_eq!(step.writes.len(), 1);
    let window = window.after_step(&step, 5_000);
    assert_eq!(window.remaining(5_000), HOP_TIMEOUT);

    let step = receiver.step(first());
    assert!(step.writes.is_empty() && step.end.is_none());
    let window = window.after_step(&step, 10_000);
    assert_eq!(window.remaining(10_000), HOP_TIMEOUT - 5_000);
    assert_eq!(window.remaining(5_000 + HOP_TIMEOUT), 0);
    assert!(matches!(
        receiver.step(ReceiveEvent::Silent).end,
        Some(Err(TransferError::LivenessTimeout))
    ));
}

#[test]
fn chunk_before_its_turn_is_no_progress() {
    let bytes: Vec<u8> = (0..CHUNK_SIZE + 5).map(|i| i as u8).collect();
    let (mut receiver, _) = Receiver::start(&hash_of(&bytes), bytes.len() as u64);
    let mut written = Vec::new();
    for (offset, writes) in [(CHUNK_SIZE as u64, 0), (CHUNK_SIZE as u64, 0), (0, 2)] {
        let reply = ChunkReply::Data {
            offset,
            bytes: chunk_at(&bytes, offset),
        };
        assert!(receiver.has_room(&reply));
        let step = receiver.step(ReceiveEvent::Reply(reply));
        assert_eq!(step.writes.len(), writes);
        written.extend(step.writes.concat());
        assert_eq!(step.end.is_some(), offset == 0);
    }
    assert_eq!(written, bytes);
}
