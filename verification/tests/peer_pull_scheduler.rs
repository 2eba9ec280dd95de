use tagsyd::ids::FileId;
use tagsyd::peer::pull_scheduler::{Admission, PullScheduler};

#[test]
fn caps_concurrency() {
    let mut scheduler = PullScheduler::new(2);
    let keys: Vec<(FileId, String)> = (0..10u8)
        .map(|i| (FileId::new(), format!("hash{i}")))
        .collect();

    let mut running: Vec<(FileId, String)> = Vec::new();
    let mut peak = 0;
    for (file_id, hash) in &keys {
        match scheduler.submit(*file_id, hash) {
            Admission::Started => running.push((*file_id, hash.clone())),
            Admission::Queued => {}
            Admission::Dropped => panic!("no key was submitted twice"),
        }
        peak = peak.max(running.len());
    }

    let mut done = 0;
    while !running.is_empty() {
        let (file_id, hash) = running.remove(0);
        done += 1;
        if let Some(next) = scheduler.complete(file_id, &hash) {
            running.push((next.file_id, next.content_hash));
        }
        peak = peak.max(running.len());
    }
    assert_eq!(done, 10);
    assert_eq!(peak, 2);
    assert_eq!(scheduler.available_permits(), 2);
}

#[test]
fn coalesces_duplicate_key() {
    let mut scheduler = PullScheduler::new(4);
    let key = FileId::new();

    let mut runs = 0;
    for _ in 0..5 {
        if scheduler.submit(key, "samehash") == Admission::Started {
            runs += 1;
        }
    }
    assert!(scheduler.complete(key, "samehash").is_none());
    assert_eq!(runs, 1);
}

#[test]
fn key_reusable_after_completion() {
    let mut scheduler = PullScheduler::new(4);
    let key = FileId::new();

    let mut runs = 0;
    for _ in 0..2 {
        assert_eq!(scheduler.submit(key, "h"), Admission::Started);
        runs += 1;
        assert!(scheduler.complete(key, "h").is_none());
    }
    assert_eq!(runs, 2);
}

#[test]
fn zero_slots_count_as_one() {
    let mut scheduler = PullScheduler::new(0);
    assert_eq!(scheduler.available_permits(), 1);
    assert_eq!(scheduler.submit(FileId::new(), "a"), Admission::Started);
    assert_eq!(scheduler.available_permits(), 0);
    assert_eq!(scheduler.submit(FileId::new(), "b"), Admission::Queued);
}

#[test]
fn waiting_key_is_coalesced_and_runs_in_turn() {
    let mut scheduler = PullScheduler::new(1);
    let first = FileId::new();
    let second = FileId::new();
    let third = FileId::new();
    assert_eq!(scheduler.submit(first, "h"), Admission::Started);
    assert_eq!(scheduler.submit(second, "h"), Admission::Queued);
    assert_eq!(scheduler.submit(third, "h"), Admission::Queued);
    assert_eq!(scheduler.submit(second, "h"), Admission::Dropped);

    let next = scheduler.complete(first, "h").expect("a pull waits");
    assert_eq!(next.file_id, second);
    assert_eq!(next.content_hash, "h");
    assert_eq!(scheduler.available_permits(), 0);
    assert!(scheduler.complete(FileId::new(), "h").is_none());
    let next = scheduler.complete(second, "h").expect("a pull waits");
    assert_eq!(next.file_id, third);
    assert!(scheduler.complete(third, "h").is_none());
    assert_eq!(scheduler.available_permits(), 1);
}

#[test]
fn one_file_is_pulled_once_per_hash() {
    let mut scheduler = PullScheduler::new(4);
    let file_id = FileId::new();
    assert_eq!(scheduler.submit(file_id, "old"), Admission::Started);
    assert_eq!(scheduler.submit(file_id, "new"), Admission::Started);
    assert_eq!(scheduler.submit(file_id, "new"), Admission::Dropped);
}

#[test]
fn admitted_pulls_start_once_and_in_order() {
    let mut scheduler = PullScheduler::new(2);
    let ids: Vec<FileId> = (0..6).map(|_| FileId::new()).collect();
    let mut running = Vec::new();
    let mut admitted = Vec::new();
    let mut started = Vec::new();
    for turn in [0, 1, 2, 1, 3, 2, 4, 5] {
        let admission = scheduler.submit(ids[turn], "h");
        if admission != Admission::Dropped {
            admitted.push(ids[turn]);
        }
        if admission == Admission::Started {
            started.push(ids[turn]);
            running.push(ids[turn]);
        }
        assert!(running.len() <= 2);
    }
    while let Some(done) = running.pop() {
        if let Some(next) = scheduler.complete(done, "h") {
            started.push(next.file_id);
            running.push(next.file_id);
        }
    }
    assert_eq!(admitted, ids);
    assert_eq!(started, ids);
    assert_eq!(scheduler.available_permits(), 2);
}
