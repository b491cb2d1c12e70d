use fileshare_lib::server::upload::{
    check_chunk_bytes, check_complete, chunk_size_for, count_chunks, ChunkRejection,
    CompleteRejection, UploadManager, UploadSession, DEFAULT_CHUNK_SIZE, MAX_CHUNK_SIZE,
    MIN_CHUNK_SIZE,
};
use fileshare_lib::server::routes::{
    can_resume, open_session, plan_upload, settle_existing, ExistingSession, InitRejection,
};

fn session(id: &str, name: &str, size: u64, chunk: u64, ip: &str) -> UploadSession {
    UploadSession {
        id: id.to_string(),
        file_id: format!("f-{id}"),
        name: name.to_string(),
        size,
        mime: "application/octet-stream".to_string(),
        chunk_size: chunk,
        chunk_count: count_chunks(size, chunk),
        uploader_ip: ip.to_string(),
        created_at: 1,
        uploaded: Vec::new(),
        partial_path: format!("/d/{name}.partial"),
        final_path: format!("/d/{name}"),
    }
}

#[test]
fn signature_joins_name_size_ip() {
    let s = session("u1", "f.txt", 1234, MIN_CHUNK_SIZE, "10.0.0.1");
    assert_eq!(s.signature(), "f.txt::1234::10.0.0.1");
}

#[test]
fn marking_is_sorted_and_idempotent() {
    let mut s = session("u1", "a.bin", 10 * 1024 * 1024, 4 * 1024 * 1024, "ip");
    s.mark_uploaded(2);
    s.mark_uploaded(0);
    s.mark_uploaded(2);
    assert_eq!(s.uploaded, vec![0, 2]);
    assert!(!s.is_complete());
    s.mark_uploaded(1);
    assert_eq!(s.uploaded, vec![0, 1, 2]);
    assert!(s.is_complete());
}

#[test]
fn marking_sorts_an_unsorted_list() {
    let mut s = session("u1", "a.bin", 100, MIN_CHUNK_SIZE, "ip");
    s.uploaded = vec![5, 3, 9];
    s.mark_uploaded(4);
    assert_eq!(s.uploaded, vec![3, 4, 5, 9]);
}

#[test]
fn marking_order_does_not_matter() {
    let mut a = session("u1", "a.bin", 100 * 1024 * 1024, 4 * 1024 * 1024, "ip");
    let mut b = session("u2", "a.bin", 100 * 1024 * 1024, 4 * 1024 * 1024, "ip");
    for i in [7, 1, 4, 1] {
        a.mark_uploaded(i);
    }
    for i in [4, 7, 1] {
        b.mark_uploaded(i);
    }
    assert_eq!(a.uploaded, b.uploaded);
    assert_eq!(a.uploaded, vec![1, 4, 7]);
}

#[test]
fn chunk_sizes() {
    assert_eq!(chunk_size_for(None), DEFAULT_CHUNK_SIZE);
    assert_eq!(chunk_size_for(Some(1)), MIN_CHUNK_SIZE);
    assert_eq!(chunk_size_for(Some(u64::MAX)), MAX_CHUNK_SIZE);
    assert_eq!(chunk_size_for(Some(300 * 1024)), 300 * 1024);
    assert_eq!(count_chunks(10, 4), 3);
    assert_eq!(count_chunks(8, 4), 2);
}

#[test]
fn expected_chunk_lengths_cover_the_file() {
    let mb = 1024 * 1024;
    let s = session("u1", "a.bin", 10 * mb, 4 * mb, "ip");
    assert!(s.layout_consistent());
    assert_eq!(s.chunk_count, 3);
    let lens: Vec<u64> = (0..3).map(|i| s.expected_chunk_len(i).ok().unwrap()).collect();
    assert_eq!(lens, vec![4 * mb, 4 * mb, 2 * mb]);
    assert_eq!(lens.iter().sum::<u64>(), 10 * mb);
    assert_eq!(s.chunk_offset(2), 8 * mb);
    assert!(matches!(s.expected_chunk_len(3), Err(ChunkRejection::IndexOutOfRange)));
}

#[test]
fn oversized_chunk_refused() {
    let mut s = session("u1", "a.bin", 40 * 1024 * 1024, 4 * 1024 * 1024, "ip");
    s.chunk_size = 20 * 1024 * 1024;
    s.chunk_count = 2;
    assert!(s.layout_consistent());
    assert!(matches!(s.expected_chunk_len(0), Err(ChunkRejection::TooLarge)));
    s.chunk_count = 5;
    assert!(!s.layout_consistent());
}

#[test]
fn chunk_byte_check() {
    assert!(check_chunk_bytes(5, 5).is_ok());
    assert!(matches!(
        check_chunk_bytes(5, 4),
        Err(ChunkRejection::LengthMismatch { expected: 5, got: 4 })
    ));
}

#[test]
fn manager_insert_find_remove() {
    let mut m = UploadManager::new();
    m.insert(session("u1", "a.bin", 100, MIN_CHUNK_SIZE, "1.1.1.1"));
    m.insert(session("u2", "b.bin", 200, MIN_CHUNK_SIZE, "1.1.1.1"));
    assert_eq!(m.get("u1").unwrap().name, "a.bin");
    assert!(m.get("zz").is_none());
    let found = m.find_by_signature("b.bin::200::1.1.1.1").unwrap();
    assert_eq!(found.id, "u2");
    assert!(m.find_by_signature("b.bin::200::2.2.2.2").is_none());
    assert_eq!(m.snapshot().len(), 2);
    let removed = m.remove("u1").unwrap();
    assert_eq!(removed.id, "u1");
    assert!(m.get("u1").is_none());
    assert!(m.find_by_signature("a.bin::100::1.1.1.1").is_none());
    assert!(m.remove("u1").is_none());
    assert_eq!(m.snapshot().len(), 1);
}

#[test]
fn manager_signature_taken_over() {
    let mut m = UploadManager::new();
    m.insert(session("u1", "a.bin", 100, MIN_CHUNK_SIZE, "ip"));
    m.insert(session("u2", "a.bin", 100, MIN_CHUNK_SIZE, "ip"));
    assert_eq!(m.find_by_signature("a.bin::100::ip").unwrap().id, "u2");
    assert!(m.get("u1").is_some());
    m.remove("u1");
    assert!(m.find_by_signature("a.bin::100::ip").is_none());
    assert!(m.get("u2").is_some());
}

#[test]
fn manager_marks_chunks() {
    let mut m = UploadManager::new();
    m.insert(session("u1", "a.bin", 3 * MIN_CHUNK_SIZE, MIN_CHUNK_SIZE, "ip"));
    let r = m.record_chunk("u1", 2).unwrap();
    assert_eq!((r.received, r.uploaded.clone(), r.complete), (2, vec![2], false));
    m.record_chunk("u1", 0).unwrap();
    let r = m.record_chunk("u1", 1).unwrap();
    assert_eq!(r.uploaded, vec![0, 1, 2]);
    assert!(r.complete);
    assert_eq!(m.mark_chunk("u1", 1), Some((vec![0, 1, 2], 3)));
    assert!(m.record_chunk("nope", 0).is_none());
}

#[test]
fn resume_survives_a_run_of_chunks() {
    let mut m = UploadManager::new();
    m.insert(session("u1", "a.bin", 5 * MIN_CHUNK_SIZE, MIN_CHUNK_SIZE, "ip"));
    m.insert(session("u2", "b.bin", 5 * MIN_CHUNK_SIZE, MIN_CHUNK_SIZE, "ip"));
    for (id, i) in [("u1", 3), ("u2", 0), ("u1", 1), ("u1", 3), ("u1", 0)] {
        m.record_chunk(id, i).unwrap();
    }
    let s = m.find_by_signature("a.bin::1310720::ip").unwrap();
    assert_eq!((s.id.as_str(), s.chunk_size, s.chunk_count), ("u1", MIN_CHUNK_SIZE, 5));
    assert_eq!(s.uploaded, vec![0, 1, 3]);
}

#[test]
fn completion_checks() {
    let mut s = session("u1", "a.bin", 3 * MIN_CHUNK_SIZE, MIN_CHUNK_SIZE, "ip");
    assert!(matches!(
        check_complete(&s, 0),
        Err(CompleteRejection::Incomplete { received: 0, chunk_count: 3 })
    ));
    s.uploaded = vec![0, 1, 2];
    assert!(matches!(
        check_complete(&s, 7),
        Err(CompleteRejection::SizeMismatch { expected, actual: 7 }) if expected == 3 * MIN_CHUNK_SIZE
    ));
    assert!(check_complete(&s, 3 * MIN_CHUNK_SIZE).is_ok());
}

#[test]
fn planning_an_upload() {
    assert!(matches!(plan_upload("  ", 5, None, None, "ip"), Err(InitRejection::EmptyName)));
    assert!(matches!(plan_upload("a.txt", 0, None, None, "ip"), Err(InitRejection::ZeroSize)));
    let p = plan_upload("photo/1.png", 5 * 1024 * 1024, None, None, "10.0.0.2").ok().unwrap();
    assert_eq!(p.safe_name, "photo_1.png");
    assert_eq!(p.chunk_size, DEFAULT_CHUNK_SIZE);
    assert_eq!(p.chunk_count, 2);
    assert_eq!(p.mime, "image/png");
    assert_eq!(p.signature, "photo_1.png::5242880::10.0.0.2");
    let q = plan_upload("x.bin", 10, Some("text/x".to_string()), Some(1), "ip").ok().unwrap();
    assert_eq!((q.chunk_size, q.chunk_count, q.mime.as_str()), (MIN_CHUNK_SIZE, 1, "text/x"));
}

#[test]
fn resuming_and_opening() {
    let mut m = UploadManager::new();
    let p = plan_upload("a.bin", 100, None, None, "ip").ok().unwrap();
    let sig = p.signature.clone();
    let s = open_session(
        &mut m,
        p,
        "up1".into(),
        "file1".into(),
        "ip".into(),
        "/d/a.bin.partial".into(),
        "/d/a.bin".into(),
        7,
    );
    assert_eq!(s.id, "up1");
    let again = plan_upload("a.bin", 100, None, None, "ip").ok().unwrap();
    let existing = m.find_by_signature(&sig).unwrap();
    assert!(can_resume(&existing, &again, true));
    assert!(!can_resume(&existing, &again, false));
    let other = plan_upload("a.bin", 100, None, Some(1024 * 1024), "ip").ok().unwrap();
    assert!(!can_resume(&existing, &other, true));
    m.record_chunk("up1", 0).unwrap();
    let found = m.find_by_signature(&again.signature).unwrap();
    match settle_existing(&mut m, found, &again, true) {
        ExistingSession::Resume(s) => assert_eq!((s.id.as_str(), s.uploaded), ("up1", vec![0])),
        ExistingSession::Dropped(_) => panic!("the session should resume"),
    }
    assert!(m.get("up1").is_some());
    let found = m.find_by_signature(&again.signature).unwrap();
    match settle_existing(&mut m, found, &again, false) {
        ExistingSession::Dropped(Some(old)) => assert_eq!(old.partial_path, "/d/a.bin.partial"),
        _ => panic!("the stale session should be dropped"),
    }
    assert!(m.get("up1").is_none());
    assert!(m.find_by_signature(&again.signature).is_none());
}
