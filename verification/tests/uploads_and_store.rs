use hack_api::ids::uuid_text;
use hack_api::model::{Category, Priority, Submission, Timestamp, UploadMetadata, UploadedFile};
use hack_api::store::SubmissionStore;
use hack_api::uploads::{
    local_path, parse_file_id, resolve_metadata, resolve_upload, UploadAccumulator, UploadStore,
};
use hack_api::errors::MAX_UPLOAD_SIZE;

#[test]
fn accumulator_defaults() {
    let a = UploadAccumulator::new();
    assert!(a.data.is_empty());
    assert_eq!(a.file_name, "unknown.bin");
    assert_eq!(a.content_type, "application/octet-stream");
}

#[test]
fn only_the_file_part_is_read() {
    let mut a = UploadAccumulator::new();
    assert!(!a.begin_part(Some("note"), Some("x.txt"), Some("text/plain")));
    assert_eq!(a.file_name, "unknown.bin");
    assert!(!a.begin_part(None, Some("x.txt"), None));
    assert!(a.begin_part(Some("file"), None, None));
    assert_eq!(a.file_name, "file.bin");
    assert_eq!(a.content_type, "application/octet-stream");
    assert!(a.begin_part(Some("file"), Some("cat.png"), Some("image/png")));
    assert_eq!(a.file_name, "cat.png");
    assert_eq!(a.content_type, "image/png");
}

#[test]
fn chunks_accumulate_up_to_the_limit() {
    let mut a = UploadAccumulator::new();
    a.begin_part(Some("file"), Some("a.bin"), None);
    assert!(a.add_chunk(&[1, 2, 3]).is_ok());
    assert!(a.add_chunk(&[4]).is_ok());
    assert_eq!(a.data, vec![1, 2, 3, 4]);
    let big = vec![0u8; MAX_UPLOAD_SIZE - 4];
    assert!(a.add_chunk(&big).is_ok());
    assert_eq!(a.data.len(), MAX_UPLOAD_SIZE);
    let e = a.add_chunk(&[9]).err().unwrap();
    assert_eq!(e.status, 413);
    assert_eq!(a.data.len(), MAX_UPLOAD_SIZE);
}

#[test]
fn empty_upload_is_refused() {
    let a = UploadAccumulator::new();
    let e = a.finish().err().unwrap();
    assert_eq!(e.status, 400);
    assert_eq!(e.body.error, "No file provided");
}

#[test]
fn finished_upload_is_named_by_id() {
    let mut a = UploadAccumulator::new();
    a.begin_part(Some("file"), Some("cat.png"), Some("image/png"));
    a.add_chunk(b"meow").unwrap();
    let id: u128 = 0xa1a2a3a4b1b2c1c2d1d2d3d4d5d6d7d8;
    let p = a.finish_with_id(id).ok().unwrap();
    assert_eq!(p.meta.file_id, id);
    assert_eq!(p.meta.file_name, "cat.png");
    assert_eq!(p.meta.mime_type, "image/png");
    assert_eq!(p.meta.size_bytes, 4);
    assert_eq!(p.meta.storage_path, "a1a2a3a4-b1b2-c1c2-d1d2-d3d4d5d6d7d8_cat.png");
    assert_eq!(p.data, b"meow".to_vec());
    assert_eq!(
        local_path(&p.meta.storage_path),
        "./uploads/a1a2a3a4-b1b2-c1c2-d1d2-d3d4d5d6d7d8_cat.png"
    );
}

#[test]
fn random_upload_id_round_trips() {
    let mut a = UploadAccumulator::new();
    a.begin_part(Some("file"), Some("x"), None);
    a.add_chunk(b"1").unwrap();
    let p = a.finish().ok().unwrap();
    assert!(p.meta.storage_path.starts_with(&uuid_text(p.meta.file_id)));
    assert_eq!(parse_file_id(&uuid_text(p.meta.file_id)).ok(), Some(p.meta.file_id));
}

fn meta(id: u128, name: &str) -> UploadMetadata {
    UploadMetadata {
        file_id: id,
        file_name: name.to_string(),
        mime_type: "text/plain".to_string(),
        size_bytes: 3,
        storage_path: format!("{}_{}", id, name),
    }
}

#[test]
fn store_lookup_after_insert() {
    let mut store = UploadStore::new();
    assert!(store.get(1).is_none());
    store.insert(meta(1, "a"));
    store.insert(meta(2, "b"));
    assert_eq!(store.get(1).unwrap().file_name, "a");
    assert_eq!(store.get(2).unwrap().file_name, "b");
    store.insert(meta(1, "c"));
    assert_eq!(store.get(1).unwrap().file_name, "c");
    assert!(store.get(3).is_none());
}

#[test]
fn database_answer_comes_first() {
    let mut store = UploadStore::new();
    store.insert(meta(1, "memory"));
    assert_eq!(resolve_metadata(Some(meta(1, "db")), &store, 1).unwrap().file_name, "db");
    assert_eq!(resolve_metadata(None, &store, 1).unwrap().file_name, "memory");
    assert!(resolve_metadata(None, &store, 2).is_none());
    let db_file = UploadedFile {
        file_id: 1,
        file_name: "db".to_string(),
        mime_type: "x/y".to_string(),
        size_bytes: 1,
    };
    assert_eq!(resolve_upload(Some(db_file), &store, 1).unwrap().file_name, "db");
    let f = resolve_upload(None, &store, 1).unwrap();
    assert_eq!(f.file_name, "memory");
    assert_eq!(f.size_bytes, 3);
    assert!(resolve_upload(None, &store, 7).is_none());
}

#[test]
fn file_id_in_path() {
    assert_eq!(
        parse_file_id("a1a2a3a4-b1b2-c1c2-d1d2-d3d4d5d6d7d8").ok(),
        Some(0xa1a2a3a4b1b2c1c2d1d2d3d4d5d6d7d8)
    );
    let e = parse_file_id("nope").err().unwrap();
    assert_eq!(e.status, 400);
    assert_eq!(e.body.details[0].message, "Must be a valid UUID");
}

#[test]
fn submission_store_keeps_order() {
    let mut store = SubmissionStore::new();
    for i in 0..3u128 {
        store.push(Submission {
            id: i,
            title: format!("t{}", i),
            description: "d".to_string(),
            category: Category::Other,
            priority: Priority::Low,
            tags: vec![],
            file_info: None,
            created_at: Timestamp { secs: i as i64, nanos: 0 },
        });
    }
    let ids: Vec<u128> = store.items().iter().map(|s| s.id).collect();
    assert_eq!(ids, vec![0, 1, 2]);
}

#[test]
fn other_parts_change_nothing() {
    let mut a = UploadAccumulator::new();
    a.begin_part(Some("file"), Some("a.txt"), Some("text/plain"));
    a.add_chunk(b"abc").unwrap();
    let mut b = UploadAccumulator::new();
    assert!(!b.begin_part(Some("comment"), Some("x.bin"), Some("x/y")));
    b.begin_part(Some("file"), Some("a.txt"), Some("text/plain"));
    b.add_chunk(b"abc").unwrap();
    assert!(!b.begin_part(Some("title"), None, None));
    assert_eq!(a.data, b.data);
    assert_eq!(a.file_name, b.file_name);
    assert_eq!(a.content_type, b.content_type);
}
