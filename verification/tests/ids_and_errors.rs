use hack_api::errors::{AppJson, Failure, MAX_UPLOAD_SIZE};
use hack_api::ids::{new_uuid_v4, now, parse_uuid, uuid_text};

#[test]
fn uuid_text_is_hyphenated_lower_case() {
    let id: u128 = 0xa1a2a3a4b1b2c1c2d1d2d3d4d5d6d7d8;
    assert_eq!(uuid_text(id), "a1a2a3a4-b1b2-c1c2-d1d2-d3d4d5d6d7d8");
    assert_eq!(uuid_text(0), "00000000-0000-0000-0000-000000000000");
}

#[test]
fn uuid_parse_accepts_its_layouts() {
    let id: u128 = 0xa1a2a3a4b1b2c1c2d1d2d3d4d5d6d7d8;
    assert_eq!(parse_uuid("a1a2a3a4-b1b2-c1c2-d1d2-d3d4d5d6d7d8"), Some(id));
    assert_eq!(parse_uuid("A1A2A3A4-B1B2-C1C2-D1D2-D3D4D5D6D7D8"), Some(id));
    assert_eq!(parse_uuid("a1a2a3a4b1b2c1c2d1d2d3d4d5d6d7d8"), Some(id));
    assert_eq!(parse_uuid("not-a-uuid"), None);
    assert_eq!(parse_uuid(""), None);
    assert_eq!(parse_uuid(&uuid_text(id)), Some(id));
}

#[test]
fn new_ids_are_version_four() {
    let id = new_uuid_v4();
    assert_eq!((id >> 76) & 15, 4);
    assert_eq!((id >> 62) & 3, 2);
    assert_ne!(new_uuid_v4(), new_uuid_v4());
}

#[test]
fn clock_reads_after_epoch() {
    let t = now();
    assert!(t.secs > 1_600_000_000);
    assert!(t.nanos < 1_000_000_000);
}

#[test]
fn too_large_answer() {
    let e = Failure::TooLarge.response();
    assert_eq!(e.status, 413);
    assert_eq!(e.body.error, "File too large");
    assert_eq!(e.body.details.len(), 1);
    assert_eq!(e.body.details[0].field, "file");
    assert_eq!(e.body.details[0].message, "File size exceeds limit of 10 MB");
    assert_eq!(MAX_UPLOAD_SIZE, 10 * 1024 * 1024);
}

#[test]
fn failure_answers() {
    let cases = vec![
        (Failure::Multipart("m".to_string()), 400, "Multipart error", "file", "m"),
        (Failure::Stream("s".to_string()), 400, "Error reading stream", "file", "s"),
        (Failure::NoFile, 400, "No file provided", "file", "File payload is empty"),
        (Failure::S3Upload("u".to_string()), 500, "S3 upload failed", "s3", "u"),
        (Failure::LocalSave("l".to_string()), 500, "Failed to save file locally", "file", "l"),
        (Failure::InvalidFileId, 400, "Invalid file ID format", "id", "Must be a valid UUID"),
        (Failure::FileNotFound, 404, "File not found", "id", "File metadata not found"),
        (Failure::S3Stream("r".to_string()), 500, "Failed to read S3 object stream", "s3", "r"),
        (Failure::S3Download("g".to_string()), 500, "S3 download request failed", "s3", "g"),
        (Failure::DiskRead("k".to_string()), 500, "File read error", "disk", "k"),
        (
            Failure::Persist("p".to_string()),
            500,
            "Failed to persist submission in Postgres",
            "database",
            "p",
        ),
    ];
    for (f, status, error, field, message) in cases {
        let e = f.response();
        assert_eq!(e.status, status);
        assert_eq!(e.body.error, error);
        assert_eq!(e.body.details.len(), 1);
        assert_eq!(e.body.details[0].field, field);
        assert_eq!(e.body.details[0].message, message);
    }
}

#[test]
fn malformed_json_answer() {
    let e = AppJson::<()>::rejection(422, "missing field".to_string());
    assert_eq!(e.status, 422);
    assert_eq!(e.body.error, "Malformed JSON request");
    assert_eq!(e.body.details[0].field, "body");
    assert_eq!(e.body.details[0].message, "missing field");
}
