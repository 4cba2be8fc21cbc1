use hack_api::ids::uuid_text;
use hack_api::model::{Category, Priority, UploadedFile};
use hack_api::validate::{
    create_submission, file_reference, validate_submission, FieldValue, FileRef,
    SubmissionRequest,
};

fn text(s: &str) -> Option<FieldValue> {
    Some(FieldValue::Str(s.to_string()))
}

fn good_request() -> SubmissionRequest {
    SubmissionRequest {
        title: text("  Crash on login  "),
        description: text("\tApp crashes\n"),
        category: text("Bug Report"),
        priority: text("High"),
        tags: None,
        file_id: None,
    }
}

fn details(e: &hack_api::model::ApiError) -> Vec<(String, String)> {
    e.body.details.iter().map(|d| (d.field.clone(), d.message.clone())).collect()
}

#[test]
fn valid_request_is_trimmed() {
    let v = validate_submission(&good_request(), None).unwrap();
    assert_eq!(v.title, "Crash on login");
    assert_eq!(v.description, "App crashes");
    assert_eq!(v.category, Category::BugReport);
    assert_eq!(v.priority, Priority::High);
    assert!(v.tags.is_empty());
    assert!(v.file_info.is_none());
}

#[test]
fn empty_request_reports_every_required_field() {
    let req = SubmissionRequest {
        title: None,
        description: None,
        category: None,
        priority: None,
        tags: None,
        file_id: None,
    };
    let e = validate_submission(&req, None).err().unwrap();
    assert_eq!(e.status, 400);
    assert_eq!(e.body.error, "Validation failed");
    assert_eq!(
        details(&e),
        vec![
            ("title".to_string(), "title is missing".to_string()),
            ("description".to_string(), "description is missing".to_string()),
            ("category".to_string(), "category is missing".to_string()),
            ("priority".to_string(), "priority is missing".to_string()),
        ]
    );
}

#[test]
fn every_kind_of_field_problem() {
    let req = SubmissionRequest {
        title: Some(FieldValue::Null),
        description: text("   "),
        category: text("bug report"),
        priority: Some(FieldValue::Other),
        tags: Some(FieldValue::Array(vec![
            Some(" ui ".to_string()),
            None,
            Some("  ".to_string()),
            None,
            Some("login".to_string()),
        ])),
        file_id: text("not-a-uuid"),
    };
    let e = validate_submission(&req, None).err().unwrap();
    assert_eq!(
        details(&e),
        vec![
            ("title".to_string(), "title cannot be null".to_string()),
            ("description".to_string(), "description cannot be empty".to_string()),
            (
                "category".to_string(),
                "category must be exactly 'Bug Report', 'Feature Request', 'Feedback', or 'Other'"
                    .to_string()
            ),
            ("priority".to_string(), "priority must be a string".to_string()),
            ("tags[1]".to_string(), "tag must be a string".to_string()),
            ("tags[3]".to_string(), "tag must be a string".to_string()),
            ("file_id".to_string(), "file_id must be a valid UUID".to_string()),
        ]
    );
}

#[test]
fn wrong_types_are_reported() {
    let req = SubmissionRequest {
        title: Some(FieldValue::Other),
        description: Some(FieldValue::Array(vec![])),
        category: Some(FieldValue::Null),
        priority: text("urgent"),
        tags: text("ui"),
        file_id: Some(FieldValue::Other),
    };
    let e = validate_submission(&req, None).err().unwrap();
    assert_eq!(
        details(&e),
        vec![
            ("title".to_string(), "title must be a string".to_string()),
            ("description".to_string(), "description must be a string".to_string()),
            ("category".to_string(), "category cannot be null".to_string()),
            (
                "priority".to_string(),
                "priority must be exactly 'Low', 'Medium', or 'High'".to_string()
            ),
            ("tags".to_string(), "tags must be an array of strings".to_string()),
            ("file_id".to_string(), "file_id must be a string".to_string()),
        ]
    );
}

#[test]
fn tags_are_trimmed_and_blank_ones_dropped() {
    let mut req = good_request();
    req.tags = Some(FieldValue::Array(vec![
        Some("  ui ".to_string()),
        Some("".to_string()),
        Some("login".to_string()),
    ]));
    let v = validate_submission(&req, None).unwrap();
    assert_eq!(v.tags, vec!["ui".to_string(), "login".to_string()]);
    req.tags = Some(FieldValue::Null);
    assert!(validate_submission(&req, None).unwrap().tags.is_empty());
}

#[test]
fn file_reference_kinds() {
    let id: u128 = 0x0123456789abcdef0123456789abcdef;
    assert_eq!(file_reference(&None), FileRef::Absent);
    assert_eq!(file_reference(&Some(FieldValue::Null)), FileRef::Absent);
    assert_eq!(file_reference(&text("")), FileRef::Absent);
    assert_eq!(file_reference(&text(&uuid_text(id))), FileRef::Lookup(id));
    assert_eq!(file_reference(&text("xyz")), FileRef::NotUuid);
    assert_eq!(file_reference(&Some(FieldValue::Other)), FileRef::NotString);
}

#[test]
fn unknown_file_is_reported_with_its_id() {
    let id: u128 = 0x0123456789abcdef0123456789abcdef;
    let mut req = good_request();
    req.file_id = text("0123456789ABCDEF0123456789ABCDEF");
    let e = validate_submission(&req, None).err().unwrap();
    assert_eq!(
        details(&e),
        vec![(
            "file_id".to_string(),
            "file_id 01234567-89ab-cdef-0123-456789abcdef does not reference an uploaded file"
                .to_string()
        )]
    );
    let found = UploadedFile {
        file_id: id,
        file_name: "a.png".to_string(),
        mime_type: "image/png".to_string(),
        size_bytes: 10,
    };
    let v = validate_submission(&req, Some(found)).unwrap();
    assert_eq!(v.file_info.unwrap().file_name, "a.png");
}

#[test]
fn resolved_file_is_ignored_without_reference() {
    let found = UploadedFile {
        file_id: 5,
        file_name: "a.png".to_string(),
        mime_type: "image/png".to_string(),
        size_bytes: 10,
    };
    let v = validate_submission(&good_request(), Some(found)).unwrap();
    assert!(v.file_info.is_none());
}

#[test]
fn created_submission_gets_id_and_time() {
    let s = create_submission(&good_request(), None).unwrap();
    assert_eq!(s.title, "Crash on login");
    assert_eq!((s.id >> 76) & 15, 4);
    assert!(s.created_at.secs > 0);
    let mut bad = good_request();
    bad.priority = None;
    let e = create_submission(&bad, None).err().unwrap();
    assert_eq!(details(&e), vec![("priority".to_string(), "priority is missing".to_string())]);
}
