use hack_api::text::{
    contains_text, decimal_text, eq_ignore_ascii_case, is_blank, text_eq, to_lower, trim,
};
use hack_api::model::{Category, Priority, Submission, Timestamp, UploadMetadata, UploadedFile};

#[test]
fn trim_removes_unicode_white_space() {
    assert_eq!(trim("  hello world \t\n"), "hello world");
    assert_eq!(trim("\u{a0}\u{3000}x\u{2028}"), "x");
    assert_eq!(trim("   "), "");
    assert_eq!(trim(""), "");
    assert_eq!(trim("a b"), "a b");
}

#[test]
fn trim_twice_is_trim_once() {
    let once = trim("  \t padded \n ");
    assert_eq!(trim(once), once);
}

#[test]
fn blank_texts() {
    assert!(is_blank("  \t"));
    assert!(is_blank(""));
    assert!(!is_blank(" x "));
}

#[test]
fn text_equality() {
    assert!(text_eq("abc", "abc"));
    assert!(!text_eq("abc", "abd"));
    assert!(!text_eq("abc", "ab"));
}

#[test]
fn ascii_case_insensitive_equality() {
    assert!(eq_ignore_ascii_case("Bug Report", "bug report"));
    assert!(eq_ignore_ascii_case("HIGH", "high"));
    assert!(!eq_ignore_ascii_case("High", "Hig"));
    assert!(!eq_ignore_ascii_case("É", "é"));
}

#[test]
fn substring_search() {
    assert!(contains_text("login page crash", "page"));
    assert!(contains_text("abc", ""));
    assert!(!contains_text("abc", "abcd"));
    assert!(!contains_text("abc", "ac"));
}

#[test]
fn decimal_texts() {
    assert_eq!(decimal_text(0), "0");
    assert_eq!(decimal_text(7), "7");
    assert_eq!(decimal_text(1234567890), "1234567890");
    assert_eq!(decimal_text(usize::MAX), usize::MAX.to_string());
}

#[test]
fn lower_casing_is_unicode() {
    assert_eq!(to_lower("HeLLo ÄÖ"), "hello äö");
}

#[test]
fn category_names_parse_exactly() {
    assert_eq!(Category::from_str("Bug Report"), Some(Category::BugReport));
    assert_eq!(Category::from_str("Feature Request"), Some(Category::FeatureRequest));
    assert_eq!(Category::from_str("Feedback"), Some(Category::Feedback));
    assert_eq!(Category::from_str("Other"), Some(Category::Other));
    assert_eq!(Category::from_str("bug report"), None);
    assert_eq!(Category::from_str(" Other"), None);
    assert_eq!(Category::from_str(""), None);
}

#[test]
fn category_name_round_trips() {
    for c in [Category::BugReport, Category::FeatureRequest, Category::Feedback, Category::Other] {
        assert_eq!(Category::from_str(c.name()), Some(c));
    }
}

#[test]
fn priority_names_parse_exactly() {
    assert_eq!(Priority::from_str("Low"), Some(Priority::Low));
    assert_eq!(Priority::from_str("Medium"), Some(Priority::Medium));
    assert_eq!(Priority::from_str("High"), Some(Priority::High));
    assert_eq!(Priority::from_str("high"), None);
    for p in [Priority::Low, Priority::Medium, Priority::High] {
        assert_eq!(Priority::from_str(p.name()), Some(p));
    }
}

#[test]
fn timestamps_order_by_seconds_then_nanos() {
    let a = Timestamp { secs: 10, nanos: 5 };
    let b = Timestamp { secs: 10, nanos: 6 };
    let c = Timestamp { secs: 11, nanos: 0 };
    assert!(a.is_before(&b));
    assert!(b.is_before(&c));
    assert!(!b.is_before(&a));
    assert!(!a.is_before(&a));
}

#[test]
fn stored_submission_defaults() {
    let s = Submission::from_stored(
        1,
        "t".to_string(),
        "d".to_string(),
        "Nonsense",
        "Urgent",
        vec!["x".to_string()],
        Some(9),
        Some("f.txt".to_string()),
        None,
        Some(3),
        Timestamp { secs: 1, nanos: 0 },
    );
    assert_eq!(s.category, Category::Other);
    assert_eq!(s.priority, Priority::Medium);
    assert!(s.file_info.is_none());

    let s = Submission::from_stored(
        1,
        "t".to_string(),
        "d".to_string(),
        "Feedback",
        "High",
        vec![],
        Some(9),
        Some("f.txt".to_string()),
        Some("text/plain".to_string()),
        Some(3),
        Timestamp { secs: 1, nanos: 0 },
    );
    assert_eq!(s.category, Category::Feedback);
    assert_eq!(s.priority, Priority::High);
    let f = s.file_info.unwrap();
    assert_eq!(f.file_id, 9);
    assert_eq!(f.mime_type, "text/plain");
    assert_eq!(f.size_bytes, 3);
}

#[test]
fn stored_sizes_convert_like_as() {
    let f = UploadedFile::from_stored(1, "a".to_string(), "b".to_string(), -1);
    assert_eq!(f.size_bytes, usize::MAX);
    let m = UploadMetadata::from_stored(2, "a".to_string(), "b".to_string(), 42, "p".to_string());
    assert_eq!(m.size_bytes, 42);
    let u = m.to_uploaded_file();
    assert_eq!(u.file_id, 2);
    assert_eq!(u.file_name, "a");
    let d = m.duplicate();
    assert_eq!(d.storage_path, "p");
}
