use hack_api::config::{
    allowed_origins, bucket_from_setting, parse_u16, port_from_setting, probe_label, CorsPolicy,
    HealthReport, S3Credentials,
};
use hack_api::listing::{
    filter_submissions, list_submissions, page_of, paginate, sort_newest_first, ListParams,
};
use hack_api::model::{Category, Priority, Submission, Timestamp};

fn sub(id: u128, title: &str, cat: Category, prio: Priority, tags: &[&str], secs: i64) -> Submission {
    Submission {
        id,
        title: title.to_string(),
        description: format!("description of {}", title),
        category: cat,
        priority: prio,
        tags: tags.iter().map(|t| t.to_string()).collect(),
        file_info: None,
        created_at: Timestamp { secs, nanos: 0 },
    }
}

fn sample() -> Vec<Submission> {
    vec![
        sub(1, "Login crash", Category::BugReport, Priority::High, &["auth"], 100),
        sub(2, "Dark mode", Category::FeatureRequest, Priority::Low, &["UI"], 300),
        sub(3, "Great app", Category::Feedback, Priority::Medium, &[], 200),
        sub(4, "Crash on save", Category::BugReport, Priority::Low, &["Ümlaut"], 300),
    ]
}

fn no_params() -> ListParams {
    ListParams { offset: None, limit: None, category: None, priority: None, search: None }
}

fn ids(v: &[Submission]) -> Vec<u128> {
    v.iter().map(|s| s.id).collect()
}

#[test]
fn default_listing_is_newest_first() {
    let r = list_submissions(sample(), &no_params()).unwrap();
    assert_eq!(r.total, 4);
    assert_eq!(r.offset, 0);
    assert_eq!(r.limit, 10);
    assert_eq!(ids(&r.items), vec![2, 4, 3, 1]);
}

#[test]
fn category_filter_ignores_ascii_case() {
    let mut p = no_params();
    p.category = Some("bug REPORT".to_string());
    let r = list_submissions(sample(), &p).unwrap();
    assert_eq!(ids(&r.items), vec![4, 1]);
    p.category = Some(" bug report".to_string());
    assert_eq!(list_submissions(sample(), &p).unwrap().total, 0);
    p.category = Some("   ".to_string());
    assert_eq!(list_submissions(sample(), &p).unwrap().total, 4);
}

#[test]
fn priority_filter() {
    let mut p = no_params();
    p.priority = Some("low".to_string());
    assert_eq!(ids(&list_submissions(sample(), &p).unwrap().items), vec![2, 4]);
}

#[test]
fn search_covers_title_description_and_tags() {
    let mut p = no_params();
    p.search = Some("  CRASH ".to_string());
    assert_eq!(ids(&list_submissions(sample(), &p).unwrap().items), vec![4, 1]);
    p.search = Some("ui".to_string());
    assert_eq!(ids(&list_submissions(sample(), &p).unwrap().items), vec![2]);
    p.search = Some("ümlaut".to_string());
    assert_eq!(ids(&list_submissions(sample(), &p).unwrap().items), vec![4]);
    p.search = Some("description of great".to_string());
    assert_eq!(ids(&list_submissions(sample(), &p).unwrap().items), vec![3]);
}

#[test]
fn pages() {
    let mut p = no_params();
    p.offset = Some(1);
    p.limit = Some(2);
    let r = list_submissions(sample(), &p).unwrap();
    assert_eq!(r.total, 4);
    assert_eq!(ids(&r.items), vec![4, 3]);
    p.offset = Some(10);
    assert!(list_submissions(sample(), &p).unwrap().items.is_empty());
    p.offset = Some(3);
    p.limit = Some(usize::MAX);
    assert!(list_submissions(sample(), &p).is_none());
    p.offset = Some(0);
    assert_eq!(list_submissions(sample(), &p).unwrap().items.len(), 4);
}

#[test]
fn sort_is_stable() {
    let v = vec![
        sub(1, "a", Category::Other, Priority::Low, &[], 5),
        sub(2, "b", Category::Other, Priority::Low, &[], 7),
        sub(3, "c", Category::Other, Priority::Low, &[], 5),
        sub(4, "d", Category::Other, Priority::Low, &[], 7),
    ];
    assert_eq!(ids(&sort_newest_first(v)), vec![2, 4, 1, 3]);
    let mut w = vec![sub(1, "a", Category::Other, Priority::Low, &[], 5)];
    w[0].created_at.nanos = 10;
    w.push(sub(2, "b", Category::Other, Priority::Low, &[], 5));
    assert_eq!(ids(&sort_newest_first(w)), vec![1, 2]);
}

#[test]
fn paginate_and_filter_pieces() {
    let v = sample();
    assert_eq!(ids(&paginate(v, 1, 2)), vec![2, 3]);
    let kept = filter_submissions(sample(), &no_params());
    assert_eq!(ids(&kept), vec![1, 2, 3, 4]);
    let r = page_of(kept, &no_params());
    assert_eq!(ids(&r.items), vec![2, 4, 3, 1]);
}

#[test]
fn cors_policies() {
    assert!(matches!(CorsPolicy::from_setting(None), CorsPolicy::Permissive));
    assert!(matches!(CorsPolicy::from_setting(Some("  ")), CorsPolicy::Permissive));
    assert!(matches!(CorsPolicy::from_setting(Some(" , ,")), CorsPolicy::Permissive));
    match CorsPolicy::from_setting(Some(" http://a.com , ,http://b.com,bad\u{7f}value ")) {
        CorsPolicy::Origins(o) => assert_eq!(o, vec!["http://a.com".to_string(), "http://b.com".to_string()]),
        CorsPolicy::Permissive => panic!("expected origins"),
    }
    assert_eq!(allowed_origins("x,,y"), vec!["x".to_string(), "y".to_string()]);
    assert_eq!(allowed_origins("tab\tok,é"), vec!["tab\tok".to_string(), "é".to_string()]);
}

#[test]
fn port_settings() {
    assert_eq!(parse_u16("8080"), Some(8080));
    assert_eq!(parse_u16("+80"), Some(80));
    assert_eq!(parse_u16("0065535"), Some(65535));
    assert_eq!(parse_u16("65536"), None);
    assert_eq!(parse_u16("-1"), None);
    assert_eq!(parse_u16("+"), None);
    assert_eq!(parse_u16(""), None);
    assert_eq!(parse_u16(" 80"), None);
    assert_eq!(port_from_setting(Some("3000")), 3000);
    assert_eq!(port_from_setting(Some("abc")), 8080);
    assert_eq!(port_from_setting(None), 8080);
    for p in [0u16, 1, 9, 10, 80, 443, 8080, 65535] {
        assert_eq!(parse_u16(&p.to_string()), Some(p));
    }
}

#[test]
fn storage_settings() {
    assert_eq!(bucket_from_setting(None), "hack-bucket");
    assert_eq!(bucket_from_setting(Some("b".to_string())), "b");
    assert!(S3Credentials::from_settings(Some("e".into()), Some("a".into()), None).is_none());
    let c = S3Credentials::from_settings(Some("e".into()), Some("a".into()), Some("s".into()))
        .unwrap();
    assert_eq!(c.endpoint, "e");
    assert_eq!(c.secret_key, "s");
}

#[test]
fn health_labels() {
    assert_eq!(probe_label(None), "unconfigured");
    assert_eq!(probe_label(Some(true)), "ok");
    assert_eq!(probe_label(Some(false)), "error");
    let h = HealthReport::from_probes(Some(true), None);
    assert_eq!(h.status, "ok");
    assert_eq!(h.postgres, "ok");
    assert_eq!(h.s3_minio, "unconfigured");
}

#[test]
fn blank_filters_are_ignored() {
    let all = ids(&list_submissions(sample(), &no_params()).unwrap().items);
    let mut p = no_params();
    p.search = Some(" \t ".to_string());
    p.priority = Some("".to_string());
    p.category = Some("  ".to_string());
    assert_eq!(ids(&list_submissions(sample(), &p).unwrap().items), all);
}
