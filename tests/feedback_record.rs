use etb_save_core::feedback::{FeedbackRecord, SystemInfo};

fn create_test_feedback() -> FeedbackRecord {
    FeedbackRecord::new(
        "bug".to_string(),
        Some("high".to_string()),
        "Test Bug".to_string(),
        "This is a test bug description".to_string(),
        SystemInfo {
            os: "Linux".to_string(),
            os_version: "6.1".to_string(),
            app_version: "3.0.0".to_string(),
            language: "zh-CN".to_string(),
            screen_resolution: "1920x1080".to_string(),
        },
        vec![],
    )
}

#[test]
fn test_feedback_id_uniqueness() {
    let f1 = create_test_feedback();
    let f2 = create_test_feedback();
    assert_ne!(f1.id, f2.id);
}

#[test]
fn new_record_is_pending() {
    let f = create_test_feedback();
    assert_eq!(f.id.len(), 36);
    assert_eq!(f.status, "pending");
    assert_eq!(f.retry_count, 0);
    assert_eq!(f.created_at, f.updated_at);
    assert!(f.discussion_id.is_none());
    assert_eq!(f.title, "Test Bug");
}
