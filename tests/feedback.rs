use etb_save_core::feedback::{
    format_discussion_body, format_discussion_title, validate_feedback_input, BackendLogState,
    FeedbackData, FeedbackStatus, FeedbackType, SystemInfo,
};

fn info(os_version: &str, app_version: &str, language: &str) -> SystemInfo {
    SystemInfo {
        os: "Windows".to_string(),
        os_version: os_version.to_string(),
        app_version: app_version.to_string(),
        language: language.to_string(),
        screen_resolution: "1920x1080".to_string(),
    }
}

#[test]
fn test_format_discussion_title_bug_with_severity() {
    let title = format_discussion_title("bug", Some("high"), "App crashes on startup");
    assert_eq!(title, "[Bug][High] App crashes on startup");
}

#[test]
fn test_format_discussion_title_bug_without_severity() {
    let title = format_discussion_title("bug", None, "App crashes on startup");
    assert_eq!(title, "[Bug] App crashes on startup");
}

#[test]
fn test_format_discussion_title_idea() {
    let title = format_discussion_title("idea", None, "Add dark mode");
    assert_eq!(title, "[Idea] Add dark mode");
}

#[test]
fn test_format_discussion_title_general() {
    let title = format_discussion_title("general", None, "Question about feature");
    assert_eq!(title, "[General] Question about feature");
}

#[test]
fn test_format_discussion_title_ui() {
    let title = format_discussion_title("ui", None, "Button too small");
    assert_eq!(title, "[UI] Button too small");
}

#[test]
fn title_keeps_unknown_severity_and_kind() {
    assert_eq!(
        format_discussion_title("Bug Reports", Some("Blocker"), "x"),
        "[Bug][Blocker] x"
    );
    assert_eq!(format_discussion_title("other", Some("high"), "y"), "[Feedback] y");
    assert_eq!(format_discussion_title("BUG", Some("CRITICAL"), "z"), "[Bug][Critical] z");
}

#[test]
fn test_format_discussion_body_without_sender() {
    let system_info = info("10.0.19045", "3.0.0", "zh-CN");
    let body = format_discussion_body("Test description", &system_info, &[], None);
    assert!(body.contains("## User Feedback"));
    assert!(body.contains("Test description"));
    assert!(body.contains("System Information"));
    assert!(body.contains("Windows 10.0.19045"));
    assert!(body.contains("3.0.0"));
    assert!(!body.contains("**From:**"));
}

#[test]
fn test_format_discussion_body_with_sender() {
    let system_info = info("10.0", "1.0.0", "en-US");
    let body = format_discussion_body("Test", &system_info, &[], Some("TestUser"));
    assert!(body.contains("**From:** TestUser"));
}

#[test]
fn test_format_discussion_body_with_attachments() {
    let system_info = info("10.0", "1.0.0", "en-US");
    let attachments = vec![
        "https://example.com/image.png".to_string(),
        "https://example.com/log.txt".to_string(),
    ];
    let body = format_discussion_body("Test", &system_info, &attachments, None);
    assert!(body.contains("## Attachments"));
    assert!(body.contains("![Attachment 1]"));
    assert!(body.contains("[Attachment 2]"));
}

#[test]
fn body_is_exact() {
    let system_info = info("10.0", "1.0.0", "en-US");
    let attachments = vec!["a/B.JPG".to_string(), "noext".to_string()];
    let body = format_discussion_body("D", &system_info, &attachments, Some("  Ann "));
    let expected = "**From:** Ann\n\n## User Feedback\n\nD\n\n---\n\n<details>\n<summary>System Information</summary>\n\n| Item | Value |\n|------|-------|\n| OS | Windows 10.0 |\n| App Version | 1.0.0 |\n| Language | en-US |\n| Screen Resolution | 1920x1080 |\n\n</details>\n\n## Attachments\n\n![Attachment 1](a/B.JPG)\n- [Attachment 2](noext)\n\n---\n*Submitted via ETBSaveManager Feedback System*";
    assert_eq!(body, expected);
    let blank_sender = format_discussion_body("D", &system_info, &[], Some("   "));
    assert!(blank_sender.starts_with("## User Feedback"));
}

#[test]
fn test_feedback_type_from_str() {
    assert!(matches!(FeedbackType::from_str("bug"), Some(FeedbackType::Bug)));
    assert!(matches!(FeedbackType::from_str("Bug Reports"), Some(FeedbackType::Bug)));
    assert!(matches!(FeedbackType::from_str("idea"), Some(FeedbackType::Idea)));
    assert!(matches!(FeedbackType::from_str("Ideas"), Some(FeedbackType::Idea)));
    assert!(matches!(FeedbackType::from_str("general"), Some(FeedbackType::General)));
    assert!(matches!(FeedbackType::from_str("ui"), Some(FeedbackType::Ui)));
    assert!(matches!(FeedbackType::from_str("UI & Experience"), Some(FeedbackType::Ui)));
    assert!(FeedbackType::from_str("invalid").is_none());
}

#[test]
fn test_feedback_type_category_name() {
    assert_eq!(FeedbackType::Bug.category_name(), "Bug Reports");
    assert_eq!(FeedbackType::Idea.category_name(), "Ideas");
    assert_eq!(FeedbackType::General.category_name(), "General");
    assert_eq!(FeedbackType::Ui.category_name(), "UI & Experience");
}

#[test]
fn status_names() {
    assert_eq!(FeedbackStatus::Pending.as_str(), "pending");
    assert_eq!(FeedbackStatus::Submitted.as_str(), "submitted");
    assert_eq!(FeedbackStatus::Failed.as_str(), "failed");
}

#[test]
fn test_system_info_is_valid() {
    let valid_info = info("10.0", "1.0.0", "en-US");
    assert!(valid_info.is_valid());

    let invalid_info = SystemInfo {
        os: "".to_string(),
        os_version: "10.0".to_string(),
        app_version: "1.0.0".to_string(),
        language: "en-US".to_string(),
        screen_resolution: "1920x1080".to_string(),
    };
    assert!(!invalid_info.is_valid());
}

fn data(kind: &str, severity: Option<&str>, title: &str, description: &str) -> FeedbackData {
    FeedbackData {
        feedback_type: kind.to_string(),
        severity: severity.map(|s| s.to_string()),
        sender: None,
        title: title.to_string(),
        description: description.to_string(),
    }
}

#[test]
fn validation_messages() {
    let msg = |d: FeedbackData| validate_feedback_input(&d).err().map(|e| e.message);
    assert_eq!(msg(data("bug", Some("low"), "t", "d")), None);
    assert_eq!(msg(data("BUG", None, "t", "d")), None);
    assert_eq!(msg(data("bug", None, "  ", "d")), Some("Title is required".to_string()));
    assert_eq!(msg(data("bug", None, "t", "\n")), Some("Description is required".to_string()));
    assert_eq!(
        msg(data("bug", None, &"x".repeat(101), "d")),
        Some("Title must be 100 characters or less".to_string())
    );
    assert_eq!(msg(data("bug", None, &"x".repeat(100), "d")), None);
    assert_eq!(
        msg(data("bug", None, "t", &"x".repeat(60001))),
        Some("Description must be 60000 characters or less".to_string())
    );
    assert_eq!(msg(data("nope", None, "t", "d")), Some("Invalid feedback type".to_string()));
    assert_eq!(
        msg(data("Bug", Some("urgent"), "t", "d")),
        Some("Invalid severity level".to_string())
    );
    assert_eq!(msg(data("idea", Some("urgent"), "t", "d")), None);
}

#[test]
fn log_buffer_keeps_latest_lines() {
    let mut log = BackendLogState::new();
    assert_eq!(log.get_logs_as_string(), "");
    log.add_log("12:00:00.000", "info", "started");
    log.add_log("12:00:01.000", "warn", "slow");
    assert_eq!(
        log.get_logs_as_string(),
        "[12:00:00.000] INFO: started\n[12:00:01.000] WARN: slow\n"
    );
    for i in 0..150 {
        log.add_log("t", "debug", &format!("{}", i));
    }
    assert_eq!(log.logs.len(), 100);
    assert_eq!(log.logs[0].message, "50");
    assert_eq!(log.logs[99].message, "149");
}
