//! Feedback reports: their kinds and states, the checks on what a user entered,
//! the title and body of the discussion posted for a report, and the buffer of
//! recent backend log lines that goes with it.

use crate::text::{
    ascii_lower, ascii_lowercase, cat, decimal, decimal_string, lower_of, lowercase, push_str, str_eq, trim, trim_of, upper_of,
    uppercase,
};
use vstd::prelude::*;
use vstd::string::{StrSliceExecFns, StringSliceAdditionalSpecFns};
use vstd::utf8::encode_utf8;

verus! {

/// An error reported to the user interface.
#[derive(Debug, Clone)]
pub struct AppError {
    pub message: String,
}

impl AppError {
    pub fn new(message: &str) -> (r: AppError)
        ensures
            r.message@ == message@,
    {
        AppError { message: message.to_owned() }
    }
}

/// The discussion created for a report.
#[derive(Debug, Clone)]
pub struct DiscussionResult {
    pub id: String,
    pub url: String,
}

/// The kinds of feedback, each posted to its own discussion category.
#[derive(Debug, Clone, Copy, PartialEq, Eq)]
pub enum FeedbackType {
    Bug,
    Idea,
    General,
    Ui,
}

/// The kind that a lowercased kind or category name stands for.
pub open spec fn feedback_type_for(l: Seq<char>) -> Option<FeedbackType> {
    if l == "bug"@ || l == "bug reports"@ {
        Some(FeedbackType::Bug)
    } else if l == "idea"@ || l == "ideas"@ {
        Some(FeedbackType::Idea)
    } else if l == "general"@ {
        Some(FeedbackType::General)
    } else if l == "ui"@ || l == "ui & experience"@ {
        Some(FeedbackType::Ui)
    } else {
        None
    }
}

pub open spec fn category_of(t: FeedbackType) -> Seq<char> {
    match t {
        FeedbackType::Bug => "Bug Reports"@,
        FeedbackType::Idea => "Ideas"@,
        FeedbackType::General => "General"@,
        FeedbackType::Ui => "UI & Experience"@,
    }
}

impl FeedbackType {
    /// The kind named by `s`, in any case: a kind (`bug`) or its category name
    /// (`Bug Reports`).
    pub fn from_str(s: &str) -> (r: Option<FeedbackType>)
        ensures
            r == feedback_type_for(lower_of(s@)),
    {
        let l = lowercase(s);
        let l = l.as_str();
        if str_eq(l, "bug") || str_eq(l, "bug reports") {
            Some(FeedbackType::Bug)
        } else if str_eq(l, "idea") || str_eq(l, "ideas") {
            Some(FeedbackType::Idea)
        } else if str_eq(l, "general") {
            Some(FeedbackType::General)
        } else if str_eq(l, "ui") || str_eq(l, "ui & experience") {
            Some(FeedbackType::Ui)
        } else {
            None
        }
    }

    /// The discussion category that takes this kind.
    pub fn category_name(&self) -> (r: &'static str)
        ensures
            r@ == category_of(*self),
    {
        match self {
            FeedbackType::Bug => "Bug Reports",
            FeedbackType::Idea => "Ideas",
            FeedbackType::General => "General",
            FeedbackType::Ui => "UI & Experience",
        }
    }
}

/// Where a stored report stands.
#[derive(Debug, Clone, Copy, PartialEq, Eq)]
pub enum FeedbackStatus {
    Pending,
    Submitted,
    Failed,
}

impl FeedbackStatus {
    pub fn as_str(&self) -> (r: &'static str)
        ensures
            r@ == match *self {
                FeedbackStatus::Pending => "pending"@,
                FeedbackStatus::Submitted => "submitted"@,
                FeedbackStatus::Failed => "failed"@,
            },
    {
        match self {
            FeedbackStatus::Pending => "pending",
            FeedbackStatus::Submitted => "submitted",
            FeedbackStatus::Failed => "failed",
        }
    }
}

/// The label of a kind in a discussion title.
pub open spec fn type_label(l: Seq<char>) -> Seq<char> {
    if l == "bug"@ || l == "bug reports"@ {
        "Bug"@
    } else if l == "idea"@ || l == "ideas"@ {
        "Idea"@
    } else if l == "general"@ {
        "General"@
    } else if l == "ui"@ || l == "ui & experience"@ {
        "UI"@
    } else {
        "Feedback"@
    }
}

/// The label of a severity: a known level capitalised, anything else as given.
pub open spec fn severity_label(raw: Seq<char>) -> Seq<char> {
    let l = lower_of(raw);
    if l == "low"@ {
        "Low"@
    } else if l == "medium"@ {
        "Medium"@
    } else if l == "high"@ {
        "High"@
    } else if l == "critical"@ {
        "Critical"@
    } else {
        raw
    }
}

pub open spec fn starts_with_bug(l: Seq<char>) -> bool {
    l.len() >= 3 && l.subrange(0, 3) == "bug"@
}

/// `[Kind][Severity] title`, the severity only for bugs that have one, else `[Kind] title`.
pub open spec fn discussion_title(kind: Seq<char>, severity: Option<Seq<char>>, title: Seq<char>) -> Seq<char> {
    let l = lower_of(kind);
    if starts_with_bug(l) && severity is Some {
        "["@ + type_label(l) + "]["@ + severity_label(severity->0) + "] "@ + title
    } else {
        "["@ + type_label(l) + "] "@ + title
    }
}

pub open spec fn opt_view(s: Option<&str>) -> Option<Seq<char>> {
    match s {
        Some(x) => Some(x@),
        None => None,
    }
}

fn type_label_of(l: &str) -> (r: &'static str)
    ensures
        r@ == type_label(l@),
{
    if str_eq(l, "bug") || str_eq(l, "bug reports") {
        "Bug"
    } else if str_eq(l, "idea") || str_eq(l, "ideas") {
        "Idea"
    } else if str_eq(l, "general") {
        "General"
    } else if str_eq(l, "ui") || str_eq(l, "ui & experience") {
        "UI"
    } else {
        "Feedback"
    }
}

fn severity_label_of(raw: &str) -> (r: String)
    ensures
        r@ == severity_label(raw@),
{
    let l = lowercase(raw);
    let l = l.as_str();
    if str_eq(l, "low") {
        "Low".to_owned()
    } else if str_eq(l, "medium") {
        "Medium".to_owned()
    } else if str_eq(l, "high") {
        "High".to_owned()
    } else if str_eq(l, "critical") {
        "Critical".to_owned()
    } else {
        raw.to_owned()
    }
}

/// The title of the discussion for a report.
pub fn format_discussion_title(feedback_type: &str, severity: Option<&str>, title: &str) -> (r:
    String)
    ensures
        r@ == discussion_title(feedback_type@, opt_view(severity), title@),
{
    let lower = lowercase(feedback_type);
    let l = lower.as_str();
    let label = type_label_of(l);
    let is_bug = l.unicode_len() >= 3 && str_eq(l.substring_char(0, 3), "bug");
    let mut r = cat("[", label);
    if is_bug && severity.is_some() {
        let sev = severity_label_of(severity.unwrap());
        push_str(&mut r, "][");
        push_str(&mut r, sev.as_str());
    }
    push_str(&mut r, "] ");
    push_str(&mut r, title);
    r
}

/// System information sent with a report; nothing that identifies the user.
#[derive(Debug, Clone)]
pub struct SystemInfo {
    pub os: String,
    pub os_version: String,
    pub app_version: String,
    pub language: String,
    pub screen_resolution: String,
}

impl SystemInfo {
    /// Every field is filled in.
    pub fn is_valid(&self) -> (r: bool)
        ensures
            r == (self.os@.len() > 0 && self.os_version@.len() > 0 && self.app_version@.len() > 0
                && self.language@.len() > 0 && self.screen_resolution@.len() > 0),
    {
        !self.os.as_str().is_empty() && !self.os_version.as_str().is_empty()
            && !self.app_version.as_str().is_empty() && !self.language.as_str().is_empty()
            && !self.screen_resolution.as_str().is_empty()
    }
}

/// The part of `url` after its last `.`, or all of it if it has none.
pub open spec fn extension_of(url: Seq<char>) -> Seq<char>
    decreases url.len(),
{
    if url.len() == 0 {
        url
    } else if url.last() == '.' {
        Seq::empty()
    } else {
        extension_of(url.drop_last()).push(url.last())
    }
}

pub open spec fn is_image_extension(e: Seq<char>) -> bool {
    e == "png"@ || e == "jpg"@ || e == "jpeg"@ || e == "gif"@
}

/// The line of attachment number `n` (from 1): an inline image for a picture,
/// a link for anything else.
pub open spec fn attachment_line(url: Seq<char>, n: nat) -> Seq<char> {
    if is_image_extension(lower_of(extension_of(url))) {
        "![Attachment "@ + decimal(n) + "]("@ + url + ")\n"@
    } else {
        "- [Attachment "@ + decimal(n) + "]("@ + url + ")\n"@
    }
}

/// The lines of the first `n` attachments.
pub open spec fn attachment_lines(urls: Seq<Seq<char>>, n: nat) -> Seq<char>
    decreases n,
{
    if n == 0 || n > urls.len() {
        Seq::empty()
    } else {
        attachment_lines(urls, (n - 1) as nat) + attachment_line(urls[n - 1], n)
    }
}

pub open spec fn sender_part(sender: Option<Seq<char>>) -> Seq<char> {
    match sender {
        Some(name) => if trim_of(name).len() > 0 {
            "**From:** "@ + trim_of(name) + "\n\n"@
        } else {
            Seq::empty()
        },
        None => Seq::empty(),
    }
}

pub open spec fn system_part(i: SystemInfo) -> Seq<char> {
    "<details>\n<summary>System Information</summary>\n\n"@ + "| Item | Value |\n"@
        + "|------|-------|\n"@ + "| OS | "@ + i.os@ + " "@ + i.os_version@ + " |\n"@
        + "| App Version | "@ + i.app_version@ + " |\n"@ + "| Language | "@ + i.language@
        + " |\n"@ + "| Screen Resolution | "@ + i.screen_resolution@ + " |\n"@
        + "\n</details>\n"@
}

pub open spec fn attachments_part(urls: Seq<Seq<char>>) -> Seq<char> {
    if urls.len() == 0 {
        Seq::empty()
    } else {
        "\n## Attachments\n\n"@ + attachment_lines(urls, urls.len())
    }
}

/// The body of the discussion for a report: who sent it (if named), the
/// description, the system table, the attachments, and a closing line.
pub open spec fn discussion_body(
    description: Seq<char>,
    info: SystemInfo,
    urls: Seq<Seq<char>>,
    sender: Option<Seq<char>>,
) -> Seq<char> {
    sender_part(sender) + "## User Feedback\n\n"@ + description + "\n\n---\n\n"@ + system_part(
        info,
    ) + attachments_part(urls) + "\n---\n*Submitted via ETBSaveManager Feedback System*"@
}

pub open spec fn views_of(urls: Seq<String>) -> Seq<Seq<char>> {
    urls.map_values(|u: String| u@)
}

/// The part of `url` after its last `.`, or all of it.
fn extension(url: &str) -> (r: &str)
    ensures
        r@ == extension_of(url@),
{
    let n = url.unicode_len();
    let mut i = n;
    assert(url@.subrange(0, n as int) =~= url@);
    assert(url@.subrange(n as int, n as int) =~= Seq::<char>::empty());
    while i > 0
        invariant
            i <= n,
            n == url@.len(),
            extension_of(url@) == extension_of(url@.subrange(0, i as int)) + url@.subrange(
                i as int,
                n as int,
            ),
            forall|j: int| i <= j < n ==> url@[j] != '.',
        decreases i,
    {
        if url.get_char(i - 1) == '.' {
            proof {
                let pre = url@.subrange(0, i as int);
                assert(pre.last() == '.');
                assert(extension_of(pre) == Seq::<char>::empty());
                assert(url@.subrange(i as int, n as int) =~= extension_of(url@));
            }
            return url.substring_char(i, n);
        }
        proof {
            let pre = url@.subrange(0, i as int);
            assert(pre.drop_last() =~= url@.subrange(0, i - 1));
            assert(url@.subrange(i - 1, n as int) =~= url@.subrange(i - 1, i as int)
                + url@.subrange(i as int, n as int));
            assert(extension_of(pre) == extension_of(pre.drop_last()).push(pre.last()));
            assert(extension_of(url@) =~= extension_of(url@.subrange(0, i - 1)) + url@.subrange(
                i - 1,
                n as int,
            ));
        }
        i -= 1;
    }
    assert(url@.subrange(0, 0) =~= Seq::<char>::empty());
    assert(url@.subrange(0, n as int) =~= url@);
    url
}

/// The body of the discussion for a report.
pub fn format_discussion_body(
    description: &str,
    system_info: &SystemInfo,
    attachment_urls: &[String],
    sender: Option<&str>,
) -> (r: String)
    requires
        attachment_urls@.len() < usize::MAX,
    ensures
        r@ == discussion_body(
            description@,
            *system_info,
            views_of(attachment_urls@),
            opt_view(sender),
        ),
{
    let mut body = String::new();
    if let Some(name) = sender {
        let t = trim(name);
        if !t.is_empty() {
            push_str(&mut body, "**From:** ");
            push_str(&mut body, t);
            push_str(&mut body, "\n\n");
        }
    }
    assert(body@ =~= sender_part(opt_view(sender)));
    push_str(&mut body, "## User Feedback\n\n");
    push_str(&mut body, description);
    push_str(&mut body, "\n\n---\n\n");
    let ghost before_system = body@;
    push_str(&mut body, "<details>\n<summary>System Information</summary>\n\n");
    push_str(&mut body, "| Item | Value |\n");
    push_str(&mut body, "|------|-------|\n");
    push_str(&mut body, "| OS | ");
    push_str(&mut body, system_info.os.as_str());
    push_str(&mut body, " ");
    push_str(&mut body, system_info.os_version.as_str());
    push_str(&mut body, " |\n");
    push_str(&mut body, "| App Version | ");
    push_str(&mut body, system_info.app_version.as_str());
    push_str(&mut body, " |\n");
    push_str(&mut body, "| Language | ");
    push_str(&mut body, system_info.language.as_str());
    push_str(&mut body, " |\n");
    push_str(&mut body, "| Screen Resolution | ");
    push_str(&mut body, system_info.screen_resolution.as_str());
    push_str(&mut body, " |\n");
    push_str(&mut body, "\n</details>\n");
    assert(body@ =~= before_system + system_part(*system_info));
    let ghost before_attachments = body@;
    let ghost urls = views_of(attachment_urls@);
    if attachment_urls.len() > 0 {
        push_str(&mut body, "\n## Attachments\n\n");
        let ghost start = body@;
        let mut i: usize = 0;
        while i < attachment_urls.len()
            invariant
                i <= attachment_urls@.len(),
                attachment_urls@.len() < usize::MAX,
                urls == views_of(attachment_urls@),
                body@ == start + attachment_lines(urls, i as nat),
            decreases attachment_urls@.len() - i,
        {
            let url = attachment_urls[i].as_str();
            let ext = lowercase(extension(url));
            let e = ext.as_str();
            let image = str_eq(e, "png") || str_eq(e, "jpg") || str_eq(e, "jpeg") || str_eq(
                e,
                "gif",
            );
            let ghost before_line = body@;
            if image {
                push_str(&mut body, "![Attachment ");
            } else {
                push_str(&mut body, "- [Attachment ");
            }
            let number = decimal_string(i + 1);
            push_str(&mut body, number.as_str());
            push_str(&mut body, "](");
            push_str(&mut body, url);
            push_str(&mut body, ")\n");
            assert(urls[i as int] == url@);
            assert(body@ =~= before_line + attachment_line(urls[i as int], (i + 1) as nat));
            i += 1;
        }
        assert(body@ =~= before_attachments + attachments_part(urls));
    } else {
        assert(body@ =~= before_attachments + attachments_part(urls));
    }
    push_str(&mut body, "\n---\n*Submitted via ETBSaveManager Feedback System*");
    assert(body@ =~= discussion_body(description@, *system_info, urls, opt_view(sender)));
    body
}

/// A report as the user entered it.
#[derive(Debug, Clone)]
pub struct FeedbackData {
    pub feedback_type: String,
    pub severity: Option<String>,
    pub sender: Option<String>,
    pub title: String,
    pub description: String,
}

/// Longest title, in bytes.
pub const TITLE_MAX_LEN: usize = 100;

/// Longest description, in bytes.
pub const DESCRIPTION_MAX_LEN: usize = 60000;

pub open spec fn is_feedback_kind(l: Seq<char>) -> bool {
    l == "bug"@ || l == "idea"@ || l == "general"@ || l == "ui"@
}

pub open spec fn is_severity(l: Seq<char>) -> bool {
    l == "low"@ || l == "medium"@ || l == "high"@ || l == "critical"@
}

/// The message of the first check that a report fails, if any: a title and a
/// description are required, each within its length limit, the kind is one of
/// four, and a bug's severity, if given, is one of four.
pub open spec fn feedback_problem(d: FeedbackData) -> Option<Seq<char>> {
    if trim_of(d.title@).len() == 0 {
        Some("Title is required"@)
    } else if trim_of(d.description@).len() == 0 {
        Some("Description is required"@)
    } else if encode_utf8(d.title@).len() > TITLE_MAX_LEN {
        Some("Title must be 100 characters or less"@)
    } else if encode_utf8(d.description@).len() > DESCRIPTION_MAX_LEN {
        Some("Description must be 60000 characters or less"@)
    } else if !is_feedback_kind(ascii_lower(d.feedback_type@)) {
        Some("Invalid feedback type"@)
    } else if ascii_lower(d.feedback_type@) == "bug"@ && d.severity is Some
        && !is_severity(ascii_lower(d.severity->0@)) {
        Some("Invalid severity level"@)
    } else {
        None
    }
}

/// Checks a report before it is sent.
pub fn validate_feedback_input(data: &FeedbackData) -> (r: Result<(), AppError>)
    ensures
        match feedback_problem(*data) {
            None => r is Ok,
            Some(m) => r matches Err(e) && e.message@ == m,
        },
{
    if trim(data.title.as_str()).is_empty() {
        return Err(AppError::new("Title is required"));
    }
    if trim(data.description.as_str()).is_empty() {
        return Err(AppError::new("Description is required"));
    }
    let title = data.title.as_str();
    assert(title.spec_bytes() == encode_utf8(data.title@));
    if title.as_bytes().len() > TITLE_MAX_LEN {
        return Err(AppError::new("Title must be 100 characters or less"));
    }
    let description = data.description.as_str();
    assert(description.spec_bytes() == encode_utf8(data.description@));
    if description.as_bytes().len() > DESCRIPTION_MAX_LEN {
        return Err(AppError::new("Description must be 60000 characters or less"));
    }
    let kind = ascii_lowercase(data.feedback_type.as_str());
    let k = kind.as_str();
    if !(str_eq(k, "bug") || str_eq(k, "idea") || str_eq(k, "general") || str_eq(k, "ui")) {
        return Err(AppError::new("Invalid feedback type"));
    }
    if str_eq(k, "bug") {
        if let Some(severity) = &data.severity {
            assert(data.severity->0 == *severity);
            let sev = ascii_lowercase(severity.as_str());
            let s = sev.as_str();
            assert(s@ == ascii_lower(data.severity->0@));
            if !(str_eq(s, "low") || str_eq(s, "medium") || str_eq(s, "high") || str_eq(
                s,
                "critical",
            )) {
                return Err(AppError::new("Invalid severity level"));
            }
        }
    }
    Ok(())
}

/// One backend log line.
#[derive(Debug, Clone)]
pub struct BackendLogEntry {
    pub timestamp: String,
    pub level: String,
    pub message: String,
}

/// The most recent backend log lines, oldest first, at most `max_logs` of them.
pub struct BackendLogState {
    pub logs: Vec<BackendLogEntry>,
    pub max_logs: usize,
}

/// How many lines a new log keeps.
pub const MAX_LOGS: usize = 100;

/// `[timestamp] LEVEL: message` and a line break.
pub open spec fn log_line(e: BackendLogEntry) -> Seq<char> {
    "["@ + e.timestamp@ + "] "@ + upper_of(e.level@) + ": "@ + e.message@ + "\n"@
}

/// The lines of the first `n` entries.
pub open spec fn log_text(s: Seq<BackendLogEntry>, n: nat) -> Seq<char>
    decreases n,
{
    if n == 0 || n > s.len() {
        Seq::empty()
    } else {
        log_text(s, (n - 1) as nat) + log_line(s[n - 1])
    }
}

impl BackendLogState {
    pub open spec fn wf(&self) -> bool {
        0 < self.max_logs && self.logs@.len() <= self.max_logs
    }

    pub fn new() -> (r: BackendLogState)
        ensures
            r.wf(),
            r.logs@.len() == 0,
            r.max_logs == MAX_LOGS,
    {
        BackendLogState { logs: Vec::new(), max_logs: MAX_LOGS }
    }

    /// Adds a line at the end, dropping the oldest one when the log is full.
    pub fn add_log(&mut self, timestamp: &str, level: &str, message: &str)
        requires
            old(self).wf(),
        ensures
            final(self).wf(),
            final(self).max_logs == old(self).max_logs,
            ({
                let kept = if old(self).logs@.len() >= old(self).max_logs {
                    old(self).logs@.drop_first()
                } else {
                    old(self).logs@
                };
                &&& final(self).logs@.len() == kept.len() + 1
                &&& final(self).logs@.drop_last() == kept
                &&& final(self).logs@.last().timestamp@ == timestamp@
                &&& final(self).logs@.last().level@ == level@
                &&& final(self).logs@.last().message@ == message@
            }),
    {
        if self.logs.len() >= self.max_logs {
            self.logs.remove(0);
        }
        let ghost kept = self.logs@;
        self.logs.push(
            BackendLogEntry {
                timestamp: timestamp.to_owned(),
                level: level.to_owned(),
                message: message.to_owned(),
            },
        );
        assert(self.logs@.drop_last() =~= kept);
    }

    /// Every line, oldest first, with its level in capitals.
    pub fn get_logs_as_string(&self) -> (r: String)
        ensures
            r@ == log_text(self.logs@, self.logs@.len()),
    {
        let mut result = String::new();
        let mut i: usize = 0;
        while i < self.logs.len()
            invariant
                i <= self.logs@.len(),
                result@ == log_text(self.logs@, i as nat),
            decreases self.logs@.len() - i,
        {
            let log = &self.logs[i];
            let ghost before = result@;
            push_str(&mut result, "[");
            push_str(&mut result, log.timestamp.as_str());
            push_str(&mut result, "] ");
            let level = uppercase(log.level.as_str());
            push_str(&mut result, level.as_str());
            push_str(&mut result, ": ");
            push_str(&mut result, log.message.as_str());
            push_str(&mut result, "\n");
            assert(result@ =~= before + log_line(self.logs@[i as int]));
            i += 1;
        }
        assert(result@ == log_text(self.logs@, self.logs@.len()));
        result
    }
}

/// Relies on `uuid::Uuid::new_v4` and its `Display`: a random identifier in
/// hyphenated form, which is 36 characters long.
#[verifier::external_body]
fn new_feedback_id() -> (r: String)
    ensures
        r@.len() == 36,
{
    uuid::Uuid::new_v4().to_string()
}

/// Relies on `chrono::Utc::now` and `DateTime::to_rfc3339`: the current time
/// in UTC as RFC 3339 text.
#[verifier::external_body]
fn now_rfc3339() -> (r: String) {
    chrono::Utc::now().to_rfc3339()
}

/// A report kept for sending, with its state.
#[derive(Debug, Clone)]
pub struct FeedbackRecord {
    pub id: String,
    pub feedback_type: String,
    pub severity: Option<String>,
    pub title: String,
    pub description: String,
    pub system_info: SystemInfo,
    pub attachments: Vec<String>,
    pub status: String,
    pub discussion_id: Option<String>,
    pub discussion_url: Option<String>,
    pub retry_count: i32,
    pub created_at: String,
    pub updated_at: String,
}

impl FeedbackRecord {
    /// A new pending report with a fresh random id, created and updated now.
    pub fn new(
        feedback_type: String,
        severity: Option<String>,
        title: String,
        description: String,
        system_info: SystemInfo,
        attachments: Vec<String>,
    ) -> (r: FeedbackRecord)
        ensures
            r.id@.len() == 36,
            r.feedback_type == feedback_type,
            r.severity == severity,
            r.title == title,
            r.description == description,
            r.attachments == attachments,
            r.status@ == "pending"@,
            r.discussion_id is None,
            r.discussion_url is None,
            r.retry_count == 0,
            r.created_at@ == r.updated_at@,
    {
        let now = now_rfc3339();
        FeedbackRecord {
            id: new_feedback_id(),
            feedback_type,
            severity,
            title,
            description,
            system_info,
            attachments,
            status: FeedbackStatus::Pending.as_str().to_owned(),
            discussion_id: None,
            discussion_url: None,
            retry_count: 0,
            created_at: now.clone(),
            updated_at: now,
        }
    }
}

} // verus!
