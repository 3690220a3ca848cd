//! The stream framing, the session-title and file-name helpers, and the
//! data models.

use nexa_frontend::models::ApiKeysUpdateRequest;
use nexa_frontend::models::ChatMessage;
use nexa_frontend::models::ChatRequest;
use nexa_frontend::models::ChatSession;
use nexa_frontend::models::ConnectionTestRequest;
use nexa_frontend::models::Role;
use nexa_frontend::sse::parse_next_sse_event;
use nexa_frontend::textinfo::file_type_class;
use nexa_frontend::textinfo::is_valid_extension;
use nexa_frontend::textinfo::title_from_messages;

fn msg(role: Role, text: &str) -> ChatMessage {
    ChatMessage { role, text: text.to_string(), sources: vec![], streaming: false }
}

#[test]
fn sse_complete_event_is_cut_off_the_buffer() {
    let mut buf = "event: token\ndata: \"hi\"\n\nXYZ".to_string();
    let frame = parse_next_sse_event(&mut buf).unwrap();
    assert_eq!(frame.event, "token");
    assert_eq!(frame.data, "\"hi\"");
    assert_eq!(buf, "XYZ");
}

#[test]
fn sse_incomplete_event_leaves_the_buffer_alone() {
    let mut buf = "event: token\ndata: x".to_string();
    assert!(parse_next_sse_event(&mut buf).is_none());
    assert_eq!(buf, "event: token\ndata: x");
}

#[test]
fn sse_event_type_is_trimmed_and_last_headers_win() {
    let mut buf = "event:  done \ndata: a\ndata: b\n\n".to_string();
    let frame = parse_next_sse_event(&mut buf).unwrap();
    assert_eq!(frame.event, "done");
    assert_eq!(frame.data, "b");
    assert_eq!(buf, "");
}

#[test]
fn sse_missing_headers_give_empty_fields() {
    let mut buf = ": comment\n\nrest".to_string();
    let frame = parse_next_sse_event(&mut buf).unwrap();
    assert_eq!(frame.event, "");
    assert_eq!(frame.data, "");
    assert_eq!(buf, "rest");
}

#[test]
fn sse_events_can_be_drained_in_order() {
    let mut buf = "event: token\ndata: a\n\nevent: done\ndata: z\n\n".to_string();
    let first = parse_next_sse_event(&mut buf).unwrap();
    assert_eq!(first.event, "token");
    let second = parse_next_sse_event(&mut buf).unwrap();
    assert_eq!(second.event, "done");
    assert!(parse_next_sse_event(&mut buf).is_none());
}

#[test]
fn title_defaults_without_a_user_message() {
    assert_eq!(title_from_messages(&vec![]), "New Chat");
    let ms = vec![msg(Role::Assistant, "hello")];
    assert_eq!(title_from_messages(&ms), "New Chat");
}

#[test]
fn title_comes_from_the_first_user_message() {
    let ms = vec![
        msg(Role::Assistant, "welcome"),
        msg(Role::User, "short question"),
        msg(Role::User, "second"),
    ];
    assert_eq!(title_from_messages(&ms), "short question");
}

#[test]
fn long_titles_are_cut_at_forty_characters_with_ellipsis() {
    let long = "abcdefghij".repeat(5);
    let ms = vec![msg(Role::User, &long)];
    let title = title_from_messages(&ms);
    assert_eq!(title, format!("{}...", &long[..40]));
}

#[test]
fn file_type_class_by_extension() {
    assert_eq!(file_type_class("report.pdf"), "doc-icon--pdf");
    assert_eq!(file_type_class("REPORT.PDF"), "doc-icon--pdf");
    assert_eq!(file_type_class("notes.md"), "doc-icon--md");
    assert_eq!(file_type_class("spec.rst"), "doc-icon--md");
    assert_eq!(file_type_class("main.rs"), "doc-icon--code");
    assert_eq!(file_type_class("page.html"), "doc-icon--code");
    assert_eq!(file_type_class("data.csv"), "doc-icon--data");
    assert_eq!(file_type_class("book.xlsx"), "doc-icon--data");
    assert_eq!(file_type_class("noext"), "doc-icon--text");
    assert_eq!(file_type_class("archive.tar.gz"), "doc-icon--text");
}

#[test]
fn upload_extension_allowlist() {
    assert!(is_valid_extension("a.pdf"));
    assert!(is_valid_extension("A.PDF"));
    assert!(is_valid_extension("notes.md"));
    assert!(is_valid_extension("report.docx"));
    assert!(is_valid_extension("page.htm"));
    assert!(!is_valid_extension("prog.exe"));
    assert!(!is_valid_extension("pdf"));
    assert!(!is_valid_extension(""));
}

#[test]
fn models_hold_their_fields() {
    let req = ChatRequest { message: "hi".to_string(), session_id: None };
    assert_eq!(req.message, "hi");
    let session = ChatSession {
        id: "s-1".to_string(),
        title: "t".to_string(),
        messages: vec![msg(Role::User, "q")],
        documents: vec!["d.pdf".to_string()],
        created_at: "now".to_string(),
    };
    assert_eq!(session.messages.len(), 1);
    assert_eq!(session.messages[0].role, Role::User);
    let keys = ApiKeysUpdateRequest::default();
    assert!(keys.llm_provider.is_none());
    let probe = ConnectionTestRequest::default();
    assert!(probe.base_url.is_none());
}
