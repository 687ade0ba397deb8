use codehelm::protocol::{ConversationItem, Role};
use codehelm::session::{
    latest_id, requested_session, validate_id, Session, SessionFile, SessionListing,
    SessionRecorder, SessionRequest, SessionStore, SessionSummary, SCHEMA_VERSION,
};
use codehelm::AgentError;

fn error(message: &str) -> AgentError {
    AgentError::Session(message.to_owned())
}

fn session(id: &str, schema_version: u32) -> Session {
    Session {
        schema_version,
        id: id.to_owned(),
        mode: "build".to_owned(),
        provider: "openai".to_owned(),
        model: "model".to_owned(),
        created_at_ms: 1,
        updated_at_ms: 2,
        items: vec![],
    }
}

fn summary(id: &str, updated_at_ms: u128, schema_version: u32) -> SessionFile {
    SessionFile {
        json: true,
        summary: Some(SessionSummary { schema_version, updated_at_ms, id: id.to_owned() }),
    }
}

#[test]
fn atomically_saves_and_resumes_latest_session() {
    let store = SessionStore::create(1_000, 7, 0, "build", "openai", "model");
    let id = store.id().to_owned();
    let mut recorder = SessionRecorder::new(store);
    recorder.record(
        &vec![ConversationItem::Message { role: Role::User, content: "task".to_owned() }],
        1_001,
    );
    let kept = recorder.store().session();
    let files = vec![summary(&kept.id, kept.updated_at_ms, kept.schema_version)];
    assert_eq!(requested_session("latest"), Ok(SessionRequest::Latest));
    let latest = latest_id(SessionListing::Files(files)).unwrap();
    assert_eq!(format!("{latest}.json"), recorder.store().file_name());
    let read = Session { items: recorder.items(), updated_at_ms: 1_001, ..session(&latest, 1) };
    let loaded = SessionStore::load(&latest, Ok(read)).unwrap();
    assert_eq!(loaded.id(), id);
    assert_eq!(loaded.session().items.len(), 1);
    assert_eq!(loaded.journal_name(), format!("{id}.jsonl"));
}

#[test]
fn rejects_traversal_and_corrupt_sessions() {
    assert!(requested_session("../escape").is_err());
    assert_eq!(requested_session("broken"), Ok(SessionRequest::Id("broken".to_owned())));
    let parsed = codehelm::json::parse_bytes(b"{").map(|_| session("broken", 1));
    let refused = SessionStore::load("broken", parsed).err().unwrap();
    assert!(refused.describe().contains("corrupt"));
}

#[test]
fn new_sessions_are_empty_and_identified() {
    let store = SessionStore::create(5, 6, 7, "plan", "ollama", "qwen3");
    assert_eq!(store.id(), "5-6-7");
    assert_eq!(store.file_name(), "5-6-7.json");
    assert_eq!(store.journal_name(), "5-6-7.jsonl");
    let session = store.session();
    assert_eq!(session.schema_version, SCHEMA_VERSION);
    assert_eq!((session.created_at_ms, session.updated_at_ms), (5, 5));
    assert_eq!((session.mode.as_str(), session.provider.as_str()), ("plan", "ollama"));
    assert_eq!(session.model, "qwen3");
    assert!(session.items.is_empty());
    assert_eq!(validate_id(store.id()), Ok(()));
}

#[test]
fn saving_keeps_all_but_items_and_time() {
    let mut recorder = SessionRecorder::new(SessionStore::create(5, 6, 7, "plan", "p", "m"));
    let items =
        vec![ConversationItem::ToolResult { id: "i".to_owned(), output: "o".to_owned() }];
    recorder.record(&items, 9);
    let session = recorder.store().session();
    assert_eq!((session.created_at_ms, session.updated_at_ms), (5, 9));
    assert_eq!(session.items, items);
    assert_eq!(recorder.items(), items);
    assert_eq!(recorder.id(), "5-6-7");
}

#[test]
fn loading_checks_schema_and_id() {
    assert_eq!(
        SessionStore::load("a", Ok(session("a", 2))).err(),
        Some(error("unsupported session schema 2"))
    );
    assert_eq!(
        SessionStore::load("a", Ok(session("b", 1))).err(),
        Some(error("session id does not match filename"))
    );
    assert_eq!(
        SessionStore::load("a", Err("eof".to_owned())).err(),
        Some(error("session a is corrupt: eof"))
    );
    assert_eq!(validate_id(""), Err(error("invalid session id")));
    assert_eq!(validate_id("a b"), Err(error("invalid session id")));
    assert_eq!(validate_id("a-b_C9"), Ok(()));
}

#[test]
fn the_latest_valid_session_is_found() {
    let files = vec![
        summary("old", 1, 1),
        SessionFile { json: false, summary: None },
        summary("first", 5, 1),
        summary("second", 5, 1),
        summary("foreign", 9, 2),
        SessionFile { json: true, summary: None },
    ];
    assert_eq!(latest_id(SessionListing::Files(files)), Ok("first".to_owned()));
    assert_eq!(
        latest_id(SessionListing::Files(vec![summary("x", 1, 3)])),
        Err(error("no valid saved sessions"))
    );
    assert_eq!(latest_id(SessionListing::Missing), Err(error("no saved sessions")));
    assert_eq!(
        latest_id(SessionListing::Failed("denied".to_owned())),
        Err(error("denied"))
    );
}

#[test]
fn the_last_recording_counts() {
    let said = |content: &str| {
        vec![ConversationItem::Message { role: Role::User, content: content.to_owned() }]
    };
    let mut recorder = SessionRecorder::new(SessionStore::create(5, 6, 7, "plan", "p", "m"));
    recorder.record(&said("first"), 8);
    recorder.record(&said("second"), 9);
    assert_eq!(recorder.items(), said("second"));
    let kept = recorder.store().session();
    assert_eq!((kept.created_at_ms, kept.updated_at_ms), (5, 9));
    let mut once = SessionRecorder::new(SessionStore::create(5, 6, 7, "plan", "p", "m"));
    once.record(&said("second"), 9);
    assert_eq!(once.store().session(), kept);
}

#[test]
fn recorded_sessions_are_found_by_id_and_as_the_latest() {
    let mut recorder = SessionRecorder::new(SessionStore::create(5, 6, 7, "build", "openai", "model"));
    recorder.record(&vec![], 9);
    let id = recorder.id().to_owned();
    assert_eq!(requested_session(&id), Ok(SessionRequest::Id(id.clone())));
    let kept = recorder.store().session();
    let files = vec![
        summary("older", 8, 1),
        summary(&kept.id, kept.updated_at_ms, kept.schema_version),
        summary("oldest", 1, 1),
    ];
    assert_eq!(latest_id(SessionListing::Files(files)), Ok(id.clone()));
    let read = Session { created_at_ms: 5, updated_at_ms: 9, ..session(&id, 1) };
    let loaded = SessionStore::load(&id, Ok(read)).unwrap();
    assert_eq!(loaded.session(), kept);
}
