use doc_orchestrator::clock::{timestamp_from_offset, Timestamp};
use doc_orchestrator::commands::{apply_document_update, apply_document_update_at, new_document, parse_status_request};
use doc_orchestrator::digest::{content_hash, short_hash};
use doc_orchestrator::document::Document;
use doc_orchestrator::errors::AxiomError;
use doc_orchestrator::ids::{document_id, new_document_id};
use doc_orchestrator::status::DocumentStatus;
use doc_orchestrator::store::{transition_status, transition_status_at};

fn doc(status: DocumentStatus) -> Document {
    let mut d = Document::new("doc_1".to_string(), "Title".to_string(), "/ws/documents/doc_1.md".to_string());
    d.status = status;
    d
}

#[test]
fn status_names_round_trip() {
    for s in [DocumentStatus::Draft, DocumentStatus::Active, DocumentStatus::Superseded, DocumentStatus::Archived] {
        assert_eq!(DocumentStatus::parse(&s.to_string()), Ok(s));
    }
    assert_eq!(DocumentStatus::Superseded.to_string(), "superseded");
}

#[test]
fn status_parse_ignores_case() {
    assert_eq!(DocumentStatus::parse("ACTIVE"), Ok(DocumentStatus::Active));
    assert_eq!(DocumentStatus::parse("Archived"), Ok(DocumentStatus::Archived));
}

#[test]
fn status_parse_rejects_unknown() {
    assert_eq!(DocumentStatus::parse("outdated"), Err("Invalid status: outdated".to_string()));
    assert_eq!(DocumentStatus::parse(""), Err("Invalid status: ".to_string()));
}

#[test]
fn new_document_is_empty_draft() {
    let d = Document::new("id".to_string(), "T".to_string(), "p".to_string());
    assert_eq!(d.status, DocumentStatus::Draft);
    assert_eq!(d.content, "");
    assert!(d.tags.is_empty());
    assert_eq!(d.created_at, d.updated_at);
    assert!(d.content_hash.is_none());
    assert!(d.embedding.is_none());
}

#[test]
fn readonly_statuses() {
    assert!(!doc(DocumentStatus::Draft).is_readonly());
    assert!(!doc(DocumentStatus::Active).is_readonly());
    assert!(doc(DocumentStatus::Superseded).is_readonly());
    assert!(doc(DocumentStatus::Archived).is_readonly());
}

#[test]
fn lifecycle_moves() {
    assert!(doc(DocumentStatus::Draft).can_transition_to(&DocumentStatus::Active));
    assert!(doc(DocumentStatus::Active).can_transition_to(&DocumentStatus::Superseded));
    assert!(doc(DocumentStatus::Active).can_transition_to(&DocumentStatus::Archived));
    assert!(!doc(DocumentStatus::Draft).can_transition_to(&DocumentStatus::Archived));
    assert!(!doc(DocumentStatus::Superseded).can_transition_to(&DocumentStatus::Active));
    assert!(!doc(DocumentStatus::Archived).can_transition_to(&DocumentStatus::Draft));
}

#[test]
fn update_content_records_hash() {
    let mut d = doc(DocumentStatus::Draft);
    d.update_content("hello".to_string());
    assert_eq!(d.content, "hello");
    assert_eq!(
        d.content_hash.as_deref(),
        Some("2cf24dba5fb0a30e26e83b2ac5b9e29e1b161e5c1fa7425e73043362938b9824")
    );
    assert_eq!(d.title, "Title");
}

#[test]
fn hashes_of_empty_text() {
    assert_eq!(content_hash(""), "e3b0c44298fc1c149afbf4c8996fb92427ae41e4649b934ca495991b7852b855");
    assert_eq!(short_hash(""), "e3b0c44298fc1c14");
}

#[test]
fn identifiers_come_from_uuid_text() {
    let bytes: [u8; 16] = [0x67, 0xe5, 0x50, 0x44, 0x10, 0xb1, 0x42, 0x6f, 0x92, 0x47, 0xbb, 0x68, 0x0e, 0x5f, 0xe0, 0xc8];
    assert_eq!(document_id(&bytes), "doc_67e5504410b1426f");
}

#[test]
fn new_ids_are_version_4_uuids() {
    assert_eq!(new_document_id([0; 16]), "doc_0000000000004000");
    let bytes: [u8; 16] = [0x67, 0xe5, 0x50, 0x44, 0x10, 0xb1, 0x42, 0x6f, 0x92, 0x47, 0xbb, 0x68, 0x0e, 0x5f, 0xe0, 0xc8];
    assert_eq!(new_document_id(bytes), "doc_67e5504410b1426f");
}

#[test]
fn created_documents_live_in_the_workspace() {
    let d = new_document("/ws", "Plan".to_string(), "body".to_string(), [0xff; 16]);
    // The version nibble of byte 6 becomes 4.
    assert_eq!(d.id, "doc_ffffffffffff4fff");
    assert_eq!(d.path, format!("/ws/documents/{}.md", d.id));
    assert_eq!(d.title, "Plan");
    assert_eq!(d.content, "body");
    assert_eq!(d.status, DocumentStatus::Draft);
    assert!(d.content_hash.is_none());
}

#[test]
fn updates_refused_on_readonly_documents() {
    let r = apply_document_update(doc(DocumentStatus::Superseded), Some("x".to_string()), None, None);
    match r {
        Err(e) => assert_eq!(
            e,
            AxiomError::InvalidStatusTransition { from: "superseded".to_string(), to: "modified".to_string() }
        ),
        Ok(_) => panic!("read-only document was modified"),
    }
}

#[test]
fn updates_apply_given_fields() {
    let d = doc(DocumentStatus::Active);
    let before = d.updated_at;
    let r = apply_document_update(d, None, Some("new".to_string()), Some(vec!["a".to_string()])).unwrap();
    assert_eq!(r.title, "Title");
    assert_eq!(r.content, "new");
    assert_eq!(r.tags, vec!["a".to_string()]);
    assert_eq!(r.content_hash, Some(content_hash("new")));
    assert!(r.updated_at >= before);
    let unchanged = apply_document_update(doc(DocumentStatus::Draft), None, None, None).unwrap();
    assert_eq!(unchanged.title, "Title");
}

#[test]
fn status_requests() {
    assert_eq!(parse_status_request("doc_1", "Active"), Ok(DocumentStatus::Active));
    assert_eq!(
        parse_status_request("doc_1", "gone"),
        Err(AxiomError::InvalidStatusTransition { from: "doc_1".to_string(), to: "Invalid status: gone".to_string() })
    );
}

#[test]
fn status_transitions_in_store() {
    let r = transition_status(Some(doc(DocumentStatus::Draft)), "doc_1", DocumentStatus::Active).unwrap();
    assert_eq!(r.status, DocumentStatus::Active);
    match transition_status(Some(doc(DocumentStatus::Archived)), "doc_1", DocumentStatus::Active) {
        Err(e) => assert_eq!(
            e,
            AxiomError::InvalidStatusTransition { from: "archived".to_string(), to: "active".to_string() }
        ),
        Ok(_) => panic!("archived document reopened"),
    }
    match transition_status(None, "doc_9", DocumentStatus::Active) {
        Err(e) => assert_eq!(e, AxiomError::DocumentNotFound("doc_9".to_string())),
        Ok(_) => panic!("missing document found"),
    }
}

#[test]
fn error_messages() {
    assert_eq!(AxiomError::WorkspaceNotInitialized.message(), "Workspace not initialized");
    assert_eq!(AxiomError::DocumentNotFound("d".to_string()).message(), "Document not found: d");
    assert_eq!(
        AxiomError::InvalidStatusTransition { from: "a".to_string(), to: "b".to_string() }.message(),
        "Invalid status transition from a to b"
    );
}

#[test]
fn edits_and_moves_take_the_given_time() {
    let t = Timestamp { secs: 1_700_000_000, nanos: 5 };
    let d = apply_document_update_at(doc(DocumentStatus::Draft), Some("New".to_string()), None, None, t).unwrap();
    assert_eq!(d.title, "New");
    assert_eq!(d.updated_at, t);
    let before = doc(DocumentStatus::Draft);
    let same = apply_document_update_at(before.clone(), None, None, None, t).unwrap();
    assert_eq!(same.updated_at, before.updated_at);
    let moved = transition_status_at(Some(doc(DocumentStatus::Active)), "doc_1", DocumentStatus::Archived, t).unwrap();
    assert_eq!(moved.status, DocumentStatus::Archived);
    assert_eq!(moved.updated_at, t);
    assert!(transition_status_at(Some(doc(DocumentStatus::Draft)), "doc_1", DocumentStatus::Archived, t).is_err());
}

#[test]
fn clock_offsets() {
    assert_eq!(timestamp_from_offset(Ok((10, 5))), Timestamp { secs: 10, nanos: 5 });
    assert_eq!(timestamp_from_offset(Err((10, 0))), Timestamp { secs: -10, nanos: 0 });
    assert_eq!(timestamp_from_offset(Err((10, 250_000_000))), Timestamp { secs: -11, nanos: 750_000_000 });
    assert_eq!(timestamp_from_offset(Ok((u64::MAX, 0))), Timestamp { secs: i64::MAX, nanos: 0 });
    assert_eq!(timestamp_from_offset(Err((u64::MAX, 1))), Timestamp { secs: i64::MIN, nanos: 999_999_999 });
}
