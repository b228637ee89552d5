use doc_orchestrator::text::{remove_occurrences, text_ends_with};
use doc_orchestrator::commands::{fallback_search, search_limit, similar_limit, snippet_query};
use doc_orchestrator::document::Document;
use doc_orchestrator::file_manager::FileManager;
use doc_orchestrator::metadata::{MetadataCache, SidecarMetadata};
use doc_orchestrator::search_index::{hit_document_id, index_fields};
use doc_orchestrator::status::DocumentStatus;
use doc_orchestrator::relationship::{DocumentRelationships, RelationshipType};
use doc_orchestrator::store::{collect_relationships, document_from_sidecar, record_key, relationships_from_sidecar, RecordId};
use doc_orchestrator::watcher::{convert_event, DebounceQueue, FileEvent, WatchEventKind};

fn doc(id: &str, title: &str, content: &str) -> Document {
    let mut d = Document::new(id.to_string(), title.to_string(), format!("/ws/documents/{}.md", id));
    d.content = content.to_string();
    d
}

#[test]
fn workspace_paths() {
    let f = FileManager::new("/ws".to_string());
    assert_eq!(f.document_path("doc_1"), "/ws/documents/doc_1.md");
    assert_eq!(f.sidecar_path("doc_1"), "/ws/documents/doc_1.sidecar.json");
    assert_eq!(f.check_disk_space(), Ok(1024 * 1024 * 1024));
}

#[test]
fn listed_documents_are_markdown_files() {
    let f = FileManager::new("/ws".to_string());
    assert_eq!(f.listed_document_id("/ws/documents/doc_1.md"), Ok(Some("doc_1".to_string())));
    assert_eq!(f.listed_document_id("/ws/documents/doc_1.sidecar.json"), Ok(None));
    assert_eq!(f.listed_document_id("/ws/documents/notes"), Ok(None));
}

#[test]
fn sidecar_files_are_recognised() {
    let f = FileManager::new("/ws".to_string());
    assert!(f.is_sidecar_file("/ws/documents/doc_1.sidecar.json"));
    assert!(!f.is_sidecar_file("/ws/documents/doc_1.md"));
    assert!(!f.is_sidecar_file("/ws/documents/notes.json"));
    assert!(!f.is_sidecar_file("/ws/documents/doc_1.sidecar.json.tmp"));
    assert!(!f.is_sidecar_file("/ws/documents/doc_1.sidecar"));
}

#[test]
fn sidecar_records_document_metadata() {
    let f = FileManager::new("/ws".to_string());
    let mut d = doc("doc_1", "T", "c");
    d.status = DocumentStatus::Active;
    d.tags = vec!["x".to_string(), "y".to_string()];
    let m = f.sidecar_for(&d, &DocumentRelationships::new());
    assert_eq!(m.version, "1.0");
    assert!(m.relationships.supersedes.is_empty());
    assert!(m.relationships.references.is_empty());
    assert_eq!(m.id, "doc_1");
    assert_eq!(m.status, DocumentStatus::Active);
    assert_eq!(m.tags, d.tags);
    assert_eq!(m.created_at, d.created_at);
    let expected = doc_orchestrator::digest::short_hash("doc_1-active-[\"x\", \"y\"]");
    assert_eq!(m.metadata_checksum, Some(expected));
    let restored = document_from_sidecar(m, Some("doc_1.sidecar".to_string()), "c".to_string(), "/ws/documents/doc_1.md".to_string());
    assert_eq!(restored.id, d.id);
    assert_eq!(restored.status, d.status);
    assert_eq!(restored.tags, d.tags);
    assert_eq!(restored.title, "doc_1");
    assert_eq!(restored.created_at, d.created_at);
}

#[test]
fn sidecar_keeps_lineage() {
    let f = FileManager::new("/ws".to_string());
    let d = doc("doc_3", "T", "c");
    let mut rels = DocumentRelationships::new();
    rels.add_outgoing("doc_2".to_string(), RelationshipType::Supersedes);
    rels.add_outgoing("doc_1".to_string(), RelationshipType::Supersedes);
    rels.add_outgoing("doc_9".to_string(), RelationshipType::References);
    rels.add_incoming("doc_4".to_string(), RelationshipType::Supersedes);
    let m = f.sidecar_for(&d, &rels);
    assert_eq!(m.relationships.supersedes, vec!["doc_2".to_string(), "doc_1".to_string()]);
    assert_eq!(m.relationships.references, vec!["doc_9".to_string()]);

    let restored = relationships_from_sidecar(&m);
    assert_eq!(restored.len(), 3);
    assert_eq!(restored[0].id, "doc_3-supersedes-doc_2");
    assert_eq!(restored[1].from_document_id, "doc_3");
    assert_eq!(restored[1].to_document_id, "doc_1");
    assert_eq!(restored[2].relationship_type, RelationshipType::References);
    assert_eq!(restored[2].to_document_id, "doc_9");

    let back = collect_relationships(restored, Vec::new());
    assert_eq!(back.supersedes, rels.supersedes);
    assert_eq!(back.references, rels.references);
}

#[test]
fn restored_titles() {
    let m = SidecarMetadata::new("d".to_string());
    let r = document_from_sidecar(m, None, String::new(), String::new());
    assert_eq!(r.title, "Untitled");
    let m = SidecarMetadata::new("d".to_string());
    let r = document_from_sidecar(m, Some("a.sidecar.b.sidecar".to_string()), String::new(), String::new());
    assert_eq!(r.title, "a.b");
}

#[test]
fn metadata_cache_reads_back_writes() {
    let mut c = MetadataCache::new();
    assert!(c.get("a").is_none());
    c.insert("a".to_string(), SidecarMetadata::new("a".to_string()));
    let mut m = SidecarMetadata::new("a".to_string());
    m.status = DocumentStatus::Archived;
    c.insert("a".to_string(), m);
    c.insert("b".to_string(), SidecarMetadata::new("b".to_string()));
    assert_eq!(c.get("a").map(|m| m.status), Some(DocumentStatus::Archived));
    assert_eq!(c.remove("a").map(|m| m.status), Some(DocumentStatus::Archived));
    assert!(c.get("a").is_none());
    assert!(c.remove("a").is_none());
    assert!(c.get("b").is_some());
    c.clear();
    assert!(c.get("b").is_none());
}

#[test]
fn watcher_keeps_markdown_and_text() {
    let paths = vec!["/ws/a.md".to_string(), "/ws/b.txt".to_string(), "/ws/c.json".to_string()];
    let events = convert_event(WatchEventKind::Create, paths.clone());
    assert_eq!(events.len(), 2);
    assert!(matches!(&events[0], FileEvent::Created(p) if p == "/ws/a.md"));
    assert!(matches!(&events[1], FileEvent::Created(p) if p == "/ws/b.txt"));
    let events = convert_event(WatchEventKind::Any, paths.clone());
    assert!(matches!(&events[0], FileEvent::Modified(_)));
    let events = convert_event(WatchEventKind::Remove, paths.clone());
    assert!(matches!(&events[1], FileEvent::Deleted(_)));
    assert!(convert_event(WatchEventKind::Access, paths).is_empty());
}

#[test]
fn watcher_reports_modified_text_file() {
    let events = convert_event(WatchEventKind::Modify, vec!["/ws/documents/notes.txt".to_string()]);
    assert_eq!(events.len(), 1);
    assert!(matches!(&events[0], FileEvent::Modified(p) if p == "/ws/documents/notes.txt"));
    assert!(convert_event(WatchEventKind::Modify, vec!["/ws/documents/doc_1.sidecar.json".to_string()]).is_empty());
    assert!(convert_event(WatchEventKind::Create, vec!["/ws/documents/notes".to_string()]).is_empty());
}

#[test]
fn debounce_waits_for_quiet() {
    let mut q = DebounceQueue::new(0);
    q.on_event(FileEvent::Modified("/ws/a.md".to_string()), 100);
    q.on_event(FileEvent::Modified("/ws/b.md".to_string()), 150);
    assert!(q.on_tick(200, 100).is_empty());
    let released = q.on_tick(250, 100);
    assert_eq!(released.len(), 2);
    assert!(matches!(&released[0], FileEvent::Modified(p) if p == "/ws/a.md"));
    assert!(q.on_tick(1000, 100).is_empty());
}

#[test]
fn debounce_delivers_each_event_once_in_order() {
    let mut q = DebounceQueue::new(0);
    let mut delivered: Vec<FileEvent> = Vec::new();
    q.on_event(FileEvent::Created("/ws/a.md".to_string()), 10);
    delivered.extend(q.on_tick(50, 100));
    q.on_event(FileEvent::Modified("/ws/a.md".to_string()), 60);
    q.on_event(FileEvent::Deleted("/ws/b.txt".to_string()), 90);
    delivered.extend(q.on_tick(189, 100));
    assert!(delivered.is_empty());
    delivered.extend(q.on_tick(190, 100));
    q.on_event(FileEvent::Created("/ws/c.md".to_string()), 300);
    delivered.extend(q.on_tick(400, 100));
    delivered.extend(q.on_tick(500, 100));
    assert_eq!(delivered.len(), 4);
    assert!(matches!(&delivered[0], FileEvent::Created(p) if p == "/ws/a.md"));
    assert!(matches!(&delivered[1], FileEvent::Modified(p) if p == "/ws/a.md"));
    assert!(matches!(&delivered[2], FileEvent::Deleted(p) if p == "/ws/b.txt"));
    assert!(matches!(&delivered[3], FileEvent::Created(p) if p == "/ws/c.md"));
}

#[test]
fn fallback_search_filters_and_limits() {
    let docs = vec![doc("1", "Rust Notes", ""), doc("2", "Cooking", "rust removal tips"), doc("3", "Go", "none"), doc("4", "RUST", "")];
    let found = fallback_search(docs, "rust", 2);
    let ids: Vec<&str> = found.iter().map(|d| d.id.as_str()).collect();
    assert_eq!(ids, vec!["1", "2"]);
    let all = fallback_search(vec![doc("1", "a", ""), doc("2", "b", "")], "", 10);
    assert_eq!(all.len(), 2);
}

#[test]
fn default_limits() {
    assert_eq!(search_limit(None), 10);
    assert_eq!(search_limit(Some(3)), 3);
    assert_eq!(similar_limit(None), 5);
}

#[test]
fn snippet_queries() {
    assert_eq!(snippet_query("x", Some("active".to_string()), Some("t".to_string())), "(x) AND status:active AND tags:t");
    assert_eq!(snippet_query("x", Some("draft".to_string()), None), "(x) AND status:draft");
    assert_eq!(snippet_query("x", None, Some("t".to_string())), "(x) AND tags:t");
    assert_eq!(snippet_query("x", None, None), "x");
}

#[test]
fn index_fields_join_tags() {
    let mut d = doc("1", "T", "c");
    d.tags = vec!["a".to_string(), "b c".to_string()];
    let f = index_fields(&d);
    assert_eq!(f.tags, "a b c");
    assert_eq!(f.status, "draft");
    assert_eq!(hit_document_id(Some(String::new())), None);
    assert_eq!(hit_document_id(Some("1".to_string())), Some("1".to_string()));
}

#[test]
fn record_keys() {
    assert_eq!(record_key(RecordId::Text("documents:doc_1".to_string())), "doc_1");
    assert_eq!(record_key(RecordId::Text("a:b:c".to_string())), "c");
    assert_eq!(record_key(RecordId::Text("plain".to_string())), "plain");
    assert_eq!(
        record_key(RecordId::Thing { id: None, id_string: Some("doc_2".to_string()), upper_id: Some("x".to_string()) }),
        "doc_2"
    );
    assert_eq!(record_key(RecordId::Missing), "");
}

#[test]
fn removing_text() {
    assert_eq!(remove_occurrences("a.sidecar.b.sidecar", ".sidecar"), "a.b");
    assert_eq!(remove_occurrences("aaa", "aa"), "a");
    assert_eq!(remove_occurrences("abc", ""), "abc");
    assert_eq!(remove_occurrences("", "x"), "");
}

#[test]
fn suffixes() {
    assert!(text_ends_with("a.sidecar", ".sidecar"));
    assert!(text_ends_with(".sidecar", ".sidecar"));
    assert!(!text_ends_with("sidecar", ".sidecar"));
    assert!(text_ends_with("abc", ""));
    assert!(!text_ends_with("a.sidecars", ".sidecar"));
}
