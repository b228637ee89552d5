use doc_orchestrator::commands::plan_relationship;
use doc_orchestrator::errors::AxiomError;
use doc_orchestrator::relationship::{DocumentRelationships, Relationship, RelationshipType};
use doc_orchestrator::store::{collect_relationships, validate_relationship};

fn rel(from: &str, to: &str, t: RelationshipType) -> Relationship {
    Relationship::new(from.to_string(), to.to_string(), t)
}

#[test]
fn relationship_ids_and_validity() {
    let r = rel("doc_a", "doc_b", RelationshipType::Supersedes);
    assert_eq!(r.id, "doc_a-supersedes-doc_b");
    assert!(r.is_valid());
    assert!(!rel("doc_a", "doc_a", RelationshipType::References).is_valid());
    assert_eq!(validate_relationship(&r), Ok(()));
    assert_eq!(
        validate_relationship(&rel("x", "x", RelationshipType::References)),
        Err(AxiomError::InvalidStatusTransition { from: "x".to_string(), to: "x".to_string() })
    );
}

#[test]
fn outgoing_relationships_are_unique() {
    let mut r = DocumentRelationships::new();
    r.add_outgoing("b".to_string(), RelationshipType::References);
    r.add_outgoing("b".to_string(), RelationshipType::References);
    r.add_outgoing("c".to_string(), RelationshipType::Supersedes);
    assert_eq!(r.references, vec!["b".to_string()]);
    assert_eq!(r.supersedes, vec!["c".to_string()]);
    r.remove_outgoing("b", RelationshipType::References);
    assert!(r.references.is_empty());
    assert_eq!(r.supersedes, vec!["c".to_string()]);
}

#[test]
fn incoming_relationships() {
    let mut r = DocumentRelationships::new();
    r.add_incoming("x".to_string(), RelationshipType::Supersedes);
    r.add_incoming("y".to_string(), RelationshipType::Supersedes);
    assert_eq!(r.superseded_by.as_deref(), Some("y"));
    r.remove_incoming("x", RelationshipType::Supersedes);
    assert_eq!(r.superseded_by.as_deref(), Some("y"));
    r.remove_incoming("y", RelationshipType::Supersedes);
    assert!(r.superseded_by.is_none());
    r.add_incoming("z".to_string(), RelationshipType::References);
    r.add_incoming("z".to_string(), RelationshipType::References);
    assert_eq!(r.referenced_by, vec!["z".to_string()]);
    r.remove_incoming("z", RelationshipType::References);
    assert!(r.referenced_by.is_empty());
}

#[test]
fn relationships_collected_from_store() {
    let out = vec![rel("a", "b", RelationshipType::Supersedes), rel("a", "c", RelationshipType::References), rel("a", "c", RelationshipType::References)];
    let inc = vec![rel("z", "a", RelationshipType::Supersedes), rel("y", "a", RelationshipType::References)];
    let r = collect_relationships(out, inc);
    assert_eq!(r.supersedes, vec!["b".to_string()]);
    assert_eq!(r.references, vec!["c".to_string()]);
    assert_eq!(r.superseded_by.as_deref(), Some("z"));
    assert_eq!(r.referenced_by, vec!["y".to_string()]);
}

#[test]
fn relationship_requests() {
    match plan_relationship("a".to_string(), "b".to_string(), "supersedes", true, true) {
        Ok(r) => {
            assert_eq!(r.relationship_type, RelationshipType::Supersedes);
            assert_eq!(r.id, "a-supersedes-b");
        },
        Err(_) => panic!("valid request refused"),
    }
    match plan_relationship("a".to_string(), "b".to_string(), "supersedes", false, false) {
        Err(e) => assert_eq!(e, AxiomError::DocumentNotFound("a".to_string())),
        Ok(_) => panic!("missing source accepted"),
    }
    match plan_relationship("a".to_string(), "b".to_string(), "references", true, false) {
        Err(e) => assert_eq!(e, AxiomError::DocumentNotFound("b".to_string())),
        Ok(_) => panic!("missing target accepted"),
    }
    match plan_relationship("a".to_string(), "b".to_string(), "Supersedes", true, true) {
        Err(e) => assert_eq!(
            e,
            AxiomError::InvalidStatusTransition { from: "Supersedes".to_string(), to: "valid type".to_string() }
        ),
        Ok(_) => panic!("unknown kind accepted"),
    }
}

#[test]
fn relationship_type_names() {
    assert_eq!(RelationshipType::References.to_string(), "references");
    assert_eq!(RelationshipType::from_name("supersedes"), Some(RelationshipType::Supersedes));
    assert_eq!(RelationshipType::from_name("other"), None);
}

#[test]
fn removing_a_new_relationship_restores_the_old_state() {
    let mut r = DocumentRelationships::new();
    r.add_outgoing("a".to_string(), RelationshipType::Supersedes);
    r.add_outgoing("b".to_string(), RelationshipType::Supersedes);
    r.remove_outgoing("b", RelationshipType::Supersedes);
    assert_eq!(r.supersedes, vec!["a".to_string()]);
}

#[test]
fn collected_relationships_are_sets_of_each_kind() {
    let s = RelationshipType::Supersedes;
    let r = RelationshipType::References;
    let outgoing = vec![rel("a", "b", s), rel("a", "c", r), rel("a", "b", s), rel("a", "d", s)];
    let incoming = vec![rel("x", "a", s), rel("y", "a", r), rel("z", "a", s), rel("y", "a", r)];
    let c = collect_relationships(outgoing, incoming);
    assert_eq!(c.supersedes, vec!["b".to_string(), "d".to_string()]);
    assert_eq!(c.references, vec!["c".to_string()]);
    assert_eq!(c.superseded_by, Some("z".to_string()));
    assert_eq!(c.referenced_by, vec!["y".to_string()]);
    let none = collect_relationships(Vec::new(), vec![rel("y", "a", r)]);
    assert_eq!(none.superseded_by, None);
}
