//! The decisions of the document store: restoring documents from sidecars,
//! lifecycle changes, relationship checks and the relationships of a
//! document, and the keys of stored records.

use vstd::prelude::*;
use vstd::string::*;
use crate::clock::{now, Timestamp};
use crate::document::Document;
use crate::errors::AxiomError;
use crate::metadata::SidecarMetadata;
use crate::relationship::{DocumentRelationships, RelationsView, Relationship, RelationshipType, relationship_id, lemma_insert_id_contents};
use crate::status::{DocumentStatus, lifecycle_allows, status_name};
use crate::text::{after_last_colon, id_views, remove_occurrences, remove_text, text_after_last_colon};
use crate::file_manager::{sidecar_describes, sidecar_lineage};

verus! {

/// The title a document gets back from its sidecar file: the sidecar file's
/// stem (`Untitled` when there is none) with `.sidecar` taken out.
pub open spec fn restored_title(file_stem: Option<Seq<char>>) -> Seq<char> {
    remove_text(
        match file_stem {
            Some(s) => s,
            None => "Untitled"@,
        },
        ".sidecar"@,
    )
}

/// A document restored from sidecar metadata takes from it its identifier,
/// status, tags and times.
pub open spec fn restored_from(d: Document, m: SidecarMetadata) -> bool {
    &&& d.id == m.id
    &&& d.status == m.status
    &&& d.tags == m.tags
    &&& d.created_at == m.created_at
    &&& d.updated_at == m.updated_at
}

/// The document restored from its sidecar metadata and its content file.
pub fn document_from_sidecar(
    sidecar: SidecarMetadata,
    sidecar_file_stem: Option<String>,
    content: String,
    doc_path: String,
) -> (d: Document)
    ensures
        restored_from(d, sidecar),
        d.title@ == restored_title(
            match sidecar_file_stem {
                Some(s) => Some(s@),
                None => None,
            },
        ),
        d.content == content,
        d.path == doc_path,
        d.content_hash is None,
        d.embedding is None,
{
    let stem = match sidecar_file_stem {
        Some(s) => s,
        None => String::from_str("Untitled"),
    };
    proof {
        reveal_strlit(".sidecar");
    }
    let title = remove_occurrences(stem.as_str(), ".sidecar");
    Document {
        id: sidecar.id,
        title,
        content,
        status: sidecar.status,
        path: doc_path,
        tags: sidecar.tags,
        created_at: sidecar.created_at,
        updated_at: sidecar.updated_at,
        content_hash: None,
        embedding: None,
    }
}

/// Moves a stored document to `status` at time `now`: an absent document is
/// not found, a move that the lifecycle does not allow is refused, and an
/// allowed move sets the status and makes `now` the modification time.
pub fn transition_status_at(
    document: Option<Document>,
    id: &str,
    status: DocumentStatus,
    now: Timestamp,
) -> (r: Result<Document, AxiomError>)
    ensures
        match document {
            None => r matches Err(AxiomError::DocumentNotFound(m)) && m@ == id@,
            Some(d) => if lifecycle_allows(d.status, status) {
                r == Ok::<Document, AxiomError>(Document { status: status, updated_at: now, ..d })
            } else {
                r matches Err(AxiomError::InvalidStatusTransition { from, to }) && from@ == status_name(d.status)
                    && to@ == status_name(status)
            },
        },
{
    match document {
        None => Err(AxiomError::DocumentNotFound(String::from_str(id))),
        Some(mut doc) => {
            if !doc.can_transition_to(&status) {
                return Err(AxiomError::InvalidStatusTransition { from: doc.status.to_string(), to: status.to_string() });
            }
            doc.status = status;
            doc.updated_at = now;
            Ok(doc)
        },
    }
}

/// Moves a stored document to `status` now (see `transition_status_at`).
pub fn transition_status(document: Option<Document>, id: &str, status: DocumentStatus) -> (r: Result<Document, AxiomError>)
    ensures
        match document {
            None => r matches Err(AxiomError::DocumentNotFound(m)) && m@ == id@,
            Some(d) => if lifecycle_allows(d.status, status) {
                r matches Ok(nd) && nd == (Document { status: status, updated_at: nd.updated_at, ..d })
            } else {
                r matches Err(AxiomError::InvalidStatusTransition { from, to }) && from@ == status_name(d.status)
                    && to@ == status_name(status)
            },
        },
{
    transition_status_at(document, id, status, now())
}

/// A relationship can be stored when it does not go from a document to
/// itself; otherwise it is refused with its two ends.
pub fn validate_relationship(relationship: &Relationship) -> (r: Result<(), AxiomError>)
    ensures
        relationship.from_document_id@ != relationship.to_document_id@ ==> r is Ok,
        relationship.from_document_id@ == relationship.to_document_id@ ==> (r matches Err(
            AxiomError::InvalidStatusTransition { from, to },
        ) && from@ == relationship.from_document_id@ && to@ == relationship.to_document_id@),
{
    if !relationship.is_valid() {
        return Err(AxiomError::InvalidStatusTransition {
            from: relationship.from_document_id.clone(),
            to: relationship.to_document_id.clone(),
        });
    }
    Ok(())
}

/// No relationships.
pub open spec fn no_relations() -> RelationsView {
    RelationsView {
        supersedes: Seq::empty(),
        references: Seq::empty(),
        superseded_by: None,
        referenced_by: Seq::empty(),
    }
}

/// The relationships after recording, in order, the targets of outgoing
/// relationships.
pub open spec fn with_outgoing(v: RelationsView, rels: Seq<Relationship>) -> RelationsView
    decreases rels.len(),
{
    if rels.len() == 0 {
        v
    } else {
        with_outgoing(v, rels.drop_last()).add_outgoing(rels.last().to_document_id@, rels.last().relationship_type)
    }
}

/// The relationships after recording, in order, the sources of incoming
/// relationships.
pub open spec fn with_incoming(v: RelationsView, rels: Seq<Relationship>) -> RelationsView
    decreases rels.len(),
{
    if rels.len() == 0 {
        v
    } else {
        with_incoming(v, rels.drop_last()).add_incoming(rels.last().from_document_id@, rels.last().relationship_type)
    }
}

/// The relationships of a document from the stored relationships that leave
/// it and those that reach it, each recorded in the order given.
pub fn collect_relationships(outgoing: Vec<Relationship>, incoming: Vec<Relationship>) -> (r: DocumentRelationships)
    ensures
        r@ == with_incoming(with_outgoing(no_relations(), outgoing@), incoming@),
{
    let mut rels = DocumentRelationships::new();
    assert(rels@ == no_relations());
    let ghost out = outgoing@;
    let ghost inc = incoming@;
    for rel in it: outgoing
        invariant
            it.seq() == out,
            rels@ == with_outgoing(no_relations(), out.take(it.index() as int)),
    {
        assert(out.take(it.index() as int + 1).drop_last() =~= out.take(it.index() as int));
        assert(out.take(it.index() as int + 1).last() == rel);
        rels.add_outgoing(rel.to_document_id, rel.relationship_type);
    }
    assert(out.take(out.len() as int) =~= out);
    let ghost base = rels@;
    for rel in it: incoming
        invariant
            it.seq() == inc,
            rels@ == with_incoming(base, inc.take(it.index() as int)),
    {
        assert(inc.take(it.index() as int + 1).drop_last() =~= inc.take(it.index() as int));
        assert(inc.take(it.index() as int + 1).last() == rel);
        rels.add_incoming(rel.from_document_id, rel.relationship_type);
    }
    assert(inc.take(inc.len() as int) =~= inc);
    rels
}

/// How a stored record's identifier reads: absent, a text such as
/// `documents:doc_1`, a record object (its `id` field as text, the `String`
/// field of its `id` field, its `Id` field), or something else.
#[derive(Debug, Clone)]
pub enum RecordId {
    Missing,
    Text(String),
    Thing { id: Option<String>, id_string: Option<String>, upper_id: Option<String> },
    Other,
}

/// The document key of a stored record: the part of a text identifier after
/// its last `:`; for a record object the first of its `id` text, the
/// `String` field of `id` and its `Id` text that is present; otherwise empty.
pub open spec fn record_key_text(r: RecordId) -> Seq<char> {
    match r {
        RecordId::Text(s) => after_last_colon(s@),
        RecordId::Thing { id, id_string, upper_id } => match (id, id_string, upper_id) {
            (Some(a), _, _) => a@,
            (None, Some(b), _) => b@,
            (None, None, Some(c)) => c@,
            (None, None, None) => Seq::empty(),
        },
        _ => Seq::empty(),
    }
}

/// The document key of a stored record; records whose key is empty are
/// skipped when documents are listed.
pub fn record_key(r: RecordId) -> (k: String)
    ensures
        k@ == record_key_text(r),
{
    match r {
        RecordId::Text(s) => text_after_last_colon(s.as_str()),
        RecordId::Thing { id, id_string, upper_id } => match (id, id_string, upper_id) {
            (Some(a), _, _) => a,
            (None, Some(b), _) => b,
            (None, None, Some(c)) => c,
            (None, None, None) => String::new(),
        },
        _ => String::new(),
    }
}

/// What the sidecar written for a document records comes back when the
/// document is restored from that sidecar: identifier, status, tags and
/// creation time.
pub proof fn lemma_sidecar_round_trip(d: Document, m: SidecarMetadata, r: Document)
    requires
        sidecar_describes(m, d),
        restored_from(r, m),
    ensures
        r.id == d.id,
        r.status == d.status,
        id_views(r.tags@) == id_views(d.tags@),
        r.created_at == d.created_at,
{
}

/// A relationship from `from` to `to` of kind `t`, identified by
/// `<from>-<kind>-<to>`.
pub open spec fn lineage_entry(rel: Relationship, from: Seq<char>, to: Seq<char>, t: RelationshipType) -> bool {
    &&& rel.from_document_id@ == from
    &&& rel.to_document_id@ == to
    &&& rel.relationship_type == t
    &&& rel.id@ == relationship_id(from, t, to)
}

/// The relationships restored from a sidecar: first a `supersedes`
/// relationship from the document to each identifier that the sidecar lists
/// under it, then a `references` relationship to each identifier listed under
/// that, in order.
pub open spec fn restores_lineage(rels: Seq<Relationship>, m: SidecarMetadata) -> bool {
    let s = m.relationships.supersedes@;
    let r = m.relationships.references@;
    &&& rels.len() == s.len() + r.len()
    &&& forall|i: int| 0 <= i < s.len() ==>
        lineage_entry(#[trigger] rels[i], m.id@, s[i]@, RelationshipType::Supersedes)
    &&& forall|i: int| s.len() <= i < rels.len() ==>
        lineage_entry(#[trigger] rels[i], m.id@, r[i - s.len()]@, RelationshipType::References)
}

/// The relationships that a sidecar records, to be stored again when the
/// workspace is scanned.
pub fn relationships_from_sidecar(m: &SidecarMetadata) -> (rels: Vec<Relationship>)
    ensures
        restores_lineage(rels@, *m),
        rels@.len() == m.relationships.supersedes@.len() + m.relationships.references@.len(),
        forall|i: int| 0 <= i < rels@.len() ==> {
            &&& (#[trigger] rels@[i]).from_document_id@ == m.id@
            &&& rels@[i].id@ == relationship_id(m.id@, rels@[i].relationship_type, rels@[i].to_document_id@)
        },
{
    let mut rels: Vec<Relationship> = Vec::new();
    let s = &m.relationships.supersedes;
    let r = &m.relationships.references;
    let mut i: usize = 0;
    while i < s.len()
        invariant
            i <= s.len(),
            s == &m.relationships.supersedes,
            rels@.len() == i,
            forall|j: int| 0 <= j < i ==>
                lineage_entry(#[trigger] rels@[j], m.id@, s@[j]@, RelationshipType::Supersedes),
        decreases s.len() - i,
    {
        rels.push(Relationship::new(m.id.clone(), s[i].clone(), RelationshipType::Supersedes));
        i = i + 1;
    }
    let mut k: usize = 0;
    while k < r.len()
        invariant
            k <= r.len(),
            s == &m.relationships.supersedes,
            r == &m.relationships.references,
            rels@.len() == s.len() + k,
            forall|j: int| 0 <= j < s.len() ==>
                lineage_entry(#[trigger] rels@[j], m.id@, s@[j]@, RelationshipType::Supersedes),
            forall|j: int| s.len() <= j < s.len() + k ==>
                lineage_entry(#[trigger] rels@[j], m.id@, r@[j - s.len()]@, RelationshipType::References),
        decreases r.len() - k,
    {
        rels.push(Relationship::new(m.id.clone(), r[k].clone(), RelationshipType::References));
        k = k + 1;
    }
    proof {
        lemma_restored_relationships_leave_the_document(rels@, *m);
    }
    rels
}

/// Every relationship restored from a sidecar leaves the document that the
/// sidecar describes, is identified by `<from>-<kind>-<to>`, and goes to a
/// document that the sidecar lists under its kind: each listed `supersedes`
/// target and each listed `references` target is restored, in order.
pub proof fn lemma_restored_relationships_leave_the_document(rels: Seq<Relationship>, m: SidecarMetadata)
    requires
        restores_lineage(rels, m),
    ensures
        forall|i: int| 0 <= i < rels.len() ==> {
            &&& (#[trigger] rels[i]).from_document_id@ == m.id@
            &&& rels[i].id@ == relationship_id(m.id@, rels[i].relationship_type, rels[i].to_document_id@)
            &&& rels[i].relationship_type == RelationshipType::Supersedes
                ==> id_views(m.relationships.supersedes@).contains(rels[i].to_document_id@)
            &&& rels[i].relationship_type == RelationshipType::References
                ==> id_views(m.relationships.references@).contains(rels[i].to_document_id@)
        },
        forall|j: int| 0 <= j < m.relationships.supersedes@.len() ==> {
            &&& rels[j].relationship_type == RelationshipType::Supersedes
            &&& rels[j].to_document_id@ == (#[trigger] m.relationships.supersedes@[j])@
        },
        forall|j: int| 0 <= j < m.relationships.references@.len() ==> {
            let i = m.relationships.supersedes@.len() + j;
            &&& rels[i].relationship_type == RelationshipType::References
            &&& rels[i].to_document_id@ == (#[trigger] m.relationships.references@[j])@
        },
{
    let s = m.relationships.supersedes@;
    let r = m.relationships.references@;
    assert forall|i: int| 0 <= i < rels.len() implies {
        &&& (#[trigger] rels[i]).from_document_id@ == m.id@
        &&& rels[i].id@ == relationship_id(m.id@, rels[i].relationship_type, rels[i].to_document_id@)
        &&& rels[i].relationship_type == RelationshipType::Supersedes
            ==> id_views(s).contains(rels[i].to_document_id@)
        &&& rels[i].relationship_type == RelationshipType::References
            ==> id_views(r).contains(rels[i].to_document_id@)
    } by {
        if i < s.len() {
            assert(lineage_entry(rels[i], m.id@, s[i]@, RelationshipType::Supersedes));
            assert(id_views(s)[i] == s[i]@);
        } else {
            assert(lineage_entry(rels[i], m.id@, r[i - s.len()]@, RelationshipType::References));
            assert(id_views(r)[i - s.len()] == r[i - s.len()]@);
        }
    }
    assert forall|j: int| 0 <= j < s.len() implies {
        &&& rels[j].relationship_type == RelationshipType::Supersedes
        &&& rels[j].to_document_id@ == (#[trigger] s[j])@
    } by {
        assert(lineage_entry(rels[j], m.id@, s[j]@, RelationshipType::Supersedes));
    }
    assert forall|j: int| 0 <= j < r.len() implies {
        let i = s.len() + j;
        &&& rels[i].relationship_type == RelationshipType::References
        &&& rels[i].to_document_id@ == (#[trigger] r[j])@
    } by {
        let i = s.len() + j;
        assert(lineage_entry(rels[i], m.id@, r[i - s.len()]@, RelationshipType::References));
    }
}

/// Collecting a prefix of the relationships restored from a sidecar lists a
/// prefix of the sidecar's lineage.
proof fn lemma_restored_lineage_prefix(v: RelationsView, m: SidecarMetadata, rels: Seq<Relationship>, k: int)
    requires
        v.wf(),
        sidecar_lineage(m, v),
        restores_lineage(rels, m),
        0 <= k <= rels.len(),
    ensures
        k <= v.supersedes.len() ==> with_outgoing(no_relations(), rels.take(k)).supersedes == v.supersedes.take(k)
            && with_outgoing(no_relations(), rels.take(k)).references == Seq::<Seq<char>>::empty(),
        k > v.supersedes.len() ==> with_outgoing(no_relations(), rels.take(k)).supersedes == v.supersedes
            && with_outgoing(no_relations(), rels.take(k)).references == v.references.take(k - v.supersedes.len()),
    decreases k,
{
    let n = v.supersedes.len() as int;
    if k == 0 {
        assert(rels.take(0) =~= Seq::<Relationship>::empty());
        assert(v.supersedes.take(0) =~= Seq::<Seq<char>>::empty());
    } else {
        lemma_restored_lineage_prefix(v, m, rels, k - 1);
        assert(rels.take(k).drop_last() =~= rels.take(k - 1));
        assert(rels.take(k).last() == rels[k - 1]);
        let x = rels[k - 1].to_document_id@;
        if k - 1 < n {
            assert(lineage_entry(rels[k - 1], m.id@, m.relationships.supersedes@[k - 1]@, RelationshipType::Supersedes));
            assert(x == v.supersedes[k - 1]);
            assert(!v.supersedes.take(k - 1).contains(x)) by {
                if v.supersedes.take(k - 1).contains(x) {
                    let j = choose|j: int| 0 <= j < k - 1 && #[trigger] v.supersedes.take(k - 1)[j] == x;
                    assert(v.supersedes[j] == v.supersedes[k - 1]);
                }
            }
            assert(v.supersedes.take(k - 1).push(x) =~= v.supersedes.take(k));
            if k == n {
                assert(v.supersedes.take(k) =~= v.supersedes);
                assert(v.references.take(0) =~= Seq::<Seq<char>>::empty());
            }
        } else {
            let i = k - 1 - n;
            assert(lineage_entry(rels[k - 1], m.id@, m.relationships.references@[i]@, RelationshipType::References));
            assert(x == v.references[i]);
            if k - 1 == n {
                assert(v.supersedes.take(n) =~= v.supersedes);
                assert(v.references.take(0) =~= Seq::<Seq<char>>::empty());
            }
            assert(!v.references.take(i).contains(x)) by {
                if v.references.take(i).contains(x) {
                    let j = choose|j: int| 0 <= j < i && #[trigger] v.references.take(i)[j] == x;
                    assert(v.references[j] == v.references[i]);
                }
            }
            assert(v.references.take(i).push(x) =~= v.references.take(i + 1));
        }
    }
}

/// The lineage written to a sidecar comes back when the workspace is scanned:
/// collecting the relationships restored from the sidecar lists the documents
/// that the document supersedes and references, as they were written.
pub proof fn lemma_sidecar_restores_lineage(v: RelationsView, m: SidecarMetadata, rels: Seq<Relationship>)
    requires
        v.wf(),
        sidecar_lineage(m, v),
        restores_lineage(rels, m),
    ensures
        with_outgoing(no_relations(), rels).supersedes == v.supersedes,
        with_outgoing(no_relations(), rels).references == v.references,
{
    lemma_restored_lineage_prefix(v, m, rels, rels.len() as int);
    assert(rels.take(rels.len() as int) =~= rels);
    if rels.len() == v.supersedes.len() {
        assert(v.references.len() == 0);
        assert(v.references =~= Seq::<Seq<char>>::empty());
        assert(v.supersedes.take(rels.len() as int) =~= v.supersedes);
    } else {
        assert(v.references.take(rels.len() - v.supersedes.len()) =~= v.references);
    }
}

/// Some stored relationship of kind `t` goes to `x`.
pub open spec fn some_target(rels: Seq<Relationship>, t: RelationshipType, x: Seq<char>) -> bool {
    exists|i: int| 0 <= i < rels.len() && #[trigger] rels[i].relationship_type == t && rels[i].to_document_id@ == x
}

/// Some stored relationship of kind `t` comes from `x`.
pub open spec fn some_source(rels: Seq<Relationship>, t: RelationshipType, x: Seq<char>) -> bool {
    exists|i: int| 0 <= i < rels.len() && #[trigger] rels[i].relationship_type == t && rels[i].from_document_id@ == x
}

/// `x` is the source of the last `supersedes` relationship of the list.
pub open spec fn last_superseder(rels: Seq<Relationship>, x: Seq<char>) -> bool {
    exists|i: int| {
        &&& 0 <= i < rels.len()
        &&& #[trigger] rels[i].relationship_type == RelationshipType::Supersedes
        &&& rels[i].from_document_id@ == x
        &&& forall|j: int| i < j < rels.len() ==> #[trigger] rels[j].relationship_type != RelationshipType::Supersedes
    }
}

/// What recording the outgoing relationships of a list gives, by kind.
proof fn lemma_with_outgoing_sets(rels: Seq<Relationship>)
    ensures
        with_outgoing(no_relations(), rels).wf(),
        with_outgoing(no_relations(), rels).superseded_by is None,
        with_outgoing(no_relations(), rels).referenced_by == Seq::<Seq<char>>::empty(),
        forall|x: Seq<char>| #[trigger] with_outgoing(no_relations(), rels).supersedes.contains(x)
            <==> some_target(rels, RelationshipType::Supersedes, x),
        forall|x: Seq<char>| #[trigger] with_outgoing(no_relations(), rels).references.contains(x)
            <==> some_target(rels, RelationshipType::References, x),
    decreases rels.len(),
{
    if rels.len() > 0 {
        let p = rels.drop_last();
        let r = rels.last();
        lemma_with_outgoing_sets(p);
        let w = with_outgoing(no_relations(), p);
        lemma_insert_id_contents(w.supersedes, r.to_document_id@);
        lemma_insert_id_contents(w.references, r.to_document_id@);
        assert forall|t: RelationshipType, x: Seq<char>|
            #[trigger] some_target(rels, t, x) <==> (some_target(p, t, x) || (r.relationship_type == t && r.to_document_id@ == x)) by {
            if some_target(rels, t, x) {
                let i = choose|i: int| 0 <= i < rels.len() && #[trigger] rels[i].relationship_type == t
                    && rels[i].to_document_id@ == x;
                if i < p.len() {
                    assert(p[i] == rels[i]);
                }
            }
            if some_target(p, t, x) {
                let i = choose|i: int| 0 <= i < p.len() && #[trigger] p[i].relationship_type == t
                    && p[i].to_document_id@ == x;
                assert(rels[i] == p[i]);
            }
            if r.relationship_type == t && r.to_document_id@ == x {
                assert(rels[rels.len() - 1] == r);
            }
        }
        let n = with_outgoing(no_relations(), rels);
        assert(n == w.add_outgoing(r.to_document_id@, r.relationship_type));
        assert forall|x: Seq<char>| #[trigger] n.supersedes.contains(x)
            <==> some_target(rels, RelationshipType::Supersedes, x) by {
            assert(some_target(rels, RelationshipType::Supersedes, x) <==> (some_target(p, RelationshipType::Supersedes, x)
                || (r.relationship_type == RelationshipType::Supersedes && r.to_document_id@ == x)));
            assert(w.supersedes.contains(x) <==> some_target(p, RelationshipType::Supersedes, x));
        }
        assert forall|x: Seq<char>| #[trigger] n.references.contains(x)
            <==> some_target(rels, RelationshipType::References, x) by {
            assert(some_target(rels, RelationshipType::References, x) <==> (some_target(p, RelationshipType::References, x)
                || (r.relationship_type == RelationshipType::References && r.to_document_id@ == x)));
            assert(w.references.contains(x) <==> some_target(p, RelationshipType::References, x));
        }
    } else {
        assert(no_relations().supersedes.len() == 0);
    }
}

/// What recording the incoming relationships of a list gives, by kind.
proof fn lemma_with_incoming_sets(v: RelationsView, rels: Seq<Relationship>)
    requires
        v.wf(),
    ensures
        with_incoming(v, rels).wf(),
        with_incoming(v, rels).supersedes == v.supersedes,
        with_incoming(v, rels).references == v.references,
        forall|x: Seq<char>| #[trigger] with_incoming(v, rels).referenced_by.contains(x)
            <==> (v.referenced_by.contains(x) || some_source(rels, RelationshipType::References, x)),
        (forall|i: int| 0 <= i < rels.len() ==> #[trigger] rels[i].relationship_type != RelationshipType::Supersedes)
            ==> with_incoming(v, rels).superseded_by == v.superseded_by,
        (exists|i: int| 0 <= i < rels.len() && #[trigger] rels[i].relationship_type == RelationshipType::Supersedes)
            ==> (with_incoming(v, rels).superseded_by matches Some(x) && last_superseder(rels, x)),
    decreases rels.len(),
{
    if rels.len() > 0 {
        let p = rels.drop_last();
        let r = rels.last();
        lemma_with_incoming_sets(v, p);
        let w = with_incoming(v, p);
        lemma_insert_id_contents(w.referenced_by, r.from_document_id@);
        assert forall|x: Seq<char>|
            some_source(rels, RelationshipType::References, x) <==> (some_source(p, RelationshipType::References, x)
                || (r.relationship_type == RelationshipType::References && r.from_document_id@ == x)) by {
            if some_source(rels, RelationshipType::References, x) {
                let i = choose|i: int| 0 <= i < rels.len()
                    && #[trigger] rels[i].relationship_type == RelationshipType::References
                    && rels[i].from_document_id@ == x;
                if i < p.len() {
                    assert(p[i] == rels[i]);
                }
            }
            if some_source(p, RelationshipType::References, x) {
                let i = choose|i: int| 0 <= i < p.len()
                    && #[trigger] p[i].relationship_type == RelationshipType::References
                    && p[i].from_document_id@ == x;
                assert(rels[i] == p[i]);
            }
            if r.relationship_type == RelationshipType::References && r.from_document_id@ == x {
                assert(rels[rels.len() - 1] == r);
            }
        }
        let last = rels.len() - 1;
        assert(rels[last] == r);
        if r.relationship_type == RelationshipType::Supersedes {
            assert(last_superseder(rels, r.from_document_id@)) by {
                assert(rels[last].relationship_type == RelationshipType::Supersedes);
            }
        } else {
            assert forall|x: Seq<char>| last_superseder(p, x) implies last_superseder(rels, x) by {
                let i = choose|i: int| {
                    &&& 0 <= i < p.len()
                    &&& #[trigger] p[i].relationship_type == RelationshipType::Supersedes
                    &&& p[i].from_document_id@ == x
                    &&& forall|j: int| i < j < p.len() ==> #[trigger] p[j].relationship_type != RelationshipType::Supersedes
                };
                assert(rels[i] == p[i]);
                assert forall|j: int| i < j < rels.len() implies #[trigger] rels[j].relationship_type
                    != RelationshipType::Supersedes by {
                    if j < p.len() {
                        assert(rels[j] == p[j]);
                    }
                }
            }
            if forall|i: int| 0 <= i < rels.len() ==> #[trigger] rels[i].relationship_type != RelationshipType::Supersedes {
                assert forall|i: int| 0 <= i < p.len() implies #[trigger] p[i].relationship_type
                    != RelationshipType::Supersedes by {
                    assert(rels[i] == p[i]);
                }
            }
            if exists|i: int| 0 <= i < rels.len() && #[trigger] rels[i].relationship_type == RelationshipType::Supersedes {
                let i = choose|i: int| 0 <= i < rels.len()
                    && #[trigger] rels[i].relationship_type == RelationshipType::Supersedes;
                assert(i < p.len());
                assert(p[i] == rels[i]);
            }
        }
    }
}

/// The relationships collected for a document from the stored relationships
/// that leave it and those that reach it: the documents it supersedes and
/// references are exactly the targets of the leaving relationships of each
/// kind, the documents that reference it exactly the sources of the reaching
/// `references` relationships, no list names a document twice, and it is
/// superseded by nothing when no reaching relationship is a `supersedes`,
/// and otherwise by the source of the last one.
pub proof fn lemma_collected_relationships(outgoing: Seq<Relationship>, incoming: Seq<Relationship>)
    ensures
        ({
            let r = with_incoming(with_outgoing(no_relations(), outgoing), incoming);
            &&& r.wf()
            &&& forall|x: Seq<char>| #[trigger] r.supersedes.contains(x)
                <==> some_target(outgoing, RelationshipType::Supersedes, x)
            &&& forall|x: Seq<char>| #[trigger] r.references.contains(x)
                <==> some_target(outgoing, RelationshipType::References, x)
            &&& forall|x: Seq<char>| #[trigger] r.referenced_by.contains(x)
                <==> some_source(incoming, RelationshipType::References, x)
            &&& (r.superseded_by is None <==> forall|i: int| 0 <= i < incoming.len()
                ==> #[trigger] incoming[i].relationship_type != RelationshipType::Supersedes)
            &&& (r.superseded_by matches Some(x) ==> last_superseder(incoming, x))
        }),
{
    lemma_with_outgoing_sets(outgoing);
    let v = with_outgoing(no_relations(), outgoing);
    lemma_with_incoming_sets(v, incoming);
    let r = with_incoming(v, incoming);
    assert forall|x: Seq<char>| #[trigger] r.referenced_by.contains(x)
        <==> some_source(incoming, RelationshipType::References, x) by {
        assert(!v.referenced_by.contains(x));
    }
    if forall|i: int| 0 <= i < incoming.len() ==> #[trigger] incoming[i].relationship_type != RelationshipType::Supersedes {
    } else {
        let i = choose|i: int| !(0 <= i < incoming.len() ==> #[trigger] incoming[i].relationship_type
            != RelationshipType::Supersedes);
        assert(0 <= i < incoming.len() && incoming[i].relationship_type == RelationshipType::Supersedes);
    }
}

} // verus!
