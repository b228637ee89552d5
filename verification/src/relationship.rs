//! Explicit relationships between documents: supersedes and references.

use vstd::prelude::*;
use vstd::string::*;
use crate::clock::{now, Timestamp};
use crate::text::id_views;

verus! {

/// The kind of an explicit relationship.
#[derive(Debug, Clone, Copy, PartialEq, Eq, Structural)]
pub enum RelationshipType {
    Supersedes,
    References,
}

/// The lower-case name of a relationship kind.
pub open spec fn relationship_type_name(t: RelationshipType) -> Seq<char> {
    match t {
        RelationshipType::Supersedes => "supersedes"@,
        RelationshipType::References => "references"@,
    }
}

impl RelationshipType {
    /// The name of the kind: `supersedes` or `references`.
    pub fn to_string(&self) -> (s: String)
        ensures
            s@ == relationship_type_name(*self),
    {
        match self {
            RelationshipType::Supersedes => String::from_str("supersedes"),
            RelationshipType::References => String::from_str("references"),
        }
    }

    /// The kind with exactly this name, if any.
    pub fn from_name(name: &str) -> (t: Option<RelationshipType>)
        ensures
            match t {
                Some(k) => relationship_type_name(k) == name@,
                None => name@ != "supersedes"@ && name@ != "references"@,
            },
    {
        let n = String::from_str(name);
        if n == String::from_str("supersedes") {
            Some(RelationshipType::Supersedes)
        } else if n == String::from_str("references") {
            Some(RelationshipType::References)
        } else {
            None
        }
    }
}

/// An explicit, user-defined relationship from one document to another.
///
/// `created_at` is read from the wall clock.
#[derive(Debug, Clone)]
pub struct Relationship {
    pub id: String,
    pub from_document_id: String,
    pub to_document_id: String,
    pub relationship_type: RelationshipType,
    pub created_at: Timestamp,
}

/// The identifier of a relationship: `<from>-<kind>-<to>`.
pub open spec fn relationship_id(from: Seq<char>, t: RelationshipType, to: Seq<char>) -> Seq<char> {
    from + "-"@ + relationship_type_name(t) + "-"@ + to
}

impl Relationship {
    /// A relationship created now, identified by `<from>-<kind>-<to>`.
    pub fn new(from_document_id: String, to_document_id: String, relationship_type: RelationshipType) -> (r: Relationship)
        ensures
            r.id@ == relationship_id(from_document_id@, relationship_type, to_document_id@),
            r.from_document_id == from_document_id,
            r.to_document_id == to_document_id,
            r.relationship_type == relationship_type,
    {
        let id = from_document_id.clone().concat("-");
        let id = id.concat(relationship_type.to_string().as_str());
        let id = id.concat("-").concat(to_document_id.as_str());
        Relationship {
            id,
            from_document_id,
            to_document_id,
            relationship_type,
            created_at: now(),
        }
    }

    /// A relationship is valid unless it goes from a document to itself.
    pub fn is_valid(&self) -> (b: bool)
        ensures
            b == (self.from_document_id@ != self.to_document_id@),
    {
        !(self.from_document_id == self.to_document_id)
    }
}

/// A list of identifiers with `x` added at the end unless it is already there.
pub open spec fn insert_id(s: Seq<Seq<char>>, x: Seq<char>) -> Seq<Seq<char>> {
    if s.contains(x) {
        s
    } else {
        s.push(x)
    }
}

/// A list of identifiers with every occurrence of `x` taken out, the others
/// kept in order.
pub open spec fn remove_id(s: Seq<Seq<char>>, x: Seq<char>) -> Seq<Seq<char>>
    decreases s.len(),
{
    if s.len() == 0 {
        s
    } else if s.last() == x {
        remove_id(s.drop_last(), x)
    } else {
        remove_id(s.drop_last(), x).push(s.last())
    }
}

/// The relationships of one document, as identifier texts.
pub struct RelationsView {
    pub supersedes: Seq<Seq<char>>,
    pub references: Seq<Seq<char>>,
    pub superseded_by: Option<Seq<char>>,
    pub referenced_by: Seq<Seq<char>>,
}

impl RelationsView {
    /// No identifier occurs twice in a list.
    pub open spec fn wf(self) -> bool {
        &&& self.supersedes.no_duplicates()
        &&& self.references.no_duplicates()
        &&& self.referenced_by.no_duplicates()
    }

    /// The documents that this one points to with relationships of kind `t`.
    pub open spec fn outgoing(self, t: RelationshipType) -> Seq<Seq<char>> {
        match t {
            RelationshipType::Supersedes => self.supersedes,
            RelationshipType::References => self.references,
        }
    }

    pub open spec fn add_outgoing(self, x: Seq<char>, t: RelationshipType) -> RelationsView {
        match t {
            RelationshipType::Supersedes => RelationsView { supersedes: insert_id(self.supersedes, x), ..self },
            RelationshipType::References => RelationsView { references: insert_id(self.references, x), ..self },
        }
    }

    pub open spec fn add_incoming(self, x: Seq<char>, t: RelationshipType) -> RelationsView {
        match t {
            RelationshipType::Supersedes => RelationsView { superseded_by: Some(x), ..self },
            RelationshipType::References => RelationsView { referenced_by: insert_id(self.referenced_by, x), ..self },
        }
    }

    pub open spec fn remove_outgoing(self, x: Seq<char>, t: RelationshipType) -> RelationsView {
        match t {
            RelationshipType::Supersedes => RelationsView { supersedes: remove_id(self.supersedes, x), ..self },
            RelationshipType::References => RelationsView { references: remove_id(self.references, x), ..self },
        }
    }

    pub open spec fn remove_incoming(self, x: Seq<char>, t: RelationshipType) -> RelationsView {
        match t {
            RelationshipType::Supersedes => RelationsView {
                superseded_by: if self.superseded_by == Some(x) { None } else { self.superseded_by },
                ..self
            },
            RelationshipType::References => RelationsView { referenced_by: remove_id(self.referenced_by, x), ..self },
        }
    }
}

/// The relationships of a document: what it supersedes and references, what
/// supersedes it and what references it.
#[derive(Debug, Clone)]
pub struct DocumentRelationships {
    pub supersedes: Vec<String>,
    pub references: Vec<String>,
    pub superseded_by: Option<String>,
    pub referenced_by: Vec<String>,
}

impl View for DocumentRelationships {
    type V = RelationsView;

    open spec fn view(&self) -> RelationsView {
        RelationsView {
            supersedes: id_views(self.supersedes@),
            references: id_views(self.references@),
            superseded_by: match self.superseded_by {
                Some(s) => Some(s@),
                None => None,
            },
            referenced_by: id_views(self.referenced_by@),
        }
    }
}

/// Whether the list holds an identifier with the text of `x`.
fn contains_id(v: &Vec<String>, x: &String) -> (b: bool)
    ensures
        b == id_views(v@).contains(x@),
{
    let mut i: usize = 0;
    while i < v.len()
        invariant
            i <= v.len(),
            forall|j: int| 0 <= j < i ==> v@[j]@ != x@,
        decreases v.len() - i,
    {
        if v[i] == *x {
            assert(id_views(v@)[i as int] == x@);
            return true;
        }
        i = i + 1;
    }
    assert(!id_views(v@).contains(x@)) by {
        if id_views(v@).contains(x@) {
            let k = choose|k: int| 0 <= k < id_views(v@).len() && id_views(v@)[k] == x@;
            assert(v@[k]@ == x@);
        }
    }
    false
}

/// Appends `x` unless an identifier with its text is already in the list.
fn push_unique(v: &mut Vec<String>, x: String)
    ensures
        id_views(final(v)@) == insert_id(id_views(old(v)@), x@),
{
    if !contains_id(v, &x) {
        v.push(x);
        assert(id_views(v@) =~= id_views(old(v)@).push(x@));
    }
}

/// Takes every identifier with the text of `x` out of the list.
fn remove_all(v: &mut Vec<String>, x: &str)
    ensures
        id_views(final(v)@) == remove_id(id_views(old(v)@), x@),
{
    let mut kept: Vec<String> = Vec::new();
    let target = String::from_str(x);
    let mut i: usize = 0;
    while i < v.len()
        invariant
            i <= v.len(),
            target@ == x@,
            id_views(kept@) == remove_id(id_views(v@.take(i as int)), x@),
        decreases v.len() - i,
    {
        let ghost before = v@.take(i as int);
        assert(v@.take(i as int + 1).drop_last() =~= before);
        assert(id_views(v@.take(i as int + 1)).drop_last() =~= id_views(before));
        if !(v[i] == target) {
            kept.push(v[i].clone());
            assert(id_views(kept@) =~= remove_id(id_views(before), x@).push(v@[i as int]@));
        }
        i = i + 1;
    }
    assert(v@.take(v@.len() as int) =~= v@);
    *v = kept;
}

impl DocumentRelationships {
    /// No relationships.
    pub fn new() -> (r: DocumentRelationships)
        ensures
            r@.supersedes == Seq::<Seq<char>>::empty(),
            r@.references == Seq::<Seq<char>>::empty(),
            r@.superseded_by is None,
            r@.referenced_by == Seq::<Seq<char>>::empty(),
    {
        let r = DocumentRelationships {
            supersedes: Vec::new(),
            references: Vec::new(),
            superseded_by: None,
            referenced_by: Vec::new(),
        };
        assert(r@.supersedes =~= Seq::<Seq<char>>::empty());
        assert(r@.references =~= Seq::<Seq<char>>::empty());
        assert(r@.referenced_by =~= Seq::<Seq<char>>::empty());
        r
    }

    /// Records that this document points to `doc_id` with a relationship of
    /// kind `rel_type`; an identifier already listed is not listed twice.
    pub fn add_outgoing(&mut self, doc_id: String, rel_type: RelationshipType)
        ensures
            final(self)@ == old(self)@.add_outgoing(doc_id@, rel_type),
    {
        match rel_type {
            RelationshipType::Supersedes => push_unique(&mut self.supersedes, doc_id),
            RelationshipType::References => push_unique(&mut self.references, doc_id),
        }
    }

    /// Records that `doc_id` points to this document with a relationship of
    /// kind `rel_type`. A document is superseded by one document at most: the
    /// latest one recorded.
    pub fn add_incoming(&mut self, doc_id: String, rel_type: RelationshipType)
        ensures
            final(self)@ == old(self)@.add_incoming(doc_id@, rel_type),
    {
        match rel_type {
            RelationshipType::Supersedes => {
                self.superseded_by = Some(doc_id);
            },
            RelationshipType::References => push_unique(&mut self.referenced_by, doc_id),
        }
    }

    /// Forgets that this document points to `doc_id` with kind `rel_type`.
    pub fn remove_outgoing(&mut self, doc_id: &str, rel_type: RelationshipType)
        ensures
            final(self)@ == old(self)@.remove_outgoing(doc_id@, rel_type),
    {
        match rel_type {
            RelationshipType::Supersedes => remove_all(&mut self.supersedes, doc_id),
            RelationshipType::References => remove_all(&mut self.references, doc_id),
        }
    }

    /// Forgets that `doc_id` points to this document with kind `rel_type`.
    pub fn remove_incoming(&mut self, doc_id: &str, rel_type: RelationshipType)
        ensures
            final(self)@ == old(self)@.remove_incoming(doc_id@, rel_type),
    {
        match rel_type {
            RelationshipType::Supersedes => {
                let matches = match &self.superseded_by {
                    Some(s) => *s == String::from_str(doc_id),
                    None => false,
                };
                if matches {
                    self.superseded_by = None;
                }
            },
            RelationshipType::References => remove_all(&mut self.referenced_by, doc_id),
        }
    }
}

/// Taking out an identifier that is not listed leaves the list as it is.
pub proof fn lemma_remove_absent_id(s: Seq<Seq<char>>, x: Seq<char>)
    requires
        !s.contains(x),
    ensures
        remove_id(s, x) == s,
    decreases s.len(),
{
    if s.len() > 0 {
        assert(!s.drop_last().contains(x)) by {
            if s.drop_last().contains(x) {
                let k = choose|k: int| 0 <= k < s.drop_last().len() && s.drop_last()[k] == x;
                assert(s[k] == x);
            }
        }
        assert(s.last() != x) by {
            assert(s[s.len() - 1] == s.last());
        }
        lemma_remove_absent_id(s.drop_last(), x);
        assert(s.drop_last().push(s.last()) =~= s);
    }
}

/// Everything left after taking out `x` was listed before, and `x` is gone.
pub proof fn lemma_remove_id_contents(s: Seq<Seq<char>>, x: Seq<char>)
    ensures
        !remove_id(s, x).contains(x),
        forall|y: Seq<char>| #[trigger] remove_id(s, x).contains(y) ==> s.contains(y),
        s.no_duplicates() ==> remove_id(s, x).no_duplicates(),
    decreases s.len(),
{
    if s.len() > 0 {
        let p = s.drop_last();
        lemma_remove_id_contents(p, x);
        let r = remove_id(s, x);
        assert forall|y: Seq<char>| r.contains(y) implies s.contains(y) by {
            let k = choose|k: int| 0 <= k < r.len() && r[k] == y;
            if s.last() != x && k == r.len() - 1 {
                assert(s[s.len() - 1] == y);
            } else {
                assert(remove_id(p, x)[k] == y);
                assert(remove_id(p, x).contains(y));
                let j = choose|j: int| 0 <= j < p.len() && p[j] == y;
                assert(s[j] == y);
            }
        }
        if s.no_duplicates() && s.last() != x {
            assert(p.no_duplicates()) by {
                assert forall|i: int, j: int| 0 <= i < p.len() && 0 <= j < p.len() && i != j
                    implies p[i] != p[j] by {
                    assert(p[i] == s[i] && p[j] == s[j]);
                }
            }
            assert(!remove_id(p, x).contains(s.last())) by {
                if remove_id(p, x).contains(s.last()) {
                    assert(p.contains(s.last()));
                    let j = choose|j: int| 0 <= j < p.len() && p[j] == s.last();
                    assert(s[j] == s[s.len() - 1]);
                }
            }
        }
        if s.no_duplicates() && s.last() == x {
            assert(p.no_duplicates()) by {
                assert forall|i: int, j: int| 0 <= i < p.len() && 0 <= j < p.len() && i != j
                    implies p[i] != p[j] by {
                    assert(p[i] == s[i] && p[j] == s[j]);
                }
            }
        }
        if s.last() != x {
            assert(!r.contains(x)) by {
                if r.contains(x) {
                    let k = choose|k: int| 0 <= k < r.len() && r[k] == x;
                    if k < r.len() - 1 {
                        assert(remove_id(p, x)[k] == x);
                    }
                }
            }
        }
    }
}

/// Adding an identifier keeps a list free of repetitions and lists it.
pub proof fn lemma_insert_id_contents(s: Seq<Seq<char>>, x: Seq<char>)
    ensures
        insert_id(s, x).contains(x),
        s.no_duplicates() ==> insert_id(s, x).no_duplicates(),
        forall|y: Seq<char>| s.contains(y) ==> insert_id(s, x).contains(y),
        forall|y: Seq<char>| insert_id(s, x).contains(y) ==> s.contains(y) || y == x,
{
    if !s.contains(x) {
        let r = s.push(x);
        assert(r[s.len() as int] == x);
        assert forall|y: Seq<char>| r.contains(y) implies s.contains(y) || y == x by {
            let k = choose|k: int| 0 <= k < r.len() && r[k] == y;
            if k < s.len() {
                assert(s[k] == y);
            }
        }
        assert forall|y: Seq<char>| s.contains(y) implies r.contains(y) by {
            let k = choose|k: int| 0 <= k < s.len() && s[k] == y;
            assert(r[k] == y);
        }
        if s.no_duplicates() {
            assert forall|i: int, j: int| 0 <= i < r.len() && 0 <= j < r.len() && i != j
                implies r[i] != r[j] by {
                if i == s.len() {
                    assert(s[j] == r[j]);
                } else if j == s.len() {
                    assert(s[i] == r[i]);
                } else {
                    assert(s[i] == r[i] && s[j] == r[j]);
                }
            }
        }
    }
}

/// Removing an identifier from a list takes out exactly its occurrences:
/// the result is the list filtered to the other identifiers, in their order,
/// so every other identifier stays listed.
pub proof fn lemma_remove_id_is_filter(s: Seq<Seq<char>>, x: Seq<char>)
    ensures
        remove_id(s, x) == s.filter(|y: Seq<char>| y != x),
        forall|y: Seq<char>| y != x ==> (#[trigger] remove_id(s, x).contains(y) <==> s.contains(y)),
        !remove_id(s, x).contains(x),
    decreases s.len(),
{
    let f = |y: Seq<char>| y != x;
    reveal(Seq::filter);
    if s.len() > 0 {
        lemma_remove_id_is_filter(s.drop_last(), x);
        assert(remove_id(s, x) == s.filter(f));
    } else {
        assert(remove_id(s, x) == s.filter(f));
    }
    assert forall|y: Seq<char>| y != x implies (#[trigger] remove_id(s, x).contains(y) <==> s.contains(y)) by {
        s.filter_lemma(f);
        if remove_id(s, x).contains(y) {
            s.lemma_filter_contains_rev(f, y);
        }
        if s.contains(y) {
            let k = choose|k: int| 0 <= k < s.len() && s[k] == y;
            assert(s[k] != x);
            assert(f(s[k]));
            assert(s.filter(f).contains(s[k]));
        }
    }
    s.filter_lemma(f);
    if remove_id(s, x).contains(x) {
        let k = choose|k: int| 0 <= k < s.filter(f).len() && s.filter(f)[k] == x;
        assert(f(s.filter(f)[k]));
    }
}

/// Every change of a document's relationships keeps each list free of
/// repeated identifiers.
pub proof fn lemma_relationship_updates_keep_lists_unique(v: RelationsView, x: Seq<char>, t: RelationshipType)
    requires
        v.wf(),
    ensures
        v.add_outgoing(x, t).wf(),
        v.add_incoming(x, t).wf(),
        v.remove_outgoing(x, t).wf(),
        v.remove_incoming(x, t).wf(),
{
    lemma_insert_id_contents(v.supersedes, x);
    lemma_insert_id_contents(v.references, x);
    lemma_insert_id_contents(v.referenced_by, x);
    lemma_remove_id_contents(v.supersedes, x);
    lemma_remove_id_contents(v.references, x);
    lemma_remove_id_contents(v.referenced_by, x);
}

/// Recording the same outgoing relationship twice is the same as recording
/// it once.
pub proof fn lemma_add_outgoing_idempotent(v: RelationsView, x: Seq<char>, t: RelationshipType)
    ensures
        v.add_outgoing(x, t).add_outgoing(x, t) == v.add_outgoing(x, t),
        v.add_incoming(x, t).add_incoming(x, t) == v.add_incoming(x, t),
{
    lemma_insert_id_contents(v.supersedes, x);
    lemma_insert_id_contents(v.references, x);
    lemma_insert_id_contents(v.referenced_by, x);
}

/// After an outgoing relationship is recorded the target is listed, and
/// after it is removed the target is no longer listed.
pub proof fn lemma_outgoing_listed_then_removed(v: RelationsView, x: Seq<char>, t: RelationshipType)
    ensures
        v.add_outgoing(x, t).outgoing(t).contains(x),
        !v.remove_outgoing(x, t).outgoing(t).contains(x),
        !v.add_outgoing(x, t).remove_outgoing(x, t).outgoing(t).contains(x),
{
    lemma_insert_id_contents(v.outgoing(t), x);
    lemma_remove_id_contents(v.outgoing(t), x);
    lemma_remove_id_contents(v.add_outgoing(x, t).outgoing(t), x);
}

/// Removing a relationship that was just recorded, to a target that was not
/// listed before, restores the relationships as they were.
pub proof fn lemma_remove_outgoing_undoes_add(v: RelationsView, x: Seq<char>, t: RelationshipType)
    requires
        !v.outgoing(t).contains(x),
    ensures
        v.add_outgoing(x, t).remove_outgoing(x, t) == v,
{
    let s = v.outgoing(t);
    lemma_remove_absent_id(s, x);
    assert(s.push(x).drop_last() =~= s);
    assert(remove_id(s.push(x), x) == remove_id(s, x));
}

/// The last document recorded as superseding this one is the one that
/// supersedes it.
pub proof fn lemma_latest_superseder_wins(v: RelationsView, x: Seq<char>, y: Seq<char>)
    ensures
        v.add_incoming(x, RelationshipType::Supersedes).add_incoming(y, RelationshipType::Supersedes).superseded_by
            == Some(y),
{
}

impl Default for DocumentRelationships {
    /// No relationships.
    fn default() -> (r: DocumentRelationships)
        ensures
            r@.supersedes == Seq::<Seq<char>>::empty(),
            r@.references == Seq::<Seq<char>>::empty(),
            r@.superseded_by is None,
            r@.referenced_by == Seq::<Seq<char>>::empty(),
    {
        DocumentRelationships::new()
    }
}

} // verus!
