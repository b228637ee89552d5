//! The lifecycle status of a document.

use vstd::prelude::*;
use vstd::string::*;
use crate::text::{lowercase, to_lowercase, all_ascii, ascii_lower};

verus! {

/// Lifecycle status of a document: draft, active, superseded or archived.
#[derive(Debug, Clone, Copy, PartialEq, Eq, Structural)]
pub enum DocumentStatus {
    Draft,
    Active,
    Superseded,
    Archived,
}

/// The lower-case name of a status, as it is displayed and serialised.
pub open spec fn status_name(s: DocumentStatus) -> Seq<char> {
    match s {
        DocumentStatus::Draft => "draft"@,
        DocumentStatus::Active => "active"@,
        DocumentStatus::Superseded => "superseded"@,
        DocumentStatus::Archived => "archived"@,
    }
}

/// The result of parsing a status name: the name is compared after
/// lower-casing, and any other text is refused with a message.
pub open spec fn parse_status(s: Seq<char>) -> Result<DocumentStatus, Seq<char>> {
    let l = lowercase(s);
    if l == "draft"@ {
        Ok(DocumentStatus::Draft)
    } else if l == "active"@ {
        Ok(DocumentStatus::Active)
    } else if l == "superseded"@ {
        Ok(DocumentStatus::Superseded)
    } else if l == "archived"@ {
        Ok(DocumentStatus::Archived)
    } else {
        Err("Invalid status: "@ + s)
    }
}

/// The moves of the lifecycle: draft to active, and active to superseded or
/// archived.
pub open spec fn lifecycle_allows(from: DocumentStatus, to: DocumentStatus) -> bool {
    ||| from == DocumentStatus::Draft && to == DocumentStatus::Active
    ||| from == DocumentStatus::Active && to == DocumentStatus::Superseded
    ||| from == DocumentStatus::Active && to == DocumentStatus::Archived
}

/// Superseded and archived documents are read-only.
pub open spec fn status_is_readonly(s: DocumentStatus) -> bool {
    s == DocumentStatus::Superseded || s == DocumentStatus::Archived
}

impl DocumentStatus {
    /// The status name: `draft`, `active`, `superseded` or `archived`.
    pub fn to_string(&self) -> (s: String)
        ensures
            s@ == status_name(*self),
    {
        match self {
            DocumentStatus::Draft => String::from_str("draft"),
            DocumentStatus::Active => String::from_str("active"),
            DocumentStatus::Superseded => String::from_str("superseded"),
            DocumentStatus::Archived => String::from_str("archived"),
        }
    }

    /// Parses a status name case-insensitively; any other text gives the
    /// error message `Invalid status: <text>`.
    pub fn parse(s: &str) -> (r: Result<DocumentStatus, String>)
        ensures
            match r {
                Ok(st) => parse_status(s@) == Ok::<DocumentStatus, Seq<char>>(st),
                Err(msg) => parse_status(s@) == Err::<DocumentStatus, Seq<char>>(msg@),
            },
    {
        let l = to_lowercase(s);
        if l == String::from_str("draft") {
            Ok(DocumentStatus::Draft)
        } else if l == String::from_str("active") {
            Ok(DocumentStatus::Active)
        } else if l == String::from_str("superseded") {
            Ok(DocumentStatus::Superseded)
        } else if l == String::from_str("archived") {
            Ok(DocumentStatus::Archived)
        } else {
            let msg = String::from_str("Invalid status: ");
            Err(msg.concat(s))
        }
    }
}

/// Displaying a status and parsing the text gives the status back.
pub proof fn lemma_parse_displayed_status(s: DocumentStatus)
    ensures
        parse_status(status_name(s)) == Ok::<DocumentStatus, Seq<char>>(s),
{
    reveal_strlit("draft");
    reveal_strlit("active");
    reveal_strlit("superseded");
    reveal_strlit("archived");
    let n = status_name(s);
    assert(all_ascii(n));
    assert(ascii_lower(n) =~= n);
}


/// Status names are read without regard to ASCII case: an ASCII text parses
/// as its lower-case form does.
pub proof fn lemma_parse_ignores_ascii_case(s: Seq<char>)
    requires
        all_ascii(s),
    ensures
        parse_status(s) matches Ok(st) ==> parse_status(ascii_lower(s)) == Ok::<DocumentStatus, Seq<char>>(st),
        parse_status(ascii_lower(s)) matches Ok(st) ==> parse_status(s) == Ok::<DocumentStatus, Seq<char>>(st),
{
    let l = ascii_lower(s);
    assert(all_ascii(l));
    assert(ascii_lower(l) =~= l);
}

/// Superseded and archived documents are read-only and the lifecycle has no
/// move out of them; a draft cannot be superseded or archived directly.
pub proof fn lemma_readonly_statuses_are_final(from: DocumentStatus, to: DocumentStatus)
    ensures
        status_is_readonly(from) ==> !lifecycle_allows(from, to),
        from == DocumentStatus::Draft ==> (lifecycle_allows(from, to) <==> to == DocumentStatus::Active),
{
}

impl std::str::FromStr for DocumentStatus {
    type Err = String;

    /// Parses a status name, as `DocumentStatus::parse` does.
    fn from_str(s: &str) -> (r: Result<DocumentStatus, String>)
        ensures
            match r {
                Ok(st) => parse_status(s@) == Ok::<DocumentStatus, Seq<char>>(st),
                Err(msg) => parse_status(s@) == Err::<DocumentStatus, Seq<char>>(msg@),
            },
    {
        DocumentStatus::parse(s)
    }
}

} // verus!
