//! The specification catalog as the server projects it: item summaries and
//! the summaries of their anchors.  Values the specification model holds in
//! typed form (selectors, lifecycles, claims, ownership scopes) are carried
//! in their canonical text form.
use vstd::prelude::*;
use crate::text::{owned, str_eq};

verus! {

/// The identity of the workspace a projection was built from.
#[derive(Debug, Clone)]
pub struct WorkspaceSummary {
    pub root: String,
    pub revision: String,
    pub fingerprint: String,
    pub config_schema: String,
    pub source_hash: String,
}

/// A principle of an item.
#[derive(Debug, Clone)]
pub struct PrincipleSummary {
    pub anchor: String,
    pub statement: String,
    pub applies_to: Vec<String>,
}

/// A rule of an item.
#[derive(Debug, Clone)]
pub struct RuleSummary {
    pub anchor: String,
    pub level: String,
    pub statement: String,
    pub governed_by: Vec<String>,
    pub applies_to_roles: Vec<String>,
    pub enforcement: Option<String>,
}

/// An acceptance criterion of an item.
#[derive(Debug, Clone)]
pub struct CriterionSummary {
    pub anchor: String,
    pub kind: String,
    pub statement: String,
    pub governed_by: Vec<String>,
}

/// What an artifact target claims.  Anchors and target references are held
/// in their canonical text form.
#[derive(Debug, Clone)]
pub enum TargetClaim {
    Satisfies { criterion: String },
    Verifies { criterion: String, covers: Vec<String> },
    Documents { anchor: String },
    Enforces { rule: String },
    GeneratedFrom { targets: Vec<String> },
    Exposes { target: String },
    Evidences { anchor: String },
}

/// One artifact target of a binding.
#[derive(Debug, Clone)]
pub struct BindingTargetSummary {
    pub reference: String,
    pub path: String,
    pub selector: String,
    pub adapter: String,
    pub lifecycle: String,
    pub claims: Vec<TargetClaim>,
}

/// A binding of a feature to artifacts.
#[derive(Debug, Clone)]
pub struct BindingSummary {
    pub anchor: String,
    pub role: String,
    pub facet: String,
    pub responsibility: String,
    pub owns: Vec<String>,
    pub targets: Vec<BindingTargetSummary>,
}

/// A participant of a contract.
#[derive(Debug, Clone)]
pub struct ContractParticipantSummary {
    pub binding: String,
    pub role: String,
}

/// A contract between bindings.
#[derive(Debug, Clone)]
pub struct ContractSummary {
    pub anchor: String,
    pub kind: String,
    pub source: String,
    pub participants: Vec<ContractParticipantSummary>,
    pub guarantees: Vec<String>,
}

/// One specification item.
#[derive(Debug, Clone)]
pub struct ItemSummary {
    pub id: String,
    pub kind: String,
    pub path: String,
    pub source_hash: String,
    pub title: String,
    pub presentation_title_key: Option<String>,
    pub summary: String,
    pub description: Option<String>,
    pub status: Option<String>,
    pub priority: Option<String>,
    pub principles: Vec<PrincipleSummary>,
    pub rules: Vec<RuleSummary>,
    pub criteria: Vec<CriterionSummary>,
    pub bindings: Vec<BindingSummary>,
    pub contracts: Vec<ContractSummary>,
    /// Exact origin anchors exposed to the create-work flow.
    pub anchors: Vec<String>,
}

/// A specification document of the workspace.
#[derive(Debug, Clone)]
pub struct SpecificationDocumentView {
    pub kind: String,
    pub path: String,
}

/// The one built-in item whose title is shown through a presentation key:
/// the canonical capability requirement, while it keeps its canonical title.
pub open spec fn builtin_title_key(id: Seq<char>, title: Seq<char>) -> Option<Seq<char>> {
    if id == "REQ-CAPABILITY-001"@ && title == "Canonical capability behavior"@ {
        Some("specification.title.REQ-CAPABILITY-001"@)
    } else {
        None
    }
}

/// The presentation key of an item's title: only the canonical capability
/// requirement under its canonical title has one; an edited title is shown
/// as written.
pub fn builtin_presentation_title_key(id: &str, title: &str) -> (r: Option<String>)
    ensures
        match builtin_title_key(id@, title@) {
            Some(k) => r matches Some(s) && s@ == k,
            None => r is None,
        },
{
    if str_eq(id, "REQ-CAPABILITY-001") && str_eq(title, "Canonical capability behavior") {
        Some(owned("specification.title.REQ-CAPABILITY-001"))
    } else {
        None
    }
}

} // verus!
