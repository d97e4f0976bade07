//! The text the views use for the specification model's enumerations.
use vstd::prelude::*;
use crate::work::WorkOrigin;

verus! {

/// What a binding of an item does for it.
#[derive(Debug, Clone, Copy, PartialEq, Eq, Structural)]
pub enum BindingRole {
    Implementation,
    Verification,
    Documentation,
    Enforcement,
    ContractSource,
    Configuration,
    Generated,
    Migration,
    Operation,
    Evidence,
}

/// The kind of an interface contract.
#[derive(Debug, Clone, Copy, PartialEq, Eq, Structural)]
pub enum ContractKind {
    Http,
    Event,
    Function,
    Schema,
    Cli,
    File,
    Custom,
}

/// Where an item is in its life.
#[derive(Debug, Clone, Copy, PartialEq, Eq, Structural)]
pub enum ItemStatus {
    Planned,
    Implemented,
    Deprecated,
}

/// How urgent an item is.
#[derive(Debug, Clone, Copy, PartialEq, Eq, Structural)]
pub enum Priority {
    Low,
    Medium,
    High,
    Critical,
}

pub open spec fn spec_binding_role_label(role: BindingRole) -> Seq<char> {
    match role {
        BindingRole::Implementation => "implementation"@,
        BindingRole::Verification => "verification"@,
        BindingRole::Documentation => "documentation"@,
        BindingRole::Enforcement => "enforcement"@,
        BindingRole::ContractSource => "contract_source"@,
        BindingRole::Configuration => "configuration"@,
        BindingRole::Generated => "generated"@,
        BindingRole::Migration => "migration"@,
        BindingRole::Operation => "operation"@,
        BindingRole::Evidence => "evidence"@,
    }
}

/// The label of a binding role.
pub fn binding_role_label(role: BindingRole) -> (r: &'static str)
    ensures
        r@ == spec_binding_role_label(role),
{
    match role {
        BindingRole::Implementation => "implementation",
        BindingRole::Verification => "verification",
        BindingRole::Documentation => "documentation",
        BindingRole::Enforcement => "enforcement",
        BindingRole::ContractSource => "contract_source",
        BindingRole::Configuration => "configuration",
        BindingRole::Generated => "generated",
        BindingRole::Migration => "migration",
        BindingRole::Operation => "operation",
        BindingRole::Evidence => "evidence",
    }
}

pub open spec fn spec_contract_kind_label(kind: ContractKind) -> Seq<char> {
    match kind {
        ContractKind::Http => "http"@,
        ContractKind::Event => "event"@,
        ContractKind::Function => "function"@,
        ContractKind::Schema => "schema"@,
        ContractKind::Cli => "cli"@,
        ContractKind::File => "file"@,
        ContractKind::Custom => "custom"@,
    }
}

/// The label of a contract kind.
pub fn contract_kind_label(kind: ContractKind) -> (r: &'static str)
    ensures
        r@ == spec_contract_kind_label(kind),
{
    match kind {
        ContractKind::Http => "http",
        ContractKind::Event => "event",
        ContractKind::Function => "function",
        ContractKind::Schema => "schema",
        ContractKind::Cli => "cli",
        ContractKind::File => "file",
        ContractKind::Custom => "custom",
    }
}

pub open spec fn spec_status_label(status: ItemStatus) -> Seq<char> {
    match status {
        ItemStatus::Planned => "planned"@,
        ItemStatus::Implemented => "implemented"@,
        ItemStatus::Deprecated => "deprecated"@,
    }
}

/// The label of an item status.
pub fn status_label(status: ItemStatus) -> (r: &'static str)
    ensures
        r@ == spec_status_label(status),
{
    match status {
        ItemStatus::Planned => "planned",
        ItemStatus::Implemented => "implemented",
        ItemStatus::Deprecated => "deprecated",
    }
}

pub open spec fn spec_priority_label(priority: Priority) -> Seq<char> {
    match priority {
        Priority::Low => "low"@,
        Priority::Medium => "medium"@,
        Priority::High => "high"@,
        Priority::Critical => "critical"@,
    }
}

/// The label of a priority.
pub fn priority_label(priority: Priority) -> (r: &'static str)
    ensures
        r@ == spec_priority_label(priority),
{
    match priority {
        Priority::Low => "low",
        Priority::Medium => "medium",
        Priority::High => "high",
        Priority::Critical => "critical",
    }
}

/// Origins sort requirement criteria first, then feature bindings, then
/// single feature targets.
pub fn origin_kind_rank(origin: &WorkOrigin) -> (r: u8)
    ensures
        r == (match *origin {
            WorkOrigin::RequirementCriterion { .. } => 0u8,
            WorkOrigin::FeatureImplementationBinding { .. } => 1u8,
            WorkOrigin::FeatureImplementationTarget { .. } => 2u8,
        }),
{
    match origin {
        WorkOrigin::RequirementCriterion { .. } => 0,
        WorkOrigin::FeatureImplementationBinding { .. } => 1,
        WorkOrigin::FeatureImplementationTarget { .. } => 2,
    }
}

} // verus!
