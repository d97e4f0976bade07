//! Verified core of the Mitase Workbench: the decisions and views the server
//! projects for the browser.
use vstd::prelude::*;

pub mod text;
pub mod journey;
pub mod work;
pub mod trace;
pub mod discovery;
pub mod selection;
pub mod catalog;
pub mod candidates;
pub mod validation;
pub mod scope;
pub mod server;
pub mod changes;
pub mod sorted;
pub mod closures;
pub mod history;
pub mod readiness;
pub mod split;
pub mod projection;
pub mod hashing;
pub mod trace_view;
pub mod capabilities;
pub mod anchors;
pub mod completeness;
pub mod review;
pub mod impact;
pub mod related;
pub mod trace_graph;
pub mod feature_link;
pub mod signature;
pub mod branch_scope;
pub mod suggestions;
pub mod labels;
pub mod trace_build;
pub mod context;
pub mod approval;
pub mod yaml;
pub mod journey_action;
pub mod closure_set;
pub mod slice_selection;

verus! {
} // verus!
