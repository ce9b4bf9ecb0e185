//! Verified core of the Lumen runtime: capabilities, leases, budgets,
//! approvals, audit chains, projections and orchestration, each with the
//! contract it keeps.

pub mod action;
pub mod approval;
pub mod artifact;
pub mod audit;
pub mod automation;
pub mod boot;
pub mod budget;
pub mod budget_laws;
pub mod canonical;
pub mod capability;
pub mod clock;
pub mod context;
pub mod digest;
pub mod egress;
pub mod execution;
pub mod execution_laws;
pub mod executor;
pub mod extension;
pub mod identity;
pub mod ids;
pub mod ip;
pub mod json;
pub mod json_laws;
pub mod kernel_audit;
pub mod keys;
pub mod lease;
pub mod lists;
pub mod model;
pub mod nonce;
pub mod operator;
pub mod orchestration;
pub mod ordered;
pub mod pi_boundary;
pub mod policy;
pub mod provider;
pub mod secret;
pub mod sorting;
pub mod table;
pub mod text;
pub mod url_parts;
pub mod version;
pub mod worker;
