//! A policy-based authorization engine: entities with a parent hierarchy,
//! policies with scopes and conditions, and an explicit-deny-overrides,
//! default-deny decision rule.
pub mod uid;
pub mod value;
pub mod entities;
pub mod request;
pub mod expr;
pub mod policy;
pub mod authorizer;
pub mod laws;
