//! Authorization and per-tenant configuration core for a multi-guild
//! management service.
//!
//! For each tenant ("guild") the core tracks configuration (admin channel,
//! welcome/goodbye text, advertising flag) and a role-to-privilege
//! authorization map, and it tracks an append-only moderation ledger
//! ("slaps") per tenant and per member with bounded, paginated retrieval.
//! The persistence engine and the transport layer are external
//! collaborators; this crate states and verifies the semantics any such
//! backend must support, over an explicit in-memory store model.

pub mod auth;
pub mod errors;
pub mod ledger;
pub mod privilege;
pub mod store;
