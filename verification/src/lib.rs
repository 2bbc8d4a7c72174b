//! A minimal governance ledger: proposals live in a durable key-value store,
//! and each identity may cast at most one vote per proposal. The service layer
//! enforces ownership and activity rules and keeps the approve/reject/pass
//! tallies consistent with the set of identities that have voted.

pub mod codec;
pub mod model;
pub mod service;
pub mod store;

pub use model::Choice;
pub use model::CreateProposal;
pub use model::Principal;
pub use model::Proposal;
pub use model::VoteError;
pub use service::ProposalBook;
