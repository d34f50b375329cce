//! Plain record types mirroring the two persisted documents: the program
//! state (query definitions) and the task state (templates and tasks).
//! They carry no behavior beyond referential validation; reading and
//! writing them from disk is the embedding program's business.

pub mod query;
pub mod state;
pub mod tags;
pub mod tasks;
