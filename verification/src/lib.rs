//! A library for a locally persisted task tracker: tasks carry validated
//! tags, named queries filter the task list, and a generic cyclic
//! selection keeps a current item stable under navigation and mutation.

pub mod error;
pub mod ids;
pub mod query;
pub mod selection;
pub mod ser;
pub mod state;
pub mod tags;
pub mod tasks;
pub mod text;
