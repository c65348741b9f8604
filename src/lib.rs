//! Resumable batch computation: a stage pipeline whose cursor advances one
//! bounded batch per invocation, and a dispatcher that fans work out to a
//! pool of workers and gathers their results in a completion-tracked table.
pub mod cursor;
pub mod pipeline;
pub mod grid;
pub mod manager;
pub mod cnn;
pub mod checker;
