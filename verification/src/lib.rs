//! Decoding of scheduler trace reports and attribution of task migrations.
//!
//! The crate turns the text of a scheduler trace into typed events, keeps
//! the per-task wake state that the events imply, and names the cause of
//! every cross-CPU migration from that state and the machine topology.

pub mod graph;
pub mod read_config;
