//! Dependency-aware task orchestration core.
//!
//! Tasks form a directed acyclic graph of dependency edges. This library
//! decides which tasks are eligible to execute and in what order: a scheduler
//! performs a leveled topological sort and computes per-task readiness, a
//! state machine gates status transitions, and a per-project orchestrator
//! core turns lifecycle commands and task events into state changes and an
//! ordered list of events to publish. A second, smaller core reconciles a
//! remote issue-tracker project with local tasks and maintains an offline
//! write queue. All decisions are pure functions over plain values; the
//! surrounding process performs storage and network work and hands the
//! results back in.

pub mod seqs;
pub mod strings;
pub mod task;
pub mod dependency;
pub mod graph;
pub mod models;
pub mod state_machine;
pub mod scheduler;
pub mod github;
pub mod realtime;
pub mod supabase;
pub mod genres;
pub mod layout;
pub mod engine;
