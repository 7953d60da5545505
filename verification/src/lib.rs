//! Workflow state for a set of git repositories: a canonical plan, runtime
//! focus, sessions, blockers, decision proposals and a generated handoff,
//! with every state transition stated over a mathematical model and proved.

pub mod text;
pub mod models;
pub mod plan;
pub mod sessions;
pub mod runtime;
pub mod ids;
pub mod mutations;
pub mod decisions;
pub mod decision_format;
pub mod sync;
pub mod handoff;
pub mod paths;
pub mod roots;
pub mod desktop;
pub mod agents;
pub mod agent_config;
pub mod cli;
pub mod summary;
pub mod bridge;
pub mod codex_config;
pub mod discovery;
pub mod index;
pub mod json;
pub mod laws;
