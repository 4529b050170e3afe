//! Decision core of a supervisor that runs coding agents around a task queue.

pub mod batches;
pub mod bootstrap;
pub mod commands;
pub mod decision_cycle;
pub mod digest;
pub mod dispatch;
pub mod environment;
pub mod error;
pub mod execution_policy;
pub mod frame;
pub mod frame_read;
pub mod frame_shape;
pub mod fspath;
pub mod guardrails;
pub mod health;
pub mod health_diagnosis;
pub mod incidents;
pub mod init;
pub mod interventions;
pub mod json;
pub mod logs;
pub mod models;
pub mod native_launcher;
pub mod output;
pub mod paths;
pub mod periodic;
pub mod policy_load;
pub mod process;
pub mod project;
pub mod project_logs;
pub mod promotion;
pub mod prompt;
pub mod proposals;
pub mod pueue;
pub mod pueue_process;
pub mod pueue_security;
pub mod reception;
pub mod reconcile;
pub mod redaction;
pub mod result_manifest;
pub mod retry;
pub mod run_cursor;
pub mod runs;
pub mod scheduler;
pub mod settling;
pub mod states;
pub mod task_identity;
pub mod text;
pub mod timestamps;
pub mod trust;
pub mod wire;

pub use error::AppError;
