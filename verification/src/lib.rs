//! Core engine for a timed multiple-choice certification-exam platform.
//!
//! The engine has three subsystems:
//! - exam generation: from a template and a seed, build a per-user exam
//!   instance that satisfies every question-set and tag quota;
//! - scoring and moderation scoring: compare submitted answers against the
//!   generated selection, and derive a bounded suspicion score from
//!   focus/blur events and submission timing;
//! - the moderation reconciliation pipeline: an idempotent batch that
//!   creates moderation records for expired attempts, ages pending records
//!   into approval, and awards certification challenges exactly once.
//!
//! All times are UTC millisecond instants; percentages and suspicion scores
//! are held as scaled integers (hundredths of a percent, millionths).

pub mod attempt_view;
pub mod config_validator;
pub mod env_config;
pub mod error;
pub mod generation_validator;
pub mod generator;
pub mod lookup;
pub mod moderation_score;
pub mod pipeline;
pub mod records;
mod rng;
pub mod scorer;
