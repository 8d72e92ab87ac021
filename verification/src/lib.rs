//! Orchestration core of the FORGE build tool.
//!
//! - `dag`: the task graph with validation, the queue order of its tasks and
//!   their partition into levels; `graph`, `queue_order` and `level_order`
//!   hold the model and what is proved of the results.
//! - `cache` and `hashes`: the incremental cache over content hashes, the
//!   master hash, and the requests to the distributed cache; `digest` and
//!   `lex` hold the hashing and the order of paths.
//! - `executor`: the build as a state machine over the levels of a graph;
//!   `course`: the course of one build from cache check to upload.
//! - `config`, `error`, `langs`, `project`, `manifest`: what the tool knows
//!   of projects, languages, messages and project files.
//! - `maven`, `pom`, `resolver`, `pypi`: coordinates, POM dependencies and
//!   the walk over dependencies of dependencies.
//!
//! The library does no input or output: callers read files, run commands
//! and talk to the network, and hand plain values in.

pub mod cache;
pub mod config;
pub mod course;
mod cycle;
pub mod dag;
pub mod digest;
pub mod error;
pub mod executor;
pub mod graph;
pub mod hashes;
mod kahn;
pub mod langs;
pub mod level_order;
mod levels;
pub mod lex;
pub mod manifest;
pub mod maven;
pub mod pom;
pub mod project;
pub mod pypi;
pub mod queue_order;
pub mod resolver;
pub mod text;
