//! A change-control gate for structured documents.
//!
//! A policy is a list of rules. Each rule says which documents it applies
//! to, at which paths such a document may change, and what must hold at the
//! place of a change. The [`validator`] holds the changed files of a revision
//! against the policy and reports every file that broke the rule that
//! applies to it.
//!
//! The parts, from the leaves up:
//! - [`text`]: paths and indices as sequences of characters;
//! - [`document`]: the tree that a JSON or YAML text stands for;
//! - [`path_map`]: a map from paths to values that keeps their order;
//! - [`backend`]: the outside crates that parse, diff, resolve and match;
//! - [`config`]: the policy;
//! - [`git`]: the changed files;
//! - [`json_path`]: paths over documents, changes between documents, and
//!   the tests that allow a change;
//! - [`validator`]: the engine.

pub mod backend;
pub mod config;
pub mod document;
pub mod git;
pub mod json_path;
pub mod path_map;
pub mod text;
pub mod validator;
