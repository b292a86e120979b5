//! The command dispatch and query logic of an interactive shell for an agile
//! board: the command registry, the session's current sprint, filter
//! construction, and the aggregation of issues and sprints into display rows.

pub mod command;
pub mod commands;
pub mod commands_processor;
pub mod decimal;
pub mod extend_issue;
pub mod extend_issues;
pub mod extend_sprints;
pub mod jsprint;
pub mod listing;
pub mod order;
pub mod ordered_map;
pub mod repl;
pub mod settings;
pub mod sorting;
pub mod time;
pub mod tokens;
pub mod tracker;
