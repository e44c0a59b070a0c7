//! Rules that watch a kanban board and start workspaces for its issues.
//!
//! The crate holds the decisions of the automation service. Whatever needs the
//! outside world (the remote board, the local database, the HTTP server, the
//! clock) is asked for through a command and answered by an event; the program
//! around the library carries the commands out.
//!
//! What is promised of the service as a whole is in three modules: `laws` speaks
//! of sessions, `traces` of what is asked command by command, and `turns` of
//! what one event leads to.

pub mod action;
pub mod api;
pub mod board;
pub mod conditions;
pub mod config;
pub mod ids;
pub mod issue_comments;
pub mod laws;
pub mod machine;
pub mod program;
pub mod service;
pub mod statuses;
pub mod text;
pub mod traces;
pub mod turns;
