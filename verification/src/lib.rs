//! A small git implementation: object storage, packfiles, deltas, the index
//! and a pull request API, with the byte formats and rules verified.
pub mod add;
pub mod api;
pub mod branch;
pub mod branch_handler;
pub mod check_ignore;
pub mod clone;
pub mod codec;
pub mod command_text;
pub mod diff;
pub mod fetch;
pub mod git_config;
pub mod gui;
pub mod hash_object;
pub mod index;
pub mod init;
pub mod log;
pub mod ls_files;
pub mod ls_tree;
pub mod packfile;
pub mod parse_commands;
pub mod pull;
pub mod pull_request;
pub mod rebase;
pub mod text;
