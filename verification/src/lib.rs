use vstd::prelude::*;

pub mod text;
pub mod truncate;
pub mod diff;
pub mod ansi;
pub mod html;
pub mod context;
pub mod order;
pub mod skills;
pub mod paths;
pub mod prompts;
pub mod settings;
pub mod extensions;
pub mod tools;
pub mod input;
pub mod rpc;
pub mod tree;
pub mod tui;
pub mod commands;
pub mod models;
pub mod session;
pub mod migrate;
pub mod mom;
pub mod cli;

verus! {
} // verus!
