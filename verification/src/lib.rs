//! Runs coding agents over a plan of dependent tasks: the rules of the
//! orchestrator, as functions with contracts.

pub mod agent;
pub mod attempt;
pub mod budget;
pub mod checks;
pub mod claude;
pub mod cli;
pub mod config;
pub mod course;
pub mod doctor;
pub mod drive;
pub mod engine;
pub mod events;
pub mod git;
pub mod graph;
pub mod ids;
pub mod json;
pub mod mock;
pub mod model;
pub mod money;
pub mod order;
pub mod progress;
pub mod prompts;
pub mod protocol;
pub mod schedule;
pub mod server;
pub mod spending;
pub mod state;
pub mod store;
pub mod text;
pub mod ui;
