//! A daemon that turns events into workflow runs of agents: triggers find
//! events, the dispatcher starts each of them once, and a run goes through the
//! steps of its workflow. The decisions are made here; the operations on the
//! network, the file system and repositories are carried out by the caller.

pub mod askpass;
pub mod clock;
pub mod config;
pub mod daemon;
pub mod dispatcher;
pub mod git;
pub mod github;
pub mod harness;
pub mod hermes;
pub mod hermes_api;
pub mod hooks;
pub mod http;
pub mod json;
pub mod keys;
pub mod logs;
pub mod paths;
pub mod poller;
pub mod process;
pub mod runner;
pub mod template;
pub mod text;
pub mod trigger;
pub mod utf8;
pub mod workflow;
