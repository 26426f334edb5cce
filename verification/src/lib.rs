//! The verified core of a local-first API debugger for iOS Simulators and
//! Android Emulators: the traffic model, redaction, comparison, mocking and
//! the rules of the workspace.
use vstd::prelude::*;

pub mod ai;
pub mod assistant;
pub mod breakpoints;
pub mod capture;
pub mod compare;
pub mod data_lock;
pub mod devices;
pub mod endpoint;
pub mod endpoint_groups;
pub mod ingestion;
pub mod inspect;
pub mod interpolation;
pub mod json;
pub mod mitm;
pub mod mock_commands;
pub mod mocks;
pub mod model;
pub mod order;
pub mod portable;
pub mod records;
pub mod replacement;
pub mod redaction;
pub mod replay;
pub mod replay_requests;
pub mod sdk;
pub mod sdk_links;
pub mod storage;
pub mod secret;
pub mod server;
pub mod snapshots;
pub mod text;
pub mod traffic;
pub mod workspace;
pub mod workspace_ops;

verus! {

} // verus!
