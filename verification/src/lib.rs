//! Supervised agent runtime: durable identities, event history, context,
//! inter-agent messages, assumptions, and the command boundary around them.

pub mod agent;
pub mod agent_laws;
pub mod artifact;
pub mod assumptions;
pub mod bench;
pub mod cache;
pub mod claim_laws;
pub mod codec;
pub mod command_laws;
pub mod config;
pub mod config_laws;
pub mod context;
pub mod context_codec;
pub mod context_graph;
pub mod context_history;
pub mod context_laws;
pub mod context_log;
pub mod context_views;
pub mod demo;
pub mod digest_laws;
pub mod event_codec;
pub mod event_store;
pub mod execution;
pub mod failure_memory;
pub mod figures;
pub mod fork;
pub mod fork_laws;
pub mod frame_laws;
pub mod frames;
pub mod ids;
pub mod inspector;
pub mod ipc;
pub mod journal_steps;
pub mod keeping_laws;
pub mod kernel;
pub mod keys;
pub mod log;
pub mod memory_store;
pub mod metadata;
pub mod normal_laws;
pub mod numerals;
pub mod operator;
pub mod operator_laws;
pub mod plugin;
pub mod projection_laws;
pub mod publication_laws;
pub mod ranking;
pub mod remap;
pub mod report_laws;
pub mod rows;
pub mod scan;
pub mod search_laws;
pub mod sidecar;
pub mod snapshot_codec;
pub mod state;
pub mod state_laws;
pub mod store_laws;
pub mod stream_laws;
pub mod table;
pub mod terminal;
pub mod terminal_laws;
pub mod terminal_report;
pub mod text;
pub mod undo;
pub mod undo_laws;
pub mod view_laws;
