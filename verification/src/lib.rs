//! Verified building blocks for session daemons and their frontends.
pub mod blocking;
pub mod clock;
pub mod envelope;
pub mod event;
pub mod file;
pub mod forward;
pub mod id;
pub mod json;
pub mod jsonl;
pub mod jsonl_wire;
pub mod operation;
pub mod output_actor;
pub mod owner;
pub mod protocol_js;
pub mod resume;
pub mod search;
pub mod sorted_map;
pub mod subscription;
pub mod task;
pub mod text;
pub mod unicode;
