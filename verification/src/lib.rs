//! Consumer-group coordination: the decisions of a group coordinator, verified.
#![allow(unused_imports)]

pub mod assignor;
pub mod classic_join;
pub mod classic_laws;
pub mod classic_state;
pub mod classic_sync;
pub mod codes;
pub mod commit_validation;
pub mod config;
pub mod consumer_laws;
pub mod consumer_state;
pub mod directory;
pub mod dispatch;
pub mod downgrade;
pub mod durability_laws;
pub mod expiry_laws;
pub mod group;
pub mod group_laws;
pub mod heartbeat;
pub mod heartbeat_laws;
pub mod heartbeat_turn;
pub mod hosting;
pub mod hosting_laws;
pub mod ids;
pub mod internal_topics;
pub mod join_laws;
pub mod join_turn;
pub mod leave_turn;
pub mod metadata;
pub mod migration;
pub mod offset_delete;
pub mod offset_laws;
pub mod ordmap;
pub mod partitioner;
pub mod partitions;
pub mod pattern_laws;
pub mod pending_records;
pub mod persistence;
pub mod placement_laws;
pub mod records;
pub mod regexes;
pub mod replay;
pub mod replay_laws;
pub mod request_laws;
pub mod requests;
pub mod restore_laws;
pub mod retention;
pub mod retention_laws;
pub mod round_laws;
pub mod seed;
pub mod service_laws;
pub mod share_streams;
pub mod subscription_laws;
pub mod sync_turn;
pub mod text;
pub mod tick_turn;
pub mod topic_deletion;
pub mod turn_laws;
pub mod view_laws;
pub mod views;
pub mod waiters;
pub mod waiting_laws;
pub mod walk;
pub mod wire;
pub mod wire_laws;
