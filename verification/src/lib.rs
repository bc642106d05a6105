//! Verified core of the AbixIO object store.

pub mod admin;
pub mod answer_laws;
pub mod boot;
pub mod cluster;
pub mod config;
pub mod config_laws;
pub mod digest;
pub mod erasure;
pub mod heal;
pub mod json;
pub mod lifecycle;
pub mod metrics;
pub mod multipart;
pub mod multipart_laws;
pub mod order;
pub mod policy;
pub mod query;
pub mod raft;
pub mod s3;
pub mod s3_access;
pub mod s3_auth;
pub mod s3_route;
pub mod s3_service;
pub mod s3_service_laws;
pub mod shards;
pub mod split;
pub mod state_laws;
pub mod storage;
pub mod strmap;
pub mod text;
pub mod text_laws;
pub mod time;
