//! Verified core of the standalone indexing service.

pub mod admission;
pub mod api;
pub mod api_json;
pub mod background_probe;
pub mod changes;
pub mod collector_api;
pub mod config;
pub mod content_control;
pub mod content_preview;
pub mod content_workers;
pub mod device_budget;
pub mod device_control;
pub mod device_topology;
pub mod domain;
pub mod durable_file;
pub mod encoding;
pub mod export;
pub mod fleet_api;
pub mod follower;
pub mod fsevents_apply;
pub mod fsevents_translate;
pub mod interactions_api;
pub mod key_list;
pub mod memory;
pub mod picks;
pub mod resource_control;
pub mod resource_profiles;
pub mod retry_api;
pub mod scanner;
pub mod source_budget;
pub mod source_map;
pub mod staging;
pub mod state;
pub mod text;
pub mod update_check;
pub mod updates;
pub mod usn_apply;
pub mod usn_checkpoint;
pub mod usn_translate;
pub mod watcher;
pub mod web;
pub mod work_signal;

pub use config::ServiceConfig;
pub use web::WebAssets;
