use vstd::prelude::*;

pub mod text;
pub mod lines;
pub mod words;
pub mod toml_scan;
pub mod sorting;
pub mod models;
pub mod mcp;
pub mod custom_instructions;
pub mod instruction_laws;
pub mod paths;
pub mod auth;
pub mod api_client;
pub mod repository;
pub mod runtime_resolver;
pub mod numbers;
pub mod prelaunch;
pub mod prelaunch_bridge;
pub mod model_gateway;
pub mod model_relay;
pub mod audio_feedback;
pub mod prelaunch_provider;
pub mod provider_laws;
pub mod skills;
pub mod skill_translations;
pub mod daemon;
pub mod process;
pub mod proxy;
pub mod quota_store;
pub mod registry;
pub mod relay_json;
pub mod lac;
pub mod bootstrap_cache;
pub mod system_info;

verus! {

} // verus!
