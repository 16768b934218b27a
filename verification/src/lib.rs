//! Verified core of loadout: a local environment manager built around explicit
//! desired state, ownership-aware filesystem operations and durable recovery.
pub mod text;
pub mod strmap;
pub mod id;
pub mod error;
pub mod path;
pub mod fs;
pub mod platform;
pub mod env;
pub mod strategy;
pub mod tool;
pub mod params;
pub mod component_index;
pub mod for_each_expander;
pub mod params_materializer;
pub mod params_validator;
pub mod resolver;
pub mod desired_resource_graph;
pub mod state;
pub mod plan;
pub mod planner;
pub mod sources;
pub mod source_registry;
pub mod activate;
pub mod tool_verify;
pub mod script_host;
pub mod component_host;
pub mod feature_index;
pub mod feature_host;
pub mod executor;
pub mod executor_resources;
pub mod config;
pub mod component_index_builder;
pub mod feature_index_builder;
pub mod profile;
pub mod policy;
pub mod yaml;
pub mod config_write;
