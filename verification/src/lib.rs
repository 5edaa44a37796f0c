//! Node discovery, membership and service-layer logic of a PlexSpaces node,
//! written in Verus: the SWIM failure detector, the node-registry rules and
//! the decision logic of the node services.

pub mod accounts;
pub mod app_spec_toml;
pub mod group_names;
pub mod ids;
pub mod labels;
pub mod node_directory;
pub mod node_listing;
pub mod node_records;
pub mod node_registry;
pub mod node_service;
pub mod node_setup;
pub mod object_registry_rules;
pub mod oidc;
pub mod process_groups;
pub mod registration_cache;
pub mod service_config;
pub mod service_invoker;
pub mod service_links;
pub mod swim;
pub mod swim_laws;
pub mod swim_protocol;
pub mod swim_round;
pub mod text;
pub mod time;
pub mod tracing_control;
pub mod tuple_codec;
