pub mod agent;
pub mod agent_config;
pub mod helpers;
pub mod runtime;
pub mod tool_registry;
pub mod turn;
