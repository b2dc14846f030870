//! Verified decision logic of a command-line coding agent: notification
//! payload framing, app/MCP routing, git diff outcomes and small helpers.

pub mod shell_execute;
pub mod text;
pub mod legacy_notify;
pub mod json;
pub mod mcp_server_map;
pub mod app_mcp_routing;
pub mod git_processor;
pub mod app_cmd;
pub mod history;
pub mod turn_items;
pub mod stdio_relay;
pub mod percent;
pub mod env_detect;
pub mod code_mode_host;
pub mod proxy_bypass;
