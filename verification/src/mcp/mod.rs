//! The MCP server: what it is asked, and what it answers.
pub mod change_reply;
pub mod lease;
pub mod params;
pub mod reply_laws;
pub mod request_laws;
pub mod rule_reply;
pub mod scan_reply;
pub mod server;
pub mod tools;

pub use server::McpServer;
