//! The MCP browser tools: their argument rules, the commands and scripts they
//! send, and the text they answer with.

pub mod act;
pub mod evaluate;
pub mod grep;
pub mod navigate;
pub mod poll;
pub mod tabs;
pub mod wait;
