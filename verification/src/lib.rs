//! Verified core of the BrowserOS agent: the tab table, the post-action
//! settle and page-load waits, the CDP client's connection logic and
//! message routing, the MCP tools' argument rules and replies, the job
//! table behind `poll`, schema rewriting for strict MCP clients, and the
//! HTTP server's request guards.
#![allow(unused_imports)]

pub mod cdp;
pub mod framework;
pub mod http;
pub mod jobs;
pub mod navigation;
pub mod page_requests;
pub mod pages;
pub mod schema;
pub mod settle;
pub mod text;
pub mod tools;
