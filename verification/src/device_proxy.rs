//! The proxy: request handling, capture rules and logs.
pub mod ca;
pub mod capture;
pub mod handler;
pub mod headers;
pub mod http;
pub mod logger;
pub mod reader;
pub mod server;
