//! Account, session and proxy logic of a desktop assistant.
pub mod assoc;
pub mod clock;
pub mod codec;
pub mod commands;
pub mod device_proxy;
pub mod digits;
pub mod floats;
pub mod json;
pub mod jwt;
pub mod models;
pub mod paths;
pub mod store;
pub mod switcher;
pub mod tasks;
pub mod text;
