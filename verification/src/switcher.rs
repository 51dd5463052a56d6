//! Switching between accounts of an application.
pub mod copy;
pub mod locate;
pub mod profile;
pub mod vscdb;
