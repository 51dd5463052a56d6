//! Tasks that run in the background.
pub mod doubao_quota;
pub mod scheduler;
pub mod trae_checkin;
