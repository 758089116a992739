//! Core logic of ImLag: corpus management, configuration normalisation,
//! CS2 cfg generation, localisation and the decisions behind chat replies.

pub mod text;
pub mod config;
pub mod chat;
pub mod cfg_manager;
pub mod events;
pub mod i18n;
pub mod platform;
pub mod sender;
pub mod engine;
