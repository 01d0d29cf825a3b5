pub mod api;
pub mod config;
pub mod describe;
pub mod laws;
pub mod longpull;
pub mod route;
pub mod source_longpull;
pub mod source_webhook;
pub mod text;
pub mod tgin;
pub mod update;
