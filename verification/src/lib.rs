pub mod text;
pub mod text_facts;
pub mod common;
pub mod config;
pub mod cli;
pub mod sip;
pub mod media;
pub mod ui;
