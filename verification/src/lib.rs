pub mod config;
pub mod handler;
pub mod strutil;
