//! Package catalog engine: an arena-backed name store with substring search,
//! a versioned binary snapshot of the store, and the small parsers around it.

pub mod auth;
pub mod database;
pub mod flatpak;
pub mod history;
pub mod package;
pub mod repos;
pub mod snapshot;
pub mod terraflow;
pub mod text;
pub mod theme;
pub mod ui;
