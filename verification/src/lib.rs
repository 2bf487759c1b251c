//! Karga: the logic of a terminal news reader, verified with Verus.
pub mod text;
pub mod ui;
pub mod wiki;
pub mod rss;
pub mod config;
pub mod notify;
pub mod app;
pub mod screen;
