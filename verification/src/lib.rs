//! The verified core of a code-review and agent-session workbench.

pub mod action;
pub mod app;
pub mod cli;
pub mod commands;
pub mod components;
pub mod config;
pub mod diff;
pub mod geometry;
pub mod handler;
pub mod input;
pub mod launch;
pub mod live_id;
pub mod order;
pub mod review;
pub mod review_doc;
pub mod sessions_ui;
pub mod style;
pub mod tabs;
pub mod text;
pub mod timestamp;
pub mod ui;
pub mod widgets;
pub mod window;
