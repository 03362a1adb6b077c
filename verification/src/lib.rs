//! Incremental search, token extraction and a vi-style copy mode over
//! terminal scrollback: the verified core.
pub mod text;
pub mod ansi;
pub mod unicode;
pub mod buffer;
pub mod motion;
pub mod keys;
pub mod lineedit;
pub mod regex_engine;
pub mod search;
pub mod config;
pub mod patterns;
pub mod click;
pub mod app;
pub mod extract;
pub mod ui;
pub mod screen;
pub mod osc52;
pub mod nested;
pub mod herdr;
pub mod cli;
