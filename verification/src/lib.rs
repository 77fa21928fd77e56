//! Verified core of a terminal markdown reader: parsing, layout, navigation,
//! editing and the decisions behind every key and mouse event.

pub mod text;
pub mod views;
pub mod numbers;
pub mod double;
pub mod order;
pub mod bytes;
pub mod raw;
pub mod editor;
pub mod textmap;
pub mod style;
pub mod palette;
pub mod config;
pub mod theme;
pub mod syntax;
pub mod paths;
pub mod links;
pub mod wrap;
pub mod table;
pub mod parse;
pub mod diff;
pub mod read_state;
pub mod browser;
pub mod search;
pub mod markdown;
pub mod reader;
pub mod app;
pub mod actions;
pub mod scroll;
pub mod selection;
pub mod pointer;
pub mod keys;
pub mod vault;
pub mod paint;
pub mod frame;
pub mod statusline;
pub mod panels;
pub mod clipboard;
pub mod laws_edit;
pub mod laws_view;
pub mod laws_layout;
pub mod laws_source;
pub mod laws_text;
pub mod laws_width;
pub mod laws_json;
pub mod laws_shown;
pub mod laws_blocks;
pub mod laws_tables;
pub mod laws_wrap;
pub mod laws_prose;
pub mod laws_cursor;
pub mod laws_screen;
pub mod laws_files;
pub mod laws_motion;
pub mod laws_links;
pub mod laws_status;
pub mod laws_nav;
pub mod laws_keys;
pub mod laws_wheel;
pub mod laws_search;
pub mod laws_copy;
pub mod jsonl;
