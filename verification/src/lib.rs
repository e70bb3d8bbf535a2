//! Agent Deck: one key per AI agent session.
//!
//! The deck observes the sessions of several agent hosts, shows each on a key
//! with its status, and lets the user jump to a session, bind it to a key, or
//! decide for it. This library is everything of that which computes; reading
//! databases and files, talking to processes and drawing a window is done by
//! whoever uses it.
//!
//! - `protocol`: sessions, statuses, frames and actions
//! - `board`: which session gets which key, and how the key is lit
//! - `host`: the board over several backends, fading, catalogs, key actions
//! - `desktop`, `config`, `pins`, `links`, `ui_driver`: the desktop service
//! - `zcode`, `codex`, `workbuddy`: one module per agent host
//! - `json`, `text`, `text_map`, `lists`, `ordering`, `selection`: what they share
pub mod board;
pub mod codex;
pub mod config;
pub mod desktop;
pub mod host;
pub mod json;
pub mod links;
pub mod lists;
pub mod ordering;
pub mod pins;
pub mod protocol;
pub mod selection;
pub mod text;
pub mod text_map;
pub mod ui_driver;
pub mod workbuddy;
pub mod zcode;
