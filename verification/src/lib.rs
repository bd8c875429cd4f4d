//! Canopy core: the verified data structures behind a terminal UI library.
//!
//! Interface elements form a tree of named nodes. This crate holds the parts
//! of the core that decide things: node names and paths, path filters and
//! their match precedence, the input binding registry, styles and colours,
//! and the terminal cell buffer that rendering writes into.

pub mod error;
pub mod text;
pub mod state;
pub mod path;
pub mod geom;
pub mod style;
pub mod termbuf;
pub mod render;
pub mod event;
pub mod id;
pub mod commands;
pub mod script;
pub mod host;
pub mod checker;
pub mod decls;
pub mod inputmap;
pub mod poll;




