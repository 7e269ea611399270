//! Host-agnostic logic of a terminal-multiplexer plugin that jumps the
//! scrollback to the previous or next shell prompt.
//!
//! * [`ansi`] strips ANSI escape sequences from a scrollback row.
//! * [`scan`] decides which rows are prompt lines and which row a jump lands on.
//! * [`config`] reads the plugin configuration and routes pipe messages.
//! * [`plugin`] holds the plugin's decisions: the permission lifecycle and the
//!   scroll a jump needs.
//! * [`text`] holds the character-level helpers the others share.
use vstd::prelude::*;

pub mod ansi;
pub mod config;
pub mod plugin;
pub mod scan;
pub mod text;
