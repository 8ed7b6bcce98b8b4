//! An interactive shell for managing virtual machines: a line editor with
//! command history, command recognition and the bookkeeping around them.
//!
//! - `editor`: the line editor, a state machine from key events to buffer
//!   changes and terminal operations, with its laws.
//! - `history`: the command history and its stored text.
//! - `command`: recognising a submitted line as a command.
//! - `shell`: the program's paths and the shell's state between lines.
//! - `vm`: virtual machine settings, their description and start arguments.
//! - `text`: white space, trimming and character conversions.

pub mod text;
pub mod history;
pub mod editor;
pub mod command;
pub mod shell;
pub mod vm;
