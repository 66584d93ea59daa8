//! Decisions and data structures behind a terminal multiplexer's Windows
//! terminal handling.
pub mod command_line;
pub mod conpty;
pub mod conpty_reader;
pub mod console_loop;
pub mod console_mode;
pub mod console_writer;
pub mod dsr;
pub mod environment;
pub mod input_trace;
pub mod keyboard_parser;
pub mod keys;
pub mod pipes;
pub mod pty_backend;
pub mod signals;
pub mod spawn;
pub mod stdin_handler;
pub mod terminal_bytes;
pub mod terminal_output;
pub mod text;
pub mod utf16;
pub mod utf8;
pub mod win32;
