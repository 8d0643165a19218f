//! The decision core of Gurukul, a singing coach: everything the command line
//! head, the terminal head and the game head decide, as verified code.
//!
//! No window, no audio device and no floating-point unit is touched here. A
//! single-precision number travels as its bit pattern ([`ieee::F32`]), which is
//! enough to compare it; what has to be added or multiplied is left to the
//! caller, who hands the sums back in.

pub mod cli;
pub mod clock;
pub mod coach;
pub mod features;
pub mod ieee;
pub mod menu;
pub mod music;
pub mod note_dial;
pub mod port;
pub mod semantic_graph;
pub mod shell;
pub mod text;
pub mod time_graph;
pub mod trace;
pub mod tui;
pub mod ui;
