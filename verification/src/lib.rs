//! Building blocks for full-screen terminal user interfaces on Unix.
//!
//! The crate holds the parts of a terminal UI that are pure computation:
//! geometry, text styles and their ANSI escape form, a frame buffer of styled
//! cells that is filled like a text sink, the differential renderer that
//! turns two frames into the escape stream that updates a screen, and the
//! parser that decodes a terminal's input bytes into key and mouse events.
//! Every function carries a contract that Verus proves.

pub mod error;
pub mod frame;
pub mod geometry;
pub mod input;
pub mod io;
pub mod reader;
pub mod style;
pub mod terminal;
pub mod text;

pub use error::TerminalError;
pub use frame::{EstimateCharWidth, FixedCharWidthEstimator, TerminalChar, TerminalFrame};
pub use geometry::{TerminalPosition, TerminalRegion, TerminalSize};
pub use io::{try_nonblocking, try_uninterrupted};
pub use input::{KeyCode, KeyInput, MouseEvent, MouseInput, TerminalInput};
pub use reader::InputReader;
pub use style::{TerminalColor, TerminalStyle};
pub use terminal::{Screen, TerminalEvent};
