//! A task bar for the bottom of a framebuffer console: tmux session icons,
//! a now-playing panel and a list of running assistants.
//!
//! This crate holds the bar's decisions: what the text that other programs print
//! means, where each element of the bar lies, what a tap hits, what is drawn and
//! in which order, and how the daemon reacts to an event. Reading and writing the
//! outside world is left to the program around it, and so is what needs
//! floating-point numbers.

pub mod scan;
pub mod tuning;
pub mod panel;
pub mod grid;
pub mod player;
pub mod tmux;
pub mod actions;
pub mod mark;
pub mod clawd;
pub mod bar;
pub mod picture;
pub mod sprite;
pub mod np;
pub mod art;
pub mod raster;
pub mod paint;
pub mod fb;
pub mod term;
pub mod mpris;
pub mod playing;
pub mod text;
pub mod client;
pub mod daemon;
pub mod tap;
