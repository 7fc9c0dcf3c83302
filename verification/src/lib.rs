//! A cat-like line colorizer: a priority-ordered table of regular-expression
//! classes paints each line with non-overlapping ANSI colour runs.
//!
//! The library decides and computes; it neither reads nor writes. A program
//! around it reads the command line and the configuration file, hands the
//! library their raw values, reads the input record by record and writes what
//! the library renders for each record.
//!
//! - [`colorizer`] paints a line with a list of pattern classes.
//! - [`pattern`] holds a pattern class and the regex engine behind it.
//! - [`color`] reads colour tokens and knows the escape sequences of a colour.
//! - [`line`] renders one line of the input: window, number, colours.
//! - [`config`] reads the settings of a run and lists the places of the
//!   configuration file.
//! - [`file`] chooses an input source and drives a run record by record.
//! - [`laws`] and [`regions`] state and prove what holds of every painted
//!   line; [`escape`] says what escape sequences are.
//! - [`number`] and [`text`] read and write numerals and handle strings as
//!   UTF-8 bytes.

pub mod color;
pub mod colorizer;
pub mod config;
pub mod escape;
pub mod file;
pub mod laws;
pub mod line;
pub mod number;
pub mod pattern;
pub mod regions;
pub mod text;
