//! A one-way directory mirror built around a line-oriented wire format.
//!
//! The collect side renders a scanned directory tree as tab-indented text,
//! one entry per line.  The replay side parses such text line by line,
//! rebuilds each entry's ancestor path from the indentation alone, and
//! decides the minimal filesystem action that makes a destination entry
//! match the recorded one.  All filesystem access lives outside this
//! library; everything here works on plain values.

pub mod args;
pub mod entry;
pub mod laws;
pub mod numeral;
pub mod parse;
pub mod serialize;
pub mod reconcile;
pub mod scan;
pub mod tracker;
