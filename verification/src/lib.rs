//! A small terminal text-layout library.
//!
//! A layout is a tree of [`elements::CliElement`] nodes: literal text blocks,
//! horizontal rows, vertical columns and one-line spacers.  Every node can
//! report its natural width and height, and the whole tree renders into a
//! rectangular grid of padded lines.

pub mod elements;
pub mod layout;
pub mod model;
