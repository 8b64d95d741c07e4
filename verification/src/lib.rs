//! An interactive terminal table renderer.
//!
//! The crate lays out a rectangular grid of text cells as a bordered table
//! and moves a single-cell highlight around it by splicing ANSI colour
//! markers in and out of the already-rendered lines, keeping a table of
//! character offsets consistent across every splice.
#![verifier::loop_isolation(false)]

pub mod helpers;
pub mod markup;
pub mod table;
