//! Core of a freehand drawing and notetaking surface.
//!
//! A document is an ordered collection of pages; each page holds freehand
//! strokes (ordered sequences of draw points) and placed raster images.
//! Interactive tools (pencil, eraser, line eraser, straight-line tool, drag,
//! rectangle selection, clear) mutate this state in response to a stream of
//! pointer samples gated by a "pen active" flag.  An undo/redo history of
//! full-document snapshots and a textual persistence codec complete the core.
//!
//! Coordinates, pen widths and color channels are integer canvas units; the
//! host maps device coordinates onto them.

pub mod canvas;
pub mod clear;
pub mod codec;
pub mod drag;
pub mod editor;
pub mod eraser;
pub mod geometry;
pub mod laws;
pub mod line_eraser;
pub mod line_tool;
pub mod pencil;
pub mod queries;
pub mod raster;
pub mod rectangle_selection;
