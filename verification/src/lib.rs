//! Renders parsed mathematical expressions as multi-line plain-text art:
//! fractions with horizontal bars, radicals with diagonal strokes, stacked
//! scripts, variable-height brackets, and aligned matrices, all painted onto
//! a two-dimensional character canvas with baseline alignment.

pub mod asciimath;
pub mod brackets;
pub mod graphemes;
pub mod laws;
pub mod renderer;
pub mod text_canvas;
