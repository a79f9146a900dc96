//! A verified formatting engine that turns a structured recipe (name,
//! servings, steps, ingredients with amounts, units and foods) into the
//! ordered stream of text directives that a narrow receipt printer consumes:
//! fraction approximation of decimal quantities, singular/plural selection,
//! ingredient aggregation across steps, and word wrapping to a fixed width.

pub mod aggregate;
pub mod ingredient;
pub mod model;
pub mod numfmt;
pub mod render;
pub mod words;
pub mod wrap;
