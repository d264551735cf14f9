//! A paragraph-justification engine for variable fonts.
//!
//! Lines are fitted to a goal pixel width not by stretching inter-word
//! whitespace but by searching font variation-axis values (and, for
//! elongation-capable scripts, counts of inserted justification glyphs)
//! until the shaped width of each line matches the goal within a small
//! tolerance. A breakpoint graph over all legal line breaks is searched
//! for the least-distorting sequence of lines.
//!
//! Axis values are fixed-point integers (the caller chooses the scale;
//! one thousandth of an axis unit is the intended convention), so the
//! whole search is exact integer arithmetic.

pub mod cost;
pub mod graph;
pub mod shaper;
pub mod solve;
pub mod text;
pub mod logic;
pub mod para;

pub use cost::CostPolicy;
pub use logic::{LineData, LineError, LineErrorKind, ParagraphError, Variation, VariationKind};
pub use para::{line_break, paragraph_line_break};
pub use shaper::{LinearShaper, Shaper};
pub use solve::{find_optimal_line, find_optimal_line_1_axis};
