//! A small Wadler-style pretty printer: a [`Doc`] tree says what to print and
//! where a line may break, and [`print`] lays it out within a column budget.
//!
//! The meaning of printing is stated in [`layout`] over the tree itself, and
//! [`print`] is proved to produce exactly that text.

pub mod doc;
pub mod laws;
pub mod layout;
pub mod measure;
pub mod options;
pub mod print;

pub use doc::Doc;
pub use measure::measure_text_width;
pub use options::{IndentKind, LineBreak, PrintOptions, TextMeasure};
pub use print::print;
