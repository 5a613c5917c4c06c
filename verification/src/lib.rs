//! Text processing for LaTeX formulas harvested for a handwriting dataset,
//! the helpers around rendering formulas with Typst, the numeric helpers of the
//! stroke recogniser, and the tensor-free pieces of the model.

pub mod pattern;
pub mod recognize;
pub mod render;
pub mod scraper;
pub mod text;
pub mod training;
