//! Hierarchical, human-readable explanations of errors: a causal tree of errors is rendered
//! into indented text, and the location text of each error can be restyled range by range.

pub mod colorization;
pub mod formatting;
pub mod parsing_error;
pub mod range_styling;
pub mod simple_error;
pub mod simple_error_detail;
pub mod simple_error_display_info;
pub mod simple_error_explanation;

pub use simple_error::SimpleError;
pub use simple_error_detail::SimpleErrorDetail;
pub use simple_error_display_info::SimpleErrorDisplayInfo;
pub use simple_error_explanation::SimpleErrorExplanation;
