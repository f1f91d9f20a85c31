//! The capability of an error kind to explain itself.

use vstd::prelude::*;

use crate::simple_error::{SimpleError, error_count, lemma_lone_error_model, strip_at};
use crate::simple_error_display_info::{SimpleErrorDisplayInfo, opt_text};
use crate::simple_error_explanation::SimpleErrorExplanation;

verus! {

/// An error kind that says why it happened and how to solve it.
pub trait SimpleErrorDetail {
    /// The explanation of this error.
    fn explain_error(&self) -> SimpleErrorExplanation;

    /// An error explained by this one, happening at `where_`.
    fn at(self, where_: &str) -> (r: SimpleError) where Self: Sized
        ensures
            r.error_detail is Some,
            opt_text(r.where_) == Some(where_@),
            r.start_point_of_error is None,
            r.end_point_of_error is None,
            r.causes@.len() == 0,
    {
        SimpleError::new().explained_by(self.explain_error()).at(where_)
    }

    /// An error explained by this one, starting at `line` and `column`.
    fn start_point_of_error(self, line: usize, column: usize) -> (r: SimpleError) where Self: Sized
        ensures
            r.error_detail is Some,
            r.where_ is None,
            r.start_point_of_error == Some((line, column)),
            r.end_point_of_error is None,
            r.causes@.len() == 0,
    {
        SimpleError::new().explained_by(self.explain_error()).start_point_of_error(line, column)
    }

    /// An error explained by this one, ending at `line` and `column`.
    fn end_point_of_error(self, line: usize, column: usize) -> (r: SimpleError) where Self: Sized
        ensures
            r.error_detail is Some,
            r.where_ is None,
            r.start_point_of_error is None,
            r.end_point_of_error == Some((line, column)),
            r.causes@.len() == 0,
    {
        SimpleError::new().explained_by(self.explain_error()).end_point_of_error(line, column)
    }

    /// An error explained by this one.
    fn to_simple_error(self) -> (r: SimpleError) where Self: Sized
        ensures
            r.error_detail is Some,
            r.where_ is None,
            r.start_point_of_error is None,
            r.end_point_of_error is None,
            r.causes@.len() == 0,
    {
        SimpleError::new().explained_by(self.explain_error())
    }

    /// An error explained by this one, caused by `cause`.
    fn with_cause(self, cause: SimpleError) -> (r: SimpleError) where Self: Sized
        ensures
            r.error_detail is Some,
            r.where_ is None,
            r.start_point_of_error is None,
            r.end_point_of_error is None,
            r.causes@ == seq![cause],
    {
        SimpleError::new().explained_by(self.explain_error()).with_cause(cause)
    }

    /// What is shown of an error explained by this one.
    fn to_display_struct(self, colorize: bool) -> (r: SimpleErrorDisplayInfo) where Self: Sized
        ensures
            r@.at is None,
            r@.on_line_and_column is None,
            r@.up_to_line_an_column is None,
            r@.unexplained_causes == 0,
            r@.explained_causes.len() == 0,
    {
        let e = SimpleError::new().explained_by(self.explain_error());
        assert(error_count(e) == 1);
        let r = e.as_display_struct(colorize);
        proof {
            lemma_lone_error_model(e);
            if colorize {
                assert(strip_at(r@).explained_causes.len() == r@.explained_causes.len());
            }
        }
        r
    }
}

impl SimpleErrorDetail for SimpleErrorExplanation {
    fn explain_error(&self) -> SimpleErrorExplanation {
        self.clone()
    }
}

impl SimpleErrorDetail for String {
    fn explain_error(&self) -> SimpleErrorExplanation {
        SimpleErrorExplanation::new().explanation(self.as_str())
    }
}

} // verus!
