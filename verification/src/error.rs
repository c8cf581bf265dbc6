//! What can go wrong.

use vstd::prelude::*;

use crate::text::Text;

verus! {

/// What a message asks for where it reports what should not have happened.
pub const PLEASE_FILE_A_BUG: &'static str =
    "Please file an issue at github.com/google/cargo-raze with details.";

/// An error of the planner.
#[derive(Debug)]
pub enum RazeError {
    /// An error that is described by its message alone.
    Generic(String),
    /// The planner itself is at fault.
    Internal(String),
    /// A dependency cannot be planned.
    Planning { dependency_name_opt: Option<String>, message: String },
    /// The settings contradict each other.
    Config { field_path_opt: Option<String>, message: String },
    /// What was read from a file system cannot be used.
    InvalidData(String),
    /// A text is no version, or no requirement on versions.
    Version(String),
}

/// What a [`RazeError`] holds.
pub enum RazeErrorView {
    Generic(Text),
    Internal(Text),
    Planning { dependency_name_opt: Option<Text>, message: Text },
    Config { field_path_opt: Option<Text>, message: Text },
    InvalidData(Text),
    Version(Text),
}

impl DeepView for RazeError {
    type V = RazeErrorView;

    open spec fn deep_view(&self) -> RazeErrorView {
        match self {
            RazeError::Generic(message) => RazeErrorView::Generic(message@),
            RazeError::Internal(message) => RazeErrorView::Internal(message@),
            RazeError::Planning { dependency_name_opt, message } => RazeErrorView::Planning {
                dependency_name_opt: dependency_name_opt.deep_view(),
                message: message@,
            },
            RazeError::Config { field_path_opt, message } => RazeErrorView::Config {
                field_path_opt: field_path_opt.deep_view(),
                message: message@,
            },
            RazeError::InvalidData(message) => RazeErrorView::InvalidData(message@),
            RazeError::Version(message) => RazeErrorView::Version(message@),
        }
    }
}

/// What a result holds.
pub open spec fn outcome<T: DeepView>(r: Result<T, RazeError>) -> Result<T::V, RazeErrorView> {
    match r {
        Ok(value) => Ok(value.deep_view()),
        Err(error) => Err(error.deep_view()),
    }
}

} // verus!
