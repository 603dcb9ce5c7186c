//! The errors the crate reports.
use vstd::prelude::*;

verus! {

/// What can go wrong in the index.
#[derive(Debug)]
pub enum TantivyError {
    /// A caller passed an argument the current state does not admit.
    InvalidArgument(String),
    /// The index cannot carry out work it was asked to schedule.
    SystemError(String),
}

/// The result of an operation on the index.
pub type Result<T> = std::result::Result<T, TantivyError>;

impl TantivyError {
    /// Whether this is an `InvalidArgument` with the given message.
    pub open spec fn is_invalid_argument(self, message: Seq<char>) -> bool {
        self matches TantivyError::InvalidArgument(text) && text@ == message
    }

    /// Whether this is a `SystemError` with the given message.
    pub open spec fn is_system_error(self, message: Seq<char>) -> bool {
        self matches TantivyError::SystemError(text) && text@ == message
    }

    /// The text shown to a user.
    pub open spec fn text(self) -> Seq<char> {
        match self {
            TantivyError::InvalidArgument(text) => {
                "An invalid argument was passed: '"@ + text@ + "'"@
            },
            TantivyError::SystemError(text) => "System error.'"@ + text@ + "'"@,
        }
    }

    /// Renders the error for a user.
    pub fn to_string(&self) -> (rendered: String)
        ensures
            rendered@ == self.text(),
    {
        match self {
            TantivyError::InvalidArgument(text) => {
                let mut rendered = String::from_str("An invalid argument was passed: '");
                rendered.append(text.as_str());
                rendered.append("'");
                rendered
            },
            TantivyError::SystemError(text) => {
                let mut rendered = String::from_str("System error.'");
                rendered.append(text.as_str());
                rendered.append("'");
                rendered
            },
        }
    }
}

} // verus!
