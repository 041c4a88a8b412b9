use vstd::prelude::*;
use crate::parse::AnyString;
use crate::filter::{Filter, capture_text};

verus! {

/// Why a filter could not be applied to a value.
#[derive(Debug, PartialEq)]
pub enum ErrorKind {
    InputNotUtf8,
    CanonicalizationFailed(AnyString),
}

/// The mathematical content of an [`ErrorKind`] (the outside message is left out).
pub enum ErrorKindView {
    InputNotUtf8,
    CanonicalizationFailed,
}

impl View for ErrorKind {
    type V = ErrorKindView;

    open spec fn view(&self) -> ErrorKindView {
        match self {
            ErrorKind::InputNotUtf8 => ErrorKindView::InputNotUtf8,
            ErrorKind::CanonicalizationFailed(_) => ErrorKindView::CanonicalizationFailed,
        }
    }
}

/// Result of applying a filter.
pub type BaseResult<T> = std::result::Result<T, ErrorKind>;

/// The mathematical content of a filter result.
pub open spec fn base_view(r: BaseResult<String>) -> std::result::Result<Seq<char>, ErrorKindView> {
    match r {
        Ok(s) => Ok(s@),
        Err(e) => Err(e@),
    }
}

impl ErrorKind {
    /// The message that describes this error.
    pub open spec fn message(&self) -> Seq<char> {
        match self {
            ErrorKind::InputNotUtf8 => "Input does not have UTF-8 encoding"@,
            ErrorKind::CanonicalizationFailed(reason) => "Path canonicalization failed: "@ + reason.0@,
        }
    }

    /// The message that describes this error.
    pub fn to_message(&self) -> (s: String)
        ensures
            s@ == self.message(),
    {
        match self {
            ErrorKind::InputNotUtf8 => crate::text::string_from_str("Input does not have UTF-8 encoding"),
            ErrorKind::CanonicalizationFailed(reason) => {
                let mut s = crate::text::string_from_str("Path canonicalization failed: ");
                s.append(reason.0.as_str());
                s
            },
        }
    }
}

/// What evaluation of a pattern may depend on besides its input.
pub struct Context {
    /// Directory against which relative paths are resolved.
    pub working_dir: String,
    /// Value of the counter shared by all inputs.
    pub global_counter: u32,
    /// Value of the counter kept per directory.
    pub local_counter: u32,
    /// Groups captured by the external regular expression (group 0 is the whole match);
    /// `None` when there is no match.
    pub regex_captures: Option<Vec<Option<String>>>,
    /// Character put around each expression's value, if any.
    pub expression_quotes: Option<char>,
}

impl Context {
    /// The text of capture group `position` of the external regular expression,
    /// or nothing when there is no such group or no match.
    pub fn regex_capture(&self, position: usize) -> (r: &str)
        ensures
            r@ == capture_text(self.regex_captures, position),
    {
        proof {
            reveal_strlit("");
        }
        match &self.regex_captures {
            Some(groups) => {
                if position < groups.len() {
                    match &groups[position] {
                        Some(t) => t.as_str(),
                        None => "",
                    }
                } else {
                    ""
                }
            },
            None => "",
        }
    }
}

/// Result of evaluating a pattern.
pub type Result<'a, T> = std::result::Result<T, Error<'a>>;

/// Why a pattern could not be evaluated: which filter failed, on which value, and where
/// that filter stands in the pattern source.
#[derive(Debug, PartialEq)]
pub struct Error<'a> {
    pub kind: ErrorKind,
    pub value: String,
    pub cause: &'a Filter,
    pub range: &'a std::ops::Range<usize>,
}

impl<'a> crate::parse::GetErrorRange for Error<'a> {
    open spec fn error_range_spec(&self) -> std::ops::Range<usize> {
        *self.range
    }

    fn error_range(&self) -> (r: &std::ops::Range<usize>) {
        self.range
    }
}

impl<'a> Error<'a> {
    /// The byte range of the pattern source where the failed filter stands.
    pub fn range(&self) -> (r: &std::ops::Range<usize>)
        ensures
            *r == *self.range,
    {
        self.range
    }

    /// The full message of this error.
    pub open spec fn message(&self) -> Seq<char> {
        "'"@ + self.cause.display() + "' evaluation failed for value '"@ + self.value@ + "': "@
            + self.kind.message()
    }

    /// The full message of this error (what the error displays as).
    pub fn to_message(&self) -> (s: String)
        requires
            self.cause@.displayable(),
        ensures
            s@ == self.message(),
    {
        let mut s = crate::text::string_from_str("'");
        s.append(self.cause.to_display_string().as_str());
        s.append("' evaluation failed for value '");
        s.append(self.value.as_str());
        s.append("': ");
        s.append(self.kind.to_message().as_str());
        s
    }
}

} // verus!
