//! The errors that the program reports.
use vstd::prelude::*;
use crate::text::push_str;

verus! {

/// An error of the program, with the message it prints.
#[derive(Debug, PartialEq, Eq)]
pub enum HsfError {
    /// A backup name that [`crate::backup::is_valid_name`] refuses.
    IncorrectName,
    /// A backup action that does not exist; holds the action as given.
    UnknownAction(String),
    /// `check` was given a domain that is not valid.
    EmptyDomain,
    /// `add` was given an address or a domain that is not valid.
    EmptyIpOrDomain,
    /// `remove` was given a domain that is not valid.
    IncorrectDomain,
    /// A formatted preset is larger than the content limit.
    ContentLimit,
    /// A formatted preset is not a well formed hosts file; `line` is the
    /// first line that is not well formed, counted from 0.
    IncorrectHostsFormat { line: usize },
    /// The formatter's output is too large (`bad_line` is `None`) or not a
    /// well formed hosts file (`bad_line` is its first bad line, counted
    /// from 0).
    IncorrectHostsInput { bad_line: Option<usize> },
}

/// The message printed for `e`.
pub open spec fn spec_message(e: HsfError) -> Seq<char> {
    match e {
        HsfError::IncorrectName => "Name is incorrect"@,
        HsfError::UnknownAction(a) => "Action "@ + a@ + " doesn't exist"@,
        HsfError::EmptyDomain => "Domain couldn't be empty"@,
        HsfError::EmptyIpOrDomain => "Ip or domain couldn't be empty"@,
        HsfError::IncorrectDomain => "domain is incorrect"@,
        HsfError::ContentLimit => "Content limit exceeded"@,
        HsfError::IncorrectHostsFormat { .. } => "Incorrect hosts format file"@,
        HsfError::IncorrectHostsInput { .. } => "Incorrect hosts format file on input"@,
    }
}

impl HsfError {
    /// The message printed for this error.
    pub fn message(&self) -> (r: String)
        ensures
            r@ == spec_message(*self),
    {
        let mut r = String::new();
        match self {
            HsfError::IncorrectName => push_str(&mut r, "Name is incorrect"),
            HsfError::UnknownAction(a) => {
                push_str(&mut r, "Action ");
                push_str(&mut r, a.as_str());
                push_str(&mut r, " doesn't exist");
            },
            HsfError::EmptyDomain => push_str(&mut r, "Domain couldn't be empty"),
            HsfError::EmptyIpOrDomain => push_str(&mut r, "Ip or domain couldn't be empty"),
            HsfError::IncorrectDomain => push_str(&mut r, "domain is incorrect"),
            HsfError::ContentLimit => push_str(&mut r, "Content limit exceeded"),
            HsfError::IncorrectHostsFormat { .. } => push_str(&mut r, "Incorrect hosts format file"),
            HsfError::IncorrectHostsInput { .. } => push_str(
                &mut r,
                "Incorrect hosts format file on input",
            ),
        }
        r
    }
}

} // verus!
