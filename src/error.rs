//! Errors of the library and of the tools.

use vstd::prelude::*;

verus! {

/// What can go wrong while running a tool.
#[derive(Debug)]
pub enum BrowserError {
    /// The browser could not be started or reached.
    LaunchFailed(String),
    /// Navigation to a page failed.
    NavigationFailed(String),
    /// The page structure could not be read.
    DomExtractionFailed(String),
    /// The parameters do not have the expected shape.
    InvalidArgument(String),
    /// A locator or a handle resolves to nothing.
    ElementNotFound(String),
    /// A script raised an error.
    EvaluationFailed(String),
    /// The screenshot could not be taken or saved.
    ScreenshotFailed(String),
    /// Waiting exceeded its bound.
    Timeout(String),
    /// An underlying command failed while a tool ran.
    ToolExecutionFailed { tool: String, reason: String },
}

/// The text of an error: its kind, then its details.
pub open spec fn error_message(e: BrowserError) -> Seq<char> {
    match e {
        BrowserError::LaunchFailed(m) => "Failed to launch browser: "@ + m@,
        BrowserError::NavigationFailed(m) => "Navigation failed: "@ + m@,
        BrowserError::DomExtractionFailed(m) => "DOM extraction failed: "@ + m@,
        BrowserError::InvalidArgument(m) => "Invalid argument: "@ + m@,
        BrowserError::ElementNotFound(m) => "Element not found: "@ + m@,
        BrowserError::EvaluationFailed(m) => "JavaScript evaluation failed: "@ + m@,
        BrowserError::ScreenshotFailed(m) => "Screenshot failed: "@ + m@,
        BrowserError::Timeout(m) => "Timeout: "@ + m@,
        BrowserError::ToolExecutionFailed { tool, reason } => "Tool '"@ + tool@ + "' execution failed: "@
            + reason@,
    }
}

impl BrowserError {
    /// The text of the error.
    pub fn message(&self) -> (r: String)
        ensures
            r@ == error_message(*self),
    {
        let (head, detail, tail): (&str, &String, Option<&String>) = match self {
            BrowserError::LaunchFailed(m) => ("Failed to launch browser: ", m, None),
            BrowserError::NavigationFailed(m) => ("Navigation failed: ", m, None),
            BrowserError::DomExtractionFailed(m) => ("DOM extraction failed: ", m, None),
            BrowserError::InvalidArgument(m) => ("Invalid argument: ", m, None),
            BrowserError::ElementNotFound(m) => ("Element not found: ", m, None),
            BrowserError::EvaluationFailed(m) => ("JavaScript evaluation failed: ", m, None),
            BrowserError::ScreenshotFailed(m) => ("Screenshot failed: ", m, None),
            BrowserError::Timeout(m) => ("Timeout: ", m, None),
            BrowserError::ToolExecutionFailed { tool, reason } => ("Tool '", tool, Some(reason)),
        };
        let mut r = String::from_str(head);
        r.append(detail.as_str());
        match tail {
            Some(reason) => {
                r.append("' execution failed: ");
                r.append(reason.as_str());
            },
            None => {},
        }
        r
    }
}

} // verus!
