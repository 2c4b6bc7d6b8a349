//! The ways in which an operation of the library fails.

use vstd::prelude::*;
use vstd::string::StringExecFns;

verus! {

/// A failure, with the path, key or locator that it is about.
#[derive(Clone, Debug, PartialEq, Eq)]
pub enum Failure {
    /// A directory or file that should exist does not.
    NotFound { path: String },
    /// No service is registered under this name.
    KeyNotFound { key: String },
    /// The request for this locator did not come back with a body.
    TransportError { locator: String },
    /// The body behind this locator does not have the expected structure.
    ParseError { locator: String, excerpt: String },
    /// The stored bytes at this path are not an encoded page.
    CorruptData { path: String },
    /// The file system refused an operation on this path.
    IOError { path: String },
    /// The registry already holds an entry of this name.
    AlreadyExists { name: String },
    /// A worker crashed or a batch came back incomplete: the orchestration
    /// itself is broken and must stop.
    FatalInternalFault,
}

impl Failure {
    /// Whether the failure is one that a caller may report and carry on from.
    pub open spec fn is_reported(self) -> bool {
        !(self is FatalInternalFault)
    }

    /// The description that `message` gives.
    pub open spec fn message_text(self) -> Seq<char> {
        match self {
            Failure::NotFound { path } => "not found: "@ + path@,
            Failure::KeyNotFound { key } => "no such service: "@ + key@,
            Failure::TransportError { locator } => "request failed: "@ + locator@,
            Failure::ParseError { locator, excerpt } => "unexpected page structure at "@ + locator@
                + ": "@ + excerpt@,
            Failure::CorruptData { path } => "corrupt page data: "@ + path@,
            Failure::IOError { path } => "input/output failure: "@ + path@,
            Failure::AlreadyExists { name } => "already exists: "@ + name@,
            Failure::FatalInternalFault => "fatal internal fault"@,
        }
    }

    /// A stable description of the failure that names what it is about.
    pub fn message(&self) -> (text: String)
        ensures
            text@ == self.message_text(),
    {
        match self {
            Failure::NotFound { path } => String::from_str("not found: ").concat(path.as_str()),
            Failure::KeyNotFound { key } => String::from_str("no such service: ").concat(
                key.as_str(),
            ),
            Failure::TransportError { locator } => String::from_str("request failed: ").concat(
                locator.as_str(),
            ),
            Failure::ParseError { locator, excerpt } => String::from_str(
                "unexpected page structure at ",
            ).concat(locator.as_str()).concat(": ").concat(excerpt.as_str()),
            Failure::CorruptData { path } => String::from_str("corrupt page data: ").concat(
                path.as_str(),
            ),
            Failure::IOError { path } => String::from_str("input/output failure: ").concat(
                path.as_str(),
            ),
            Failure::AlreadyExists { name } => String::from_str("already exists: ").concat(
                name.as_str(),
            ),
            Failure::FatalInternalFault => String::from_str("fatal internal fault"),
        }
    }

    /// Whether the failure must end the whole orchestration.
    pub fn is_fatal(&self) -> (fatal: bool)
        ensures
            fatal == !self.is_reported(),
    {
        match self {
            Failure::FatalInternalFault => true,
            _ => false,
        }
    }
}

} // verus!
