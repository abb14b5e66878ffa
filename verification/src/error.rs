//! The failure taxonomy of the library.

use vstd::prelude::*;
use vstd::string::*;

verus! {

/// A failure surfaced to the invocation's caller. The host presents these to
/// the user; the library itself never terminates the process.
#[derive(Debug, Clone, PartialEq)]
pub enum Error {
    /// A condition described only by a message.
    Generic(String),
    /// A color specification that does not parse.
    InvalidColor(String),
    /// No font of the fallback list could be resolved at all.
    FontResolution(String),
    /// The theme registry does not even hold the default theme.
    ThemeRegistryCorrupt,
    /// No syntax definition answers to the given language token.
    SyntaxNotFound(String),
    /// The platform offers no clipboard facility; not retryable.
    ClipboardUnsupported,
    /// Clipboard delivery failed after its strategy's retries and fallbacks.
    Clipboard(String),
    /// A timestamp filename template that does not parse.
    InvalidTemplate(String),
    /// A file write failure, with the path it concerns.
    Io(String),
}

/// The prefix every user-facing failure message carries.
pub open spec fn spec_msg_prefix() -> Seq<char> {
    "[silicon.nvim]: "@
}

impl Error {
    /// The text a message for this failure is built around.
    pub open spec fn spec_detail(self) -> Seq<char> {
        match self {
            Error::Generic(s) => s@,
            Error::InvalidColor(s) => "invalid color '"@ + s@ + "'"@,
            Error::FontResolution(s) => "could not resolve any font from '"@ + s@ + "'"@,
            Error::ThemeRegistryCorrupt => "theme registry is missing the default theme"@,
            Error::SyntaxNotFound(s) => "could not find syntax for '"@ + s@ + "'"@,
            Error::ClipboardUnsupported => "clipboard not supported"@,
            Error::Clipboard(s) => s@,
            Error::InvalidTemplate(s) => "invalid filename template '"@ + s@ + "'"@,
            Error::Io(s) => s@,
        }
    }

    /// The full user-facing message: the library prefix, then the detail.
    pub open spec fn spec_message(self) -> Seq<char> {
        spec_msg_prefix() + self.spec_detail()
    }

    /// Renders the user-facing message for this failure.
    pub fn message(&self) -> (r: String)
        ensures
            r@ == self.spec_message(),
    {
        let detail: String = match self {
            Error::Generic(s) => s.clone(),
            Error::InvalidColor(s) => String::from_str("invalid color '").concat(s.as_str()).concat(
                "'",
            ),
            Error::FontResolution(s) => String::from_str("could not resolve any font from '")
                .concat(s.as_str()).concat("'"),
            Error::ThemeRegistryCorrupt => String::from_str(
                "theme registry is missing the default theme",
            ),
            Error::SyntaxNotFound(s) => String::from_str("could not find syntax for '").concat(
                s.as_str(),
            ).concat("'"),
            Error::ClipboardUnsupported => String::from_str("clipboard not supported"),
            Error::Clipboard(s) => s.clone(),
            Error::InvalidTemplate(s) => String::from_str("invalid filename template '").concat(
                s.as_str(),
            ).concat("'"),
            Error::Io(s) => s.clone(),
        };
        String::from_str("[silicon.nvim]: ").concat(detail.as_str())
    }
}

} // verus!
