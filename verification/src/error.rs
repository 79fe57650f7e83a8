//! What can go wrong, by source.

use vstd::prelude::*;

verus! {

/// A malformed hotkey description. The caller mends the text.
#[derive(Debug, PartialEq, Eq)]
pub enum ParseError {
    /// Nothing is left of the description once whitespace is trimmed.
    EmptyDescription,
    /// A token that is neither a modifier nor a key; it holds the token.
    UnknownToken(String),
    /// The description names no key besides its modifiers.
    MissingKey,
    /// The description names more than one key.
    MultipleKeys,
}

/// A `ParseError` as contracts see it: the token as a sequence of characters.
pub enum ParseErrorView {
    EmptyDescription,
    UnknownToken(Seq<char>),
    MissingKey,
    MultipleKeys,
}

impl View for ParseError {
    type V = ParseErrorView;

    open spec fn view(&self) -> ParseErrorView {
        match self {
            ParseError::EmptyDescription => ParseErrorView::EmptyDescription,
            ParseError::UnknownToken(token) => ParseErrorView::UnknownToken(token@),
            ParseError::MissingKey => ParseErrorView::MissingKey,
            ParseError::MultipleKeys => ParseErrorView::MultipleKeys,
        }
    }
}

/// A request that does not fit the state of the registry.
#[derive(Clone, Copy, Debug, PartialEq, Eq, Structural)]
pub enum RegistryError {
    AlreadyRegistered,
    NotRegistered,
}

/// The platform rejected an install or a removal.
#[derive(Clone, Copy, Debug, PartialEq, Eq, Structural)]
pub enum OsError {
    /// Another process, or the system itself, holds the combination.
    AlreadyBoundElsewhere,
    /// The platform asks for a privilege that the process lacks.
    PermissionDenied,
    /// The platform cannot represent the combination.
    UnsupportedKey,
    /// The handle is stale: the hook was removed before.
    InvalidHandle,
}

/// Any failure of the hotkey manager.
#[derive(Debug, PartialEq, Eq)]
pub enum Error {
    Parse(ParseError),
    Registry(RegistryError),
    Os(OsError),
}

/// An `Error` as contracts see it.
pub enum ErrorView {
    Parse(ParseErrorView),
    Registry(RegistryError),
    Os(OsError),
}

impl View for Error {
    type V = ErrorView;

    open spec fn view(&self) -> ErrorView {
        match self {
            Error::Parse(e) => ErrorView::Parse(e@),
            Error::Registry(e) => ErrorView::Registry(*e),
            Error::Os(e) => ErrorView::Os(*e),
        }
    }
}

/// The text of a parse error.
pub open spec fn parse_error_text(e: ParseErrorView) -> Seq<char> {
    match e {
        ParseErrorView::EmptyDescription => "failed to parse hotkey: the description is empty"@,
        ParseErrorView::UnknownToken(token) => "failed to parse hotkey: unknown key "@ + token,
        ParseErrorView::MissingKey => "failed to parse hotkey: hotkey has no key specified"@,
        ParseErrorView::MultipleKeys => "failed to parse hotkey: more than one key specified"@,
    }
}

/// The text of a registry error.
pub open spec fn registry_error_text(e: RegistryError) -> Seq<char> {
    match e {
        RegistryError::AlreadyRegistered => "Hotkey already registered"@,
        RegistryError::NotRegistered => "Hotkey is not registered"@,
    }
}

/// The text of a platform error.
pub open spec fn os_error_text(e: OsError) -> Seq<char> {
    match e {
        OsError::AlreadyBoundElsewhere =>
            "Hotkey system error: the combination is bound elsewhere"@,
        OsError::PermissionDenied => "Hotkey system error: permission denied"@,
        OsError::UnsupportedKey => "Hotkey system error: the combination is not supported"@,
        OsError::InvalidHandle => "Hotkey system error: the hook was removed before"@,
    }
}

/// The text of any error.
pub open spec fn error_text(e: ErrorView) -> Seq<char> {
    match e {
        ErrorView::Parse(e) => parse_error_text(e),
        ErrorView::Registry(e) => registry_error_text(e),
        ErrorView::Os(e) => os_error_text(e),
    }
}

impl ParseError {
    /// The error in words.
    pub fn message(&self) -> (text: String)
        ensures
            text@ == parse_error_text(self@),
    {
        match self {
            ParseError::EmptyDescription => {
                "failed to parse hotkey: the description is empty".to_owned()
            },
            ParseError::UnknownToken(token) => {
                let mut text = "failed to parse hotkey: unknown key ".to_owned();
                text.append(token.as_str());
                text
            },
            ParseError::MissingKey => {
                "failed to parse hotkey: hotkey has no key specified".to_owned()
            },
            ParseError::MultipleKeys => {
                "failed to parse hotkey: more than one key specified".to_owned()
            },
        }
    }
}

impl RegistryError {
    /// The error in words.
    pub fn message(&self) -> (text: String)
        ensures
            text@ == registry_error_text(*self),
    {
        match self {
            RegistryError::AlreadyRegistered => "Hotkey already registered".to_owned(),
            RegistryError::NotRegistered => "Hotkey is not registered".to_owned(),
        }
    }
}

impl OsError {
    /// The error in words.
    pub fn message(&self) -> (text: String)
        ensures
            text@ == os_error_text(*self),
    {
        match self {
            OsError::AlreadyBoundElsewhere => {
                "Hotkey system error: the combination is bound elsewhere".to_owned()
            },
            OsError::PermissionDenied => "Hotkey system error: permission denied".to_owned(),
            OsError::UnsupportedKey => {
                "Hotkey system error: the combination is not supported".to_owned()
            },
            OsError::InvalidHandle => {
                "Hotkey system error: the hook was removed before".to_owned()
            },
        }
    }
}

impl Error {
    /// The error in words.
    pub fn message(&self) -> (text: String)
        ensures
            text@ == error_text(self@),
    {
        match self {
            Error::Parse(e) => e.message(),
            Error::Registry(e) => e.message(),
            Error::Os(e) => e.message(),
        }
    }
}

} // verus!
