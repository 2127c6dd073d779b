//! Errors and their classes.

use vstd::prelude::*;

verus! {

/// The class of a failure, without its message.
#[derive(Clone, Copy, Debug, PartialEq, Eq, Structural)]
pub enum ErrorKind {
    /// A shape mismatch, or an invalid axis, coordinate, range, permutation or offset.
    Bounds,
    /// An operation that is not available, or that is numerically forbidden.
    Unsupported,
    /// An integer division by zero, or an overflow.
    Arithmetic,
    /// A failure of the execution platform.
    Platform,
    /// A failure to move a buffer between host and device.
    IO,
}

/// A failure, with a message for the user.
#[derive(Debug)]
pub enum Error {
    Bounds(String),
    Unsupported(String),
    Arithmetic(String),
    Platform(String),
    IO(String),
}

impl Error {
    /// The class of this error.
    pub open spec fn spec_kind(&self) -> ErrorKind {
        match self {
            Error::Bounds(_) => ErrorKind::Bounds,
            Error::Unsupported(_) => ErrorKind::Unsupported,
            Error::Arithmetic(_) => ErrorKind::Arithmetic,
            Error::Platform(_) => ErrorKind::Platform,
            Error::IO(_) => ErrorKind::IO,
        }
    }

    /// The class of this error.
    #[verifier::when_used_as_spec(spec_kind)]
    pub fn kind(&self) -> (kind: ErrorKind)
        ensures
            kind == self.spec_kind(),
    {
        match self {
            Error::Bounds(_) => ErrorKind::Bounds,
            Error::Unsupported(_) => ErrorKind::Unsupported,
            Error::Arithmetic(_) => ErrorKind::Arithmetic,
            Error::Platform(_) => ErrorKind::Platform,
            Error::IO(_) => ErrorKind::IO,
        }
    }

    /// The message of this error.
    pub fn message(&self) -> (text: &str)
        ensures
            text@ == self.spec_message(),
    {
        match self {
            Error::Bounds(text) => text.as_str(),
            Error::Unsupported(text) => text.as_str(),
            Error::Arithmetic(text) => text.as_str(),
            Error::Platform(text) => text.as_str(),
            Error::IO(text) => text.as_str(),
        }
    }

    /// The characters of this error's message.
    pub open spec fn spec_message(&self) -> Seq<char> {
        match self {
            Error::Bounds(text) => text@,
            Error::Unsupported(text) => text@,
            Error::Arithmetic(text) => text@,
            Error::Platform(text) => text@,
            Error::IO(text) => text@,
        }
    }

    /// A bounds error about one shape (or list of axes, or coordinate): its message says what
    /// is wrong, and shows the numbers.
    pub fn bounds(what: &str, dims: &[usize]) -> (error: Error)
        ensures
            error.kind() == ErrorKind::Bounds,
            error.spec_message() == message_of(what@, dims@),
    {
        let mut text = what.to_owned();
        text.push_str(": ");
        text.push_str(show(dims).as_str());
        Error::Bounds(text)
    }

    /// A bounds error about two shapes: its message says what is wrong, and shows the numbers
    /// of both.
    pub fn bounds_pair(what: &str, left: &[usize], right: &[usize]) -> (error: Error)
        ensures
            error.kind() == ErrorKind::Bounds,
            error.spec_message() == message_of_pair(what@, left@, right@),
    {
        let mut text = what.to_owned();
        text.push_str(": ");
        text.push_str(show(left).as_str());
        text.push_str(" and ");
        text.push_str(show(right).as_str());
        Error::Bounds(text)
    }

    /// This error, with a hint added in brackets at the end of its message.
    pub fn with_hint(self, hint: &str) -> (error: Error)
        ensures
            error.kind() == self.kind(),
            error.spec_message() == hinted(self.spec_message(), hint@),
    {
        match self {
            Error::Bounds(text) => Error::Bounds(append_hint(text, hint)),
            Error::Unsupported(text) => Error::Unsupported(append_hint(text, hint)),
            Error::Arithmetic(text) => Error::Arithmetic(append_hint(text, hint)),
            Error::Platform(text) => Error::Platform(append_hint(text, hint)),
            Error::IO(text) => Error::IO(append_hint(text, hint)),
        }
    }

    /// An arithmetic error.
    pub fn arithmetic(what: &str) -> (error: Error)
        ensures
            error.kind() == ErrorKind::Arithmetic,
            error.spec_message() == what@,
    {
        Error::Arithmetic(what.to_owned())
    }

    /// An error for an operation that is not supported.
    pub fn unsupported(what: &str) -> (error: Error)
        ensures
            error.kind() == ErrorKind::Unsupported,
            error.spec_message() == what@,
    {
        Error::Unsupported(what.to_owned())
    }

    /// An error with the given class and message.
    pub fn of_kind(kind: ErrorKind, what: &str) -> (error: Error)
        ensures
            error.kind() == kind,
            error.spec_message() == what@,
    {
        match kind {
            ErrorKind::Bounds => Error::Bounds(what.to_owned()),
            ErrorKind::Unsupported => Error::Unsupported(what.to_owned()),
            ErrorKind::Arithmetic => Error::Arithmetic(what.to_owned()),
            ErrorKind::Platform => Error::Platform(what.to_owned()),
            ErrorKind::IO => Error::IO(what.to_owned()),
        }
    }
}

/// What a fallible call returned, with an error reduced to its class.
pub open spec fn outcome<V>(result: Result<V, Error>) -> Result<V, ErrorKind> {
    match result {
        Ok(value) => Ok(value),
        Err(error) => Err(error.kind()),
    }
}

/// The text that std's `Debug` writes for a list of numbers: the numbers in decimal, with a
/// comma and a space between them, in square brackets.
pub uninterp spec fn shown(dims: Seq<usize>) -> Seq<char>;

/// The message of a bounds error about one list of numbers: what is wrong, a colon, and the
/// numbers.
pub open spec fn message_of(what: Seq<char>, dims: Seq<usize>) -> Seq<char> {
    what + ": "@ + shown(dims)
}

/// The message of a bounds error about two lists of numbers: what is wrong, a colon, and the
/// numbers of both.
pub open spec fn message_of_pair(what: Seq<char>, left: Seq<usize>, right: Seq<usize>) -> Seq<
    char,
> {
    what + ": "@ + shown(left) + " and "@ + shown(right)
}

/// A message with a hint in brackets at its end.
pub open spec fn hinted(text: Seq<char>, hint: Seq<char>) -> Seq<char> {
    text + " ("@ + hint + ")"@
}

/// std's `format!` with `{:?}` on a slice of numbers: the text that `Debug` writes for the
/// slice, which depends on the numbers alone.
#[verifier::external_body]
fn show(dims: &[usize]) -> (text: String)
    ensures
        text@ == shown(dims@),
{
    format!("{dims:?}")
}

/// `String::push_str` appends the characters of `more` to `text`.
pub assume_specification[ String::push_str ](text: &mut String, more: &str)
    ensures
        final(text)@ == old(text)@ + more@,
;

/// `text` with `hint` in brackets at its end.
fn append_hint(text: String, hint: &str) -> (longer: String)
    ensures
        longer@ == hinted(text@, hint@),
{
    let mut longer = text;
    longer.push_str(" (");
    longer.push_str(hint);
    longer.push_str(")");
    longer
}

} // verus!
