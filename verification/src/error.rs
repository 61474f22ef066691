//! Error type for the `upath` crate.

use vstd::prelude::*;

verus! {

/// The standard I/O error, carried opaquely inside [`Error::Io`].
#[verifier::external_type_specification]
#[verifier::external_body]
pub struct ExIoError(std::io::Error);

/// Errors that can be produced while resolving a unique path.
#[derive(Debug)]
pub enum Error {
    /// An underlying I/O error, for example while reading a directory.
    Io(std::io::Error),
    /// The numeric suffix counter overflowed `u64`. Practically unreachable,
    /// but handled so the search can never loop forever.
    Overflow,
    /// The supplied path has no file-name component (for example a filesystem
    /// root), so it cannot be uniquified.
    MissingFileName,
}

/// The text of an I/O error as its `Display` renders it.
///
/// Calls `<std::io::Error as ToString>::to_string`. Nothing is claimed of the
/// text: it depends on the operating system's error messages.
#[verifier::external_body]
fn io_error_text(e: &std::io::Error) -> String {
    e.to_string()
}

/// The fixed text of an error's message: all of it, or for [`Error::Io`] the
/// part in front of the I/O error's own text.
pub open spec fn message_head(e: &Error) -> Seq<char> {
    match e {
        Error::Io(_) => "i/o error: "@,
        Error::Overflow => "numeric suffix counter overflowed"@,
        Error::MissingFileName => "path has no file name to uniquify"@,
    }
}

/// The message of an I/O error whose own text is `text`: `i/o error: `
/// followed by that text.
pub fn io_message(text: &str) -> (r: String)
    ensures
        r@ == "i/o error: "@ + text@,
{
    String::from_str("i/o error: ").concat(text)
}

impl Error {
    /// The human-readable description of the error (what `Display` shows):
    /// for an I/O error, `i/o error: ` followed by the I/O error's own text.
    pub fn message(&self) -> (r: String)
        ensures
            !(self is Io) ==> r@ == message_head(self),
            self is Io ==> r@.len() >= message_head(self).len() && r@.subrange(
                0,
                message_head(self).len() as int,
            ) == message_head(self),
    {
        match self {
            Error::Io(e) => {
                let text = io_error_text(e);
                let r = io_message(text.as_str());
                proof {
                    assert(r@.subrange(0, message_head(self).len() as int) =~= message_head(self));
                }
                r
            },
            Error::Overflow => String::from_str("numeric suffix counter overflowed"),
            Error::MissingFileName => String::from_str("path has no file name to uniquify"),
        }
    }
}

impl From<std::io::Error> for Error {
    fn from(e: std::io::Error) -> (r: Self) {
        Error::Io(e)
    }
}

impl vstd::std_specs::convert::FromSpecImpl<std::io::Error> for Error {
    open spec fn obeys_from_spec() -> bool {
        true
    }

    open spec fn from_spec(v: std::io::Error) -> Self {
        Error::Io(v)
    }
}

/// Convenient alias used throughout the crate.
pub type Result<T> = std::result::Result<T, Error>;

} // verus!
