//! The ways in which reading an archive can fail.

use vstd::prelude::*;

verus! {

/// Why an archive, or one entry of it, could not be read.
#[derive(Clone, Copy, Debug, PartialEq, Eq, Structural)]
pub enum Pk2Error {
    /// The archive is structurally invalid: the header is short or carries the
    /// wrong signature, or a directory block is short.
    Format,
    /// No entry of the requested name is in the index.
    NotFound,
    /// The stream returned a different number of bytes than the entry declares.
    Corruption,
}

impl Pk2Error {
    /// A short description, suitable for an error message.
    pub fn message(&self) -> (text: &'static str)
        ensures
            text@ == (match *self {
                Pk2Error::Format => "not a valid pk2 archive"@,
                Pk2Error::NotFound => "no entry of that name in the archive"@,
                Pk2Error::Corruption => "the archive ends before the end of the entry"@,
            }),
    {
        match self {
            Pk2Error::Format => "not a valid pk2 archive",
            Pk2Error::NotFound => "no entry of that name in the archive",
            Pk2Error::Corruption => "the archive ends before the end of the entry",
        }
    }
}

} // verus!
