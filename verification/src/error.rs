//! Why the repair of a file failed.

use vstd::prelude::*;
use vstd::string::StringExecFns;

verus! {

/// What is wrong with a package manifest that cannot be repaired.
#[derive(Clone, Copy, Debug, PartialEq, Eq, Structural)]
pub enum ManifestFault {
    /// It is not well-formed XML.
    Unparseable,
    /// It has no metadata section.
    NoMetadata,
    /// The repaired tree cannot be written as a document.
    Unwritable,
}

/// A failure to repair one input file.
#[derive(Debug, PartialEq, Eq)]
pub enum FixError {
    /// Reading or writing failed; the text is the cause.
    Io(String),
    /// The input is not a readable archive; the text is the cause.
    Zip(String),
    /// The progress display refused its template; the text is the cause.
    ProgressTemplate(String),
    /// The name of the input file has no stem to derive an output name from.
    InvalidFileName(String),
    /// The manifest at the given path in the archive cannot be repaired.
    Manifest(String, ManifestFault),
}

pub const IO_PREFIX: &'static str = "I/O error: ";

pub const ZIP_PREFIX: &'static str = "ZIP error: ";

pub const TEMPLATE_PREFIX: &'static str = "progress bar template error: ";

pub const FILE_NAME_PREFIX: &'static str = "invalid input filename: ";

pub const MANIFEST_PREFIX: &'static str = "invalid manifest ";

pub const UNPARSEABLE: &'static str = ": not well-formed XML";

pub const NO_METADATA: &'static str = ": no metadata section";

pub const UNWRITABLE: &'static str = ": cannot be written";

impl ManifestFault {
    /// What the message of an error says of this fault.
    pub open spec fn text(self) -> Seq<char> {
        match self {
            ManifestFault::Unparseable => UNPARSEABLE@,
            ManifestFault::NoMetadata => NO_METADATA@,
            ManifestFault::Unwritable => UNWRITABLE@,
        }
    }
}

impl FixError {
    /// The message of this error.
    pub open spec fn text(self) -> Seq<char> {
        match self {
            FixError::Io(cause) => IO_PREFIX@ + cause@,
            FixError::Zip(cause) => ZIP_PREFIX@ + cause@,
            FixError::ProgressTemplate(cause) => TEMPLATE_PREFIX@ + cause@,
            FixError::InvalidFileName(name) => FILE_NAME_PREFIX@ + name@,
            FixError::Manifest(path, fault) => MANIFEST_PREFIX@ + path@ + fault.text(),
        }
    }

    /// The message of this error, for the user.
    pub fn message(&self) -> (message: String)
        ensures
            message@ == self.text(),
    {
        match self {
            FixError::Io(cause) => String::from_str(IO_PREFIX).concat(cause.as_str()),
            FixError::Zip(cause) => String::from_str(ZIP_PREFIX).concat(cause.as_str()),
            FixError::ProgressTemplate(cause) => String::from_str(TEMPLATE_PREFIX).concat(
                cause.as_str(),
            ),
            FixError::InvalidFileName(name) => String::from_str(FILE_NAME_PREFIX).concat(
                name.as_str(),
            ),
            FixError::Manifest(path, fault) => {
                let cause = match fault {
                    ManifestFault::Unparseable => UNPARSEABLE,
                    ManifestFault::NoMetadata => NO_METADATA,
                    ManifestFault::Unwritable => UNWRITABLE,
                };
                String::from_str(MANIFEST_PREFIX).concat(path.as_str()).concat(cause)
            },
        }
    }
}

} // verus!
