//! What can go wrong while the records are set up and while they are updated.

use crate::text::around_path;
use crate::text::cause_text;
use crate::text::quoted_text;
use vstd::prelude::*;
use vstd::string::*;

verus! {

/// `std::io::Error`, the cause of a failure to read. Nothing is known of what
/// is inside a value of it.
#[verifier::external_type_specification]
#[verifier::external_body]
pub struct ExIoError(std::io::Error);

/// An update of the records that could not be made.
#[derive(Debug)]
pub enum ProcessError {
    /// The path has no record.
    ///
    /// The path was resolved differently than at start, or the file was moved
    /// and the system reported its new path.
    NoSuchPath { path: Vec<u8> },
    /// No destination directory has been set.
    NoDestination,
    /// The record of the path is in progress: a backup of the file is under
    /// way. The update can be tried again once that backup has ended.
    InProgress { path: Vec<u8> },
}

/// A failure to set the records up.
#[derive(Debug)]
pub enum StateInitializeError {
    /// The records were set up before.
    DoubleInitialization,
    /// The source path has no file stem.
    NoFileStem { source: Vec<u8> },
    /// The file stem of the source is not UTF-8 text, so the names in the
    /// destination directory cannot be matched against it.
    UTF8ConversionError { source: Vec<u8> },
    /// The destination directory could not be read.
    ReadDestination { folder: Vec<u8>, error: std::io::Error },
}

impl ProcessError {
    /// The message of this error.
    pub fn to_string(&self) -> (r: String)
        ensures
            r@ == match *self {
                ProcessError::NoSuchPath { path } => "Trying to update unregistered path: \""@
                    + quoted_text(path@) + "\""@,
                ProcessError::NoDestination => "Destination folder is not configured"@,
                ProcessError::InProgress { path } => "A backup is in progress for path: \""@
                    + quoted_text(path@) + "\""@,
            },
    {
        match self {
            ProcessError::NoSuchPath { path } => around_path(
                "Trying to update unregistered path: \"",
                path.as_slice(),
                "\"",
            ),
            ProcessError::NoDestination => String::from_str("Destination folder is not configured"),
            ProcessError::InProgress { path } => around_path(
                "A backup is in progress for path: \"",
                path.as_slice(),
                "\"",
            ),
        }
    }
}

impl StateInitializeError {
    /// The text that the message of this error begins with: all of it but the
    /// cause, which the message of `ReadDestination` ends with.
    pub open spec fn message_head(self) -> Seq<char> {
        match self {
            StateInitializeError::DoubleInitialization => "Unexpected double initialization"@,
            StateInitializeError::NoFileStem { source } => "Source filename has no file stem: "@
                + quoted_text(source@),
            StateInitializeError::UTF8ConversionError { source } =>
                "Unable to convert source filename to UTF-8: "@ + quoted_text(source@),
            StateInitializeError::ReadDestination { folder, error } => "Unable to read dir "@
                + quoted_text(folder@) + ": "@,
        }
    }

    /// The message of this error.
    pub fn to_string(&self) -> (r: String)
        ensures
            self.message_head().is_prefix_of(r@),
            !(self is ReadDestination) ==> r@ == self.message_head(),
    {
        proof {
            reveal_strlit("");
        }
        match self {
            StateInitializeError::DoubleInitialization => String::from_str(
                "Unexpected double initialization",
            ),
            StateInitializeError::NoFileStem { source } => around_path(
                "Source filename has no file stem: ",
                source.as_slice(),
                "",
            ),
            StateInitializeError::UTF8ConversionError { source } => around_path(
                "Unable to convert source filename to UTF-8: ",
                source.as_slice(),
                "",
            ),
            StateInitializeError::ReadDestination { folder, error } => {
                let mut message = around_path("Unable to read dir ", folder.as_slice(), ": ");
                let ghost head = message@;
                let cause = cause_text(error);
                message.append(cause.as_str());
                assert(message@.subrange(0, head.len() as int) =~= head);
                message
            },
        }
    }
}

} // verus!
