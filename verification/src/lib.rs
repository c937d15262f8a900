//! Versioned backups of watched files.
//!
//! Every watched file has a record in a [`state::StateStore`]: the number of
//! its newest copy and the modification time that copy was made from. The
//! records are rebuilt from the names found in the destination directory when
//! the process starts, and advance by one for each newer modification time that
//! is observed afterwards.
//!
//! File names and paths are handled as byte strings, the way the operating
//! system stores them. Reading directories, reading modification times and
//! copying files is left to the caller; the functions here decide what is to be
//! copied and under which name, and keep the records.
//!
//! A backup asks [`copy::backup_path`] what to do, makes the copy it is told to
//! make, and reports it through [`copy::complete_copy`]. From the first call to
//! the last the record of the file is locked, so that the copies of one file
//! are made one after the other, whoever asks for them.

pub mod args;
pub mod copy;
pub mod naming;
pub mod process;
pub mod state;
pub mod text;
pub mod time_utils;
