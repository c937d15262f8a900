//! What the command line asks for, held against what is found on disk.
//!
//! The caller reads the command line and looks each path up; the functions
//! here decide whether the request can be served and in which form.

use crate::naming::copy_bytes;
use crate::naming::same_bytes;
use crate::state::SourcePath;
use crate::state::SourcePathView;
use crate::text::around_path;
use crate::text::cause_details;
use crate::text::quoted_text;
use vstd::prelude::*;
use vstd::string::*;

verus! {

/// How much is written to the log.
#[derive(Debug, Clone, Copy, PartialEq, Eq)]
pub enum Verbosity {
    Off,
    Error,
    Warning,
    Info,
    Debug,
    Trace,
}

impl Default for Verbosity {
    /// `Info`.
    fn default() -> (r: Verbosity)
        ensures
            r == Verbosity::Info,
    {
        Verbosity::Info
    }
}

/// What the command line asks for.
#[derive(Debug)]
pub struct CommandLineArgs {
    /// The directory that the copies go to.
    pub destination: Vec<u8>,
    /// How much is written to the log.
    pub log_level: Verbosity,
    /// The files to watch.
    pub sources: Vec<SourcePath>,
}

/// Why the request of the command line cannot be served.
#[derive(Debug)]
pub enum CliError {
    /// The source has no absolute form.
    SourceNoAbsolute { filename: Vec<u8>, error: std::io::Error },
    /// The source is not a regular file.
    SourceNotAFile(Vec<u8>),
    /// The path of the source does not end in a file name.
    SourceNoFileStem(Vec<u8>),
    /// The destination is not a directory.
    DestinationFolder { filename: Vec<u8> },
}

impl CliError {
    /// The text that the message of this error begins with: all of it but the
    /// cause, which the message of `SourceNoAbsolute` ends with.
    pub open spec fn message_head(self) -> Seq<char> {
        match self {
            CliError::SourceNoAbsolute { filename, error } =>
                "Unable to resolve absolute path for \""@ + quoted_text(filename@) + "\": "@,
            CliError::SourceNotAFile(filename) => "Source path \""@ + quoted_text(filename@)
                + "\" is not a file."@,
            CliError::SourceNoFileStem(filename) => "Unable to get file name from "@ + quoted_text(
                filename@,
            ) + "."@,
            CliError::DestinationFolder { filename } => "Destination path \""@ + quoted_text(
                filename@,
            ) + "\" is not a folder."@,
        }
    }

    /// The message of this error.
    pub fn to_string(&self) -> (r: String)
        ensures
            self.message_head().is_prefix_of(r@),
            !(self is SourceNoAbsolute) ==> r@ == self.message_head(),
    {
        match self {
            CliError::SourceNoAbsolute { filename, error } => {
                let mut message = around_path(
                    "Unable to resolve absolute path for \"",
                    filename.as_slice(),
                    "\": ",
                );
                let ghost head = message@;
                let cause = cause_details(error);
                message.append(cause.as_str());
                assert(message@.subrange(0, head.len() as int) =~= head);
                message
            },
            CliError::SourceNotAFile(filename) => around_path(
                "Source path \"",
                filename.as_slice(),
                "\" is not a file.",
            ),
            CliError::SourceNoFileStem(filename) => around_path(
                "Unable to get file name from ",
                filename.as_slice(),
                ".",
            ),
            CliError::DestinationFolder { filename } => around_path(
                "Destination path \"",
                filename.as_slice(),
                "\" is not a folder.",
            ),
        }
    }
}

/// What was found of a source that the command line names.
#[derive(Debug)]
pub struct SourceProbe {
    /// The source as the command line names it.
    pub given: Vec<u8>,
    /// The absolute form of the source, or why it has none.
    pub resolved: Result<SourcePath, std::io::Error>,
    /// Whether the absolute form names a regular file.
    pub is_file: bool,
}

/// What is wrong with a source.
pub enum ProbeFault {
    /// It has no absolute form.
    NoAbsolute,
    /// It is not a regular file.
    NotAFile,
    /// Its path does not end in a file name.
    NoFileStem,
}

/// The absolute path of a source, if it has an absolute form.
pub open spec fn resolved_path(probe: SourceProbe) -> Option<Seq<u8>> {
    match probe.resolved {
        Ok(path) => Some(path.path@),
        Err(_) => None,
    }
}

/// Whether the source `probes[i]` has the absolute path of a source before it.
pub open spec fn is_repeat(probes: Seq<SourceProbe>, i: int) -> bool {
    resolved_path(probes[i]) is Some && exists|j: int|
        0 <= j < i && #[trigger] resolved_path(probes[j]) == resolved_path(probes[i])
}

/// What is wrong with the source `probes[i]`, if anything is. A source that
/// repeats one before it is passed over, whatever else was found of it.
pub open spec fn probe_fault(probes: Seq<SourceProbe>, i: int) -> Option<ProbeFault> {
    match probes[i].resolved {
        Err(_) => Some(ProbeFault::NoAbsolute),
        Ok(path) => if is_repeat(probes, i) {
            None
        } else if !probes[i].is_file {
            Some(ProbeFault::NotAFile)
        } else if path.file_name is None {
            Some(ProbeFault::NoFileStem)
        } else {
            None
        },
    }
}

/// `probes[i]` is the first source with which something is wrong.
pub open spec fn is_first_probe_fault(probes: Seq<SourceProbe>, i: int) -> bool {
    &&& 0 <= i < probes.len()
    &&& probe_fault(probes, i) is Some
    &&& forall|j: int| 0 <= j < i ==> (#[trigger] probe_fault(probes, j)) is None
}

/// Nothing is wrong with any source.
pub open spec fn all_probes_pass(probes: Seq<SourceProbe>) -> bool {
    forall|j: int| 0 <= j < probes.len() ==> (#[trigger] probe_fault(probes, j)) is None
}

/// Whether `error` reports what is wrong with the source `probes[i]`, with
/// the source as the command line names it.
pub open spec fn reports_probe(error: CliError, probes: Seq<SourceProbe>, i: int) -> bool {
    match error {
        CliError::SourceNoAbsolute { filename, error: cause } => probe_fault(probes, i) == Some(
            ProbeFault::NoAbsolute,
        ) && filename@ == probes[i].given@ && probes[i].resolved == Err::<
            SourcePath,
            std::io::Error,
        >(cause),
        CliError::SourceNotAFile(filename) => probe_fault(probes, i) == Some(ProbeFault::NotAFile)
            && filename@ == probes[i].given@,
        CliError::SourceNoFileStem(filename) => probe_fault(probes, i) == Some(
            ProbeFault::NoFileStem,
        ) && filename@ == probes[i].given@,
        CliError::DestinationFolder { .. } => false,
    }
}

/// The absolute forms of the first `n` sources, in their order and without
/// the repeats.
pub open spec fn converted_upto(probes: Seq<SourceProbe>, n: int) -> Seq<SourcePathView>
    decreases n,
{
    if n <= 0 {
        Seq::empty()
    } else {
        let before = converted_upto(probes, n - 1);
        match probes[n - 1].resolved {
            Ok(path) => if is_repeat(probes, n - 1) {
                before
            } else {
                before.push(path@)
            },
            Err(_) => before,
        }
    }
}

/// The absolute forms of the sources, in their order and without the
/// repeats.
pub open spec fn converted(probes: Seq<SourceProbe>) -> Seq<SourcePathView> {
    converted_upto(probes, probes.len() as int)
}

/// Whether one of `list` has the path `path`.
pub open spec fn lists_path(list: Seq<SourcePathView>, path: Seq<u8>) -> bool {
    exists|k: int| 0 <= k < list.len() && (#[trigger] list[k]).path == path
}

/// Whether one of the first `n` sources has the absolute path `path`.
pub open spec fn resolves_to(probes: Seq<SourceProbe>, n: int, path: Seq<u8>) -> bool {
    exists|j: int| 0 <= j < n && #[trigger] resolved_path(probes[j]) == Some(path)
}

/// The absolute forms of the first `n` sources hold the paths that these
/// sources resolve to, and no others.
pub proof fn lemma_converted_paths(probes: Seq<SourceProbe>, n: int, path: Seq<u8>)
    requires
        0 <= n <= probes.len(),
    ensures
        lists_path(converted_upto(probes, n), path) == resolves_to(probes, n, path),
    decreases n,
{
    if n > 0 {
        lemma_converted_paths(probes, n - 1, path);
        let before = converted_upto(probes, n - 1);
        let now = converted_upto(probes, n);
        let last = probes[n - 1];
        if lists_path(now, path) {
            let k = choose|k: int| 0 <= k < now.len() && (#[trigger] now[k]).path == path;
            if k < before.len() {
                assert(before[k] == now[k]);
                assert(lists_path(before, path));
                let j = choose|j: int|
                    0 <= j < n - 1 && #[trigger] resolved_path(probes[j]) == Some(path);
                assert(resolved_path(probes[j]) == Some(path));
            } else {
                assert(resolved_path(last) == Some(path));
            }
            assert(resolves_to(probes, n, path));
        }
        if resolves_to(probes, n, path) {
            let j = choose|j: int| 0 <= j < n && #[trigger] resolved_path(probes[j]) == Some(path);
            if j == n - 1 && !is_repeat(probes, n - 1) {
                assert(now[now.len() - 1].path == path);
            } else {
                if j == n - 1 {
                    let i = choose|i: int|
                        0 <= i < n - 1 && #[trigger] resolved_path(probes[i]) == resolved_path(
                            probes[n - 1],
                        );
                    assert(resolved_path(probes[i]) == Some(path));
                }
                assert(resolves_to(probes, n - 1, path));
                let k = choose|k: int| 0 <= k < before.len() && (#[trigger] before[k]).path == path;
                assert(now[k] == before[k]);
            }
            assert(lists_path(now, path));
        }
    }
}

/// The sources of a list as mathematical values.
pub open spec fn sources_view(sources: Seq<SourcePath>) -> Seq<SourcePathView> {
    sources.map_values(|s: SourcePath| s@)
}

/// Whether one of `sources` has the path `path`.
fn holds_path(sources: &Vec<SourcePath>, path: &Vec<u8>) -> (r: bool)
    ensures
        r == (exists|j: int| 0 <= j < sources.len() && (#[trigger] sources[j]).path@ == path@),
{
    let mut i: usize = 0;
    while i < sources.len()
        invariant
            i <= sources.len(),
            forall|j: int| 0 <= j < i ==> (#[trigger] sources[j]).path@ != path@,
        decreases sources.len() - i,
    {
        if same_bytes(sources[i].path.as_slice(), path.as_slice()) {
            return true;
        }
        i += 1;
    }
    false
}

/// Turns the sources of the command line into their absolute forms, in their
/// order and without the repeats.
///
/// Fails at the first source with which something is wrong: one without an
/// absolute form, or one that repeats no source before it and is not a regular
/// file or has a path that does not end in a file name.
pub fn convert_sources(sources: Vec<SourceProbe>) -> (r: Result<Vec<SourcePath>, CliError>)
    ensures
        match r {
            Ok(list) => all_probes_pass(sources@) && sources_view(list@) == converted(sources@),
            Err(error) => exists|i: int|
                is_first_probe_fault(sources@, i) && #[trigger] reports_probe(error, sources@, i),
        },
{
    let ghost probes = sources@;
    let mut rest = sources;
    let mut result: Vec<SourcePath> = Vec::new();
    let ghost mut done: int = 0;
    assert(sources_view(result@) =~= converted_upto(probes, 0));
    while rest.len() > 0
        invariant
            probes == sources@,
            0 <= done <= probes.len(),
            done + rest.len() == probes.len(),
            rest@ == probes.subrange(done, probes.len() as int),
            forall|j: int| 0 <= j < done ==> (#[trigger] probe_fault(probes, j)) is None,
            sources_view(result@) == converted_upto(probes, done),
        decreases rest.len(),
    {
        let probe = rest.remove(0);
        assert(probe == probes[done]);
        let source_file = match probe.resolved {
            Ok(source_file) => source_file,
            Err(error) => {
                let failure = CliError::SourceNoAbsolute { filename: probe.given, error };
                assert(is_first_probe_fault(probes, done));
                assert(reports_probe(failure, probes, done));
                return Err(failure);
            },
        };
        let repeat = holds_path(&result, &source_file.path);
        proof {
            lemma_converted_paths(probes, done, source_file.path@);
            let list = sources_view(result@);
            if repeat {
                let k = choose|k: int|
                    0 <= k < result.len() && (#[trigger] result[k]).path@ == source_file.path@;
                assert(list[k].path == source_file.path@);
                assert(lists_path(list, source_file.path@));
            }
            if lists_path(list, source_file.path@) {
                let k = choose|k: int|
                    0 <= k < list.len() && (#[trigger] list[k]).path == source_file.path@;
                assert(result[k].path@ == source_file.path@);
            }
            assert(repeat == resolves_to(probes, done, source_file.path@));
            if is_repeat(probes, done) {
                let j = choose|j: int|
                    0 <= j < done && #[trigger] resolved_path(probes[j]) == resolved_path(
                        probes[done],
                    );
                assert(resolved_path(probes[j]) == Some(source_file.path@));
            }
            if resolves_to(probes, done, source_file.path@) {
                let j = choose|j: int|
                    0 <= j < done && #[trigger] resolved_path(probes[j]) == Some(
                        source_file.path@,
                    );
                assert(resolved_path(probes[j]) == resolved_path(probes[done]));
            }
            assert(repeat == is_repeat(probes, done));
        }
        if !repeat {
            if !probe.is_file {
                let failure = CliError::SourceNotAFile(probe.given);
                assert(is_first_probe_fault(probes, done));
                assert(reports_probe(failure, probes, done));
                return Err(failure);
            }
            if source_file.file_name.is_none() {
                let failure = CliError::SourceNoFileStem(probe.given);
                assert(is_first_probe_fault(probes, done));
                assert(reports_probe(failure, probes, done));
                return Err(failure);
            }
            let ghost before = sources_view(result@);
            result.push(source_file);
            assert(sources_view(result@) =~= before.push(source_file@));
        }
        proof {
            done = done + 1;
        }
    }
    Ok(result)
}

/// Checks that the destination is a directory.
pub fn validate_destination(destination: &Vec<u8>, is_dir: bool) -> (r: Result<(), CliError>)
    ensures
        match r {
            Ok(()) => is_dir,
            Err(CliError::DestinationFolder { filename }) => !is_dir && filename@ == destination@,
            Err(_) => false,
        },
{
    if !is_dir {
        return Err(CliError::DestinationFolder { filename: copy_bytes(destination.as_slice()) });
    }
    Ok(())
}

/// Holds the request of the command line against what was found on disk.
///
/// Fails at the first source with which something is wrong; else fails if the
/// destination is not a directory. Else gives the request with the sources in
/// their absolute forms, in their order and without the repeats.
pub fn verify(
    destination: Vec<u8>,
    destination_is_dir: bool,
    log_level: Verbosity,
    sources: Vec<SourceProbe>,
) -> (r: Result<CommandLineArgs, CliError>)
    ensures
        match r {
            Ok(args) => all_probes_pass(sources@) && destination_is_dir && args.destination@
                == destination@ && args.log_level == log_level && sources_view(args.sources@)
                == converted(sources@),
            Err(CliError::DestinationFolder { filename }) => all_probes_pass(sources@)
                && !destination_is_dir && filename@ == destination@,
            Err(error) => exists|i: int|
                is_first_probe_fault(sources@, i) && #[trigger] reports_probe(error, sources@, i),
        },
{
    let sources = match convert_sources(sources) {
        Ok(sources) => sources,
        Err(error) => {
            return Err(error);
        },
    };
    match validate_destination(&destination, destination_is_dir) {
        Ok(()) => {},
        Err(error) => {
            return Err(error);
        },
    }
    Ok(CommandLineArgs { log_level, destination, sources })
}

} // verus!
