//! The validated command-line boundary: the argument and configuration
//! values the tool's front end hands to the library, the error and result
//! vocabulary it reports with, and the pure decisions behind dispatch.
//! Argument parsing itself and all terminal output live outside the
//! library.

use vstd::prelude::*;
use crate::paths::strs_model;

verus! {

/// The parsed command line.
#[derive(Debug, Clone, PartialEq)]
pub struct Cli {
    pub config: Option<String>,
    pub verbose: u8,
    pub game_directory: Option<String>,
    pub command: Commands,
}

/// One subcommand with its arguments.
#[derive(Debug, Clone, PartialEq)]
pub enum Commands {
    Bump { paths: Vec<String>, vers: Vers },
    Convert { paths: Vec<String>, requested_version: Option<RequestedVersion> },
    Init { name: String, requested_version: Option<RequestedVersion> },
    Package { output: String, modlets: Vec<String> },
}

/// How a version bump was requested.
#[derive(Debug, Clone, PartialEq)]
pub struct Vers {
    pub ver: Option<String>,
    pub major: bool,
    pub minor: bool,
    pub patch: bool,
}

/// Which metadata format revision was asked for.
#[derive(Debug, Clone, Copy, PartialEq, Eq, Structural)]
pub struct RequestedVersion {
    pub v1: bool,
    pub v2: bool,
}

/// The immutable run configuration, constructed once per run and passed
/// into every task.
#[derive(Debug, Clone, PartialEq)]
pub struct Config {
    pub game_directory: Option<String>,
    pub verbosity: u8,
}

impl Default for Config {
    /// A run with no game directory and no verbosity.
    fn default() -> (r: Config)
        ensures
            r.game_directory is None,
            r.verbosity == 0,
    {
        Config { game_directory: None, verbosity: 0 }
    }
}

/// What the command line was rejected for.
#[derive(Debug, Clone, PartialEq)]
pub enum CliError {
    InvalidArg(String),
    NoGameDirectory,
    NoModletPath,
    Unknown(String),
}

/// What one run reports back: per-unit messages and errors.
#[derive(Debug, Clone, PartialEq)]
pub struct CommandResult {
    pub errors: Vec<CliError>,
    pub messages: Vec<String>,
    pub verbose: u8,
}

impl Default for CommandResult {
    /// An empty report.
    fn default() -> (r: CommandResult)
        ensures
            r.errors@.len() == 0,
            r.messages@.len() == 0,
            r.verbose == 0,
    {
        CommandResult { errors: Vec::new(), messages: Vec::new(), verbose: 0 }
    }
}

/// The metadata collaborator's format revisions.
#[derive(Debug, Clone, Copy, PartialEq, Eq, Structural)]
pub enum ModinfoVersion {
    V1,
    V2,
}

/// The revision a request denotes: an explicit first revision wins, and
/// everything else means the current one.
pub open spec fn requested_modinfo_version(rv: Option<RequestedVersion>) -> ModinfoVersion {
    match rv {
        Some(v) => if v.v1 {
            ModinfoVersion::V1
        } else {
            ModinfoVersion::V2
        },
        None => ModinfoVersion::V2,
    }
}

/// Maps a version request to the metadata revision to use.
pub fn requested_version_to_modinfo_version(requested_version: &Option<RequestedVersion>) -> (r:
    ModinfoVersion)
    ensures
        r == requested_modinfo_version(*requested_version),
{
    match requested_version {
        Some(ver) => {
            if ver.v1 {
                ModinfoVersion::V1
            } else {
                ModinfoVersion::V2
            }
        },
        None => ModinfoVersion::V2,
    }
}

/// One requested version-bump step.
#[derive(Debug, Clone, PartialEq)]
pub enum BumpOptions {
    Major,
    Minor,
    Patch,
    SetVersion(String),
    Verbosity(u8),
}

/// The bump steps a request denotes: the verbosity first; an explicit
/// version wins over the increment flags; otherwise each set flag adds
/// its increment, most significant first.
pub open spec fn bump_steps(verbose: u8, vers: Vers) -> Seq<BumpOptions> {
    seq![BumpOptions::Verbosity(verbose)] + (match vers.ver {
        Some(v) => seq![BumpOptions::SetVersion(v)],
        None => (if vers.major {
            seq![BumpOptions::Major]
        } else {
            Seq::empty()
        }) + (if vers.minor {
            seq![BumpOptions::Minor]
        } else {
            Seq::empty()
        }) + (if vers.patch {
            seq![BumpOptions::Patch]
        } else {
            Seq::empty()
        }),
    })
}

/// Assembles the bump steps for one modlet from the parsed arguments.
pub fn bump_options(verbose: u8, vers: &Vers) -> (r: Vec<BumpOptions>)
    ensures
        r@ == bump_steps(verbose, *vers),
{
    let mut opts: Vec<BumpOptions> = Vec::new();
    opts.push(BumpOptions::Verbosity(verbose));
    match &vers.ver {
        Some(ver) => {
            opts.push(BumpOptions::SetVersion(ver.clone()));
            proof {
                assert(opts@ =~= bump_steps(verbose, *vers));
            }
        },
        None => {
            if vers.major {
                opts.push(BumpOptions::Major);
            }
            if vers.minor {
                opts.push(BumpOptions::Minor);
            }
            if vers.patch {
                opts.push(BumpOptions::Patch);
            }
            proof {
                assert(opts@ =~= bump_steps(verbose, *vers));
            }
        },
    }
    opts
}

/// The paths whose directory checks passed, in order.
pub open spec fn valid_paths(cs: Seq<(String, bool)>) -> Seq<Seq<char>>
    decreases cs.len(),
{
    if cs.len() == 0 {
        Seq::empty()
    } else {
        (if cs[0].1 {
            seq![cs[0].0@]
        } else {
            Seq::empty()
        }) + valid_paths(cs.drop_first())
    }
}

/// Keeps the modlet paths whose directory checks passed (each path comes
/// with the result of its check: the path exists, is a directory, and
/// holds a metadata file). When none passed, the run is refused for
/// want of a modlet path.
pub fn verify_modlet_paths(checked: &Vec<(String, bool)>) -> (r: Result<Vec<String>, CliError>)
    ensures
        match r {
            Ok(v) => strs_model(v@) == valid_paths(checked@) && v@.len() > 0,
            Err(e) => e == CliError::NoModletPath && valid_paths(checked@).len() == 0,
        },
{
    let mut out: Vec<String> = Vec::new();
    let n = checked.len();
    proof {
        assert(checked@.skip(0) =~= checked@);
        assert(strs_model(out@) + valid_paths(checked@.skip(0)) =~= valid_paths(checked@));
    }
    for i in 0..n
        invariant
            n == checked@.len(),
            strs_model(out@) + valid_paths(checked@.skip(i as int)) == valid_paths(checked@),
    {
        proof {
            assert(checked@.skip(i as int)[0] == checked@[i as int]);
            assert(checked@.skip(i as int).drop_first() =~= checked@.skip(i + 1));
        }
        let ghost pre = strs_model(out@);
        if checked[i].1 {
            out.push(checked[i].0.clone());
            proof {
                assert(strs_model(out@) =~= pre.push(checked@[i as int].0@));
                assert(strs_model(out@) + valid_paths(checked@.skip(i + 1)) =~= valid_paths(
                    checked@,
                ));
            }
        } else {
            proof {
                assert(strs_model(out@) + valid_paths(checked@.skip(i + 1)) =~= valid_paths(
                    checked@,
                ));
            }
        }
    }
    proof {
        assert(valid_paths(checked@.skip(n as int)).len() == 0);
        assert(strs_model(out@) =~= valid_paths(checked@));
    }
    if out.len() == 0 {
        Err(CliError::NoModletPath)
    } else {
        Ok(out)
    }
}

} // verus!
