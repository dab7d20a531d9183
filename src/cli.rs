//! The decisions behind the command line: subcommands, which log sink the
//! log options select, and which level a verbosity count stands for.
use vstd::prelude::*;

verus! {

/// The subcommands.
#[derive(Clone, Copy, Debug, PartialEq, Eq, Structural)]
pub enum Commands {
    /// Start the node.
    Node,
    /// Initialize the database from a genesis file.
    Init,
    /// Sync encoded blocks from a file.
    Import,
    /// Database debugging utilities.
    Db,
    /// Manipulate individual stages.
    Stage,
    /// Peer-to-peer debugging utilities.
    P2P,
    /// Generate test vectors.
    TestVectors,
    /// Write the configuration to stdout.
    Config,
    /// Various debug routines.
    Debug,
}

impl Commands {
    /// The subcommand's name on the command line.
    pub fn name(&self) -> (r: &'static str)
        ensures
            r@ == match *self {
                Commands::Node => "node"@,
                Commands::Init => "init"@,
                Commands::Import => "import"@,
                Commands::Db => "db"@,
                Commands::Stage => "stage"@,
                Commands::P2P => "p2p"@,
                Commands::TestVectors => "test-vectors"@,
                Commands::Config => "config"@,
                Commands::Debug => "debug"@,
            },
    {
        match self {
            Commands::Node => "node",
            Commands::Init => "init",
            Commands::Import => "import",
            Commands::Db => "db",
            Commands::Stage => "stage",
            Commands::P2P => "p2p",
            Commands::TestVectors => "test-vectors",
            Commands::Config => "config",
            Commands::Debug => "debug",
        }
    }
}

/// A log level filter, from silent to the most verbose.
#[derive(Clone, Copy, Debug, PartialEq, Eq, Structural)]
pub enum LevelFilter {
    Off,
    Error,
    Warn,
    Info,
    Debug,
    Trace,
}

/// The verbosity options: a count of `-v` and a quiet switch.
#[derive(Clone, Copy, Debug, PartialEq, Eq, Structural)]
pub struct Verbosity {
    pub verbosity: u8,
    pub quiet: bool,
}

impl Verbosity {
    /// The level for these options: nothing when quiet; otherwise one `-v`
    /// for errors, two for warnings, three for info, four for debug, and
    /// five or more for traces.
    pub fn directive(&self) -> (r: LevelFilter)
        requires
            self.quiet || self.verbosity >= 1,
        ensures
            r == (if self.quiet {
                LevelFilter::Off
            } else if self.verbosity == 1 {
                LevelFilter::Error
            } else if self.verbosity == 2 {
                LevelFilter::Warn
            } else if self.verbosity == 3 {
                LevelFilter::Info
            } else if self.verbosity == 4 {
                LevelFilter::Debug
            } else {
                LevelFilter::Trace
            }),
    {
        if self.quiet {
            LevelFilter::Off
        } else {
            match self.verbosity - 1 {
                0 => LevelFilter::Error,
                1 => LevelFilter::Warn,
                2 => LevelFilter::Info,
                3 => LevelFilter::Debug,
                _ => LevelFilter::Trace,
            }
        }
    }
}

/// Where logs go besides stdout.
#[derive(Clone, Copy, Debug, PartialEq, Eq, Structural)]
pub enum LogSink {
    /// The system journal.
    Journald,
    /// A file in the log directory.
    File,
    /// Nowhere else.
    Stdout,
}

/// The log options.
#[derive(Clone, Debug)]
pub struct Logs {
    pub persistent: bool,
    pub log_directory: String,
    pub journald: bool,
    pub filter: String,
}

impl Logs {
    /// The extra sink these options select: the journal first, then a
    /// persistent file, else none.
    pub fn sink(&self) -> (r: LogSink)
        ensures
            r == (if self.journald {
                LogSink::Journald
            } else if self.persistent {
                LogSink::File
            } else {
                LogSink::Stdout
            }),
    {
        if self.journald {
            LogSink::Journald
        } else if self.persistent {
            LogSink::File
        } else {
            LogSink::Stdout
        }
    }
}

/// A log layer that times each event it hands to `inner`.
pub struct TimingLayer<L> {
    pub inner: L,
}

impl<L> TimingLayer<L> {
    /// Wraps `inner`.
    pub fn new(inner: L) -> (r: TimingLayer<L>)
        ensures
            r.inner == inner,
    {
        TimingLayer { inner }
    }
}

} // verus!
