//! What the command line asks for.
use vstd::prelude::*;

verus! {

/// The command line: one command and the two directories it works between.
pub struct Cli {
    /// What to do.
    pub command: Commands,
    /// The directory that holds the shadow files.
    pub shadow_dir: String,
    /// The directory whose layout the shadow directory repeats.
    pub base_dir: String,
}

/// The commands.
pub enum Commands {
    /// Move the files to the shadow directory and leave links to them in
    /// their place.
    Add { files: Vec<String> },
    /// List the files in the shadow directory.
    Ls {},
    /// Create the links to all files in the shadow directory again; with
    /// `force`, over whatever stands in their place.
    Restore { force: bool },
    /// Move the files out of the shadow directory to the place of their
    /// links.
    Rm { files: Vec<String> },
    /// Run the version-control clean command, then restore unless `no_shdw`.
    GitClean { no_shdw: bool, git_options: Vec<String> },
}

/// The texts of a list of strings.
pub open spec fn texts(list: Seq<String>) -> Seq<Seq<char>> {
    Seq::new(list.len(), |i: int| list[i]@)
}

impl Commands {
    /// The files the command names, if it names any.
    pub open spec fn files(&self) -> Seq<Seq<char>> {
        match *self {
            Commands::Add { files } => texts(files@),
            Commands::Rm { files } => texts(files@),
            _ => Seq::empty(),
        }
    }

    /// Whether the command may overwrite what stands in a link's place.
    pub open spec fn force(&self) -> bool {
        match *self {
            Commands::Restore { force } => force,
            _ => false,
        }
    }

    /// Whether the command leaves the links alone after cleaning.
    pub open spec fn skip_restore(&self) -> bool {
        match *self {
            Commands::GitClean { no_shdw, .. } => no_shdw,
            _ => false,
        }
    }
}

} // verus!
