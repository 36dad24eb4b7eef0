//! What passes between the rules and whoever touches the filesystem for
//! them: the rules ask for one action at a time and are told what came of it.
use vstd::prelude::*;

verus! {

/// One thing to do to the filesystem, or to the user's terminal. `S` is the
/// type of a path's text: `String` in executable code, `Seq<char>` in
/// contracts.
#[derive(Debug, PartialEq, Eq)]
pub enum Action<S> {
    /// Look at the path: answered by `Event::Probed`.
    Probe(S),
    /// Find the resolved, absolute location the path leads to, following
    /// every link: answered by `Event::Location`.
    Canonicalize(S),
    /// Begin to walk the tree under the path and report its first entry:
    /// answered by `Event::Entry` or `Event::EndOfWalk`.
    Walk(S),
    /// Report the next entry of the walk in progress.
    NextEntry,
    /// Create the directory and every missing ancestor of it.
    CreateDirAll(S),
    /// Create the directory; its parent is there.
    CreateDir(S),
    /// Move what is at `from` to `to`.
    Rename { from: S, to: S },
    /// Create a symbolic link at `link` that holds `target`.
    Symlink { target: S, link: S },
    /// Remove the file or link at the path.
    RemoveFile(S),
    /// Write the line to standard output.
    Print(S),
    /// Write the line to the error stream.
    Warn(S),
    /// Run the version-control clean command with the options given on the
    /// command line.
    Clean,
}

/// Why the system refused an action.
#[derive(Clone, Copy, Debug, PartialEq, Eq, Structural)]
pub enum Failure {
    /// A move would have crossed from one filesystem to another.
    CrossDevice,
    /// Anything else.
    Other,
}

/// What came of the action that was asked for.
#[derive(Debug, PartialEq, Eq)]
pub enum Event<S> {
    /// Nothing was asked for yet.
    Start,
    /// The action was carried out.
    Done,
    /// The system refused the action.
    Failed(Failure),
    /// What is at a path: `exists` says whether the path leads to anything
    /// and `is_file` whether it leads to a regular file, both through links;
    /// `is_symlink` says whether a symbolic link stands at the path itself.
    Probed { exists: bool, is_symlink: bool, is_file: bool },
    /// The resolved location of a path.
    Location(S),
    /// An entry of the walk, and whether it is a regular file (a link is
    /// not).
    Entry { path: S, is_file: bool },
    /// The walk has no more entries.
    EndOfWalk,
}

/// Why an operation stopped.
#[derive(Debug, PartialEq, Eq)]
pub enum Error<S> {
    /// The file to add does not exist.
    NotFound(S),
    /// The file to add is a symbolic link already.
    AlreadyLinked(S),
    /// The shadow tree holds no regular file for the path to remove; the
    /// text is the shadow location.
    NotTracked(S),
    /// The path to remove is not a symbolic link that leads to its shadow
    /// file.
    LinkMismatch { link: S, shadow: S },
    /// Something other than the right link stands where a link belongs, and
    /// overwriting was not asked for.
    LinkConflict(S),
    /// The move would have crossed from one filesystem to another.
    CrossFilesystem { from: S, to: S },
    /// The system refused the action.
    Io(Action<S>),
    /// The walk reported a path that is not under the shadow root.
    OutsideShadow(S),
    /// The current directory is not under the base directory.
    OutsideBase { dir: S, base: S },
    /// The location has no parent directory.
    NoParent(S),
    /// The event does not answer what was asked for.
    Unexpected,
}

/// What the rules want next.
#[derive(Debug, PartialEq, Eq)]
pub enum Step<S> {
    /// Carry out the action and report what came of it.
    Perform(Action<S>),
    /// The operation is complete.
    Succeed,
    /// The operation stops with an error; what was done stays done.
    Fail(Error<S>),
}

impl View for Action<String> {
    type V = Action<Seq<char>>;

    open spec fn view(&self) -> Action<Seq<char>> {
        match *self {
            Action::Probe(p) => Action::Probe(p@),
            Action::Canonicalize(p) => Action::Canonicalize(p@),
            Action::Walk(p) => Action::Walk(p@),
            Action::NextEntry => Action::NextEntry,
            Action::CreateDirAll(p) => Action::CreateDirAll(p@),
            Action::CreateDir(p) => Action::CreateDir(p@),
            Action::Rename { from, to } => Action::Rename { from: from@, to: to@ },
            Action::Symlink { target, link } => Action::Symlink { target: target@, link: link@ },
            Action::RemoveFile(p) => Action::RemoveFile(p@),
            Action::Print(line) => Action::Print(line@),
            Action::Warn(line) => Action::Warn(line@),
            Action::Clean => Action::Clean,
        }
    }
}

impl View for Event<String> {
    type V = Event<Seq<char>>;

    open spec fn view(&self) -> Event<Seq<char>> {
        match *self {
            Event::Start => Event::Start,
            Event::Done => Event::Done,
            Event::Failed(why) => Event::Failed(why),
            Event::Probed { exists, is_symlink, is_file } => Event::Probed {
                exists,
                is_symlink,
                is_file,
            },
            Event::Location(p) => Event::Location(p@),
            Event::Entry { path, is_file } => Event::Entry { path: path@, is_file },
            Event::EndOfWalk => Event::EndOfWalk,
        }
    }
}

impl View for Error<String> {
    type V = Error<Seq<char>>;

    open spec fn view(&self) -> Error<Seq<char>> {
        match *self {
            Error::NotFound(p) => Error::NotFound(p@),
            Error::AlreadyLinked(p) => Error::AlreadyLinked(p@),
            Error::NotTracked(p) => Error::NotTracked(p@),
            Error::LinkMismatch { link, shadow } => Error::LinkMismatch {
                link: link@,
                shadow: shadow@,
            },
            Error::LinkConflict(p) => Error::LinkConflict(p@),
            Error::CrossFilesystem { from, to } => Error::CrossFilesystem { from: from@, to: to@ },
            Error::Io(action) => Error::Io(action@),
            Error::OutsideShadow(p) => Error::OutsideShadow(p@),
            Error::OutsideBase { dir, base } => Error::OutsideBase { dir: dir@, base: base@ },
            Error::NoParent(p) => Error::NoParent(p@),
            Error::Unexpected => Error::Unexpected,
        }
    }
}

impl View for Step<String> {
    type V = Step<Seq<char>>;

    open spec fn view(&self) -> Step<Seq<char>> {
        match *self {
            Step::Perform(action) => Step::Perform(action@),
            Step::Succeed => Step::Succeed,
            Step::Fail(error) => Step::Fail(error@),
        }
    }
}

/// Whether the action changes the filesystem.
pub open spec fn changes_files(action: Action<Seq<char>>) -> bool {
    action is CreateDirAll || action is CreateDir || action is Rename || action is Symlink
        || action is RemoveFile || action is Clean
}

/// Whether the step leaves the filesystem as it is.
pub open spec fn leaves_files(step: Step<Seq<char>>) -> bool {
    step matches Step::Perform(action) ==> !changes_files(action)
}

/// The error for an action that the system refused: a move across
/// filesystems is named as such, anything else carries the action.
pub open spec fn refusal(action: Action<Seq<char>>, why: Failure) -> Error<Seq<char>> {
    match action {
        Action::Rename { from, to } => if why == Failure::CrossDevice {
            Error::CrossFilesystem { from, to }
        } else {
            Error::Io(action)
        },
        _ => Error::Io(action),
    }
}

/// The error for an action that the system refused.
pub fn refuse(action: Action<String>, why: Failure) -> (error: Error<String>)
    ensures
        error@ == refusal(action@, why),
{
    match action {
        Action::Rename { from, to } => {
            if why == Failure::CrossDevice {
                Error::CrossFilesystem { from, to }
            } else {
                Error::Io(Action::Rename { from, to })
            }
        },
        other => Error::Io(other),
    }
}

/// A path between two pieces of text.
pub open spec fn phrase(before: Seq<char>, path: Seq<char>, after: Seq<char>) -> Seq<char> {
    before + path + after
}

/// Two paths among three pieces of text.
pub open spec fn phrase_of_two(
    before: Seq<char>,
    first: Seq<char>,
    between: Seq<char>,
    second: Seq<char>,
    after: Seq<char>,
) -> Seq<char> {
    before + first + between + second + after
}

/// What was being done when the system refused the action.
pub open spec fn task(action: Action<Seq<char>>) -> Seq<char> {
    match action {
        Action::Probe(p) => phrase("Examining "@, p, ""@),
        Action::Canonicalize(p) => phrase("Canonicalizing "@, p, ""@),
        Action::Walk(p) => phrase("Walking "@, p, ""@),
        Action::NextEntry => "Walking the shadow directory"@,
        Action::CreateDirAll(p) => phrase("Creating directory "@, p, ""@),
        Action::CreateDir(p) => phrase("Creating directory `"@, p, "`"@),
        Action::Rename { from, to } => phrase_of_two("Renaming "@, from, " to "@, to, ""@),
        Action::Symlink { target, link } => phrase("Creating link `"@, link, "`"@),
        Action::RemoveFile(p) => phrase("Removing `"@, p, "`"@),
        Action::Print(_) => "Writing to standard output"@,
        Action::Warn(_) => "Writing to standard error"@,
        Action::Clean => "Running git clean"@,
    }
}

/// The error in one line, with the path it is about.
pub open spec fn description(error: Error<Seq<char>>) -> Seq<char> {
    match error {
        Error::NotFound(p) => phrase(""@, p, " does not exist"@),
        Error::AlreadyLinked(p) => phrase(""@, p, " is already a symlink"@),
        Error::NotTracked(p) => phrase("`"@, p, "` is not a file"@),
        Error::LinkMismatch { link, shadow } => phrase_of_two(
            "Not removing `"@,
            link,
            "` because it's not a symlink pointing to file `"@,
            shadow,
            "`"@,
        ),
        Error::LinkConflict(p) => phrase("File exists: `"@, p, "`"@),
        Error::CrossFilesystem { from, to } => phrase_of_two(
            "Renaming "@,
            from,
            " to "@,
            to,
            " would cross filesystems"@,
        ),
        Error::Io(action) => task(action),
        Error::OutsideShadow(p) => phrase("`"@, p, "` is not under the shadow directory"@),
        Error::OutsideBase { dir, base } => phrase_of_two(
            ""@,
            dir,
            " is not under the base directory "@,
            base,
            ""@,
        ),
        Error::NoParent(p) => phrase(""@, p, " has no parent directory"@),
        Error::Unexpected => "Unexpected answer from the filesystem"@,
    }
}

/// A path between two pieces of text.
fn write_phrase(before: &str, path: &String, after: &str) -> (r: String)
    ensures
        r@ == phrase(before@, path@, after@),
{
    let mut out = String::from_str(before);
    out.append(path.as_str());
    out.append(after);
    out
}

/// Two paths among three pieces of text.
fn write_phrase_of_two(
    before: &str,
    first: &String,
    between: &str,
    second: &String,
    after: &str,
) -> (r: String)
    ensures
        r@ == phrase_of_two(before@, first@, between@, second@, after@),
{
    let mut out = String::from_str(before);
    out.append(first.as_str());
    out.append(between);
    out.append(second.as_str());
    out.append(after);
    out
}

/// What was being done when the system refused the action.
pub fn describe_task(action: &Action<String>) -> (r: String)
    ensures
        r@ == task(action@),
{
    match action {
        Action::Probe(p) => write_phrase("Examining ", p, ""),
        Action::Canonicalize(p) => write_phrase("Canonicalizing ", p, ""),
        Action::Walk(p) => write_phrase("Walking ", p, ""),
        Action::NextEntry => String::from_str("Walking the shadow directory"),
        Action::CreateDirAll(p) => write_phrase("Creating directory ", p, ""),
        Action::CreateDir(p) => write_phrase("Creating directory `", p, "`"),
        Action::Rename { from, to } => write_phrase_of_two("Renaming ", from, " to ", to, ""),
        Action::Symlink { target, link } => write_phrase("Creating link `", link, "`"),
        Action::RemoveFile(p) => write_phrase("Removing `", p, "`"),
        Action::Print(_) => String::from_str("Writing to standard output"),
        Action::Warn(_) => String::from_str("Writing to standard error"),
        Action::Clean => String::from_str("Running git clean"),
    }
}

/// The error in one line, with the path it is about.
pub fn describe(error: &Error<String>) -> (r: String)
    ensures
        r@ == description(error@),
{
    match error {
        Error::NotFound(p) => write_phrase("", p, " does not exist"),
        Error::AlreadyLinked(p) => write_phrase("", p, " is already a symlink"),
        Error::NotTracked(p) => write_phrase("`", p, "` is not a file"),
        Error::LinkMismatch { link, shadow } => write_phrase_of_two(
            "Not removing `",
            link,
            "` because it's not a symlink pointing to file `",
            shadow,
            "`",
        ),
        Error::LinkConflict(p) => write_phrase("File exists: `", p, "`"),
        Error::CrossFilesystem { from, to } => write_phrase_of_two(
            "Renaming ",
            from,
            " to ",
            to,
            " would cross filesystems",
        ),
        Error::Io(action) => describe_task(action),
        Error::OutsideShadow(p) => write_phrase("`", p, "` is not under the shadow directory"),
        Error::OutsideBase { dir, base } => write_phrase_of_two(
            "",
            dir,
            " is not under the base directory ",
            base,
            "",
        ),
        Error::NoParent(p) => write_phrase("", p, " has no parent directory"),
        Error::Unexpected => String::from_str("Unexpected answer from the filesystem"),
    }
}

} // verus!
