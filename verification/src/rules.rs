//! The rules of the four operations, as a state machine over plain values.
//!
//! An operation is a walk through phases. In every phase but the first and
//! the last, one action is pending; the event that answers it decides the
//! next phase, and with it the next action. Nothing here is executable: this
//! is what `Session` is verified against.
use crate::cli::Commands;
use crate::link::{classify, LinkState};
use crate::path::{is_absolute, join, parent, parse, relative, render, strip_prefix, Part};
use crate::protocol::{refusal, Action, Error, Event, Step};
use vstd::prelude::*;

verus! {

/// The operation that a session carries out.
#[derive(Clone, Copy, Debug, PartialEq, Eq, Structural)]
pub enum Job {
    /// Move files into the shadow tree and link to them.
    Add,
    /// Move files back out of the shadow tree.
    Remove,
    /// Print the files of the shadow tree.
    List,
    /// Create the links for the files of the shadow tree.
    Restore,
    /// Clean the working tree, then restore.
    Clean,
}

/// Where an operation stands. Each phase but `Start` and `Finished` waits
/// for the answer to one action.
#[derive(Clone, Copy, Debug, PartialEq, Eq, Structural)]
pub enum Phase {
    /// Nothing was asked for yet.
    Start,
    /// Add: looking at the file.
    AddProbe,
    /// Add: creating the directories above the shadow location.
    AddMakeDirs,
    /// Add: resolving where the file is.
    AddLocate,
    /// Add: moving the file to its shadow location.
    AddMove,
    /// Add: creating the link where the file was.
    AddLink,
    /// Remove: looking at the shadow location.
    RemoveProbeShadow,
    /// Remove: looking at the link.
    RemoveProbeLink,
    /// Remove: resolving where the link leads.
    RemoveLocateLink,
    /// Remove: resolving where the shadow file is.
    RemoveLocateShadow,
    /// Remove: deleting the link.
    RemoveUnlink,
    /// Remove: moving the shadow file back.
    RemoveMove,
    /// A walk: looking whether the shadow root is there.
    ProbeRoot,
    /// A walk: waiting for the first entry.
    WalkOpen,
    /// A walk: waiting for a further entry.
    WalkNext,
    /// List: printing an entry.
    ListPrint,
    /// Restore: looking at the directory of the link.
    RestoreProbeDir,
    /// Restore: creating the directory of the link.
    RestoreMakeDir,
    /// Restore: looking at the place of the link.
    RestoreProbeLink,
    /// Restore: resolving where the link that is there leads.
    RestoreLocateLink,
    /// Restore: removing what stands in the link's place.
    RestoreClear,
    /// Restore: creating the link.
    RestoreLink,
    /// Clean: running the clean command.
    Cleaning,
    /// Clean: looking whether the shadow root is there.
    CleanProbeRoot,
    /// Clean: waiting for the first entry of the shadow tree.
    CleanWalkOpen,
    /// Clean: waiting for a further entry of the shadow tree.
    CleanWalkNext,
    /// Clean: telling the user that the links are restored.
    CleanNotify,
    /// The operation is over.
    Finished,
}

/// Everything an operation knows.
pub struct State {
    /// The operation.
    pub job: Job,
    /// Restore: whether to overwrite what stands in a link's place.
    pub force: bool,
    /// Clean: whether to leave the links alone afterwards.
    pub skip_restore: bool,
    /// Add, Remove: the paths to handle, as given.
    pub files: Seq<Seq<char>>,
    /// The shadow directory of the current directory.
    pub root: Seq<Part>,
    /// The current directory.
    pub cwd: Seq<Part>,
    /// Where the operation stands.
    pub phase: Phase,
    /// Add, Remove: the position in `files` of the path being handled.
    pub index: int,
    /// A walk: the entry being handled, as the walk reported it.
    pub entry: Seq<char>,
    /// Add: the resolved location of the file. Remove: where the link leads.
    pub held: Seq<char>,
    /// Clean: whether the shadow tree holds a regular file.
    pub found: bool,
}

/// What a phase leads to.
pub enum Move {
    /// The next phase, in which an action is pending.
    To(State),
    /// The end of the operation.
    Succeed,
    /// The end of the operation, with an error.
    Fail(Error<Seq<char>>),
}

/// The line that tells of the restoring after a clean.
pub open spec fn notice() -> Seq<char> {
    "Restoring shdw files. Use --no-shdw (as the first argument) to skip this."@
}

impl State {
    /// The path being handled, as given.
    pub open spec fn file(self) -> Seq<char> {
        self.files[self.index]
    }

    /// The shadow location of the path being handled.
    pub open spec fn shadow(self) -> Seq<Part> {
        join(self.root, parse(self.file()))
    }

    /// Whether the entry being handled lies strictly under the shadow root.
    pub open spec fn in_shadow(self) -> bool {
        strip_prefix(parse(self.entry), self.root) matches Some(link) && link.len() > 0
    }

    /// Where the link of the entry being handled belongs, seen from the
    /// current directory.
    pub open spec fn link(self) -> Seq<Part> {
        strip_prefix(parse(self.entry), self.root).unwrap()
    }

    /// The directory that the link is followed from.
    pub open spec fn link_base(self) -> Option<Seq<Part>> {
        parent(join(self.cwd, self.link()))
    }

    /// The same state in another phase.
    pub open spec fn at(self, phase: Phase) -> State {
        State { phase, ..self }
    }

    /// Whether the state is one that an operation can be in: a file is at
    /// hand where a phase handles one, an entry under the shadow root where
    /// a phase handles one, and a parent wherever a phase names it.
    pub open spec fn well_formed(self) -> bool {
        match self.phase {
            Phase::AddProbe | Phase::AddLocate | Phase::AddMove | Phase::RemoveProbeShadow
            | Phase::RemoveProbeLink | Phase::RemoveLocateLink | Phase::RemoveLocateShadow
            | Phase::RemoveUnlink | Phase::RemoveMove => 0 <= self.index < self.files.len(),
            Phase::AddMakeDirs => 0 <= self.index < self.files.len() && parent(
                self.shadow(),
            ).is_some(),
            Phase::AddLink => 0 <= self.index < self.files.len() && parent(
                parse(self.held),
            ).is_some(),
            Phase::ListPrint | Phase::RestoreProbeLink | Phase::RestoreLocateLink
            | Phase::RestoreClear => self.in_shadow(),
            Phase::RestoreProbeDir | Phase::RestoreMakeDir => self.in_shadow() && parent(
                self.link(),
            ).is_some(),
            Phase::RestoreLink => self.in_shadow() && self.link_base().is_some(),
            _ => true,
        }
    }

    /// The action that the phase waits for.
    pub open spec fn pending(self) -> Option<Action<Seq<char>>> {
        match self.phase {
            Phase::Start | Phase::Finished => None,
            Phase::AddProbe => Some(Action::Probe(self.file())),
            Phase::AddMakeDirs => Some(
                Action::CreateDirAll(render(parent(self.shadow()).unwrap())),
            ),
            Phase::AddLocate => Some(Action::Canonicalize(self.file())),
            Phase::AddMove => Some(
                Action::Rename { from: self.file(), to: render(self.shadow()) },
            ),
            Phase::AddLink => Some(
                Action::Symlink {
                    target: render(relative(self.shadow(), parent(parse(self.held)).unwrap())),
                    link: self.held,
                },
            ),
            Phase::RemoveProbeShadow => Some(Action::Probe(render(self.shadow()))),
            Phase::RemoveProbeLink => Some(Action::Probe(self.file())),
            Phase::RemoveLocateLink => Some(Action::Canonicalize(self.file())),
            Phase::RemoveLocateShadow => Some(Action::Canonicalize(render(self.shadow()))),
            Phase::RemoveUnlink => Some(Action::RemoveFile(self.file())),
            Phase::RemoveMove => Some(
                Action::Rename { from: render(self.shadow()), to: self.file() },
            ),
            Phase::ProbeRoot | Phase::CleanProbeRoot => Some(Action::Probe(render(self.root))),
            Phase::WalkOpen | Phase::CleanWalkOpen => Some(Action::Walk(render(self.root))),
            Phase::WalkNext | Phase::CleanWalkNext => Some(Action::NextEntry),
            Phase::ListPrint => Some(Action::Print(render(self.link()))),
            Phase::RestoreProbeDir => Some(Action::Probe(render(parent(self.link()).unwrap()))),
            Phase::RestoreMakeDir => Some(
                Action::CreateDir(render(parent(self.link()).unwrap())),
            ),
            Phase::RestoreProbeLink => Some(Action::Probe(render(self.link()))),
            Phase::RestoreLocateLink => Some(Action::Canonicalize(render(self.link()))),
            Phase::RestoreClear => Some(Action::RemoveFile(render(self.link()))),
            Phase::RestoreLink => Some(
                Action::Symlink {
                    target: render(relative(parse(self.entry), self.link_base().unwrap())),
                    link: render(self.link()),
                },
            ),
            Phase::Cleaning => Some(Action::Clean),
            Phase::CleanNotify => Some(Action::Warn(notice())),
        }
    }

    /// On to the file at `index`, or to the end when there is none.
    pub open spec fn next_file(self, index: int) -> Move {
        if index >= self.files.len() {
            Move::Succeed
        } else if self.job == Job::Add {
            Move::To(State { phase: Phase::AddProbe, index, ..self })
        } else {
            Move::To(State { phase: Phase::RemoveProbeShadow, index, ..self })
        }
    }

    /// What a walked entry leads to. Only regular files strictly under the
    /// shadow root count. List prints the entry; Restore looks first at the
    /// directory of the link, unless that is the current directory itself.
    pub open spec fn take_entry(self, path: Seq<char>, is_file: bool) -> Move {
        if !is_file {
            Move::To(self.at(Phase::WalkNext))
        } else {
            match strip_prefix(parse(path), self.root) {
                None => Move::Fail(Error::OutsideShadow(path)),
                Some(link) => {
                    let taken = State { entry: path, ..self };
                    if link.len() == 0 {
                        Move::To(self.at(Phase::WalkNext))
                    } else if self.job == Job::List {
                        Move::To(taken.at(Phase::ListPrint))
                    } else if parent(link) matches Some(dir) && dir.len() > 0 {
                        Move::To(taken.at(Phase::RestoreProbeDir))
                    } else {
                        Move::To(taken.at(Phase::RestoreProbeLink))
                    }
                },
            }
        }
    }

    /// On to creating the link.
    pub open spec fn enter_link(self) -> Move {
        if self.link_base().is_some() {
            Move::To(self.at(Phase::RestoreLink))
        } else {
            Move::Fail(Error::NoParent(render(self.link())))
        }
    }

    /// What the state of the link's place leads to: a correct link is left
    /// alone; where nothing is, the link is created; anything else is
    /// removed first if `force` is set, and stops the operation if not.
    pub open spec fn settle(self, found: LinkState) -> Move {
        match found {
            LinkState::Correct => Move::To(self.at(Phase::WalkNext)),
            LinkState::Absent => self.enter_link(),
            LinkState::Conflict => if self.force {
                Move::To(self.at(Phase::RestoreClear))
            } else {
                Move::Fail(Error::LinkConflict(render(self.link())))
            },
        }
    }

    /// Add: look at the file, create the directories above its shadow
    /// location, resolve where the file is, move it, and link to it from
    /// where it was, in this order. A path that is a symbolic link is
    /// rejected as one, wherever it leads and even if it leads nowhere; a
    /// path at which nothing stands is rejected as missing.
    pub open spec fn advance_add(self, event: Event<Seq<char>>) -> Move {
        match (self.phase, event) {
            (Phase::AddProbe, Event::Probed { exists, is_symlink, is_file }) => if is_symlink {
                Move::Fail(Error::AlreadyLinked(self.file()))
            } else if !exists {
                Move::Fail(Error::NotFound(self.file()))
            } else if parent(self.shadow()).is_none() {
                Move::Fail(Error::NoParent(render(self.shadow())))
            } else {
                Move::To(self.at(Phase::AddMakeDirs))
            },
            (Phase::AddMakeDirs, Event::Done) => Move::To(self.at(Phase::AddLocate)),
            (Phase::AddLocate, Event::Location(place)) => Move::To(
                State { phase: Phase::AddMove, held: place, ..self },
            ),
            (Phase::AddMove, Event::Done) => if parent(parse(self.held)).is_none() {
                Move::Fail(Error::NoParent(self.held))
            } else {
                Move::To(self.at(Phase::AddLink))
            },
            (Phase::AddLink, Event::Done) => self.next_file(self.index + 1),
            _ => Move::Fail(Error::Unexpected),
        }
    }

    /// Remove: the shadow location must hold a regular file, and the path
    /// must be a symbolic link that leads to that very file; then the link
    /// is deleted and the file moved back, in this order.
    pub open spec fn advance_remove(self, event: Event<Seq<char>>) -> Move {
        match (self.phase, event) {
            (Phase::RemoveProbeShadow, Event::Probed { exists, is_symlink, is_file }) => if is_file {
                Move::To(self.at(Phase::RemoveProbeLink))
            } else {
                Move::Fail(Error::NotTracked(render(self.shadow())))
            },
            (Phase::RemoveProbeLink, Event::Probed { exists, is_symlink, is_file }) => if is_symlink
                && is_file {
                Move::To(self.at(Phase::RemoveLocateLink))
            } else {
                Move::Fail(
                    Error::LinkMismatch { link: self.file(), shadow: render(self.shadow()) },
                )
            },
            (Phase::RemoveLocateLink, Event::Location(place)) => Move::To(
                State { phase: Phase::RemoveLocateShadow, held: place, ..self },
            ),
            (Phase::RemoveLocateShadow, Event::Location(place)) => if parse(self.held) == parse(
                place,
            ) {
                Move::To(self.at(Phase::RemoveUnlink))
            } else {
                Move::Fail(
                    Error::LinkMismatch { link: self.file(), shadow: render(self.shadow()) },
                )
            },
            (Phase::RemoveUnlink, Event::Done) => Move::To(self.at(Phase::RemoveMove)),
            (Phase::RemoveMove, Event::Done) => self.next_file(self.index + 1),
            _ => Move::Fail(Error::Unexpected),
        }
    }

    /// A walk of the shadow tree: a root that is not there is an empty
    /// tree.
    pub open spec fn advance_walk(self, event: Event<Seq<char>>) -> Move {
        match (self.phase, event) {
            (Phase::ProbeRoot, Event::Probed { exists, is_symlink, is_file }) => if exists {
                Move::To(self.at(Phase::WalkOpen))
            } else {
                Move::Succeed
            },
            (Phase::WalkOpen, Event::EndOfWalk) => Move::Succeed,
            (Phase::WalkNext, Event::EndOfWalk) => Move::Succeed,
            (Phase::WalkOpen, Event::Entry { path, is_file }) => self.take_entry(path, is_file),
            (Phase::WalkNext, Event::Entry { path, is_file }) => self.take_entry(path, is_file),
            (Phase::ListPrint, Event::Done) => Move::To(self.at(Phase::WalkNext)),
            _ => Move::Fail(Error::Unexpected),
        }
    }

    /// Restore, for one entry: make sure the directory of the link is there,
    /// find out what stands in the link's place, and act on that. A link
    /// that leads somewhere is asked where; a link that leads nowhere stands
    /// in the way like any file.
    pub open spec fn advance_restore(self, event: Event<Seq<char>>) -> Move {
        match (self.phase, event) {
            (Phase::RestoreProbeDir, Event::Probed { exists, is_symlink, is_file }) => if exists {
                Move::To(self.at(Phase::RestoreProbeLink))
            } else {
                Move::To(self.at(Phase::RestoreMakeDir))
            },
            (Phase::RestoreMakeDir, Event::Done) => Move::To(self.at(Phase::RestoreProbeLink)),
            (Phase::RestoreProbeLink, Event::Probed { exists, is_symlink, is_file }) => if exists
                && is_symlink {
                Move::To(self.at(Phase::RestoreLocateLink))
            } else {
                self.settle(classify(is_symlink || exists, is_symlink, None, parse(self.entry)))
            },
            (Phase::RestoreLocateLink, Event::Location(place)) => self.settle(
                classify(true, true, Some(parse(place)), parse(self.entry)),
            ),
            (Phase::RestoreClear, Event::Done) => self.enter_link(),
            (Phase::RestoreLink, Event::Done) => Move::To(self.at(Phase::WalkNext)),
            _ => Move::Fail(Error::Unexpected),
        }
    }

    /// Clean: run the clean command; then, unless told otherwise, look
    /// through the whole shadow tree, and restore if it holds a file.
    pub open spec fn advance_clean(self, event: Event<Seq<char>>) -> Move {
        match (self.phase, event) {
            (Phase::Cleaning, Event::Done) => if self.skip_restore {
                Move::Succeed
            } else {
                Move::To(State { phase: Phase::CleanProbeRoot, found: false, ..self })
            },
            (Phase::CleanProbeRoot, Event::Probed { exists, is_symlink, is_file }) => if exists {
                Move::To(self.at(Phase::CleanWalkOpen))
            } else {
                Move::Succeed
            },
            (Phase::CleanWalkOpen, Event::Entry { path, is_file }) => Move::To(
                State { phase: Phase::CleanWalkNext, found: self.found || is_file, ..self },
            ),
            (Phase::CleanWalkNext, Event::Entry { path, is_file }) => Move::To(
                State { phase: Phase::CleanWalkNext, found: self.found || is_file, ..self },
            ),
            (Phase::CleanWalkOpen, Event::EndOfWalk) => self.after_scan(),
            (Phase::CleanWalkNext, Event::EndOfWalk) => self.after_scan(),
            (Phase::CleanNotify, Event::Done) => Move::To(self.at(Phase::ProbeRoot)),
            _ => Move::Fail(Error::Unexpected),
        }
    }

    /// The beginning of an operation.
    pub open spec fn begin(self) -> Move {
        match self.job {
            Job::Add | Job::Remove => self.next_file(0),
            Job::List | Job::Restore => Move::To(self.at(Phase::ProbeRoot)),
            Job::Clean => Move::To(self.at(Phase::Cleaning)),
        }
    }

    /// What the event leads to. An action that the system refused ends the
    /// operation; so does an event that does not answer the pending action.
    pub open spec fn advance(self, event: Event<Seq<char>>) -> Move {
        if let Event::Failed(why) = event {
            match self.pending() {
                Some(action) => Move::Fail(refusal(action, why)),
                None => Move::Fail(Error::Unexpected),
            }
        } else {
            match self.phase {
                Phase::Start => if event is Start {
                    self.begin()
                } else {
                    Move::Fail(Error::Unexpected)
                },
                Phase::AddProbe | Phase::AddMakeDirs | Phase::AddLocate | Phase::AddMove
                | Phase::AddLink => self.advance_add(event),
                Phase::RemoveProbeShadow | Phase::RemoveProbeLink | Phase::RemoveLocateLink
                | Phase::RemoveLocateShadow | Phase::RemoveUnlink
                | Phase::RemoveMove => self.advance_remove(event),
                Phase::ProbeRoot | Phase::WalkOpen | Phase::WalkNext
                | Phase::ListPrint => self.advance_walk(event),
                Phase::RestoreProbeDir | Phase::RestoreMakeDir | Phase::RestoreProbeLink
                | Phase::RestoreLocateLink | Phase::RestoreClear
                | Phase::RestoreLink => self.advance_restore(event),
                Phase::Cleaning | Phase::CleanProbeRoot | Phase::CleanWalkOpen
                | Phase::CleanWalkNext | Phase::CleanNotify => self.advance_clean(event),
                Phase::Finished => Move::Fail(Error::Unexpected),
            }
        }
    }

    /// Clean: after the shadow tree was looked through, the links are
    /// restored if it holds a file.
    pub open spec fn after_scan(self) -> Move {
        if self.found {
            Move::To(self.at(Phase::CleanNotify))
        } else {
            Move::Succeed
        }
    }

    /// One step of the operation: the state after the event, and what to do
    /// next.
    pub open spec fn step(self, event: Event<Seq<char>>) -> (State, Step<Seq<char>>) {
        match self.advance(event) {
            Move::To(next) => (next, Step::Perform(next.pending().unwrap())),
            Move::Succeed => (self.at(Phase::Finished), Step::Succeed),
            Move::Fail(error) => (self.at(Phase::Finished), Step::Fail(error)),
        }
    }
}

/// The operation that a command stands for.
pub open spec fn job_of(command: Commands) -> Job {
    match command {
        Commands::Add { .. } => Job::Add,
        Commands::Ls {  } => Job::List,
        Commands::Restore { .. } => Job::Restore,
        Commands::Rm { .. } => Job::Remove,
        Commands::GitClean { .. } => Job::Clean,
    }
}

/// The state in which the operation for `command` begins.
pub open spec fn initial(command: Commands, root: Seq<Part>, cwd: Seq<Part>) -> State {
    State {
        job: job_of(command),
        force: command.force(),
        skip_restore: command.skip_restore(),
        files: command.files(),
        root,
        cwd,
        phase: Phase::Start,
        index: 0,
        entry: Seq::empty(),
        held: Seq::empty(),
        found: false,
    }
}

/// The path made absolute: itself if it is, else seen from the current
/// directory.
pub open spec fn absolute(p: Seq<Part>, current_dir: Seq<Part>) -> Seq<Part> {
    if is_absolute(p) {
        p
    } else {
        join(current_dir, p)
    }
}

/// The shadow directory of the current directory: as far below the shadow
/// directory as the current directory is below the base directory. There is
/// none if the current directory is not under the base directory.
pub open spec fn shadow_root(
    base_dir: Seq<Part>,
    shadow_dir: Seq<Part>,
    current_dir: Seq<Part>,
) -> Option<Seq<Part>> {
    match strip_prefix(current_dir, absolute(base_dir, current_dir)) {
        Some(offset) => Some(join(absolute(shadow_dir, current_dir), offset)),
        None => None,
    }
}

} // verus!
