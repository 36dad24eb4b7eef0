//! An operation in progress: it asks for one action at a time and is told
//! what came of it. Whoever drives it touches the filesystem; every decision
//! is made here.
use crate::cli::{texts, Cli, Commands};
use crate::link::{link_state, LinkState};
use crate::guarantees::lemma_shadow_root_is_absolute;
use crate::path::{is_absolute, parent, parse, render, LexPath};
use crate::protocol::{refuse, Action, Error, Event, Step};
use crate::rules::{absolute, initial, shadow_root, Job, Move, Phase, State};
use vstd::prelude::*;

verus! {

/// The path made absolute: itself if it is, else seen from the current
/// directory.
pub fn ensure_absolute_path(path: &LexPath, current_dir: &LexPath) -> (r: LexPath)
    ensures
        r@ == absolute(path@, current_dir@),
{
    if path.is_absolute() {
        path.duplicate()
    } else {
        current_dir.join(path)
    }
}

/// The shadow directory of the current directory; `None` if the current
/// directory is not under the base directory.
pub fn shadow_root_of(base_dir: &LexPath, shadow_dir: &LexPath, current_dir: &LexPath) -> (r:
    Option<LexPath>)
    ensures
        r.is_some() == shadow_root(base_dir@, shadow_dir@, current_dir@).is_some(),
        r.is_some() ==> r.unwrap()@ == shadow_root(base_dir@, shadow_dir@, current_dir@).unwrap(),
{
    let base = ensure_absolute_path(base_dir, current_dir);
    match current_dir.strip_prefix(&base) {
        Some(offset) => Some(ensure_absolute_path(shadow_dir, current_dir).join(&offset)),
        None => None,
    }
}

/// A copy of a list of strings.
fn copy_texts(list: &Vec<String>) -> (r: Vec<String>)
    ensures
        texts(r@) == texts(list@),
{
    let mut out: Vec<String> = Vec::new();
    let mut i: usize = 0;
    while i < list.len()
        invariant
            i <= list.len(),
            out.len() == i,
            forall|j: int| 0 <= j < i ==> out@[j]@ == list@[j]@,
        decreases list.len() - i,
    {
        out.push(list[i].clone());
        i = i + 1;
    }
    assert(texts(out@) =~= texts(list@));
    out
}

/// An operation in progress.
pub struct Session {
    job: Job,
    force: bool,
    skip_restore: bool,
    files: Vec<String>,
    root: LexPath,
    cwd: LexPath,
    phase: Phase,
    index: usize,
    entry: String,
    held: String,
    found: bool,
}

/// What an event leads to, with the session it leaves.
enum Turn {
    To(Session),
    Succeed(Session),
    Fail(Session, Error<String>),
}

impl Turn {
    /// Whether this is the move `m` out of the state `from`.
    spec fn agrees_with(self, m: Move, from: State) -> bool {
        match self {
            Turn::To(next) => m == Move::To(next@) && next@.pending().is_some(),
            Turn::Succeed(last) => m == Move::Succeed && last@ == from.at(Phase::Finished),
            Turn::Fail(last, error) => m == Move::Fail(error@) && last@ == from.at(
                Phase::Finished,
            ),
        }
    }
}

impl View for Session {
    type V = State;

    closed spec fn view(&self) -> State {
        State {
            job: self.job,
            force: self.force,
            skip_restore: self.skip_restore,
            files: texts(self.files@),
            root: self.root@,
            cwd: self.cwd@,
            phase: self.phase,
            index: self.index as int,
            entry: self.entry@,
            held: self.held@,
            found: self.found,
        }
    }
}

impl Session {
    #[verifier::type_invariant]
    spec fn inv(self) -> bool {
        self@.well_formed()
    }

    /// The operation that the command line asks for, run in `current_dir`.
    /// It fails if the current directory is not under the base directory.
    /// Its shadow root is absolute if the current directory is.
    pub fn new(cli: &Cli, current_dir: &str) -> (r: Result<Session, Error<String>>)
        ensures
            match r {
                Ok(session) => shadow_root(
                    parse(cli.base_dir@),
                    parse(cli.shadow_dir@),
                    parse(current_dir@),
                ) matches Some(root) && session@ == initial(
                    cli.command,
                    root,
                    parse(current_dir@),
                ) && (is_absolute(parse(current_dir@)) ==> is_absolute(session@.root)),
                Err(error) => shadow_root(
                    parse(cli.base_dir@),
                    parse(cli.shadow_dir@),
                    parse(current_dir@),
                ).is_none() && error@ == (Error::OutsideBase {
                    dir: current_dir@,
                    base: render(absolute(parse(cli.base_dir@), parse(current_dir@))),
                }),
            },
    {
        let cwd = LexPath::parse(current_dir);
        let base_dir = LexPath::parse(cli.base_dir.as_str());
        let shadow_dir = LexPath::parse(cli.shadow_dir.as_str());
        let root = match shadow_root_of(&base_dir, &shadow_dir, &cwd) {
            Some(root) => root,
            None => {
                return Err(
                    Error::OutsideBase {
                        dir: String::from_str(current_dir),
                        base: ensure_absolute_path(&base_dir, &cwd).to_string(),
                    },
                );
            },
        };
        let (job, force, skip_restore, files) = match &cli.command {
            Commands::Add { files } => (Job::Add, false, false, copy_texts(files)),
            Commands::Ls {  } => (Job::List, false, false, Vec::new()),
            Commands::Restore { force } => (Job::Restore, *force, false, Vec::new()),
            Commands::Rm { files } => (Job::Remove, false, false, copy_texts(files)),
            Commands::GitClean { no_shdw, .. } => (Job::Clean, false, *no_shdw, Vec::new()),
        };
        assert(texts(files@) =~= cli.command.files());
        proof {
            if is_absolute(cwd@) {
                lemma_shadow_root_is_absolute(base_dir@, shadow_dir@, cwd@);
            }
        }
        Ok(
            Session {
                job,
                force,
                skip_restore,
                files,
                root,
                cwd,
                phase: Phase::Start,
                index: 0,
                entry: String::new(),
                held: String::new(),
                found: false,
            },
        )
    }

    /// Where the operation stands.
    pub fn phase(&self) -> (phase: Phase)
        ensures
            phase == self@.phase,
    {
        self.phase
    }

    /// The path being handled, as given.
    fn file(&self) -> (r: String)
        requires
            0 <= self@.index < self@.files.len(),
        ensures
            r@ == self@.file(),
    {
        self.files[self.index].clone()
    }

    /// The shadow location of the path being handled.
    fn shadow(&self) -> (r: LexPath)
        requires
            0 <= self@.index < self@.files.len(),
        ensures
            r@ == self@.shadow(),
    {
        self.root.join(&LexPath::parse(self.files[self.index].as_str()))
    }

    /// Where the link of the entry being handled belongs.
    fn link(&self) -> (r: LexPath)
        requires
            self@.in_shadow(),
        ensures
            r@ == self@.link(),
    {
        LexPath::parse(self.entry.as_str()).strip_prefix(&self.root).unwrap()
    }

    /// The directory of the link of the entry being handled.
    fn link_dir(&self) -> (r: LexPath)
        requires
            self@.in_shadow(),
            parent(self@.link()).is_some(),
        ensures
            r@ == parent(self@.link()).unwrap(),
    {
        self.link().parent().unwrap()
    }

    /// The action that the operation waits for; `None` before it begins and
    /// after it ends.
    pub fn pending(&self) -> (r: Option<Action<String>>)
        ensures
            match r {
                Some(action) => self@.pending() == Some(action@),
                None => self@.pending().is_none(),
            },
    {
        proof {
            use_type_invariant(self);
        }
        match self.phase {
            Phase::Start | Phase::Finished => None,
            Phase::AddProbe => Some(Action::Probe(self.file())),
            Phase::AddMakeDirs => Some(
                Action::CreateDirAll(self.shadow().parent().unwrap().to_string()),
            ),
            Phase::AddLocate => Some(Action::Canonicalize(self.file())),
            Phase::AddMove => Some(
                Action::Rename { from: self.file(), to: self.shadow().to_string() },
            ),
            Phase::AddLink => {
                let dir = LexPath::parse(self.held.as_str()).parent().unwrap();
                Some(
                    Action::Symlink {
                        target: self.shadow().relative_to(&dir).to_string(),
                        link: self.held.clone(),
                    },
                )
            },
            Phase::RemoveProbeShadow => Some(Action::Probe(self.shadow().to_string())),
            Phase::RemoveProbeLink => Some(Action::Probe(self.file())),
            Phase::RemoveLocateLink => Some(Action::Canonicalize(self.file())),
            Phase::RemoveLocateShadow => Some(Action::Canonicalize(self.shadow().to_string())),
            Phase::RemoveUnlink => Some(Action::RemoveFile(self.file())),
            Phase::RemoveMove => Some(
                Action::Rename { from: self.shadow().to_string(), to: self.file() },
            ),
            Phase::ProbeRoot | Phase::CleanProbeRoot => Some(Action::Probe(self.root.to_string())),
            Phase::WalkOpen | Phase::CleanWalkOpen => Some(Action::Walk(self.root.to_string())),
            Phase::WalkNext | Phase::CleanWalkNext => Some(Action::NextEntry),
            Phase::ListPrint => Some(Action::Print(self.link().to_string())),
            Phase::RestoreProbeDir => Some(Action::Probe(self.link_dir().to_string())),
            Phase::RestoreMakeDir => Some(Action::CreateDir(self.link_dir().to_string())),
            Phase::RestoreProbeLink => Some(Action::Probe(self.link().to_string())),
            Phase::RestoreLocateLink => Some(Action::Canonicalize(self.link().to_string())),
            Phase::RestoreClear => Some(Action::RemoveFile(self.link().to_string())),
            Phase::RestoreLink => {
                let link = self.link();
                let base = self.cwd.join(&link).parent().unwrap();
                let shadow_file = LexPath::parse(self.entry.as_str());
                Some(
                    Action::Symlink {
                        target: shadow_file.relative_to(&base).to_string(),
                        link: link.to_string(),
                    },
                )
            },
            Phase::Cleaning => Some(Action::Clean),
            Phase::CleanNotify => Some(
                Action::Warn(
                    String::from_str(
                        "Restoring shdw files. Use --no-shdw (as the first argument) to skip this.",
                    ),
                ),
            ),
        }
    }

    /// The session in another phase.
    fn goto(self, phase: Phase) -> (r: Session)
        requires
            self@.at(phase).well_formed(),
        ensures
            r@ == self@.at(phase),
    {
        Session { phase, ..self }
    }

    /// The session at its end.
    fn finish(self) -> (r: Session)
        ensures
            r@ == self@.at(Phase::Finished),
    {
        Session { phase: Phase::Finished, ..self }
    }

    /// The end of the operation with an error.
    fn fail(self, error: Error<String>) -> (r: Turn)
        ensures
            r.agrees_with(Move::Fail(error@), self@),
    {
        Turn::Fail(self.finish(), error)
    }

    /// On to the file at `index`, or to the end when there is none.
    fn next_file(self, index: usize) -> (r: Turn)
        ensures
            r.agrees_with(self@.next_file(index as int), self@),
    {
        if index >= self.files.len() {
            Turn::Succeed(self.finish())
        } else if self.job == Job::Add {
            Turn::To(Session { phase: Phase::AddProbe, index, ..self })
        } else {
            Turn::To(Session { phase: Phase::RemoveProbeShadow, index, ..self })
        }
    }

    /// What a walked entry leads to.
    fn take_entry(self, path: String, is_file: bool) -> (r: Turn)
        ensures
            r.agrees_with(self@.take_entry(path@, is_file), self@),
    {
        if !is_file {
            return Turn::To(self.goto(Phase::WalkNext));
        }
        match LexPath::parse(path.as_str()).strip_prefix(&self.root) {
            None => self.fail(Error::OutsideShadow(path)),
            Some(link) => {
                if link.len() == 0 {
                    Turn::To(self.goto(Phase::WalkNext))
                } else if self.job == Job::List {
                    Turn::To(Session { phase: Phase::ListPrint, entry: path, ..self })
                } else {
                    let deep: bool = match link.parent() {
                        Some(dir) => dir.len() > 0,
                        None => false,
                    };
                    if deep {
                        Turn::To(Session { phase: Phase::RestoreProbeDir, entry: path, ..self })
                    } else {
                        Turn::To(Session { phase: Phase::RestoreProbeLink, entry: path, ..self })
                    }
                }
            },
        }
    }

    /// On to creating the link.
    fn enter_link(self) -> (r: Turn)
        requires
            self@.in_shadow(),
        ensures
            r.agrees_with(self@.enter_link(), self@),
    {
        let link = self.link();
        if self.cwd.join(&link).parent().is_some() {
            Turn::To(self.goto(Phase::RestoreLink))
        } else {
            self.fail(Error::NoParent(link.to_string()))
        }
    }

    /// What the state of the link's place leads to.
    fn settle(self, found: LinkState) -> (r: Turn)
        requires
            self@.in_shadow(),
        ensures
            r.agrees_with(self@.settle(found), self@),
    {
        match found {
            LinkState::Correct => Turn::To(self.goto(Phase::WalkNext)),
            LinkState::Absent => self.enter_link(),
            LinkState::Conflict => {
                if self.force {
                    Turn::To(self.goto(Phase::RestoreClear))
                } else {
                    let error = Error::LinkConflict(self.link().to_string());
                    self.fail(error)
                }
            },
        }
    }

    /// Add, for the event that answers its pending action.
    fn advance_add(self, event: Event<String>) -> (r: Turn)
        requires
            self@.well_formed(),
        ensures
            r.agrees_with(self@.advance_add(event@), self@),
    {
        match (self.phase, event) {
            (Phase::AddProbe, Event::Probed { exists, is_symlink, is_file }) => {
                if is_symlink {
                    let error = Error::AlreadyLinked(self.file());
                    self.fail(error)
                } else if !exists {
                    let error = Error::NotFound(self.file());
                    self.fail(error)
                } else {
                    let shadow = self.shadow();
                    if shadow.parent().is_none() {
                        self.fail(Error::NoParent(shadow.to_string()))
                    } else {
                        Turn::To(self.goto(Phase::AddMakeDirs))
                    }
                }
            },
            (Phase::AddMakeDirs, Event::Done) => Turn::To(self.goto(Phase::AddLocate)),
            (Phase::AddLocate, Event::Location(place)) => Turn::To(
                Session { phase: Phase::AddMove, held: place, ..self },
            ),
            (Phase::AddMove, Event::Done) => {
                if LexPath::parse(self.held.as_str()).parent().is_none() {
                    let error = Error::NoParent(self.held.clone());
                    self.fail(error)
                } else {
                    Turn::To(self.goto(Phase::AddLink))
                }
            },
            (Phase::AddLink, Event::Done) => {
                let count: usize = self.files.len();
                assert(self.index < count);
                let index: usize = self.index + 1;
                self.next_file(index)
            },
            _ => self.fail(Error::Unexpected),
        }
    }

    /// Remove, for the event that answers its pending action.
    fn advance_remove(self, event: Event<String>) -> (r: Turn)
        requires
            self@.well_formed(),
        ensures
            r.agrees_with(self@.advance_remove(event@), self@),
    {
        match (self.phase, event) {
            (Phase::RemoveProbeShadow, Event::Probed { exists, is_symlink, is_file }) => {
                if is_file {
                    Turn::To(self.goto(Phase::RemoveProbeLink))
                } else {
                    let error = Error::NotTracked(self.shadow().to_string());
                    self.fail(error)
                }
            },
            (Phase::RemoveProbeLink, Event::Probed { exists, is_symlink, is_file }) => {
                if is_symlink && is_file {
                    Turn::To(self.goto(Phase::RemoveLocateLink))
                } else {
                    let error = Error::LinkMismatch {
                        link: self.file(),
                        shadow: self.shadow().to_string(),
                    };
                    self.fail(error)
                }
            },
            (Phase::RemoveLocateLink, Event::Location(place)) => Turn::To(
                Session { phase: Phase::RemoveLocateShadow, held: place, ..self },
            ),
            (Phase::RemoveLocateShadow, Event::Location(place)) => {
                let leads_to = LexPath::parse(self.held.as_str());
                if leads_to.same(&LexPath::parse(place.as_str())) {
                    Turn::To(self.goto(Phase::RemoveUnlink))
                } else {
                    let error = Error::LinkMismatch {
                        link: self.file(),
                        shadow: self.shadow().to_string(),
                    };
                    self.fail(error)
                }
            },
            (Phase::RemoveUnlink, Event::Done) => Turn::To(self.goto(Phase::RemoveMove)),
            (Phase::RemoveMove, Event::Done) => {
                let count: usize = self.files.len();
                assert(self.index < count);
                let index: usize = self.index + 1;
                self.next_file(index)
            },
            _ => self.fail(Error::Unexpected),
        }
    }

    /// A walk, for the event that answers its pending action.
    fn advance_walk(self, event: Event<String>) -> (r: Turn)
        requires
            self@.well_formed(),
        ensures
            r.agrees_with(self@.advance_walk(event@), self@),
    {
        match (self.phase, event) {
            (Phase::ProbeRoot, Event::Probed { exists, is_symlink, is_file }) => {
                if exists {
                    Turn::To(self.goto(Phase::WalkOpen))
                } else {
                    Turn::Succeed(self.finish())
                }
            },
            (Phase::WalkOpen, Event::EndOfWalk) => Turn::Succeed(self.finish()),
            (Phase::WalkNext, Event::EndOfWalk) => Turn::Succeed(self.finish()),
            (Phase::WalkOpen, Event::Entry { path, is_file }) => self.take_entry(path, is_file),
            (Phase::WalkNext, Event::Entry { path, is_file }) => self.take_entry(path, is_file),
            (Phase::ListPrint, Event::Done) => Turn::To(self.goto(Phase::WalkNext)),
            _ => self.fail(Error::Unexpected),
        }
    }

    /// Restore, for the event that answers its pending action.
    fn advance_restore(self, event: Event<String>) -> (r: Turn)
        requires
            self@.well_formed(),
        ensures
            r.agrees_with(self@.advance_restore(event@), self@),
    {
        match (self.phase, event) {
            (Phase::RestoreProbeDir, Event::Probed { exists, is_symlink, is_file }) => {
                if exists {
                    Turn::To(self.goto(Phase::RestoreProbeLink))
                } else {
                    Turn::To(self.goto(Phase::RestoreMakeDir))
                }
            },
            (Phase::RestoreMakeDir, Event::Done) => Turn::To(self.goto(Phase::RestoreProbeLink)),
            (Phase::RestoreProbeLink, Event::Probed { exists, is_symlink, is_file }) => {
                if exists && is_symlink {
                    Turn::To(self.goto(Phase::RestoreLocateLink))
                } else {
                    let target = LexPath::parse(self.entry.as_str());
                    let found = link_state(is_symlink || exists, is_symlink, None, &target);
                    self.settle(found)
                }
            },
            (Phase::RestoreLocateLink, Event::Location(place)) => {
                let target = LexPath::parse(self.entry.as_str());
                let leads_to = LexPath::parse(place.as_str());
                let found = link_state(true, true, Some(&leads_to), &target);
                self.settle(found)
            },
            (Phase::RestoreClear, Event::Done) => self.enter_link(),
            (Phase::RestoreLink, Event::Done) => Turn::To(self.goto(Phase::WalkNext)),
            _ => self.fail(Error::Unexpected),
        }
    }

    /// Clean, for the event that answers its pending action.
    fn advance_clean(self, event: Event<String>) -> (r: Turn)
        requires
            self@.well_formed(),
        ensures
            r.agrees_with(self@.advance_clean(event@), self@),
    {
        match (self.phase, event) {
            (Phase::Cleaning, Event::Done) => {
                if self.skip_restore {
                    Turn::Succeed(self.finish())
                } else {
                    Turn::To(Session { phase: Phase::CleanProbeRoot, found: false, ..self })
                }
            },
            (Phase::CleanProbeRoot, Event::Probed { exists, is_symlink, is_file }) => {
                if exists {
                    Turn::To(self.goto(Phase::CleanWalkOpen))
                } else {
                    Turn::Succeed(self.finish())
                }
            },
            (Phase::CleanWalkOpen, Event::Entry { path, is_file }) => {
                let found: bool = self.found || is_file;
                Turn::To(Session { phase: Phase::CleanWalkNext, found, ..self })
            },
            (Phase::CleanWalkNext, Event::Entry { path, is_file }) => {
                let found: bool = self.found || is_file;
                Turn::To(Session { phase: Phase::CleanWalkNext, found, ..self })
            },
            (Phase::CleanWalkOpen, Event::EndOfWalk) => self.after_scan(),
            (Phase::CleanWalkNext, Event::EndOfWalk) => self.after_scan(),
            (Phase::CleanNotify, Event::Done) => Turn::To(self.goto(Phase::ProbeRoot)),
            _ => self.fail(Error::Unexpected),
        }
    }

    /// The beginning of an operation.
    fn begin(self) -> (r: Turn)
        ensures
            r.agrees_with(self@.begin(), self@),
    {
        match self.job {
            Job::Add | Job::Remove => self.next_file(0),
            Job::List | Job::Restore => Turn::To(self.goto(Phase::ProbeRoot)),
            Job::Clean => Turn::To(self.goto(Phase::Cleaning)),
        }
    }

    /// What the event leads to.
    fn advance(self, event: Event<String>) -> (r: Turn)
        ensures
            r.agrees_with(self@.advance(event@), self@),
    {
        proof {
            use_type_invariant(&self);
        }
        if let Event::Failed(why) = event {
            return match self.pending() {
                Some(action) => self.fail(refuse(action, why)),
                None => self.fail(Error::Unexpected),
            };
        }
        match self.phase {
            Phase::Start => {
                if let Event::Start = event {
                    self.begin()
                } else {
                    self.fail(Error::Unexpected)
                }
            },
            Phase::AddProbe | Phase::AddMakeDirs | Phase::AddLocate | Phase::AddMove
            | Phase::AddLink => self.advance_add(event),
            Phase::RemoveProbeShadow | Phase::RemoveProbeLink | Phase::RemoveLocateLink
            | Phase::RemoveLocateShadow | Phase::RemoveUnlink
            | Phase::RemoveMove => self.advance_remove(event),
            Phase::ProbeRoot | Phase::WalkOpen | Phase::WalkNext
            | Phase::ListPrint => self.advance_walk(event),
            Phase::RestoreProbeDir | Phase::RestoreMakeDir | Phase::RestoreProbeLink
            | Phase::RestoreLocateLink | Phase::RestoreClear
            | Phase::RestoreLink => self.advance_restore(event),
            Phase::Cleaning | Phase::CleanProbeRoot | Phase::CleanWalkOpen | Phase::CleanWalkNext
            | Phase::CleanNotify => self.advance_clean(event),
            Phase::Finished => self.fail(Error::Unexpected),
        }
    }

    /// Clean: after the shadow tree was looked through.
    fn after_scan(self) -> (r: Turn)
        ensures
            r.agrees_with(self@.after_scan(), self@),
    {
        if self.found {
            Turn::To(self.goto(Phase::CleanNotify))
        } else {
            Turn::Succeed(self.finish())
        }
    }

    /// One step of the operation. Takes what came of the action asked for
    /// last (`Event::Start` the first time) and gives the session after it
    /// and what to do next. Events that answer nothing that was asked end the
    /// operation with `Error::Unexpected`.
    pub fn step(self, event: Event<String>) -> (r: (Session, Step<String>))
        ensures
            (r.0@, r.1@) == self@.step(event@),
    {
        match self.advance(event) {
            Turn::To(next) => {
                match next.pending() {
                    Some(action) => (next, Step::Perform(action)),
                    None => {
                        proof {
                            assert(false);
                        }
                        (next, Step::Fail(Error::Unexpected))
                    },
                }
            },
            Turn::Succeed(last) => (last, Step::Succeed),
            Turn::Fail(last, error) => (last, Step::Fail(error)),
        }
    }
}

} // verus!
