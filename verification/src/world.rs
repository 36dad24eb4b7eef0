//! A filesystem reduced to what the operations rely on, to state what they
//! achieve and not only what they ask for.
//!
//! A world holds nodes at resolved locations. A path names a place by its
//! text alone, seen from the current directory; a link leads, in one hop, to
//! where its text leads from its own directory. A walk reports the places
//! of the shadow tree in the one order that the world holds. Of the
//! directories that an action makes, the world keeps track of the one that
//! the action names, not of those above it. The world cannot be cleaned.
//! This is the yardstick for the rules; nothing here runs.
use crate::path::{join, normalize, parent, parse, render, resolve, Part};
use crate::protocol::{Action, Event, Failure, Step};
use crate::rules::State;
use vstd::prelude::*;

verus! {

/// What stands at a place.
pub enum Node {
    /// A regular file with its content.
    File(Seq<u8>),
    /// A directory.
    Directory,
    /// A symbolic link with the text it holds.
    Link(Seq<char>),
}

/// The nodes of a filesystem, the directory that paths are seen from, and
/// a walk of the shadow tree.
pub struct World {
    /// What stands where.
    pub nodes: Map<Seq<Part>, Node>,
    /// The current directory.
    pub cwd: Seq<Part>,
    /// The places of the shadow tree, in the order in which a walk reports
    /// them.
    pub order: Seq<Seq<Part>>,
    /// How many places the walk in progress has reported.
    pub seen: int,
}

impl World {
    /// The place that the text of a path names.
    pub open spec fn place(self, text: Seq<char>) -> Seq<Part> {
        normalize(join(self.cwd, parse(text)))
    }

    /// Whether a node stands at the place.
    pub open spec fn holds(self, at: Seq<Part>) -> bool {
        self.nodes.contains_key(at)
    }

    /// Where the node at a place leads: a link to where its text leads from
    /// its directory, anything else to its own place.
    pub open spec fn leads(self, at: Seq<Part>) -> Seq<Part> {
        match (self.nodes[at], parent(at)) {
            (Node::Link(text), Some(dir)) => resolve(dir, parse(text)),
            _ => at,
        }
    }

    /// Whether the path leads to a node.
    pub open spec fn reaches(self, text: Seq<char>) -> bool {
        self.holds(self.place(text)) && self.holds(self.leads(self.place(text)))
    }

    /// What a walk reports as its entry number `i`: the place, and whether
    /// a regular file stands there; the end of the walk after the last.
    pub open spec fn entry(self, i: int) -> Event<Seq<char>> {
        if 0 <= i < self.order.len() {
            Event::Entry {
                path: render(self.order[i]),
                is_file: self.holds(self.order[i]) && self.nodes[self.order[i]] is File,
            }
        } else {
            Event::EndOfWalk
        }
    }

    /// What the world answers to an action.
    pub open spec fn answer(self, action: Action<Seq<char>>) -> Event<Seq<char>> {
        match action {
            Action::Probe(path) => Event::Probed {
                exists: self.reaches(path),
                is_symlink: self.holds(self.place(path)) && self.nodes[self.place(path)] is Link,
                is_file: self.reaches(path) && self.nodes[self.leads(self.place(path))] is File,
            },
            Action::Canonicalize(path) => if self.reaches(path) {
                Event::Location(render(self.leads(self.place(path))))
            } else {
                Event::Failed(Failure::Other)
            },
            Action::CreateDirAll(_) => Event::Done,
            Action::CreateDir(path) => if self.holds(self.place(path)) {
                Event::Failed(Failure::Other)
            } else {
                Event::Done
            },
            Action::Rename { from, to } => if self.holds(self.place(from)) {
                Event::Done
            } else {
                Event::Failed(Failure::Other)
            },
            Action::Symlink { target, link } => if self.holds(self.place(link)) {
                Event::Failed(Failure::Other)
            } else {
                Event::Done
            },
            Action::RemoveFile(path) => if self.holds(self.place(path)) && !(self.nodes[self.place(
                path,
            )] is Directory) {
                Event::Done
            } else {
                Event::Failed(Failure::Other)
            },
            Action::Print(_) => Event::Done,
            Action::Warn(_) => Event::Done,
            Action::Walk(_) => self.entry(0),
            Action::NextEntry => self.entry(self.seen),
            Action::Clean => Event::Failed(Failure::Other),
        }
    }

    /// The world after an action: a move takes the node along, a link or a
    /// directory is put in place, a removal takes away a node that is no
    /// directory, and a walk goes on by one entry. A refused action changes
    /// nothing.
    pub open spec fn after(self, action: Action<Seq<char>>) -> World {
        if action is Walk {
            World { seen: 1, ..self }
        } else if action is NextEntry {
            World { seen: self.seen + 1, ..self }
        } else if self.answer(action) is Done {
            match action {
                Action::Rename { from, to } => World {
                    nodes: self.nodes.remove(self.place(from)).insert(
                        self.place(to),
                        self.nodes[self.place(from)],
                    ),
                    ..self
                },
                Action::Symlink { target, link } => World {
                    nodes: self.nodes.insert(self.place(link), Node::Link(target)),
                    ..self
                },
                Action::RemoveFile(path) => World {
                    nodes: self.nodes.remove(self.place(path)),
                    ..self
                },
                Action::CreateDir(path) => World {
                    nodes: self.nodes.insert(self.place(path), Node::Directory),
                    ..self
                },
                Action::CreateDirAll(path) => if self.holds(self.place(path)) {
                    self
                } else {
                    World {
                        nodes: self.nodes.insert(self.place(path), Node::Directory),
                        ..self
                    }
                },
                _ => self,
            }
        } else {
            self
        }
    }
}

/// An operation played out in a world: each action asked for is carried
/// out there and answered from there, until the operation ends or `turns`
/// run out. Gives how the operation ended, if it did, and the world it left.
pub open spec fn play(s: State, w: World, event: Event<Seq<char>>, turns: nat) -> (
    Option<Step<Seq<char>>>,
    World,
)
    decreases turns,
{
    if turns == 0 {
        (None, w)
    } else {
        match s.step(event).1 {
            Step::Perform(action) => play(
                s.step(event).0,
                w.after(action),
                w.answer(action),
                (turns - 1) as nat,
            ),
            end => (Some(end), w),
        }
    }
}

} // verus!
