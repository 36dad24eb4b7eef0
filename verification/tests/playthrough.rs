use shdw::cli::{Cli, Commands};
use shdw::path::LexPath;
use shdw::protocol::{Action, Error, Event, Failure, Step};
use shdw::session::Session;
use std::collections::BTreeMap;

const HOME: &str = "/home/u";
const SHADOW: &str = "/home/u/.config/shdw/dir";
const CWD: &str = "/home/u/proj";

#[derive(Clone, Debug, PartialEq, Eq)]
enum Node {
    File(String),
    Dir,
    Link(String),
}

/// A filesystem in memory: nodes at resolved locations, paths followed by
/// their text, links followed in one hop.
struct Fake {
    nodes: BTreeMap<String, Node>,
    queue: Vec<(String, bool)>,
    printed: Vec<String>,
    warned: Vec<String>,
    changes: Vec<String>,
}

fn files(names: &[&str]) -> Vec<String> {
    names.iter().map(|n| n.to_string()).collect()
}

fn session(command: Commands) -> Session {
    let cli = Cli { command, shadow_dir: SHADOW.to_string(), base_dir: HOME.to_string() };
    Session::new(&cli, CWD).unwrap()
}

impl Fake {
    fn new(nodes: &[(&str, Node)]) -> Fake {
        let mut fake = Fake {
            nodes: BTreeMap::new(),
            queue: Vec::new(),
            printed: Vec::new(),
            warned: Vec::new(),
            changes: Vec::new(),
        };
        fake.make_dirs(CWD);
        for (at, node) in nodes {
            let dir = LexPath::parse(at).parent().unwrap().to_string();
            fake.make_dirs(&dir);
            fake.nodes.insert(at.to_string(), node.clone());
        }
        fake
    }

    fn make_dirs(&mut self, at: &str) {
        let mut dir = Some(LexPath::parse(at));
        while let Some(path) = dir {
            self.nodes.entry(path.to_string()).or_insert(Node::Dir);
            dir = path.parent();
        }
    }

    fn place(&self, text: &str) -> String {
        let seen = LexPath::parse(CWD).join(&LexPath::parse(text));
        LexPath::parse("").resolve(&seen).to_string()
    }

    fn leads(&self, at: &str) -> String {
        match (self.nodes.get(at), LexPath::parse(at).parent()) {
            (Some(Node::Link(text)), Some(dir)) => dir.resolve(&LexPath::parse(text)).to_string(),
            _ => at.to_string(),
        }
    }

    fn reaches(&self, text: &str) -> Option<String> {
        let at = self.place(text);
        let end = self.leads(&at);
        if self.nodes.contains_key(&at) && self.nodes.contains_key(&end) {
            Some(end)
        } else {
            None
        }
    }

    fn next_entry(&mut self) -> Event<String> {
        if self.queue.is_empty() {
            Event::EndOfWalk
        } else {
            let (path, is_file) = self.queue.remove(0);
            Event::Entry { path, is_file }
        }
    }

    fn change(&mut self, action: &Action<String>, done: bool) -> Event<String> {
        if done {
            self.changes.push(format!("{:?}", action));
            Event::Done
        } else {
            Event::Failed(Failure::Other)
        }
    }

    fn perform(&mut self, action: &Action<String>) -> Event<String> {
        match action {
            Action::Probe(path) => {
                let at = self.place(path);
                let end = self.reaches(path);
                Event::Probed {
                    exists: end.is_some(),
                    is_symlink: matches!(self.nodes.get(&at), Some(Node::Link(_))),
                    is_file: matches!(end.and_then(|e| self.nodes.get(&e)), Some(Node::File(_))),
                }
            }
            Action::Canonicalize(path) => match self.reaches(path) {
                Some(end) => Event::Location(end),
                None => Event::Failed(Failure::Other),
            },
            Action::Walk(root) => {
                let root = LexPath::parse(&self.place(root));
                self.queue = self
                    .nodes
                    .iter()
                    .filter(|(at, _)| LexPath::parse(at).strip_prefix(&root).is_some())
                    .map(|(at, node)| (at.clone(), matches!(node, Node::File(_))))
                    .collect();
                self.next_entry()
            }
            Action::NextEntry => self.next_entry(),
            Action::CreateDirAll(path) => {
                let at = self.place(path);
                self.make_dirs(&at);
                self.change(action, true)
            }
            Action::CreateDir(path) => {
                let at = self.place(path);
                let free = !self.nodes.contains_key(&at);
                if free {
                    self.nodes.insert(at, Node::Dir);
                }
                self.change(action, free)
            }
            Action::Rename { from, to } => {
                let (from, to) = (self.place(from), self.place(to));
                match self.nodes.remove(&from) {
                    Some(node) => {
                        self.nodes.insert(to, node);
                        self.change(action, true)
                    }
                    None => self.change(action, false),
                }
            }
            Action::Symlink { target, link } => {
                let at = self.place(link);
                let free = !self.nodes.contains_key(&at);
                if free {
                    self.nodes.insert(at, Node::Link(target.clone()));
                }
                self.change(action, free)
            }
            Action::RemoveFile(path) => {
                let at = self.place(path);
                let there = matches!(self.nodes.get(&at), Some(Node::File(_) | Node::Link(_)));
                if there {
                    self.nodes.remove(&at);
                }
                self.change(action, there)
            }
            Action::Print(line) => {
                self.printed.push(line.clone());
                Event::Done
            }
            Action::Warn(line) => {
                self.warned.push(line.clone());
                Event::Done
            }
            Action::Clean => self.change(action, true),
        }
    }

    /// Runs the session to its end and says how it ended.
    fn play(&mut self, session: Session) -> Result<(), Error<String>> {
        let mut session = session;
        let mut event = Event::Start;
        for _ in 0..1000 {
            let (next, step) = session.step(event);
            session = next;
            match step {
                Step::Succeed => return Ok(()),
                Step::Fail(error) => return Err(error),
                Step::Perform(action) => event = self.perform(&action),
            }
        }
        panic!("the operation does not end");
    }
}

#[test]
fn playing_add_moves_the_content_and_leaves_a_link() {
    let mut fake = Fake::new(&[("/home/u/proj/x.txt", Node::File("hello".to_string()))]);
    assert_eq!(fake.play(session(Commands::Add { files: files(&["x.txt"]) })), Ok(()));
    assert_eq!(
        fake.nodes.get("/home/u/.config/shdw/dir/proj/x.txt"),
        Some(&Node::File("hello".to_string()))
    );
    assert_eq!(
        fake.nodes.get("/home/u/proj/x.txt"),
        Some(&Node::Link("../.config/shdw/dir/proj/x.txt".to_string()))
    );
    assert_eq!(fake.leads("/home/u/proj/x.txt"), "/home/u/.config/shdw/dir/proj/x.txt");
}

#[test]
fn playing_add_then_remove_restores_the_file() {
    let mut fake = Fake::new(&[("/home/u/proj/sub/x.txt", Node::File("hello".to_string()))]);
    let before = fake.nodes.clone();
    assert_eq!(fake.play(session(Commands::Add { files: files(&["sub/x.txt"]) })), Ok(()));
    assert_ne!(fake.nodes, before);
    assert_eq!(fake.play(session(Commands::Rm { files: files(&["sub/x.txt"]) })), Ok(()));
    assert_eq!(
        fake.nodes.get("/home/u/proj/sub/x.txt"),
        Some(&Node::File("hello".to_string()))
    );
    assert_eq!(fake.nodes.get("/home/u/.config/shdw/dir/proj/sub/x.txt"), None);
    let files_and_links = |nodes: &BTreeMap<String, Node>| -> Vec<(String, Node)> {
        nodes.iter().filter(|(_, n)| **n != Node::Dir).map(|(a, n)| (a.clone(), n.clone())).collect()
    };
    assert_eq!(files_and_links(&fake.nodes), files_and_links(&before));
}

#[test]
fn playing_add_of_a_link_touches_nothing() {
    let mut fake = Fake::new(&[
        ("/home/u/elsewhere", Node::File("other".to_string())),
        ("/home/u/proj/ln", Node::Link("../elsewhere".to_string())),
    ]);
    let before = fake.nodes.clone();
    assert_eq!(
        fake.play(session(Commands::Add { files: files(&["ln"]) })),
        Err(Error::AlreadyLinked("ln".to_string()))
    );
    assert_eq!(fake.nodes, before);
    assert!(fake.changes.is_empty());
}

#[test]
fn playing_remove_of_a_link_that_leads_elsewhere_touches_nothing() {
    let mut fake = Fake::new(&[
        ("/home/u/.config/shdw/dir/proj/x.txt", Node::File("tracked".to_string())),
        ("/home/u/unrelated/x.txt", Node::File("unrelated".to_string())),
        ("/home/u/proj/x.txt", Node::Link("../unrelated/x.txt".to_string())),
    ]);
    let before = fake.nodes.clone();
    assert_eq!(
        fake.play(session(Commands::Rm { files: files(&["x.txt"]) })),
        Err(Error::LinkMismatch {
            link: "x.txt".to_string(),
            shadow: "/home/u/.config/shdw/dir/proj/x.txt".to_string()
        })
    );
    assert_eq!(fake.nodes, before);
    assert!(fake.changes.is_empty());
}

#[test]
fn playing_restore_creates_every_link() {
    let mut fake = Fake::new(&[
        ("/home/u/.config/shdw/dir/proj/a", Node::File("a".to_string())),
        ("/home/u/.config/shdw/dir/proj/sub/b", Node::File("b".to_string())),
    ]);
    assert_eq!(fake.play(session(Commands::Restore { force: false })), Ok(()));
    assert_eq!(fake.leads("/home/u/proj/a"), "/home/u/.config/shdw/dir/proj/a");
    assert_eq!(fake.leads("/home/u/proj/sub/b"), "/home/u/.config/shdw/dir/proj/sub/b");
    assert_eq!(fake.nodes.get("/home/u/proj/sub"), Some(&Node::Dir));
}

#[test]
fn playing_restore_twice_changes_nothing_the_second_time() {
    let mut fake = Fake::new(&[
        ("/home/u/.config/shdw/dir/proj/a", Node::File("a".to_string())),
        ("/home/u/.config/shdw/dir/proj/sub/b", Node::File("b".to_string())),
    ]);
    assert_eq!(fake.play(session(Commands::Restore { force: false })), Ok(()));
    let after_first = fake.nodes.clone();
    fake.changes.clear();
    assert_eq!(fake.play(session(Commands::Restore { force: false })), Ok(()));
    assert_eq!(fake.nodes, after_first);
    assert!(fake.changes.is_empty());
}

#[test]
fn playing_restore_without_force_stops_at_a_file_in_the_way() {
    let mut fake = Fake::new(&[
        ("/home/u/.config/shdw/dir/proj/a", Node::File("a".to_string())),
        ("/home/u/.config/shdw/dir/proj/b", Node::File("b".to_string())),
        ("/home/u/proj/b", Node::File("in the way".to_string())),
    ]);
    assert_eq!(
        fake.play(session(Commands::Restore { force: false })),
        Err(Error::LinkConflict("b".to_string()))
    );
    assert_eq!(fake.leads("/home/u/proj/a"), "/home/u/.config/shdw/dir/proj/a");
    assert_eq!(fake.nodes.get("/home/u/proj/b"), Some(&Node::File("in the way".to_string())));
}

#[test]
fn playing_restore_with_force_puts_the_link_in_the_place_of_the_file() {
    let mut fake = Fake::new(&[
        ("/home/u/.config/shdw/dir/proj/b", Node::File("b".to_string())),
        ("/home/u/proj/b", Node::File("in the way".to_string())),
    ]);
    assert_eq!(fake.play(session(Commands::Restore { force: true })), Ok(()));
    assert_eq!(
        fake.nodes.get("/home/u/proj/b"),
        Some(&Node::Link("../.config/shdw/dir/proj/b".to_string()))
    );
    assert_eq!(fake.leads("/home/u/proj/b"), "/home/u/.config/shdw/dir/proj/b");
}

#[test]
fn playing_list_prints_one_line_for_each_file() {
    let mut fake = Fake::new(&[
        ("/home/u/.config/shdw/dir/proj/a", Node::File("a".to_string())),
        ("/home/u/.config/shdw/dir/proj/sub/b", Node::File("b".to_string())),
        ("/home/u/.config/shdw/dir/other/c", Node::File("c".to_string())),
    ]);
    assert_eq!(fake.play(session(Commands::Ls {})), Ok(()));
    assert_eq!(fake.printed, vec!["a".to_string(), "sub/b".to_string()]);
    assert!(fake.changes.is_empty());
}

#[test]
fn playing_list_without_a_shadow_directory_prints_nothing() {
    let mut fake = Fake::new(&[]);
    assert_eq!(fake.play(session(Commands::Ls {})), Ok(()));
    assert!(fake.printed.is_empty());
}

#[test]
fn playing_list_of_an_empty_shadow_directory_prints_nothing() {
    let mut fake = Fake::new(&[]);
    fake.make_dirs("/home/u/.config/shdw/dir/proj/empty");
    assert_eq!(fake.play(session(Commands::Ls {})), Ok(()));
    assert!(fake.printed.is_empty());
}

#[test]
fn playing_clean_restores_the_links() {
    let mut fake = Fake::new(&[("/home/u/.config/shdw/dir/proj/a", Node::File("a".to_string()))]);
    let command = Commands::GitClean { no_shdw: false, git_options: files(&["-fd"]) };
    assert_eq!(fake.play(session(command)), Ok(()));
    assert_eq!(fake.warned.len(), 1);
    assert_eq!(fake.leads("/home/u/proj/a"), "/home/u/.config/shdw/dir/proj/a");
}

#[test]
fn playing_restore_with_force_replaces_a_link_that_leads_nowhere() {
    let mut fake = Fake::new(&[
        ("/home/u/.config/shdw/dir/proj/a", Node::File("a".to_string())),
        ("/home/u/proj/a", Node::Link("gone".to_string())),
    ]);
    assert_eq!(
        fake.play(session(Commands::Restore { force: false })),
        Err(Error::LinkConflict("a".to_string()))
    );
    assert_eq!(fake.play(session(Commands::Restore { force: true })), Ok(()));
    assert_eq!(fake.leads("/home/u/proj/a"), "/home/u/.config/shdw/dir/proj/a");
}

#[test]
fn playing_add_of_a_link_that_leads_nowhere_touches_nothing() {
    let mut fake = Fake::new(&[("/home/u/proj/ln", Node::Link("gone".to_string()))]);
    let before = fake.nodes.clone();
    assert_eq!(
        fake.play(session(Commands::Add { files: files(&["ln"]) })),
        Err(Error::AlreadyLinked("ln".to_string()))
    );
    assert_eq!(fake.nodes, before);
    assert!(fake.changes.is_empty());
}

#[test]
fn playing_add_of_a_missing_file_touches_nothing() {
    let mut fake = Fake::new(&[]);
    let before = fake.nodes.clone();
    assert_eq!(
        fake.play(session(Commands::Add { files: files(&["gone"]) })),
        Err(Error::NotFound("gone".to_string()))
    );
    assert_eq!(fake.nodes, before);
    assert!(fake.changes.is_empty());
}

#[test]
fn playing_add_then_remove_restores_a_file_named_with_a_leading_dot() {
    let mut fake = Fake::new(&[("/home/u/proj/x.txt", Node::File("hello".to_string()))]);
    let before = fake.nodes.clone();
    assert_eq!(fake.play(session(Commands::Add { files: files(&["./x.txt"]) })), Ok(()));
    assert_eq!(
        fake.nodes.get("/home/u/.config/shdw/dir/proj/x.txt"),
        Some(&Node::File("hello".to_string()))
    );
    assert_eq!(fake.leads("/home/u/proj/x.txt"), "/home/u/.config/shdw/dir/proj/x.txt");
    assert_eq!(fake.play(session(Commands::Rm { files: files(&["./x.txt"]) })), Ok(()));
    assert_eq!(fake.nodes.get("/home/u/proj/x.txt"), before.get("/home/u/proj/x.txt"));
    assert_eq!(fake.nodes.get("/home/u/.config/shdw/dir/proj/x.txt"), None);
}

#[test]
fn playing_add_then_remove_restores_a_file_named_with_steps_up() {
    let mut fake = Fake::new(&[("/home/u/other/x.txt", Node::File("hello".to_string()))]);
    let name = "sub/../../other/x.txt";
    assert_eq!(fake.play(session(Commands::Add { files: files(&[name]) })), Ok(()));
    assert_eq!(
        fake.nodes.get("/home/u/.config/shdw/dir/other/x.txt"),
        Some(&Node::File("hello".to_string()))
    );
    assert_eq!(fake.leads("/home/u/other/x.txt"), "/home/u/.config/shdw/dir/other/x.txt");
    assert_eq!(fake.play(session(Commands::Rm { files: files(&[name]) })), Ok(()));
    assert_eq!(fake.nodes.get("/home/u/other/x.txt"), Some(&Node::File("hello".to_string())));
    assert_eq!(fake.nodes.get("/home/u/.config/shdw/dir/other/x.txt"), None);
}

#[test]
fn playing_restore_with_force_twice_changes_nothing_the_second_time() {
    let mut fake = Fake::new(&[
        ("/home/u/.config/shdw/dir/proj/a", Node::File("a".to_string())),
        ("/home/u/.config/shdw/dir/proj/b", Node::File("b".to_string())),
        ("/home/u/elsewhere", Node::File("other".to_string())),
        ("/home/u/proj/a", Node::File("in the way".to_string())),
        ("/home/u/proj/b", Node::Link("../elsewhere".to_string())),
    ]);
    assert_eq!(fake.play(session(Commands::Restore { force: true })), Ok(()));
    assert_eq!(fake.leads("/home/u/proj/a"), "/home/u/.config/shdw/dir/proj/a");
    assert_eq!(fake.leads("/home/u/proj/b"), "/home/u/.config/shdw/dir/proj/b");
    let after_first = fake.nodes.clone();
    fake.changes.clear();
    assert_eq!(fake.play(session(Commands::Restore { force: true })), Ok(()));
    assert_eq!(fake.nodes, after_first);
    assert!(fake.changes.is_empty());
}

#[test]
fn playing_restore_without_force_stops_at_a_link_that_leads_elsewhere() {
    let mut fake = Fake::new(&[
        ("/home/u/.config/shdw/dir/proj/a", Node::File("a".to_string())),
        ("/home/u/.config/shdw/dir/proj/b", Node::File("b".to_string())),
        ("/home/u/elsewhere", Node::File("other".to_string())),
        ("/home/u/proj/b", Node::Link("../elsewhere".to_string())),
    ]);
    assert_eq!(
        fake.play(session(Commands::Restore { force: false })),
        Err(Error::LinkConflict("b".to_string()))
    );
    assert_eq!(fake.leads("/home/u/proj/a"), "/home/u/.config/shdw/dir/proj/a");
    assert_eq!(fake.nodes.get("/home/u/proj/b"), Some(&Node::Link("../elsewhere".to_string())));
}
