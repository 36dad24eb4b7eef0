use shdw::cli::{Cli, Commands};
use shdw::link::{link_state, LinkState};
use shdw::path::LexPath;
use shdw::protocol::{describe, describe_task, refuse, Action, Error, Event, Failure, Step};
use shdw::rules::Phase;
use shdw::session::{ensure_absolute_path, shadow_root_of, Session};

const ROOT: &str = "/home/u/.config/shdw/dir/proj";

fn cli(command: Commands) -> Cli {
    Cli {
        command,
        shadow_dir: "/home/u/.config/shdw/dir".to_string(),
        base_dir: "/home/u".to_string(),
    }
}

fn files(names: &[&str]) -> Vec<String> {
    names.iter().map(|n| n.to_string()).collect()
}

fn begin(command: Commands) -> Session {
    Session::new(&cli(command), "/home/u/proj").unwrap()
}

fn seen(exists: bool, is_symlink: bool, is_file: bool) -> Event<String> {
    Event::Probed { exists, is_symlink, is_file }
}

fn at(path: &str) -> Event<String> {
    Event::Location(path.to_string())
}

fn entry(path: &str, is_file: bool) -> Event<String> {
    Event::Entry { path: path.to_string(), is_file }
}

fn probe(path: &str) -> Step<String> {
    Step::Perform(Action::Probe(path.to_string()))
}

fn locate(path: &str) -> Step<String> {
    Step::Perform(Action::Canonicalize(path.to_string()))
}

fn rename(from: &str, to: &str) -> Step<String> {
    Step::Perform(Action::Rename { from: from.to_string(), to: to.to_string() })
}

fn symlink(target: &str, link: &str) -> Step<String> {
    Step::Perform(Action::Symlink { target: target.to_string(), link: link.to_string() })
}

fn remove(path: &str) -> Step<String> {
    Step::Perform(Action::RemoveFile(path.to_string()))
}

/// Feeds the events to the session one by one and gives what it asked for.
fn run(session: Session, events: Vec<Event<String>>) -> (Session, Vec<Step<String>>) {
    let mut session = session;
    let mut steps = Vec::new();
    for event in events {
        let (next, step) = session.step(event);
        session = next;
        steps.push(step);
    }
    (session, steps)
}

fn changes_files(step: &Step<String>) -> bool {
    matches!(
        step,
        Step::Perform(
            Action::CreateDirAll(_)
                | Action::CreateDir(_)
                | Action::Rename { .. }
                | Action::Symlink { .. }
                | Action::RemoveFile(_)
                | Action::Clean
        )
    )
}

#[test]
fn shadow_root_repeats_the_offset_from_the_base() {
    let root = shadow_root_of(
        &LexPath::parse("/home/u"),
        &LexPath::parse("/home/u/.config/shdw/dir"),
        &LexPath::parse("/home/u/proj/sub"),
    );
    assert_eq!(root.unwrap().to_string(), "/home/u/.config/shdw/dir/proj/sub");
}

#[test]
fn shadow_root_of_the_base_is_the_shadow_directory() {
    let root = shadow_root_of(
        &LexPath::parse("/home/u"),
        &LexPath::parse("/srv/shadow"),
        &LexPath::parse("/home/u"),
    );
    assert_eq!(root.unwrap().to_string(), "/srv/shadow");
}

#[test]
fn shadow_root_takes_relative_directories_from_the_current_one() {
    let root = shadow_root_of(
        &LexPath::parse(".."),
        &LexPath::parse("shadow"),
        &LexPath::parse("/home/u/proj"),
    );
    assert!(root.is_none());
    let root = shadow_root_of(
        &LexPath::parse("."),
        &LexPath::parse("shadow"),
        &LexPath::parse("/home/u/proj"),
    );
    assert_eq!(root.unwrap().to_string(), "/home/u/proj/shadow");
}

#[test]
fn shadow_root_needs_the_current_directory_under_the_base() {
    let root = shadow_root_of(
        &LexPath::parse("/home/u"),
        &LexPath::parse("/srv/shadow"),
        &LexPath::parse("/tmp"),
    );
    assert!(root.is_none());
}

#[test]
fn absolute_path_stays_and_relative_path_is_joined() {
    let cwd = LexPath::parse("/home/u");
    assert_eq!(ensure_absolute_path(&LexPath::parse("/etc"), &cwd).to_string(), "/etc");
    assert_eq!(ensure_absolute_path(&LexPath::parse("a/b"), &cwd).to_string(), "/home/u/a/b");
    assert_eq!(ensure_absolute_path(&LexPath::parse("./a"), &cwd).to_string(), "/home/u/a");
}

#[test]
fn session_outside_the_base_directory_is_refused() {
    let result = Session::new(&cli(Commands::Ls {}), "/tmp/elsewhere");
    match result {
        Err(error) => assert_eq!(
            error,
            Error::OutsideBase { dir: "/tmp/elsewhere".to_string(), base: "/home/u".to_string() }
        ),
        Ok(_) => panic!("a session outside the base directory"),
    }
}

#[test]
fn session_begins_at_the_start_with_nothing_pending() {
    let session = begin(Commands::Ls {});
    assert_eq!(session.phase(), Phase::Start);
    assert_eq!(session.pending(), None);
}

#[test]
fn link_state_is_absent_when_nothing_is_there() {
    let target = LexPath::parse("/s/x");
    assert_eq!(link_state(false, false, None, &target), LinkState::Absent);
    assert_eq!(link_state(false, true, None, &target), LinkState::Absent);
    assert_eq!(link_state(false, true, Some(&target), &target), LinkState::Absent);
}

#[test]
fn link_state_is_correct_for_a_link_to_the_target() {
    let target = LexPath::parse("/s/x");
    let leads_to = LexPath::parse("/s//x/");
    assert_eq!(link_state(true, true, Some(&leads_to), &target), LinkState::Correct);
}

#[test]
fn link_state_is_conflict_for_anything_else() {
    let target = LexPath::parse("/s/x");
    let elsewhere = LexPath::parse("/t/x");
    assert_eq!(link_state(true, false, None, &target), LinkState::Conflict);
    assert_eq!(link_state(true, false, Some(&target), &target), LinkState::Conflict);
    assert_eq!(link_state(true, true, Some(&elsewhere), &target), LinkState::Conflict);
    assert_eq!(link_state(true, true, None, &target), LinkState::Conflict);
}

#[test]
fn refused_move_across_filesystems_is_named() {
    let action = Action::Rename { from: "a".to_string(), to: "b".to_string() };
    assert_eq!(
        refuse(action, Failure::CrossDevice),
        Error::CrossFilesystem { from: "a".to_string(), to: "b".to_string() }
    );
    let action = Action::Rename { from: "a".to_string(), to: "b".to_string() };
    assert_eq!(
        refuse(action, Failure::Other),
        Error::Io(Action::Rename { from: "a".to_string(), to: "b".to_string() })
    );
    assert_eq!(
        refuse(Action::CreateDir("d".to_string()), Failure::CrossDevice),
        Error::Io(Action::CreateDir("d".to_string()))
    );
}

#[test]
fn add_moves_the_file_and_then_links_to_it() {
    let session = begin(Commands::Add { files: files(&["x.txt"]) });
    let (session, steps) = run(
        session,
        vec![
            Event::Start,
            seen(true, false, true),
            Event::Done,
            at("/home/u/proj/x.txt"),
            Event::Done,
            Event::Done,
        ],
    );
    assert_eq!(
        steps,
        vec![
            probe("x.txt"),
            Step::Perform(Action::CreateDirAll(ROOT.to_string())),
            locate("x.txt"),
            rename("x.txt", "/home/u/.config/shdw/dir/proj/x.txt"),
            symlink("../.config/shdw/dir/proj/x.txt", "/home/u/proj/x.txt"),
            Step::Succeed,
        ]
    );
    assert_eq!(session.phase(), Phase::Finished);
}

#[test]
fn add_handles_the_files_in_order() {
    let session = begin(Commands::Add { files: files(&["a", "sub/b"]) });
    let (_, steps) = run(
        session,
        vec![
            Event::Start,
            seen(true, false, true),
            Event::Done,
            at("/home/u/proj/a"),
            Event::Done,
            Event::Done,
            seen(true, false, true),
            Event::Done,
            at("/home/u/proj/sub/b"),
            Event::Done,
            Event::Done,
        ],
    );
    assert_eq!(steps[5], probe("sub/b"));
    assert_eq!(
        steps[6],
        Step::Perform(Action::CreateDirAll("/home/u/.config/shdw/dir/proj/sub".to_string()))
    );
    assert_eq!(steps[8], rename("sub/b", "/home/u/.config/shdw/dir/proj/sub/b"));
    assert_eq!(
        steps[9],
        symlink("../../.config/shdw/dir/proj/sub/b", "/home/u/proj/sub/b")
    );
    assert_eq!(steps[10], Step::Succeed);
}

#[test]
fn add_of_no_files_succeeds_at_once() {
    let (_, steps) = run(begin(Commands::Add { files: files(&[]) }), vec![Event::Start]);
    assert_eq!(steps, vec![Step::Succeed]);
}

#[test]
fn add_rejects_a_missing_file() {
    let session = begin(Commands::Add { files: files(&["gone"]) });
    let (_, steps) = run(session, vec![Event::Start, seen(false, false, false)]);
    assert_eq!(steps, vec![probe("gone"), Step::Fail(Error::NotFound("gone".to_string()))]);
}

#[test]
fn add_rejects_a_symlink_and_touches_nothing() {
    let session = begin(Commands::Add { files: files(&["ln"]) });
    let (session, steps) = run(session, vec![Event::Start, seen(true, true, true)]);
    assert_eq!(steps, vec![probe("ln"), Step::Fail(Error::AlreadyLinked("ln".to_string()))]);
    assert!(steps.iter().all(|s| !changes_files(s)));
    assert_eq!(session.phase(), Phase::Finished);
}

#[test]
fn add_rejects_a_link_that_leads_nowhere_and_touches_nothing() {
    let session = begin(Commands::Add { files: files(&["ln"]) });
    let (session, steps) = run(session, vec![Event::Start, seen(false, true, false)]);
    assert_eq!(steps, vec![probe("ln"), Step::Fail(Error::AlreadyLinked("ln".to_string()))]);
    assert!(steps.iter().all(|s| !changes_files(s)));
    assert_eq!(session.phase(), Phase::Finished);
}

#[test]
fn add_stops_when_the_move_crosses_filesystems() {
    let session = begin(Commands::Add { files: files(&["x", "y"]) });
    let (session, steps) = run(
        session,
        vec![
            Event::Start,
            seen(true, false, true),
            Event::Done,
            at("/home/u/proj/x"),
            Event::Failed(Failure::CrossDevice),
        ],
    );
    assert_eq!(
        steps[4],
        Step::Fail(Error::CrossFilesystem {
            from: "x".to_string(),
            to: "/home/u/.config/shdw/dir/proj/x".to_string()
        })
    );
    assert_eq!(session.phase(), Phase::Finished);
}

#[test]
fn add_leaves_the_file_moved_when_the_link_fails() {
    let session = begin(Commands::Add { files: files(&["x"]) });
    let (_, steps) = run(
        session,
        vec![
            Event::Start,
            seen(true, false, true),
            Event::Done,
            at("/home/u/proj/x"),
            Event::Done,
            Event::Failed(Failure::Other),
        ],
    );
    assert_eq!(steps[3], rename("x", "/home/u/.config/shdw/dir/proj/x"));
    assert_eq!(
        steps[5],
        Step::Fail(Error::Io(Action::Symlink {
            target: "../.config/shdw/dir/proj/x".to_string(),
            link: "/home/u/proj/x".to_string()
        }))
    );
}

#[test]
fn add_of_the_root_directory_has_no_shadow_parent() {
    let command = Commands::Add { files: files(&["/"]) };
    let session = Session::new(&cli(command), "/home/u").unwrap();
    let (_, steps) = run(session, vec![Event::Start, seen(true, false, false)]);
    assert_eq!(steps[1], Step::Fail(Error::NoParent("/".to_string())));
}

#[test]
fn add_needs_a_parent_for_the_link() {
    let session = begin(Commands::Add { files: files(&[".."]) });
    let (_, steps) = run(
        session,
        vec![Event::Start, seen(true, false, false), Event::Done, at("/"), Event::Done],
    );
    assert_eq!(steps[4], Step::Fail(Error::NoParent("/".to_string())));
}

#[test]
fn remove_deletes_the_link_and_then_moves_the_file_back() {
    let session = begin(Commands::Rm { files: files(&["x.txt"]) });
    let shadow = "/home/u/.config/shdw/dir/proj/x.txt";
    let (session, steps) = run(
        session,
        vec![
            Event::Start,
            seen(true, false, true),
            seen(true, true, true),
            at(shadow),
            at(shadow),
            Event::Done,
            Event::Done,
        ],
    );
    assert_eq!(
        steps,
        vec![
            probe(shadow),
            probe("x.txt"),
            locate("x.txt"),
            locate(shadow),
            remove("x.txt"),
            rename(shadow, "x.txt"),
            Step::Succeed,
        ]
    );
    assert_eq!(session.phase(), Phase::Finished);
}

#[test]
fn remove_undoes_what_add_did() {
    let added = run(
        begin(Commands::Add { files: files(&["x.txt"]) }),
        vec![
            Event::Start,
            seen(true, false, true),
            Event::Done,
            at("/home/u/proj/x.txt"),
            Event::Done,
            Event::Done,
        ],
    )
    .1;
    let shadow = "/home/u/.config/shdw/dir/proj/x.txt";
    let removed = run(
        begin(Commands::Rm { files: files(&["x.txt"]) }),
        vec![
            Event::Start,
            seen(true, false, true),
            seen(true, true, true),
            at(shadow),
            at(shadow),
            Event::Done,
            Event::Done,
        ],
    )
    .1;
    assert_eq!(added[3], rename("x.txt", shadow));
    assert_eq!(removed[4], remove("x.txt"));
    assert_eq!(removed[5], rename(shadow, "x.txt"));
}

#[test]
fn remove_needs_a_regular_shadow_file() {
    let session = begin(Commands::Rm { files: files(&["x.txt"]) });
    let (_, steps) = run(session, vec![Event::Start, seen(true, false, false)]);
    assert_eq!(
        steps[1],
        Step::Fail(Error::NotTracked("/home/u/.config/shdw/dir/proj/x.txt".to_string()))
    );
}

#[test]
fn remove_refuses_a_link_that_leads_elsewhere() {
    let session = begin(Commands::Rm { files: files(&["x.txt"]) });
    let shadow = "/home/u/.config/shdw/dir/proj/x.txt";
    let (session, steps) = run(
        session,
        vec![
            Event::Start,
            seen(true, false, true),
            seen(true, true, true),
            at("/home/u/unrelated/x.txt"),
            at(shadow),
        ],
    );
    assert_eq!(
        steps[4],
        Step::Fail(Error::LinkMismatch { link: "x.txt".to_string(), shadow: shadow.to_string() })
    );
    assert!(steps.iter().all(|s| !changes_files(s)));
    assert_eq!(session.phase(), Phase::Finished);
}

#[test]
fn remove_refuses_what_is_not_a_link() {
    let session = begin(Commands::Rm { files: files(&["x.txt"]) });
    let shadow = "/home/u/.config/shdw/dir/proj/x.txt";
    let (_, steps) =
        run(session, vec![Event::Start, seen(true, false, true), seen(true, false, true)]);
    assert_eq!(
        steps[2],
        Step::Fail(Error::LinkMismatch { link: "x.txt".to_string(), shadow: shadow.to_string() })
    );
    assert!(steps.iter().all(|s| !changes_files(s)));
}

#[test]
fn list_of_a_missing_shadow_root_prints_nothing() {
    let (session, steps) = run(begin(Commands::Ls {}), vec![Event::Start, seen(false, false, false)]);
    assert_eq!(steps, vec![probe(ROOT), Step::Succeed]);
    assert_eq!(session.phase(), Phase::Finished);
}

#[test]
fn list_of_an_empty_shadow_root_prints_nothing() {
    let (_, steps) =
        run(begin(Commands::Ls {}), vec![Event::Start, seen(true, false, false), Event::EndOfWalk]);
    assert_eq!(steps, vec![probe(ROOT), Step::Perform(Action::Walk(ROOT.to_string())), Step::Succeed]);
}

#[test]
fn list_prints_regular_files_relative_to_the_root() {
    let (_, steps) = run(
        begin(Commands::Ls {}),
        vec![
            Event::Start,
            seen(true, false, false),
            entry(ROOT, false),
            entry("/home/u/.config/shdw/dir/proj/sub", false),
            entry("/home/u/.config/shdw/dir/proj/sub/b", true),
            Event::Done,
            entry("/home/u/.config/shdw/dir/proj/a", true),
            Event::Done,
            Event::EndOfWalk,
        ],
    );
    assert_eq!(
        steps,
        vec![
            probe(ROOT),
            Step::Perform(Action::Walk(ROOT.to_string())),
            Step::Perform(Action::NextEntry),
            Step::Perform(Action::NextEntry),
            Step::Perform(Action::Print("sub/b".to_string())),
            Step::Perform(Action::NextEntry),
            Step::Perform(Action::Print("a".to_string())),
            Step::Perform(Action::NextEntry),
            Step::Succeed,
        ]
    );
}

#[test]
fn walk_skips_the_root_itself() {
    let (_, steps) =
        run(begin(Commands::Ls {}), vec![Event::Start, seen(true, false, true), entry(ROOT, true)]);
    assert_eq!(steps[2], Step::Perform(Action::NextEntry));
}

#[test]
fn walk_refuses_an_entry_outside_the_root() {
    let (_, steps) = run(
        begin(Commands::Ls {}),
        vec![Event::Start, seen(true, false, false), entry("/etc/passwd", true)],
    );
    assert_eq!(steps[2], Step::Fail(Error::OutsideShadow("/etc/passwd".to_string())));
}

#[test]
fn restore_creates_a_missing_link() {
    let (_, steps) = run(
        begin(Commands::Restore { force: false }),
        vec![
            Event::Start,
            seen(true, false, false),
            entry("/home/u/.config/shdw/dir/proj/a", true),
            seen(false, false, false),
            Event::Done,
            Event::EndOfWalk,
        ],
    );
    assert_eq!(
        steps,
        vec![
            probe(ROOT),
            Step::Perform(Action::Walk(ROOT.to_string())),
            probe("a"),
            symlink("../.config/shdw/dir/proj/a", "a"),
            Step::Perform(Action::NextEntry),
            Step::Succeed,
        ]
    );
}

#[test]
fn restore_creates_one_missing_directory_level() {
    let (_, steps) = run(
        begin(Commands::Restore { force: false }),
        vec![
            Event::Start,
            seen(true, false, false),
            entry("/home/u/.config/shdw/dir/proj/sub/b", true),
            seen(false, false, false),
            Event::Done,
            seen(false, false, false),
            Event::Done,
        ],
    );
    assert_eq!(steps[2], probe("sub"));
    assert_eq!(steps[3], Step::Perform(Action::CreateDir("sub".to_string())));
    assert_eq!(steps[4], probe("sub/b"));
    assert_eq!(steps[5], symlink("../../.config/shdw/dir/proj/sub/b", "sub/b"));
    assert_eq!(steps[6], Step::Perform(Action::NextEntry));
}

#[test]
fn restore_keeps_an_existing_directory() {
    let (_, steps) = run(
        begin(Commands::Restore { force: false }),
        vec![
            Event::Start,
            seen(true, false, false),
            entry("/home/u/.config/shdw/dir/proj/sub/b", true),
            seen(true, false, false),
        ],
    );
    assert_eq!(steps[3], probe("sub/b"));
}

#[test]
fn restore_leaves_a_correct_link_alone() {
    let shadow = "/home/u/.config/shdw/dir/proj/a";
    let (_, steps) = run(
        begin(Commands::Restore { force: false }),
        vec![
            Event::Start,
            seen(true, false, false),
            entry(shadow, true),
            seen(true, true, true),
            at(shadow),
            Event::EndOfWalk,
        ],
    );
    assert_eq!(
        steps,
        vec![
            probe(ROOT),
            Step::Perform(Action::Walk(ROOT.to_string())),
            probe("a"),
            locate("a"),
            Step::Perform(Action::NextEntry),
            Step::Succeed,
        ]
    );
    assert!(steps.iter().all(|s| !changes_files(s)));
}

#[test]
fn restore_twice_changes_nothing_the_second_time() {
    let first = "/home/u/.config/shdw/dir/proj/a";
    let second = "/home/u/.config/shdw/dir/proj/sub/b";
    let (_, steps) = run(
        begin(Commands::Restore { force: true }),
        vec![
            Event::Start,
            seen(true, false, false),
            entry(first, true),
            seen(true, true, true),
            at(first),
            entry(second, true),
            seen(true, false, false),
            seen(true, true, true),
            at(second),
            Event::EndOfWalk,
        ],
    );
    assert_eq!(steps.last(), Some(&Step::Succeed));
    assert!(steps.iter().all(|s| !changes_files(s)));
}

#[test]
fn restore_stops_at_a_conflict_without_force() {
    let (session, steps) = run(
        begin(Commands::Restore { force: false }),
        vec![
            Event::Start,
            seen(true, false, false),
            entry("/home/u/.config/shdw/dir/proj/a", true),
            seen(false, false, false),
            Event::Done,
            entry("/home/u/.config/shdw/dir/proj/b", true),
            seen(true, false, true),
        ],
    );
    assert_eq!(steps[3], symlink("../.config/shdw/dir/proj/a", "a"));
    assert_eq!(steps[5], probe("b"));
    assert_eq!(steps[6], Step::Fail(Error::LinkConflict("b".to_string())));
    assert_eq!(session.phase(), Phase::Finished);
}

#[test]
fn restore_stops_at_a_link_that_leads_elsewhere_without_force() {
    let (_, steps) = run(
        begin(Commands::Restore { force: false }),
        vec![
            Event::Start,
            seen(true, false, false),
            entry("/home/u/.config/shdw/dir/proj/a", true),
            seen(true, true, true),
            at("/home/u/elsewhere/a"),
        ],
    );
    assert_eq!(steps[4], Step::Fail(Error::LinkConflict("a".to_string())));
    assert!(steps.iter().all(|s| !changes_files(s)));
}

#[test]
fn restore_overwrites_a_conflict_with_force() {
    let (_, steps) = run(
        begin(Commands::Restore { force: true }),
        vec![
            Event::Start,
            seen(true, false, false),
            entry("/home/u/.config/shdw/dir/proj/b", true),
            seen(true, false, true),
            Event::Done,
            Event::Done,
            Event::EndOfWalk,
        ],
    );
    assert_eq!(steps[3], remove("b"));
    assert_eq!(steps[4], symlink("../.config/shdw/dir/proj/b", "b"));
    assert_eq!(steps[5], Step::Perform(Action::NextEntry));
    assert_eq!(steps[6], Step::Succeed);
}

#[test]
fn restore_of_a_missing_shadow_root_does_nothing() {
    let (_, steps) = run(
        begin(Commands::Restore { force: true }),
        vec![Event::Start, seen(false, false, false)],
    );
    assert_eq!(steps, vec![probe(ROOT), Step::Succeed]);
}

#[test]
fn restore_stops_when_the_walk_fails() {
    let (_, steps) = run(
        begin(Commands::Restore { force: false }),
        vec![Event::Start, seen(true, false, false), Event::Failed(Failure::Other)],
    );
    assert_eq!(steps[2], Step::Fail(Error::Io(Action::Walk(ROOT.to_string()))));
}

#[test]
fn clean_without_restore_only_cleans() {
    let command = Commands::GitClean { no_shdw: true, git_options: files(&["-fd"]) };
    let (_, steps) = run(begin(command), vec![Event::Start, Event::Done]);
    assert_eq!(steps, vec![Step::Perform(Action::Clean), Step::Succeed]);
}

#[test]
fn clean_stops_when_the_command_fails() {
    let command = Commands::GitClean { no_shdw: false, git_options: files(&[]) };
    let (_, steps) = run(begin(command), vec![Event::Start, Event::Failed(Failure::Other)]);
    assert_eq!(steps[1], Step::Fail(Error::Io(Action::Clean)));
}

#[test]
fn clean_with_an_empty_shadow_tree_restores_nothing() {
    let command = Commands::GitClean { no_shdw: false, git_options: files(&[]) };
    let (_, steps) = run(
        begin(command),
        vec![Event::Start, Event::Done, seen(true, false, false), entry(ROOT, false), Event::EndOfWalk],
    );
    assert_eq!(steps[4], Step::Succeed);
}

#[test]
fn clean_restores_without_force_when_the_shadow_tree_holds_a_file() {
    let command = Commands::GitClean { no_shdw: false, git_options: files(&[]) };
    let shadow = "/home/u/.config/shdw/dir/proj/a";
    let (_, steps) = run(
        begin(command),
        vec![
            Event::Start,
            Event::Done,
            seen(true, false, false),
            entry(shadow, true),
            Event::EndOfWalk,
            Event::Done,
            seen(true, false, false),
            entry(shadow, true),
            seen(true, false, true),
        ],
    );
    assert_eq!(steps[2], Step::Perform(Action::Walk(ROOT.to_string())));
    assert_eq!(steps[3], Step::Perform(Action::NextEntry));
    assert_eq!(
        steps[4],
        Step::Perform(Action::Warn(
            "Restoring shdw files. Use --no-shdw (as the first argument) to skip this.".to_string()
        ))
    );
    assert_eq!(steps[5], probe(ROOT));
    assert_eq!(steps[7], probe("a"));
    assert_eq!(steps[8], Step::Fail(Error::LinkConflict("a".to_string())));
}

#[test]
fn unexpected_event_ends_the_operation() {
    let (session, steps) = run(begin(Commands::Ls {}), vec![Event::Start, Event::Done]);
    assert_eq!(steps[1], Step::Fail(Error::Unexpected));
    assert_eq!(session.phase(), Phase::Finished);
    let (_, step) = session.step(Event::Start);
    assert_eq!(step, Step::Fail(Error::Unexpected));
}

#[test]
fn pending_repeats_the_action_asked_for() {
    let session = begin(Commands::Add { files: files(&["x"]) });
    let (session, step) = session.step(Event::Start);
    assert_eq!(step, probe("x"));
    assert_eq!(session.pending(), Some(Action::Probe("x".to_string())));
    assert_eq!(session.phase(), Phase::AddProbe);
}

#[test]
fn descriptions_name_the_path() {
    let x = || "x.txt".to_string();
    let s = || "/s/x.txt".to_string();
    assert_eq!(describe(&Error::NotFound(x())), "x.txt does not exist");
    assert_eq!(describe(&Error::AlreadyLinked(x())), "x.txt is already a symlink");
    assert_eq!(describe(&Error::NotTracked(s())), "`/s/x.txt` is not a file");
    assert_eq!(
        describe(&Error::LinkMismatch { link: x(), shadow: s() }),
        "Not removing `x.txt` because it's not a symlink pointing to file `/s/x.txt`"
    );
    assert_eq!(describe(&Error::LinkConflict(x())), "File exists: `x.txt`");
    assert_eq!(
        describe(&Error::CrossFilesystem { from: x(), to: s() }),
        "Renaming x.txt to /s/x.txt would cross filesystems"
    );
    assert_eq!(
        describe(&Error::OutsideShadow(x())),
        "`x.txt` is not under the shadow directory"
    );
    assert_eq!(
        describe(&Error::OutsideBase { dir: "/tmp".to_string(), base: "/home/u".to_string() }),
        "/tmp is not under the base directory /home/u"
    );
    assert_eq!(describe(&Error::NoParent("/".to_string())), "/ has no parent directory");
    assert_eq!(describe(&Error::Unexpected), "Unexpected answer from the filesystem");
    assert_eq!(describe(&Error::Io(Action::CreateDirAll(s()))), "Creating directory /s/x.txt");
    assert_eq!(describe_task(&Action::CreateDir(x())), "Creating directory `x.txt`");
    assert_eq!(describe_task(&Action::Probe(x())), "Examining x.txt");
    assert_eq!(describe_task(&Action::Canonicalize(x())), "Canonicalizing x.txt");
    assert_eq!(describe_task(&Action::Walk(s())), "Walking /s/x.txt");
    assert_eq!(describe_task(&Action::NextEntry), "Walking the shadow directory");
    assert_eq!(
        describe_task(&Action::Rename { from: x(), to: s() }),
        "Renaming x.txt to /s/x.txt"
    );
    assert_eq!(
        describe_task(&Action::Symlink { target: s(), link: x() }),
        "Creating link `x.txt`"
    );
    assert_eq!(describe_task(&Action::RemoveFile(x())), "Removing `x.txt`");
    assert_eq!(describe_task(&Action::Print(x())), "Writing to standard output");
    assert_eq!(describe_task(&Action::Warn(x())), "Writing to standard error");
    assert_eq!(describe_task(&Action::Clean), "Running git clean");
}

#[test]
fn restore_needs_a_directory_for_the_link() {
    let cli = Cli {
        command: Commands::Restore { force: false },
        shadow_dir: String::new(),
        base_dir: String::new(),
    };
    let session = Session::new(&cli, "").unwrap();
    let (_, steps) = run(
        session,
        vec![Event::Start, seen(true, false, false), entry("/", true), seen(false, false, false)],
    );
    assert_eq!(steps[0], probe(""));
    assert_eq!(steps[2], probe("/"));
    assert_eq!(steps[3], Step::Fail(Error::NoParent("/".to_string())));
}

#[test]
fn list_of_directories_only_prints_nothing() {
    let (_, steps) = run(
        begin(Commands::Ls {}),
        vec![
            Event::Start,
            seen(true, false, false),
            entry(ROOT, false),
            entry("/home/u/.config/shdw/dir/proj/sub", false),
            Event::EndOfWalk,
        ],
    );
    assert_eq!(
        steps,
        vec![
            probe(ROOT),
            Step::Perform(Action::Walk(ROOT.to_string())),
            Step::Perform(Action::NextEntry),
            Step::Perform(Action::NextEntry),
            Step::Succeed,
        ]
    );
}

#[test]
fn restore_treats_a_link_that_leads_nowhere_as_a_conflict() {
    let events = || {
        vec![
            Event::Start,
            seen(true, false, false),
            entry("/home/u/.config/shdw/dir/proj/a", true),
            seen(false, true, false),
        ]
    };
    let (_, steps) = run(begin(Commands::Restore { force: false }), events());
    assert_eq!(steps[3], Step::Fail(Error::LinkConflict("a".to_string())));
    let (_, steps) = run(begin(Commands::Restore { force: true }), events());
    assert_eq!(steps[3], remove("a"));
}
