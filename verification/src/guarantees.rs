//! What holds of every operation, whatever the filesystem answers.
use crate::path::{
    is_absolute, is_resolved, join, normalize, parent, parse, relative, render, resolve,
    strip_prefix, Part,
};
use crate::protocol::{leaves_files, Action, Error, Event, Failure, Step};
use crate::round_trip::{
    lemma_join_well_formed, lemma_parent_resolved, lemma_parse_render, lemma_parse_well_formed,
    lemma_relative_round_trip, lemma_relative_well_formed, well_formed,
};
use crate::rules::{absolute, shadow_root, Job, Move, Phase, State};
use vstd::prelude::*;

verus! {

/// What a state asks for, event by event: the state after all the events,
/// and the steps in the order in which they were given.
pub open spec fn run(s: State, events: Seq<Event<Seq<char>>>) -> (State, Seq<Step<Seq<char>>>)
    decreases events.len(),
{
    if events.len() == 0 {
        (s, Seq::empty())
    } else {
        let (before, steps) = run(s, events.drop_last());
        let (after, step) = before.step(events.last());
        (after, steps.push(step))
    }
}

/// The run of one more event is the run so far and then one step.
pub proof fn lemma_run_push(s: State, events: Seq<Event<Seq<char>>>, event: Event<Seq<char>>)
    ensures
        run(s, events.push(event)).0 == run(s, events).0.step(event).0,
        run(s, events.push(event)).1 == run(s, events).1.push(run(s, events).0.step(event).1),
{
    assert(events.push(event).drop_last() =~= events);
}

/// The run of no event is nothing.
pub proof fn lemma_run_none(s: State)
    ensures
        run(s, Seq::empty()) == (s, Seq::<Step<Seq<char>>>::empty()),
{
}

/// The first two steps of a run.
pub proof fn lemma_run_two(s: State, first: Event<Seq<char>>, second: Event<Seq<char>>)
    ensures
        run(s, seq![first, second]).0 == s.step(first).0.step(second).0,
        run(s, seq![first, second]).1 == seq![s.step(first).1, s.step(first).0.step(second).1],
{
    let none = Seq::<Event<Seq<char>>>::empty();
    lemma_run_none(s);
    lemma_run_push(s, none, first);
    lemma_run_push(s, none.push(first), second);
    assert(none.push(first).push(second) =~= seq![first, second]);
    assert(Seq::<Step<Seq<char>>>::empty().push(s.step(first).1).push(
        s.step(first).0.step(second).1,
    ) =~= seq![s.step(first).1, s.step(first).0.step(second).1]);
}

/// Whether the phase belongs to a walk that only lists.
pub open spec fn is_walk_phase(phase: Phase) -> bool {
    phase == Phase::ProbeRoot || phase == Phase::WalkOpen || phase == Phase::WalkNext || phase
        == Phase::ListPrint
}

/// Whether the event says that nothing stands at the path, not even a link
/// that leads nowhere.
pub open spec fn says_absent(event: Event<Seq<char>>) -> bool {
    event matches Event::Probed { exists, is_symlink, .. } && !exists && !is_symlink
}

/// Whether the event says that something is at the path.
pub open spec fn says_present(event: Event<Seq<char>>) -> bool {
    event matches Event::Probed { exists, .. } && exists
}

/// Whether the event says that a symbolic link is at the path and leads
/// somewhere.
pub open spec fn says_link(event: Event<Seq<char>>) -> bool {
    event matches Event::Probed { exists, is_symlink, .. } && exists && is_symlink
}

/// Whether the event says that something stands at the path that cannot be
/// the right link: something other than a symbolic link, or a link that
/// leads nowhere.
pub open spec fn says_other(event: Event<Seq<char>>) -> bool {
    event matches Event::Probed { exists, is_symlink, .. } && exists != is_symlink
}

/// Whether the event says that a symbolic link to a regular file is at the
/// path.
pub open spec fn says_link_to_file(event: Event<Seq<char>>) -> bool {
    event matches Event::Probed { is_symlink, is_file, .. } && is_symlink && is_file
}

/// Whether the event gives a location that reads as `place`.
pub open spec fn leads_to(event: Event<Seq<char>>, place: Seq<Part>) -> bool {
    event matches Event::Location(text) && parse(text) == place
}

/// Whether the event gives a location that reads as another place than
/// `place`.
pub open spec fn leads_elsewhere(event: Event<Seq<char>>, place: Seq<Part>) -> bool {
    event matches Event::Location(text) && parse(text) != place
}

/// Whether the event is what a filesystem answers in which the link of the
/// entry at hand is in place: its directory is there, and a symbolic link
/// stands at its place and leads to the shadow file.
pub open spec fn link_in_place(s: State, event: Event<Seq<char>>) -> bool {
    match s.phase {
        Phase::RestoreProbeDir => says_present(event),
        Phase::RestoreProbeLink => says_link(event),
        Phase::RestoreLocateLink => leads_to(event, parse(s.entry)),
        _ => false,
    }
}

/// Whether the event says that what stands in the place of the link of the
/// entry at hand is not the right link.
pub open spec fn link_in_conflict(s: State, event: Event<Seq<char>>) -> bool {
    match s.phase {
        Phase::RestoreProbeLink => says_other(event),
        Phase::RestoreLocateLink => leads_elsewhere(event, parse(s.entry)),
        _ => false,
    }
}

/// Whether the move `m`, made from `s` on `event`, goes by the rules for
/// changes: it leads to a state that an operation can be in; a file is moved
/// only once its location is known; a link is created only right after the
/// move succeeded, or where the place of the link was seen to be empty or
/// was cleared; and nothing is removed unless it was seen to be what may be
/// removed.
pub open spec fn is_careful(s: State, event: Event<Seq<char>>, m: Move) -> bool {
    m matches Move::To(next) ==> {
        &&& s.well_formed() ==> next.well_formed()
        &&& next.pending() matches Some(action)
        &&& action is Rename ==> (s.phase == Phase::AddLocate && event is Location) || (s.phase
            == Phase::RemoveUnlink && event is Done)
        &&& action is Symlink ==> (s.phase == Phase::AddMove && event is Done) || (s.phase
            == Phase::RestoreClear && event is Done) || (s.phase == Phase::RestoreProbeLink
            && says_absent(event))
        &&& action is RemoveFile ==> (s.phase == Phase::RemoveLocateShadow && leads_to(
            event,
            parse(s.held),
        )) || (s.force && link_in_conflict(s, event))
    }
}

/// Add, and the beginning of every operation, go by the rules for changes.
proof fn lemma_add_is_careful(s: State, event: Event<Seq<char>>)
    ensures
        is_careful(s, event, s.advance_add(event)),
        is_careful(s, event, s.begin()),
{
}

/// Remove goes by the rules for changes.
proof fn lemma_remove_is_careful(s: State, event: Event<Seq<char>>)
    ensures
        is_careful(s, event, s.advance_remove(event)),
{
}

/// A walk goes by the rules for changes.
proof fn lemma_walk_is_careful(s: State, event: Event<Seq<char>>)
    ensures
        is_careful(s, event, s.advance_walk(event)),
{
}

/// Restore goes by the rules for changes.
proof fn lemma_restore_is_careful(s: State, event: Event<Seq<char>>)
    ensures
        is_careful(s, event, s.advance_restore(event)),
{
}

/// Clean goes by the rules for changes.
proof fn lemma_clean_is_careful(s: State, event: Event<Seq<char>>)
    ensures
        is_careful(s, event, s.advance_clean(event)),
{
}

/// Every move goes by the rules for changes.
pub proof fn lemma_advance_is_careful(s: State, event: Event<Seq<char>>)
    ensures
        is_careful(s, event, s.advance(event)),
{
    if !(event is Failed) {
        lemma_add_is_careful(s, event);
        lemma_remove_is_careful(s, event);
        lemma_walk_is_careful(s, event);
        lemma_restore_is_careful(s, event);
        lemma_clean_is_careful(s, event);
    }
}

/// Every state that a step leads to is one that an operation can be in.
pub proof fn lemma_step_keeps_well_formed(s: State, event: Event<Seq<char>>)
    requires
        s.well_formed(),
    ensures
        s.step(event).0.well_formed(),
{
    lemma_advance_is_careful(s, event);
}

/// A step either asks for the action that is pending in the state it leads
/// to, or ends the operation.
pub proof fn lemma_step_asks_for_pending(s: State, event: Event<Seq<char>>)
    ensures
        match s.step(event).1 {
            Step::Perform(action) => s.step(event).0.pending() == Some(action) && s.step(
                event,
            ).0.phase != Phase::Finished,
            Step::Succeed => s.step(event).0 == s.at(Phase::Finished),
            Step::Fail(_) => s.step(event).0 == s.at(Phase::Finished),
        },
{
}

/// Fail fast. An action that the system refused ends the operation with an
/// error, and nothing more is asked for.
pub proof fn lemma_refusal_ends(s: State, why: Failure)
    ensures
        s.step(Event::Failed(why)).0 == s.at(Phase::Finished),
        s.step(Event::Failed(why)).1 is Fail,
{
}

/// An operation that is over stays over.
pub proof fn lemma_finished_stays(s: State, event: Event<Seq<char>>)
    requires
        s.phase == Phase::Finished,
    ensures
        s.step(event) == (s, Step::<Seq<char>>::Fail(Error::Unexpected)),
{
}

/// Add rejects a path that is a symbolic link already, wherever the link
/// leads and even if it leads nowhere: the error names the path, and the
/// operation is over.
pub proof fn lemma_add_rejects_link(s: State, exists: bool, is_file: bool)
    requires
        s.phase == Phase::AddProbe,
    ensures
        s.step(Event::Probed { exists, is_symlink: true, is_file }) == (
            s.at(Phase::Finished),
            Step::<Seq<char>>::Fail(Error::AlreadyLinked(s.file())),
        ),
{
}

/// Add rejects a path at which nothing stands as missing.
pub proof fn lemma_add_rejects_missing(s: State, is_file: bool)
    requires
        s.phase == Phase::AddProbe,
    ensures
        s.step(Event::Probed { exists: false, is_symlink: false, is_file }) == (
            s.at(Phase::Finished),
            Step::<Seq<char>>::Fail(Error::NotFound(s.file())),
        ),
{
}

/// Add of a symbolic link touches nothing, wherever the link leads and even
/// if it leads nowhere: all it asks for is a look at the path.
pub proof fn lemma_add_of_link_touches_nothing(s: State, exists: bool, is_file: bool)
    requires
        s.phase == Phase::Start,
        s.job == Job::Add,
        s.files.len() > 0,
    ensures
        run(s, seq![Event::Start, Event::Probed { exists, is_symlink: true, is_file }]).1 == seq![
            Step::Perform(Action::Probe(s.files[0])),
            Step::Fail(Error::AlreadyLinked(s.files[0])),
        ],
{
    let first: Event<Seq<char>> = Event::Start;
    let second: Event<Seq<char>> = Event::Probed { exists, is_symlink: true, is_file };
    lemma_run_two(s, first, second);
    let probing = s.step(first).0;
    assert(probing.phase == Phase::AddProbe && probing.file() == s.files[0]);
}

/// A file is moved only once its location is known, and a link is created
/// only right after the move succeeded, or where the place of the link was
/// seen to be empty or was cleared.
pub proof fn lemma_order_of_changes(s: State, event: Event<Seq<char>>)
    ensures
        s.step(event).1 matches Step::Perform(Action::Rename { .. }) ==> (s.phase
            == Phase::AddLocate && event is Location) || (s.phase == Phase::RemoveUnlink
            && event is Done),
        s.step(event).1 matches Step::Perform(Action::Symlink { .. }) ==> (s.phase
            == Phase::AddMove && event is Done) || (s.phase == Phase::RestoreClear && event is Done)
            || (s.phase == Phase::RestoreProbeLink && says_absent(event)),
{
    lemma_advance_is_careful(s, event);
}

/// Nothing is removed unless it was seen to be what may be removed: by
/// Remove, a link that leads to the shadow file; by Restore, and only with
/// `force`, what stands in the place of a link without being the right
/// link.
pub proof fn lemma_removal_is_earned(s: State, event: Event<Seq<char>>)
    ensures
        s.step(event).1 matches Step::Perform(Action::RemoveFile(_)) ==> (s.phase
            == Phase::RemoveLocateShadow && leads_to(event, parse(s.held))) || (s.force
            && link_in_conflict(s, event)),
{
    lemma_advance_is_careful(s, event);
}

/// Remove refuses a path that is not a symbolic link to a regular file, and
/// a link that leads anywhere but to the shadow file: the error names both,
/// and the operation is over.
pub proof fn lemma_remove_refuses_mismatch(s: State, event: Event<Seq<char>>)
    requires
        (s.phase == Phase::RemoveProbeLink && event is Probed && !says_link_to_file(event)) || (
        s.phase == Phase::RemoveLocateShadow && leads_elsewhere(event, parse(s.held))),
    ensures
        s.step(event) == (
            s.at(Phase::Finished),
            Step::<Seq<char>>::Fail(
                Error::LinkMismatch { link: s.file(), shadow: render(s.shadow()) },
            ),
        ),
{
}

/// Until Remove has seen that the link leads to the shadow file, it only
/// looks.
pub proof fn lemma_remove_looks_first(s: State, event: Event<Seq<char>>)
    requires
        s.phase == Phase::RemoveProbeShadow || s.phase == Phase::RemoveProbeLink || s.phase
            == Phase::RemoveLocateLink,
    ensures
        leaves_files(s.step(event).1),
{
}

/// Remove moves back what Add moved: for the same path under the same
/// shadow root, the two moves go between the same two places, in opposite
/// directions.
pub proof fn lemma_remove_mirrors_add(adding: State, removing: State)
    requires
        adding.phase == Phase::AddMove,
        removing.phase == Phase::RemoveMove,
        adding.root == removing.root,
        adding.file() == removing.file(),
    ensures
        adding.pending() == Some(
            Action::Rename { from: adding.file(), to: render(adding.shadow()) },
        ),
        removing.pending() == Some(
            Action::Rename { from: render(adding.shadow()), to: adding.file() },
        ),
{
}

/// Restore is idempotent in what it decides: where the link of an entry is
/// in place, nothing is changed for that entry.
pub proof fn lemma_restore_keeps_links_in_place(s: State, event: Event<Seq<char>>)
    requires
        link_in_place(s, event),
    ensures
        leaves_files(s.step(event).1),
        s.step(event).1 is Perform,
        s.phase == Phase::RestoreLocateLink ==> s.step(event) == (
            s.at(Phase::WalkNext),
            Step::<Seq<char>>::Perform(Action::NextEntry),
        ),
{
}

/// Without `force`, Restore stops at what stands in the place of a link
/// without being the right link, and leaves it as it is.
pub proof fn lemma_restore_stops_at_conflict(s: State, event: Event<Seq<char>>)
    requires
        !s.force,
        link_in_conflict(s, event),
    ensures
        s.step(event) == (
            s.at(Phase::Finished),
            Step::<Seq<char>>::Fail(Error::LinkConflict(render(s.link()))),
        ),
{
}

/// With `force`, Restore removes what stands in the place of a link
/// without being the right link, and then creates the link.
pub proof fn lemma_restore_overwrites_conflict(s: State, event: Event<Seq<char>>)
    requires
        s.force,
        s.link_base().is_some(),
        link_in_conflict(s, event),
    ensures
        s.step(event) == (
            s.at(Phase::RestoreClear),
            Step::<Seq<char>>::Perform(Action::RemoveFile(render(s.link()))),
        ),
        s.at(Phase::RestoreClear).step(Event::Done) == (
            s.at(Phase::RestoreLink),
            Step::<Seq<char>>::Perform(s.at(Phase::RestoreLink).pending().unwrap()),
        ),
        s.at(Phase::RestoreLink).pending().unwrap() is Symlink,
{
}

/// A walk that only lists changes nothing and stays a walk.
pub proof fn lemma_list_only_looks(s: State, event: Event<Seq<char>>)
    requires
        s.job == Job::List,
        s.phase == Phase::Start || is_walk_phase(s.phase),
    ensures
        leaves_files(s.step(event).1),
        is_walk_phase(s.step(event).0.phase) || s.step(event).0.phase == Phase::Finished,
{
}

/// A shadow root that is not there lists as nothing, and that is no error.
pub proof fn lemma_list_of_missing_root(s: State, is_symlink: bool, is_file: bool)
    requires
        s.job == Job::List || s.job == Job::Restore,
        s.phase == Phase::Start,
    ensures
        run(s, seq![Event::Start, Event::Probed { exists: false, is_symlink, is_file }]).1
            == seq![Step::Perform(Action::Probe(render(s.root))), Step::Succeed],
{
    let first: Event<Seq<char>> = Event::Start;
    let second: Event<Seq<char>> = Event::Probed { exists: false, is_symlink, is_file };
    lemma_run_two(s, first, second);
    assert(s.step(first).0.phase == Phase::ProbeRoot);
}

/// A shadow root without entries lists as nothing, and that is no error.
pub proof fn lemma_list_of_empty_root(s: State, is_symlink: bool, is_file: bool)
    requires
        s.job == Job::List || s.job == Job::Restore,
        s.phase == Phase::Start,
    ensures
        run(
            s,
            seq![
                Event::Start,
                Event::Probed { exists: true, is_symlink, is_file },
                Event::EndOfWalk,
            ],
        ).1 == seq![
            Step::Perform(Action::Probe(render(s.root))),
            Step::Perform(Action::Walk(render(s.root))),
            Step::Succeed,
        ],
{
    let first: Event<Seq<char>> = Event::Start;
    let second: Event<Seq<char>> = Event::Probed { exists: true, is_symlink, is_file };
    let third: Event<Seq<char>> = Event::EndOfWalk;
    lemma_run_two(s, first, second);
    let probing = s.step(first).0;
    assert(probing.phase == Phase::ProbeRoot);
    let walking = probing.step(second).0;
    assert(walking.phase == Phase::WalkOpen);
    lemma_run_push(s, seq![first, second], third);
    assert(seq![first, second].push(third) =~= seq![first, second, third]);
    assert(seq![s.step(first).1, probing.step(second).1].push(walking.step(third).1) =~= seq![
        s.step(first).1,
        probing.step(second).1,
        walking.step(third).1,
    ]);
}

/// The link that Add creates leads to the shadow file. Where the shadow
/// root is absolute and the file was found at a resolved location, the link
/// is created at that location, and its text, read as steps and followed
/// from the directory of the link, ends at the shadow location.
pub proof fn lemma_added_link_leads_to_shadow(s: State)
    requires
        s.phase == Phase::AddLink,
        s.well_formed(),
        well_formed(s.root),
        is_absolute(s.root),
        is_resolved(parse(s.held)),
    ensures
        s.pending() matches Some(Action::Symlink { target, link }) && link == s.held && resolve(
            parent(parse(link)).unwrap(),
            parse(target),
        ) == normalize(s.shadow()),
{
    let dir = parent(parse(s.held)).unwrap();
    lemma_parent_resolved(parse(s.held));
    lemma_parse_well_formed(s.file());
    lemma_join_well_formed(s.root, parse(s.file()));
    lemma_relative_well_formed(s.shadow(), dir);
    lemma_parse_render(relative(s.shadow(), dir));
    lemma_relative_round_trip(s.shadow(), dir);
}

/// The link that Restore creates leads to the shadow file. Where the
/// shadow root is absolute and the place of the link, seen from the current
/// directory, is a resolved location, the text of the link, read as steps
/// and followed from the directory of the link, ends at the entry.
pub proof fn lemma_restored_link_leads_to_shadow(s: State)
    requires
        s.phase == Phase::RestoreLink,
        s.well_formed(),
        is_absolute(s.root),
        is_resolved(join(s.cwd, s.link())),
    ensures
        s.pending() matches Some(Action::Symlink { target, link }) && link == render(s.link())
            && resolve(s.link_base().unwrap(), parse(target)) == normalize(parse(s.entry)),
{
    assert(is_absolute(parse(s.entry))) by {
        assert(parse(s.entry).take(s.root.len() as int)[0] == parse(s.entry)[0]);
    }
    let dir = s.link_base().unwrap();
    lemma_parent_resolved(join(s.cwd, s.link()));
    lemma_parse_well_formed(s.entry);
    lemma_relative_well_formed(parse(s.entry), dir);
    lemma_parse_render(relative(parse(s.entry), dir));
    lemma_relative_round_trip(parse(s.entry), dir);
}

/// The events of a walk that reports these paths, none of them a regular
/// file.
pub open spec fn no_files(paths: Seq<Seq<char>>) -> Seq<Event<Seq<char>>> {
    Seq::new(paths.len(), |i: int| Event::Entry { path: paths[i], is_file: false })
}

/// A walk that reports no regular file asks for entry after entry and
/// nothing else.
pub proof fn lemma_walk_without_files(s: State, paths: Seq<Seq<char>>)
    requires
        s.phase == Phase::WalkOpen || s.phase == Phase::WalkNext,
    ensures
        run(s, no_files(paths)).0 == (if paths.len() == 0 {
            s
        } else {
            s.at(Phase::WalkNext)
        }),
        run(s, no_files(paths)).1 == Seq::new(
            paths.len(),
            |i: int| Step::<Seq<char>>::Perform(Action::NextEntry),
        ),
    decreases paths.len(),
{
    let steps = Seq::new(paths.len(), |i: int| Step::<Seq<char>>::Perform(Action::NextEntry));
    if paths.len() == 0 {
        assert(no_files(paths) =~= Seq::<Event<Seq<char>>>::empty());
        assert(run(s, no_files(paths)).1 =~= steps);
    } else {
        let before = paths.drop_last();
        lemma_walk_without_files(s, before);
        let last: Event<Seq<char>> = Event::Entry { path: paths.last(), is_file: false };
        assert(no_files(paths) =~= no_files(before).push(last));
        lemma_run_push(s, no_files(before), last);
        assert(run(s, no_files(paths)).1 =~= steps);
    }
}

/// A shadow tree without regular files lists as nothing, and that is no
/// error: whatever directories the walk reports, nothing is printed and
/// nothing is changed.
pub proof fn lemma_list_without_files(s: State, paths: Seq<Seq<char>>)
    requires
        s.phase == Phase::WalkOpen || s.phase == Phase::WalkNext,
    ensures
        run(s, no_files(paths).push(Event::EndOfWalk)).1 == Seq::new(
            paths.len(),
            |i: int| Step::<Seq<char>>::Perform(Action::NextEntry),
        ).push(Step::Succeed),
{
    lemma_walk_without_files(s, paths);
    lemma_run_push(s, no_files(paths), Event::EndOfWalk);
}

/// Whether the phase is one that Restore passes through where every link
/// is in place.
pub open spec fn is_looking_phase(phase: Phase) -> bool {
    phase == Phase::Start || phase == Phase::ProbeRoot || phase == Phase::WalkOpen || phase
        == Phase::WalkNext || phase == Phase::RestoreProbeDir || phase == Phase::RestoreProbeLink
        || phase == Phase::RestoreLocateLink || phase == Phase::Finished
}

/// Whether the event is what a filesystem answers in which every link is in
/// place: a walk reports what it will, and the link of every entry is found
/// in place. Once the operation is over, any event will do.
pub open spec fn answers_in_place(s: State, event: Event<Seq<char>>) -> bool {
    match s.phase {
        Phase::Start => event is Start,
        Phase::ProbeRoot => event is Probed,
        Phase::WalkOpen | Phase::WalkNext => event is Entry || event is EndOfWalk,
        Phase::Finished => true,
        _ => link_in_place(s, event),
    }
}

/// Whether every event of the run is what a filesystem answers in which
/// every link is in place.
pub open spec fn all_in_place(s: State, events: Seq<Event<Seq<char>>>) -> bool
    decreases events.len(),
{
    events.len() == 0 || (all_in_place(s, events.drop_last()) && answers_in_place(
        run(s, events.drop_last()).0,
        events.last(),
    ))
}

/// Where the links are in place, a step of Restore only looks, and leads
/// to a phase in which Restore only looks.
pub proof fn lemma_restore_in_place_step(s: State, event: Event<Seq<char>>)
    requires
        s.job == Job::Restore,
        is_looking_phase(s.phase),
        answers_in_place(s, event),
    ensures
        leaves_files(s.step(event).1),
        s.step(event).0.job == Job::Restore,
        s.step(event).0.root == s.root,
        is_looking_phase(s.step(event).0.phase),
{
}

/// Restore is idempotent. A Restore that finds the link of every entry in
/// place, as the Restore before it left them, changes nothing from its
/// first step to its last.
pub proof fn lemma_restore_again_changes_nothing(s: State, events: Seq<Event<Seq<char>>>)
    requires
        s.job == Job::Restore,
        s.phase == Phase::Start,
        all_in_place(s, events),
    ensures
        run(s, events).0.job == Job::Restore,
        run(s, events).0.root == s.root,
        is_looking_phase(run(s, events).0.phase),
        run(s, events).1.len() == events.len(),
        forall|i: int| 0 <= i < events.len() ==> leaves_files(#[trigger] run(s, events).1[i]),
    decreases events.len(),
{
    if events.len() > 0 {
        let before = events.drop_last();
        lemma_restore_again_changes_nothing(s, before);
        lemma_restore_in_place_step(run(s, before).0, events.last());
    }
}

/// Whether every entry among the events lies under the root, as the
/// entries of a walk of that root do.
pub open spec fn entries_under(root: Seq<Part>, events: Seq<Event<Seq<char>>>) -> bool {
    forall|i: int|
        0 <= i < events.len() ==> (#[trigger] events[i] matches Event::Entry { path, .. }
            ==> strip_prefix(parse(path), root).is_some())
}

/// The end of the walk is the end of the operation, and a good one.
pub proof fn lemma_end_of_walk_succeeds(s: State)
    requires
        s.phase == Phase::WalkOpen || s.phase == Phase::WalkNext,
    ensures
        s.step(Event::EndOfWalk) == (s.at(Phase::Finished), Step::<Seq<char>>::Succeed),
{
}

/// Where the links are in place and the entry, if the event is one, lies
/// under the shadow root, a step of Restore does not fail; and it succeeds
/// where the walk ends or the shadow root is not there.
pub proof fn lemma_restore_in_place_goes_on(s: State, event: Event<Seq<char>>)
    requires
        s.job == Job::Restore,
        is_looking_phase(s.phase),
        s.phase != Phase::Finished,
        answers_in_place(s, event),
        event matches Event::Entry { path, .. } ==> strip_prefix(parse(path), s.root).is_some(),
    ensures
        !(s.step(event).1 is Fail),
        event is EndOfWalk ==> s.step(event).1 == Step::<Seq<char>>::Succeed,
        s.phase == Phase::ProbeRoot && !says_present(event) ==> s.step(event).1 == Step::<
            Seq<char>,
        >::Succeed,
{
}

/// A second Restore ends in success. A Restore that finds the link of
/// every entry in place, and whose walk reports entries under the shadow
/// root, does not fail at any step; it ends in success when the walk ends,
/// or at once when the shadow root is not there.
pub proof fn lemma_restore_again_succeeds(s: State, events: Seq<Event<Seq<char>>>)
    requires
        s.job == Job::Restore,
        s.phase == Phase::Start,
        all_in_place(s, events),
        entries_under(s.root, events),
        events.len() > 0,
        run(s, events.drop_last()).0.phase != Phase::Finished,
    ensures
        !(run(s, events).1.last() is Fail),
        events.last() is EndOfWalk ==> run(s, events).1.last() == Step::<Seq<char>>::Succeed,
        run(s, events.drop_last()).0.phase == Phase::ProbeRoot && !says_present(events.last())
            ==> run(s, events).1.last() == Step::<Seq<char>>::Succeed,
{
    let before = events.drop_last();
    lemma_restore_again_changes_nothing(s, before);
    assert(events.last() == events[events.len() - 1]);
    lemma_restore_in_place_goes_on(run(s, before).0, events.last());
}

/// The shadow root is absolute: seen from an absolute current directory,
/// the shadow directory of that directory is an absolute path, whether the
/// base and shadow directories were given as absolute paths or not.
pub proof fn lemma_shadow_root_is_absolute(
    base_dir: Seq<Part>,
    shadow_dir: Seq<Part>,
    current_dir: Seq<Part>,
)
    requires
        is_absolute(current_dir),
        shadow_root(base_dir, shadow_dir, current_dir).is_some(),
    ensures
        is_absolute(shadow_root(base_dir, shadow_dir, current_dir).unwrap()),
{
    let shadow = absolute(shadow_dir, current_dir);
    assert(is_absolute(shadow)) by {
        if !is_absolute(shadow_dir) {
            assert(join(current_dir, shadow_dir)[0] == current_dir[0]);
        }
    }
    let offset = strip_prefix(current_dir, absolute(base_dir, current_dir)).unwrap();
    if !is_absolute(offset) {
        assert(join(shadow, offset)[0] == shadow[0]);
    }
}

} // verus!
