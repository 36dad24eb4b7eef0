//! What the operations achieve in a world: Remove undoes Add, and a link
//! that Restore created is one that Restore finds in place. A Restore of a
//! whole tree is played out in `restoring`.
use crate::guarantees::link_in_place;
use crate::path::{
    is_absolute, is_resolved, join, normalize, parent, parse, relative, render, resolve, Part,
};
use crate::protocol::{Action, Event, Step};
use crate::round_trip::{
    lemma_join_well_formed, lemma_normalize_absolute, lemma_normalize_resolved,
    lemma_parent_resolved, lemma_parse_render, lemma_parse_well_formed, lemma_relative_round_trip,
    lemma_relative_well_formed, lemma_well_formed_names_fit, part_fits, well_formed,
};
use crate::rules::{Job, Phase, State};
use crate::world::{play, Node, World};
use vstd::prelude::*;

verus! {

/// Whether the path is one or more plain names.
pub open spec fn is_plain(p: Seq<Part>) -> bool {
    p.len() > 0 && forall|i: int| 0 <= i < p.len() ==> #[trigger] p[i] is Normal
}

/// Plain names below a resolved and well-formed location are such a
/// location again.
pub proof fn lemma_below_resolved(base: Seq<Part>, names: Seq<Part>)
    requires
        is_resolved(base),
        well_formed(base),
        well_formed(names),
        is_plain(names),
    ensures
        join(base, names) == base + names,
        is_resolved(base + names),
        well_formed(base + names),
        normalize(base + names) == base + names,
        parent(base + names) == Some(base + names.drop_last()),
{
    let below = base + names;
    assert(names[0] is Normal);
    assert(join(base, names) == below);
    lemma_join_well_formed(base, names);
    assert forall|i: int| 1 <= i < below.len() implies #[trigger] below[i] is Normal by {
        if i >= base.len() {
            assert(below[i] == names[i - base.len()]);
        } else {
            assert(below[i] == base[i]);
        }
    }
    lemma_normalize_resolved(below);
    assert(below.last() == names[names.len() - 1]);
    assert(below.drop_last() =~= base + names.drop_last());
}

/// In any world, the text of a resolved and well-formed location names
/// that location.
pub proof fn lemma_place_of_location(w: World, at: Seq<Part>)
    requires
        is_resolved(at),
        well_formed(at),
    ensures
        parse(render(at)) == at,
        w.place(render(at)) == at,
{
    lemma_parse_render(at);
    lemma_normalize_resolved(at);
}

/// The place of the file to add: where its path leads from the current
/// directory of the world.
pub open spec fn file_place(s: State, w: World) -> Seq<Part> {
    w.place(s.files[0])
}

/// The shadow path of the file to add, as Add writes it.
pub open spec fn shadow_path(s: State) -> Seq<Part> {
    join(s.root, parse(s.files[0]))
}

/// The shadow location of the file to add: its shadow path with the steps
/// carried out.
pub open spec fn shadow_place(s: State) -> Seq<Part> {
    normalize(shadow_path(s))
}

/// Whether `s` is about to add the one file it names, in the world `w`,
/// where a regular file with the given content stands at the place of that
/// file and nothing stands at its shadow location. The current directory
/// and the shadow root are absolute, and neither the file nor its shadow
/// path is the root directory. The file may be named in any way: by names,
/// with a leading `.`, or with steps up.
pub open spec fn ready_to_add(s: State, w: World, content: Seq<u8>) -> bool {
    &&& s.phase == Phase::Start
    &&& s.job == Job::Add
    &&& s.files.len() == 1
    &&& is_absolute(w.cwd)
    &&& well_formed(w.cwd)
    &&& is_absolute(s.root)
    &&& well_formed(s.root)
    &&& parent(file_place(s, w)).is_some()
    &&& parent(shadow_path(s)).is_some()
    &&& w.holds(file_place(s, w))
    &&& w.nodes[file_place(s, w)] == Node::File(content)
    &&& !w.holds(shadow_place(s))
}

/// The directory of the shadow location, which Add makes if it is not
/// there.
pub open spec fn shadow_dir_place(s: State) -> Seq<Part> {
    normalize(parent(shadow_path(s)).unwrap())
}

/// The world with the directory of the shadow location made.
pub open spec fn with_shadow_dir(s: State, w: World) -> World {
    if w.holds(shadow_dir_place(s)) {
        w
    } else {
        World { nodes: w.nodes.insert(shadow_dir_place(s), Node::Directory), ..w }
    }
}

/// The world after the file was added: the directory of the shadow location
/// is there, the content stands at the shadow location, and a link that
/// holds the way there stands where the file was.
pub open spec fn added(s: State, w: World, content: Seq<u8>) -> World {
    let here = file_place(s, w);
    World {
        nodes: with_shadow_dir(s, w).nodes.remove(here).insert(
            shadow_place(s),
            Node::File(content),
        ).insert(here, Node::Link(render(relative(shadow_path(s), parent(here).unwrap())))),
        ..w
    }
}

/// The world after the file was added and removed again: as it was before,
/// but for the directory of the shadow location, which stays.
pub open spec fn added_and_removed(s: State, w: World) -> World {
    if shadow_dir_place(s) == shadow_place(s) {
        w
    } else {
        with_shadow_dir(s, w)
    }
}

/// One turn of play.
pub proof fn lemma_play_turn(s: State, w: World, event: Event<Seq<char>>, turns: nat)
    requires
        turns > 0,
    ensures
        play(s, w, event, turns) == match s.step(event).1 {
            Step::Perform(action) => play(
                s.step(event).0,
                w.after(action),
                w.answer(action),
                (turns - 1) as nat,
            ),
            end => (Some(end), w),
        },
{
}

/// What holds of the two places of a file that is ready to be added, in
/// every world with the same current directory.
proof fn lemma_places(s: State, w: World, content: Seq<u8>, v: World)
    requires
        ready_to_add(s, w, content),
        v.cwd == w.cwd,
    ensures
        ({
            let file = s.files[0];
            let here = file_place(s, w);
            let shadow = shadow_path(s);
            let there = shadow_place(s);
            let way = render(relative(shadow, parent(here).unwrap()));
            &&& here != there
            &&& v.place(render(parent(shadow).unwrap())) == shadow_dir_place(s)
            &&& v.place(file) == here
            &&& v.place(render(here)) == here
            &&& v.place(render(shadow)) == there
            &&& v.place(render(there)) == there
            &&& parse(render(here)) == here
            &&& parse(render(there)) == there
            &&& resolve(parent(here).unwrap(), parse(way)) == there
        }),
{
    let file = s.files[0];
    let names = parse(file);
    let here = file_place(s, w);
    let shadow = shadow_path(s);
    let there = shadow_place(s);
    lemma_parse_well_formed(file);
    // The file's place is a resolved location.
    let seen = join(w.cwd, names);
    lemma_join_well_formed(w.cwd, names);
    lemma_well_formed_names_fit(seen);
    lemma_normalize_absolute(seen);
    lemma_place_of_location(v, here);
    // So is its shadow location.
    lemma_join_well_formed(s.root, names);
    lemma_well_formed_names_fit(shadow);
    lemma_normalize_absolute(shadow);
    lemma_place_of_location(v, there);
    lemma_parse_render(shadow);
    assert(join(v.cwd, shadow) == shadow);
    // Its directory is named by its text as well.
    let above = parent(shadow).unwrap();
    assert(well_formed(above)) by {
        assert forall|i: int| 0 <= i < above.len() implies part_fits(#[trigger] above[i], i) by {
            assert(above[i] == shadow[i]);
            assert(part_fits(shadow[i], i));
        }
    }
    assert(is_absolute(above)) by {
        assert(shadow.len() >= 2);
        assert(above[0] == shadow[0]);
    }
    lemma_parse_render(above);
    assert(join(v.cwd, above) == above);
    // The way from the file's directory to the shadow path leads to the
    // shadow location.
    let dir = parent(here).unwrap();
    lemma_parent_resolved(here);
    lemma_relative_well_formed(shadow, dir);
    lemma_parse_render(relative(shadow, dir));
    lemma_relative_round_trip(shadow, dir);
}

/// Add, played out as far as the world stays as it is: the file is looked
/// at, the directories are made, and the file is found where it stands.
proof fn lemma_add_looks(s: State, w: World, content: Seq<u8>)
    requires
        ready_to_add(s, w, content),
    ensures
        play(s, w, Event::Start, 6) == play(
            State { phase: Phase::AddLocate, index: 0, ..s },
            with_shadow_dir(s, w),
            Event::Location(render(file_place(s, w))),
            3,
        ),
{
    let file = s.files[0];
    let here = file_place(s, w);
    let shadow = shadow_path(s);
    lemma_places(s, w, content, w);
    // Look at the file.
    let s1 = State { phase: Phase::AddProbe, index: 0, ..s };
    let a1: Action<Seq<char>> = Action::Probe(file);
    assert(s.step(Event::Start) == (s1, Step::Perform(a1)));
    lemma_play_turn(s, w, Event::Start, 6);
    let e1: Event<Seq<char>> = Event::Probed { exists: true, is_symlink: false, is_file: true };
    assert(w.leads(here) == here);
    assert(w.answer(a1) == e1);
    assert(w.after(a1) == w);
    // Create the directories above the shadow location.
    let s2 = s1.at(Phase::AddMakeDirs);
    let a2: Action<Seq<char>> = Action::CreateDirAll(render(parent(shadow).unwrap()));
    assert(s1.shadow() == shadow);
    assert(s1.step(e1) == (s2, Step::Perform(a2)));
    lemma_play_turn(s1, w, e1, 5);
    assert(w.answer(a2) == Event::<Seq<char>>::Done);
    let b = with_shadow_dir(s, w);
    assert(w.after(a2) == b);
    // Resolve where the file is.
    let s3 = s2.at(Phase::AddLocate);
    let a3: Action<Seq<char>> = Action::Canonicalize(file);
    assert(s2.step(Event::Done) == (s3, Step::Perform(a3)));
    lemma_play_turn(s2, b, Event::Done, 4);
    lemma_places(s, w, content, b);
    assert(b.leads(here) == here);
    assert(b.answer(a3) == Event::Location(render(here)));
    assert(b.after(a3) == b);
}

/// Add, played out from where the file was found: the file is moved and
/// the link is made.
proof fn lemma_add_changes(s: State, w: World, content: Seq<u8>)
    requires
        ready_to_add(s, w, content),
    ensures
        play(
            State { phase: Phase::AddLocate, index: 0, ..s },
            with_shadow_dir(s, w),
            Event::Location(render(file_place(s, w))),
            3,
        ) == (Some(Step::<Seq<char>>::Succeed), added(s, w, content)),
{
    let file = s.files[0];
    let here = file_place(s, w);
    let shadow = shadow_path(s);
    let there = shadow_place(s);
    let way = render(relative(shadow, parent(here).unwrap()));
    lemma_places(s, w, content, w);
    let s3 = State { phase: Phase::AddLocate, index: 0, ..s };
    let e3: Event<Seq<char>> = Event::Location(render(here));
    // Move the file.
    let s4 = State { phase: Phase::AddMove, held: render(here), ..s3 };
    let a4: Action<Seq<char>> = Action::Rename { from: file, to: render(shadow) };
    assert(s4.shadow() == shadow);
    assert(s3.step(e3) == (s4, Step::Perform(a4)));
    let b = with_shadow_dir(s, w);
    lemma_places(s, w, content, b);
    lemma_play_turn(s3, b, e3, 3);
    assert(b.answer(a4) == Event::<Seq<char>>::Done);
    let w4 = World { nodes: b.nodes.remove(here).insert(there, Node::File(content)), ..w };
    assert(b.after(a4) == w4);
    // Link to it.
    let s5 = s4.at(Phase::AddLink);
    let a5: Action<Seq<char>> = Action::Symlink { target: way, link: render(here) };
    assert(s5.shadow() == shadow);
    assert(s5.pending() == Some(a5));
    assert(s4.step(Event::Done) == (s5, Step::Perform(a5)));
    lemma_play_turn(s4, w4, Event::Done, 2);
    assert(!w4.holds(here));
    assert(w4.answer(a5) == Event::<Seq<char>>::Done);
    let w5 = added(s, w, content);
    assert(w4.after(a5) == w5);
    // No file is left to add.
    assert(s5.step(Event::Done).1 == Step::<Seq<char>>::Succeed);
    lemma_play_turn(s5, w5, Event::Done, 1);
}

/// Add, played out: the file is moved to its shadow location and a link to
/// it is put where the file was.
pub proof fn lemma_add_moves_and_links(s: State, w: World, content: Seq<u8>)
    requires
        ready_to_add(s, w, content),
    ensures
        play(s, w, Event::Start, 6) == (Some(Step::<Seq<char>>::Succeed), added(s, w, content)),
{
    lemma_add_looks(s, w, content);
    lemma_add_changes(s, w, content);
}

/// Remove, played out in the world that Add left, as far as the world
/// stays as it is: the shadow file and the link are looked at, and both are
/// found to lead to the shadow location.
proof fn lemma_remove_looks(s: State, w: World, content: Seq<u8>)
    requires
        ready_to_add(s, w, content),
    ensures
        play(State { job: Job::Remove, ..s }, added(s, w, content), Event::Start, 7) == play(
            State {
                job: Job::Remove,
                phase: Phase::RemoveLocateShadow,
                index: 0,
                held: render(shadow_place(s)),
                ..s
            },
            added(s, w, content),
            Event::Location(render(shadow_place(s))),
            3,
        ),
{
    let file = s.files[0];
    let here = file_place(s, w);
    let shadow = shadow_path(s);
    let there = shadow_place(s);
    let v = added(s, w, content);
    lemma_places(s, w, content, v);
    assert(v.leads(there) == there);
    assert(v.leads(here) == there);
    // Look at the shadow location.
    let r0 = State { job: Job::Remove, ..s };
    let r1 = State { phase: Phase::RemoveProbeShadow, index: 0, ..r0 };
    let a1: Action<Seq<char>> = Action::Probe(render(shadow));
    assert(r1.shadow() == shadow);
    assert(r0.step(Event::Start) == (r1, Step::Perform(a1)));
    lemma_play_turn(r0, v, Event::Start, 7);
    let e1: Event<Seq<char>> = Event::Probed { exists: true, is_symlink: false, is_file: true };
    assert(v.answer(a1) == e1);
    assert(v.after(a1) == v);
    // Look at the link.
    let r2 = r1.at(Phase::RemoveProbeLink);
    let a2: Action<Seq<char>> = Action::Probe(file);
    assert(r1.step(e1) == (r2, Step::Perform(a2)));
    lemma_play_turn(r1, v, e1, 6);
    let e2: Event<Seq<char>> = Event::Probed { exists: true, is_symlink: true, is_file: true };
    assert(v.answer(a2) == e2);
    assert(v.after(a2) == v);
    // Resolve where the link leads.
    let r3 = r2.at(Phase::RemoveLocateLink);
    let a3: Action<Seq<char>> = Action::Canonicalize(file);
    assert(r2.step(e2) == (r3, Step::Perform(a3)));
    lemma_play_turn(r2, v, e2, 5);
    let e3: Event<Seq<char>> = Event::Location(render(there));
    assert(v.answer(a3) == e3);
    assert(v.after(a3) == v);
    // Resolve where the shadow file is.
    let r4 = State { phase: Phase::RemoveLocateShadow, held: render(there), ..r3 };
    let a4: Action<Seq<char>> = Action::Canonicalize(render(shadow));
    assert(r4.shadow() == shadow);
    assert(r3.step(e3) == (r4, Step::Perform(a4)));
    lemma_play_turn(r3, v, e3, 4);
    assert(v.answer(a4) == e3);
    assert(v.after(a4) == v);
}

/// Remove, played out from where the link was found to lead to the shadow
/// file: the link is deleted and the file is moved back.
proof fn lemma_remove_changes(s: State, w: World, content: Seq<u8>)
    requires
        ready_to_add(s, w, content),
    ensures
        play(
            State {
                job: Job::Remove,
                phase: Phase::RemoveLocateShadow,
                index: 0,
                held: render(shadow_place(s)),
                ..s
            },
            added(s, w, content),
            Event::Location(render(shadow_place(s))),
            3,
        ) == (Some(Step::<Seq<char>>::Succeed), added_and_removed(s, w)),
{
    let file = s.files[0];
    let here = file_place(s, w);
    let shadow = shadow_path(s);
    let there = shadow_place(s);
    let v = added(s, w, content);
    lemma_places(s, w, content, v);
    let r4 = State {
        job: Job::Remove,
        phase: Phase::RemoveLocateShadow,
        index: 0,
        held: render(there),
        ..s
    };
    let e3: Event<Seq<char>> = Event::Location(render(there));
    // Delete the link.
    let r5 = r4.at(Phase::RemoveUnlink);
    let a5: Action<Seq<char>> = Action::RemoveFile(file);
    assert(r4.step(e3) == (r5, Step::Perform(a5)));
    lemma_play_turn(r4, v, e3, 3);
    assert(v.answer(a5) == Event::<Seq<char>>::Done);
    let v5 = World { nodes: v.nodes.remove(here), ..v };
    assert(v.after(a5) == v5);
    // Move the file back.
    let r6 = r5.at(Phase::RemoveMove);
    let a6: Action<Seq<char>> = Action::Rename { from: render(shadow), to: file };
    assert(r6.shadow() == shadow);
    assert(r5.step(Event::Done) == (r6, Step::Perform(a6)));
    lemma_play_turn(r5, v5, Event::Done, 2);
    assert(v5.holds(there));
    assert(v5.answer(a6) == Event::<Seq<char>>::Done);
    let v6 = World { nodes: v5.nodes.remove(there).insert(here, Node::File(content)), ..v5 };
    assert(v5.after(a6) == v6);
    assert(v6.nodes =~= added_and_removed(s, w).nodes);
    assert(v6 == added_and_removed(s, w));
    // No file is left to remove.
    assert(r6.step(Event::Done).1 == Step::<Seq<char>>::Succeed);
    lemma_play_turn(r6, v6, Event::Done, 1);
}

/// Remove, played out in the world that Add left: the link is deleted and
/// the file is moved back.
pub proof fn lemma_remove_moves_back(s: State, w: World, content: Seq<u8>)
    requires
        ready_to_add(s, w, content),
    ensures
        play(State { job: Job::Remove, ..s }, added(s, w, content), Event::Start, 7) == (
            Some(Step::<Seq<char>>::Succeed),
            added_and_removed(s, w),
        ),
{
    lemma_remove_looks(s, w, content);
    lemma_remove_changes(s, w, content);
}

/// Add then Remove is the identity. Adding a regular file and then
/// removing it again leaves the world as it was, but for the directory of
/// the shadow location, which stays if Add made it: the file stands where
/// it stood, with its content, and nothing stands at its shadow location.
/// In between, the content stands at the shadow location and a link to it
/// where the file was.
pub proof fn lemma_add_then_remove_is_identity(s: State, w: World, content: Seq<u8>)
    requires
        ready_to_add(s, w, content),
    ensures
        play(s, w, Event::Start, 6) == (Some(Step::<Seq<char>>::Succeed), added(s, w, content)),
        added(s, w, content).nodes[shadow_place(s)] == Node::File(content),
        added(s, w, content).leads(file_place(s, w)) == shadow_place(s),
        play(State { job: Job::Remove, ..s }, added(s, w, content), Event::Start, 7) == (
            Some(Step::<Seq<char>>::Succeed),
            added_and_removed(s, w),
        ),
        added_and_removed(s, w).nodes[file_place(s, w)] == Node::File(content),
        !added_and_removed(s, w).holds(shadow_place(s)),
        forall|p: Seq<Part>|
            p != shadow_dir_place(s) ==> added_and_removed(s, w).holds(p) == w.holds(p)
                && added_and_removed(s, w).nodes[p] == w.nodes[p],
        w.holds(shadow_dir_place(s)) ==> added_and_removed(s, w) == w,
{
    lemma_places(s, w, content, w);
    lemma_add_moves_and_links(s, w, content);
    lemma_remove_moves_back(s, w, content);
}

/// Whether `s` is about to create the link of the entry at hand, in the
/// world `w`, where the entry is a regular file at a resolved location
/// under the absolute shadow root and nothing stands in the place of the
/// link. The current directory is a resolved location.
pub open spec fn ready_to_link(s: State, w: World) -> bool {
    &&& s.phase == Phase::RestoreLink
    &&& s.well_formed()
    &&& w.cwd == s.cwd
    &&& is_resolved(s.cwd)
    &&& well_formed(s.cwd)
    &&& is_absolute(s.root)
    &&& is_resolved(parse(s.entry))
    &&& w.holds(parse(s.entry))
    &&& w.nodes[parse(s.entry)] is File
    &&& !w.holds(s.cwd + s.link())
}

/// Whether the world answers, for the entry at hand, that its link is in
/// place: a symbolic link stands at the place of the link and leads to the
/// shadow file.
pub open spec fn finds_link_in_place(s: State, w: World) -> bool {
    let probing = s.at(Phase::RestoreProbeLink);
    let locating = s.at(Phase::RestoreLocateLink);
    &&& link_in_place(probing, w.answer(probing.pending().unwrap()))
    &&& link_in_place(locating, w.answer(locating.pending().unwrap()))
}

/// What holds of the link of an entry under the shadow root, in every world
/// with the current directory of the session.
pub proof fn lemma_link_places(s: State, w: World)
    requires
        s.in_shadow(),
        w.cwd == s.cwd,
        is_resolved(s.cwd),
        well_formed(s.cwd),
        is_absolute(s.root),
        is_resolved(parse(s.entry)),
    ensures
        ({
            let entry = parse(s.entry);
            let at = s.cwd + s.link();
            let way = render(relative(entry, parent(at).unwrap()));
            &&& join(s.cwd, s.link()) == at
            &&& s.link_base() == parent(at)
            &&& parent(at).is_some()
            &&& w.place(render(s.link())) == at
            &&& parse(render(entry)) == entry
            &&& resolve(parent(at).unwrap(), parse(way)) == entry
        }),
{
    let entry = parse(s.entry);
    let link = s.link();
    let at = s.cwd + link;
    lemma_parse_well_formed(s.entry);
    assert(is_plain(link) && well_formed(link)) by {
        assert forall|i: int| 0 <= i < link.len() implies #[trigger] link[i] is Normal
            && part_fits(link[i], i) by {
            let j = i + s.root.len();
            assert(link[i] == entry[j]);
            assert(part_fits(entry[j], j));
        }
    }
    lemma_below_resolved(s.cwd, link);
    lemma_parse_render(link);
    lemma_parse_render(entry);
    let dir = parent(at).unwrap();
    lemma_parent_resolved(at);
    lemma_relative_well_formed(entry, dir);
    lemma_parse_render(relative(entry, dir));
    lemma_relative_round_trip(entry, dir);
    lemma_normalize_resolved(entry);
}

/// Restore finds in place what Restore created. Once the link of an entry
/// was created, the world answers that the link is there and leads to the
/// shadow file; so handling the entry again changes nothing.
pub proof fn lemma_restored_link_is_in_place(s: State, w: World)
    requires
        ready_to_link(s, w),
    ensures
        w.answer(s.pending().unwrap()) is Done,
        finds_link_in_place(s, w.after(s.pending().unwrap())),
{
    let entry = parse(s.entry);
    let at = s.cwd + s.link();
    let way = render(relative(entry, parent(at).unwrap()));
    lemma_link_places(s, w);
    let create: Action<Seq<char>> = Action::Symlink { target: way, link: render(s.link()) };
    assert(s.pending() == Some(create));
    assert(w.answer(create) is Done);
    let linked = World { nodes: w.nodes.insert(at, Node::Link(way)), ..w };
    assert(w.after(create) == linked);
    lemma_link_places(s, linked);
    assert(linked.leads(at) == entry);
    assert(linked.reaches(render(s.link())));
}

/// With `force`, Restore puts the right link in the place of what stood
/// there. Where something other than a directory or the shadow file itself
/// stands in the place of the link, removing it and creating the link leaves
/// a world that answers that the link is there and leads to the shadow file.
pub proof fn lemma_forced_link_is_in_place(s: State, w: World)
    requires
        s.phase == Phase::RestoreClear,
        w.holds(s.cwd + s.link()),
        !(w.nodes[s.cwd + s.link()] is Directory),
        parse(s.entry) != s.cwd + s.link(),
        ready_to_link(
            s.at(Phase::RestoreLink),
            World { nodes: w.nodes.remove(s.cwd + s.link()), ..w },
        ),
    ensures
        w.answer(s.pending().unwrap()) is Done,
        s.step(Event::Done) == (
            s.at(Phase::RestoreLink),
            Step::<Seq<char>>::Perform(s.at(Phase::RestoreLink).pending().unwrap()),
        ),
        finds_link_in_place(
            s,
            w.after(s.pending().unwrap()).after(s.at(Phase::RestoreLink).pending().unwrap()),
        ),
{
    let linking = s.at(Phase::RestoreLink);
    let cleared = World { nodes: w.nodes.remove(s.cwd + s.link()), ..w };
    lemma_link_places(linking, w);
    assert(w.after(s.pending().unwrap()) == cleared);
    lemma_restored_link_is_in_place(linking, cleared);
}

} // verus!
