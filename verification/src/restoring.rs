//! Restore, played out over a whole shadow tree in a world: every file gets
//! its link, in the place of what stood there if `force` is set; without
//! `force` the first conflict stops it; and a second Restore finds every
//! link in place and changes nothing.
use crate::outcomes::{
    is_plain, lemma_below_resolved, lemma_link_places, lemma_place_of_location, lemma_play_turn,
};
use crate::path::{is_resolved, parent, parse, relative, render, starts_with, Part};
use crate::protocol::{Action, Error, Event, Step};
use crate::round_trip::{
    lemma_parse_render, lemma_parse_well_formed, lemma_resolve_keeps_resolved,
    lemma_well_formed_names_fit, part_fits, well_formed,
};
use crate::rules::{Job, Phase, State};
use crate::world::{play, Node, World};
use vstd::prelude::*;

verus! {

/// What is left of a place of the shadow tree after the shadow root.
pub open spec fn link_of(s: State, e: Seq<Part>) -> Seq<Part> {
    e.skip(s.root.len() as int)
}

/// Where the link to a place of the shadow tree belongs: as far below the
/// current directory as the place is below the shadow root.
pub open spec fn link_place(s: State, e: Seq<Part>) -> Seq<Part> {
    s.cwd + link_of(s, e)
}

/// The directory of that link.
pub open spec fn link_dir(s: State, e: Seq<Part>) -> Seq<Part> {
    s.cwd + link_of(s, e).drop_last()
}

/// The text of the link that Restore creates: the way from the directory of
/// the link to the place.
pub open spec fn link_text(s: State, e: Seq<Part>) -> Seq<char> {
    render(relative(e, link_dir(s, e)))
}

/// Whether the place is a resolved location at or under the shadow root.
pub open spec fn place_fits(s: State, e: Seq<Part>) -> bool {
    is_resolved(e) && well_formed(e) && starts_with(e, s.root)
}

/// Whether a regular file stands at the place, strictly under the shadow
/// root: the files that Restore links to.
pub open spec fn is_tracked(s: State, w: World, e: Seq<Part>) -> bool {
    w.holds(e) && w.nodes[e] is File && e.len() > s.root.len()
}

/// Whether the link to the place has a directory of its own, below the
/// current directory.
pub open spec fn is_deep(s: State, e: Seq<Part>) -> bool {
    e.len() > s.root.len() + 1
}

/// Whether the directory of the link to the place is there, or is the
/// current directory itself.
pub open spec fn has_link_dir(s: State, w: World, e: Seq<Part>) -> bool {
    is_deep(s, e) ==> w.holds(link_dir(s, e)) && w.nodes[link_dir(s, e)] is Directory
}

/// Whether the directory of the link to the place is there or can be made:
/// nothing but a directory stands where it belongs.
pub open spec fn link_dir_fits(s: State, w: World, e: Seq<Part>) -> bool {
    is_deep(s, e) && w.holds(link_dir(s, e)) ==> w.nodes[link_dir(s, e)] is Directory
}

/// Whether nothing stands where the link to the place belongs.
pub open spec fn link_missing(s: State, w: World, e: Seq<Part>) -> bool {
    !w.holds(link_place(s, e))
}

/// Whether a link stands where the link to the place belongs, and leads to
/// the place.
pub open spec fn link_right(s: State, w: World, e: Seq<Part>) -> bool {
    &&& w.holds(link_place(s, e))
    &&& w.nodes[link_place(s, e)] is Link
    &&& w.leads(link_place(s, e)) == e
}

/// Whether the link to the place is in place: its directory is there, and
/// a link stands where it belongs and leads to the place.
pub open spec fn link_found(s: State, w: World, e: Seq<Part>) -> bool {
    link_right(s, w, e) && has_link_dir(s, w, e)
}

/// Whether the world holds a shadow tree as a walk of the shadow root
/// reports it. The current directory and the shadow root are resolved
/// locations, and the shadow root is a directory. The walk reports resolved
/// locations at or under the shadow root, each once. Of every file of the
/// tree: neither its link nor the directory of its link belongs where a
/// place of the tree is; its link does not belong where the directory of
/// another link does; and nothing but a directory stands where the
/// directory of its link belongs.
pub open spec fn is_shadow_tree(s: State, w: World) -> bool {
    &&& w.cwd == s.cwd
    &&& is_resolved(s.cwd)
    &&& well_formed(s.cwd)
    &&& is_resolved(s.root)
    &&& well_formed(s.root)
    &&& w.holds(s.root)
    &&& w.nodes[s.root] is Directory
    &&& forall|i: int| 0 <= i < w.order.len() ==> place_fits(s, #[trigger] w.order[i])
    &&& forall|i: int, j: int| 0 <= i < j < w.order.len() ==> w.order[i] != w.order[j]
    &&& forall|i: int, j: int|
        0 <= i < w.order.len() && 0 <= j < w.order.len() && is_tracked(
            s,
            w,
            #[trigger] w.order[i],
        ) ==> link_place(s, w.order[i]) != #[trigger] w.order[j] && link_dir(s, w.order[i])
            != w.order[j]
    &&& forall|i: int, j: int|
        0 <= i < w.order.len() && 0 <= j < w.order.len() && is_tracked(
            s,
            w,
            #[trigger] w.order[i],
        ) && is_tracked(s, w, #[trigger] w.order[j]) ==> link_place(s, w.order[i]) != link_dir(
            s,
            w.order[j],
        )
    &&& forall|i: int|
        0 <= i < w.order.len() && is_tracked(s, w, #[trigger] w.order[i]) ==> link_dir_fits(
            s,
            w,
            w.order[i],
        )
}

/// Whether something stands where the link to the place belongs that is
/// not the right link.
pub open spec fn link_blocked(s: State, w: World, e: Seq<Part>) -> bool {
    w.holds(link_place(s, e)) && !link_right(s, w, e)
}

/// Whether Restore can deal with what stands where the link to the place
/// belongs: nothing, or the right link, or, with `force`, anything but a
/// directory.
pub open spec fn link_fits(s: State, w: World, e: Seq<Part>) -> bool {
    ||| link_missing(s, w, e)
    ||| link_right(s, w, e)
    ||| s.force && !(w.nodes[link_place(s, e)] is Directory)
}

/// Whether Restore can deal with the links of the first `m` places.
pub open spec fn links_fit(s: State, w: World, m: int) -> bool {
    forall|i: int|
        0 <= i < m && is_tracked(s, w, #[trigger] w.order[i]) ==> link_fits(s, w, w.order[i])
}

/// Whether each of the first `m` places that is a file has its link in
/// place.
pub open spec fn links_found_until(s: State, w: World, m: int) -> bool {
    forall|i: int|
        0 <= i < m && is_tracked(s, w, #[trigger] w.order[i]) ==> link_found(s, w, w.order[i])
}

/// Whether every file of the tree has its link in place.
pub open spec fn links_found(s: State, w: World) -> bool {
    links_found_until(s, w, w.order.len() as int)
}

/// Whether place `m` is where a Restore without `force` stops: a file
/// stands there, and something that is not the right link stands where its
/// link belongs.
pub open spec fn stops_at(s: State, w: World, m: int) -> bool {
    &&& 0 <= m < w.order.len()
    &&& !s.force
    &&& is_tracked(s, w, w.order[m])
    &&& link_blocked(s, w, w.order[m])
}

/// The nodes with the directory of the link to the place made, if the link
/// has one and it was not there.
pub open spec fn with_dir(s: State, nodes: Map<Seq<Part>, Node>, e: Seq<Part>) -> Map<
    Seq<Part>,
    Node,
> {
    if is_deep(s, e) && !nodes.contains_key(link_dir(s, e)) {
        nodes.insert(link_dir(s, e), Node::Directory)
    } else {
        nodes
    }
}

/// The world with the directory of the link to the place made.
pub open spec fn dir_made(s: State, w: World, e: Seq<Part>) -> World {
    World { nodes: with_dir(s, w.nodes, e), ..w }
}

/// The nodes once the first `k` places of the walk are dealt with: for each
/// file among them, the directory of its link is there, and the right link
/// stands where the link belongs, in the place of whatever stood there.
pub open spec fn restored(s: State, w: World, k: int) -> Map<Seq<Part>, Node>
    decreases k,
{
    if k <= 0 {
        w.nodes
    } else if !is_tracked(s, w, w.order[k - 1]) {
        restored(s, w, k - 1)
    } else if link_right(s, w, w.order[k - 1]) {
        with_dir(s, restored(s, w, k - 1), w.order[k - 1])
    } else {
        with_dir(s, restored(s, w, k - 1), w.order[k - 1]).insert(
            link_place(s, w.order[k - 1]),
            Node::Link(link_text(s, w.order[k - 1])),
        )
    }
}

/// The world once the walk has come to place `k`, the places before it
/// being dealt with.
pub open spec fn restored_until(s: State, w: World, k: int) -> World {
    World { nodes: restored(s, w, k), seen: k + 1, ..w }
}

/// Whether the state is one of a Restore that walks the tree of `s`.
pub open spec fn is_walking(s: State, t: State) -> bool {
    &&& t.job == Job::Restore
    &&& t.force == s.force
    &&& t.root == s.root
    &&& t.cwd == s.cwd
    &&& (t.phase == Phase::WalkOpen || t.phase == Phase::WalkNext)
}

/// Links to different places under the root belong at different places.
pub proof fn lemma_link_places_differ(s: State, a: Seq<Part>, b: Seq<Part>)
    requires
        starts_with(a, s.root),
        starts_with(b, s.root),
        a != b,
    ensures
        link_place(s, a) != link_place(s, b),
{
    if link_place(s, a) == link_place(s, b) {
        let r = s.root.len() as int;
        let c = s.cwd.len() as int;
        assert(link_place(s, a).skip(c) =~= link_of(s, a));
        assert(link_place(s, b).skip(c) =~= link_of(s, b));
        assert(a =~= a.take(r) + a.skip(r));
        assert(b =~= b.take(r) + b.skip(r));
    }
}

/// A node that was there, and is not where a link was put among those of
/// the first `k` places, is still there.
pub proof fn lemma_restored_keeps(s: State, w: World, k: int, p: Seq<Part>)
    requires
        0 <= k <= w.order.len(),
        w.holds(p),
        forall|j: int|
            0 <= j < k && is_tracked(s, w, w.order[j]) && !link_right(s, w, w.order[j])
                ==> link_place(s, #[trigger] w.order[j]) != p,
    ensures
        restored(s, w, k).contains_key(p),
        restored(s, w, k)[p] == w.nodes[p],
    decreases k,
{
    if k > 0 {
        lemma_restored_keeps(s, w, k - 1, p);
        assert(is_tracked(s, w, w.order[k - 1]) && !link_right(s, w, w.order[k - 1])
            ==> link_place(s, w.order[k - 1]) != p);
    }
}

/// A place where nothing was, and where neither a link nor the directory
/// of a link among those of the first `k` places belongs, is still free.
pub proof fn lemma_restored_stays_free(s: State, w: World, k: int, p: Seq<Part>)
    requires
        0 <= k <= w.order.len(),
        !w.holds(p),
        forall|j: int|
            0 <= j < k && is_tracked(s, w, w.order[j]) ==> link_place(s, #[trigger] w.order[j])
                != p && link_dir(s, w.order[j]) != p,
    ensures
        !restored(s, w, k).contains_key(p),
        restored(s, w, k)[p] == w.nodes[p],
    decreases k,
{
    if k > 0 {
        lemma_restored_stays_free(s, w, k - 1, p);
        assert(is_tracked(s, w, w.order[k - 1]) ==> link_place(s, w.order[k - 1]) != p
            && link_dir(s, w.order[k - 1]) != p);
    }
}

/// Where a directory or nothing was and no link was put, a directory or
/// nothing is.
pub proof fn lemma_restored_dir(s: State, w: World, k: int, p: Seq<Part>)
    requires
        0 <= k <= w.order.len(),
        w.holds(p) ==> w.nodes[p] is Directory,
        forall|j: int|
            0 <= j < k && is_tracked(s, w, w.order[j]) ==> link_place(s, #[trigger] w.order[j])
                != p,
    ensures
        restored(s, w, k).contains_key(p) ==> restored(s, w, k)[p] is Directory,
    decreases k,
{
    if k > 0 {
        lemma_restored_dir(s, w, k - 1, p);
        assert(is_tracked(s, w, w.order[k - 1]) ==> link_place(s, w.order[k - 1]) != p);
    }
}

/// The directory of the link of each file among the first `k` places is
/// there.
pub proof fn lemma_restored_has_dir(s: State, w: World, k: int, j: int)
    requires
        is_shadow_tree(s, w),
        0 <= j < k <= w.order.len(),
        is_tracked(s, w, w.order[j]),
        is_deep(s, w.order[j]),
    ensures
        restored(s, w, k).contains_key(link_dir(s, w.order[j])),
        restored(s, w, k)[link_dir(s, w.order[j])] is Directory,
    decreases k,
{
    let dir = link_dir(s, w.order[j]);
    assert(link_dir_fits(s, w, w.order[j]));
    assert forall|i: int| 0 <= i < k && is_tracked(s, w, w.order[i]) implies link_place(
        s,
        #[trigger] w.order[i],
    ) != dir by {}
    lemma_restored_dir(s, w, k - 1, dir);
    lemma_restored_dir(s, w, k, dir);
    if j < k - 1 {
        lemma_restored_has_dir(s, w, k - 1, j);
    }
}

/// Each file among the first `k` places that had not the right link has
/// got it.
pub proof fn lemma_restored_links(s: State, w: World, k: int, j: int)
    requires
        is_shadow_tree(s, w),
        0 <= j < k <= w.order.len(),
        is_tracked(s, w, w.order[j]),
        !link_right(s, w, w.order[j]),
    ensures
        restored(s, w, k).contains_key(link_place(s, w.order[j])),
        restored(s, w, k)[link_place(s, w.order[j])] == Node::Link(link_text(s, w.order[j])),
    decreases k,
{
    if j < k - 1 {
        lemma_restored_links(s, w, k - 1, j);
        assert(place_fits(s, w.order[j]) && place_fits(s, w.order[k - 1]));
        lemma_link_places_differ(s, w.order[j], w.order[k - 1]);
    }
}

/// Whether the walk of the state `t` has come to place `k` of the world
/// `v`: the place is at or under the shadow root of `s`; and if a file
/// stands there, it is not the root itself, and nothing but a directory
/// stands where the directory of its link belongs.
pub open spec fn is_at_entry(s: State, t: State, v: World, k: int) -> bool {
    &&& is_walking(s, t)
    &&& v.cwd == s.cwd
    &&& is_resolved(s.cwd)
    &&& well_formed(s.cwd)
    &&& is_resolved(s.root)
    &&& well_formed(s.root)
    &&& 0 <= k < v.order.len()
    &&& v.seen == k + 1
    &&& place_fits(s, v.order[k])
    &&& v.holds(v.order[k]) && v.nodes[v.order[k]] is File ==> is_tracked(s, v, v.order[k])
    &&& is_tracked(s, v, v.order[k]) ==> link_dir_fits(s, v, v.order[k]) && link_dir(
        s,
        v.order[k],
    ) != v.order[k]
}

/// The state of the walk `t` with the place `e` at hand.
pub open spec fn taken(t: State, e: Seq<Part>) -> State {
    State { entry: render(e), ..t }
}

/// What holds of the link to a place strictly under the shadow root, in
/// every world with the current directory of the state.
pub proof fn lemma_entry_places(s: State, v: World, e: Seq<Part>)
    requires
        v.cwd == s.cwd,
        is_resolved(s.cwd),
        well_formed(s.cwd),
        is_resolved(s.root),
        place_fits(s, e),
        e.len() > s.root.len(),
    ensures
        ({
            let u = taken(s, e);
            let link = link_of(s, e);
            &&& parse(render(e)) == e
            &&& u.in_shadow()
            &&& u.link() == link
            &&& u.link_base() == Some(link_dir(s, e))
            &&& v.place(render(link)) == link_place(s, e)
            &&& parent(link_place(s, e)) == Some(link_dir(s, e))
            &&& crate::path::resolve(link_dir(s, e), parse(link_text(s, e))) == e
            &&& link.len() > 1 ==> parent(link) == Some(link.drop_last()) && link.drop_last().len()
                > 0 && v.place(render(link.drop_last())) == link_dir(s, e)
            &&& link.len() == 1 ==> parent(link) == Some(link.drop_last()) && link.drop_last().len()
                == 0
        }),
{
    let u = taken(s, e);
    let link = link_of(s, e);
    let r = s.root.len() as int;
    lemma_parse_render(e);
    assert(is_plain(link) && well_formed(link)) by {
        assert forall|i: int| 0 <= i < link.len() implies #[trigger] link[i] is Normal
            && part_fits(link[i], i) by {
            assert(link[i] == e[i + r]);
            assert(part_fits(e[i + r], i + r));
        }
    }
    lemma_link_places(u, v);
    lemma_below_resolved(s.cwd, link);
    assert(link.last() == link[link.len() - 1]);
    if link.len() > 1 {
        let names = link.drop_last();
        assert(is_plain(names) && well_formed(names)) by {
            assert forall|i: int| 0 <= i < names.len() implies #[trigger] names[i] is Normal
                && part_fits(names[i], i) by {
                assert(names[i] == link[i]);
                assert(part_fits(link[i], i));
            }
        }
        lemma_below_resolved(s.cwd, names);
        lemma_parse_render(names);
    }
}

/// A place at which no file stands is passed by.
pub proof fn lemma_passes_by(s: State, t: State, v: World, k: int, turns: nat)
    requires
        is_at_entry(s, t, v, k),
        !is_tracked(s, v, v.order[k]),
        turns >= 1,
    ensures
        play(t, v, v.entry(k), turns) == play(
            t.at(Phase::WalkNext),
            World { seen: k + 2, ..v },
            v.entry(k + 1),
            (turns - 1) as nat,
        ),
{
    let e = v.order[k];
    let event: Event<Seq<char>> = Event::Entry { path: render(e), is_file: false };
    assert(v.entry(k) == event);
    let next: Action<Seq<char>> = Action::NextEntry;
    assert(t.step(event) == (t.at(Phase::WalkNext), Step::Perform(next)));
    lemma_play_turn(t, v, event, turns);
    assert(v.answer(next) == v.entry(k + 1));
    assert(v.after(next) == World { seen: k + 2, ..v });
}

/// What the walk asks for when it comes to a file: a look at the
/// directory of the link if the link has one, else a look at the place of
/// the link.
pub proof fn lemma_takes_file(s: State, t: State, v: World, k: int)
    requires
        is_at_entry(s, t, v, k),
        is_tracked(s, v, v.order[k]),
    ensures
        ({
            let e = v.order[k];
            let link = link_of(s, e);
            let event = Event::Entry { path: render(e), is_file: true };
            &&& v.entry(k) == event
            &&& link.len() == 1 ==> t.step(event) == (
                taken(t, e).at(Phase::RestoreProbeLink),
                Step::<Seq<char>>::Perform(Action::Probe(render(link))),
            )
            &&& link.len() > 1 ==> t.step(event) == (
                taken(t, e).at(Phase::RestoreProbeDir),
                Step::<Seq<char>>::Perform(Action::Probe(render(link.drop_last()))),
            )
            &&& taken(t, e).at(Phase::RestoreProbeDir).step(
                Event::Probed { exists: true, is_symlink: false, is_file: false },
            ) == (
                taken(t, e).at(Phase::RestoreProbeLink),
                Step::<Seq<char>>::Perform(Action::Probe(render(link))),
            )
        }),
{
    let e = v.order[k];
    lemma_entry_places(t, v, e);
    assert(link_of(t, e) == link_of(s, e));
}

/// The world says that the directory of the link is there.
pub proof fn lemma_sees_link_dir(s: State, t: State, v: World, k: int)
    requires
        is_at_entry(s, t, v, k),
        is_tracked(s, v, v.order[k]),
        is_deep(s, v.order[k]),
        v.holds(link_dir(s, v.order[k])),
    ensures
        v.answer(Action::Probe(render(link_of(s, v.order[k]).drop_last()))) == (Event::<
            Seq<char>,
        >::Probed { exists: true, is_symlink: false, is_file: false }),
{
    let e = v.order[k];
    lemma_entry_places(s, v, e);
    assert(v.leads(link_dir(s, e)) == link_dir(s, e));
}

/// Where the directory of the link is not there, it is made.
pub proof fn lemma_makes_link_dir(s: State, t: State, v: World, k: int)
    requires
        is_at_entry(s, t, v, k),
        is_tracked(s, v, v.order[k]),
        is_deep(s, v.order[k]),
        !v.holds(link_dir(s, v.order[k])),
    ensures
        ({
            let e = v.order[k];
            let link = link_of(s, e);
            let u = taken(t, e);
            let make = Action::CreateDir(render(link.drop_last()));
            &&& v.answer(Action::Probe(render(link.drop_last()))) == (Event::<
                Seq<char>,
            >::Probed { exists: false, is_symlink: false, is_file: false })
            &&& u.at(Phase::RestoreProbeDir).step(
                Event::Probed { exists: false, is_symlink: false, is_file: false },
            ) == (u.at(Phase::RestoreMakeDir), Step::<Seq<char>>::Perform(make))
            &&& v.answer(make) == Event::<Seq<char>>::Done
            &&& v.after(make) == dir_made(s, v, e)
            &&& u.at(Phase::RestoreMakeDir).step(Event::Done) == (
                u.at(Phase::RestoreProbeLink),
                Step::<Seq<char>>::Perform(Action::Probe(render(link))),
            )
        }),
{
    let e = v.order[k];
    lemma_entry_places(t, v, e);
    assert(link_of(t, e) == link_of(s, e) && link_dir(t, e) == link_dir(s, e));
}

/// Making the directory of the link changes nothing at the place or where
/// its link belongs.
pub proof fn lemma_dir_made_keeps(s: State, t: State, v: World, k: int)
    requires
        is_at_entry(s, t, v, k),
        is_tracked(s, v, v.order[k]),
    ensures
        is_at_entry(s, t, dir_made(s, v, v.order[k]), k),
        is_tracked(s, dir_made(s, v, v.order[k]), v.order[k]),
        has_link_dir(s, dir_made(s, v, v.order[k]), v.order[k]),
        dir_made(s, v, v.order[k]).holds(link_place(s, v.order[k])) == v.holds(
            link_place(s, v.order[k]),
        ),
        dir_made(s, v, v.order[k]).nodes[link_place(s, v.order[k])] == v.nodes[link_place(
            s,
            v.order[k],
        )],
        link_right(s, dir_made(s, v, v.order[k]), v.order[k]) == link_right(s, v, v.order[k]),
{
    let e = v.order[k];
    lemma_entry_places(s, v, e);
    assert(link_dir(s, e).len() + 1 == link_place(s, e).len());
}

/// From the entry of a file to the look at the place of its link, past the
/// directory of the link if the link has one; the directory is made if it
/// is not there.
pub proof fn lemma_comes_to_link(s: State, t: State, v: World, k: int, turns: nat)
    requires
        is_at_entry(s, t, v, k),
        is_tracked(s, v, v.order[k]),
        turns >= 3,
    ensures
        ({
            let u = taken(t, v.order[k]).at(Phase::RestoreProbeLink);
            let made = dir_made(s, v, v.order[k]);
            let look = made.answer(Action::Probe(render(link_of(s, v.order[k]))));
            ||| play(t, v, v.entry(k), turns) == play(u, made, look, (turns - 1) as nat)
            ||| play(t, v, v.entry(k), turns) == play(u, made, look, (turns - 2) as nat)
            ||| play(t, v, v.entry(k), turns) == play(u, made, look, (turns - 3) as nat)
        }),
{
    let e = v.order[k];
    let link = link_of(s, e);
    let event: Event<Seq<char>> = Event::Entry { path: render(e), is_file: true };
    let probe_link: Action<Seq<char>> = Action::Probe(render(link));
    lemma_takes_file(s, t, v, k);
    lemma_play_turn(t, v, event, turns);
    assert(v.after(probe_link) == v);
    if link.len() > 1 {
        let u = taken(t, e);
        let probe_dir: Action<Seq<char>> = Action::Probe(render(link.drop_last()));
        assert(v.after(probe_dir) == v);
        if v.holds(link_dir(s, e)) {
            let there: Event<Seq<char>> = Event::Probed {
                exists: true,
                is_symlink: false,
                is_file: false,
            };
            lemma_sees_link_dir(s, t, v, k);
            lemma_play_turn(u.at(Phase::RestoreProbeDir), v, there, (turns - 1) as nat);
            assert(dir_made(s, v, e) == v);
        } else {
            let absent: Event<Seq<char>> = Event::Probed {
                exists: false,
                is_symlink: false,
                is_file: false,
            };
            lemma_makes_link_dir(s, t, v, k);
            lemma_play_turn(u.at(Phase::RestoreProbeDir), v, absent, (turns - 1) as nat);
            lemma_play_turn(u.at(Phase::RestoreMakeDir), dir_made(s, v, e), Event::Done, (turns
                - 2) as nat);
            assert(dir_made(s, v, e).after(probe_link) == dir_made(s, v, e));
        }
    } else {
        assert(dir_made(s, v, e) == v);
    }
}

/// Where nothing stands in the place of the link, the link is created, and
/// the walk goes on.
pub proof fn lemma_creates_link(s: State, t: State, v: World, k: int, turns: nat)
    requires
        is_at_entry(s, t, v, k),
        is_tracked(s, v, v.order[k]),
        link_missing(s, v, v.order[k]),
        turns >= 2,
    ensures
        ({
            let e = v.order[k];
            let u = taken(t, e);
            let linked = World {
                nodes: v.nodes.insert(link_place(s, e), Node::Link(link_text(s, e))),
                seen: k + 2,
                ..v
            };
            play(
                u.at(Phase::RestoreProbeLink),
                v,
                v.answer(Action::Probe(render(link_of(s, e)))),
                turns,
            ) == play(u.at(Phase::WalkNext), linked, linked.entry(k + 1), (turns - 2) as nat)
        }),
{
    let e = v.order[k];
    let link = link_of(s, e);
    let u = taken(t, e);
    lemma_entry_places(t, v, e);
    assert(link_of(t, e) == link && link_dir(t, e) == link_dir(s, e) && link_place(t, e)
        == link_place(s, e) && link_text(t, e) == link_text(s, e));
    let probe_link: Action<Seq<char>> = Action::Probe(render(link));
    let nothing: Event<Seq<char>> = Event::Probed {
        exists: false,
        is_symlink: false,
        is_file: false,
    };
    assert(v.answer(probe_link) == nothing);
    // Create the link.
    let probing = u.at(Phase::RestoreProbeLink);
    let linking = u.at(Phase::RestoreLink);
    let create: Action<Seq<char>> = Action::Symlink {
        target: link_text(s, e),
        link: render(link),
    };
    assert(linking.pending() == Some(create));
    assert(probing.step(nothing) == (linking, Step::Perform(create)));
    lemma_play_turn(probing, v, nothing, turns);
    assert(v.answer(create) == Event::<Seq<char>>::Done);
    let made = World {
        nodes: v.nodes.insert(link_place(s, e), Node::Link(link_text(s, e))),
        ..v
    };
    assert(v.after(create) == made);
    // Go on.
    let next: Action<Seq<char>> = Action::NextEntry;
    assert(linking.step(Event::Done) == (u.at(Phase::WalkNext), Step::Perform(next)));
    lemma_play_turn(linking, made, Event::Done, (turns - 1) as nat);
    let linked = World { seen: k + 2, ..made };
    assert(made.after(next) == linked);
    assert(made.answer(next) == linked.entry(k + 1));
}

/// Where the link is in place, it is left alone, and the walk goes on.
pub proof fn lemma_finds_link(s: State, t: State, v: World, k: int, turns: nat)
    requires
        is_at_entry(s, t, v, k),
        is_tracked(s, v, v.order[k]),
        link_right(s, v, v.order[k]),
        turns >= 2,
    ensures
        ({
            let e = v.order[k];
            let u = taken(t, e);
            play(
                u.at(Phase::RestoreProbeLink),
                v,
                v.answer(Action::Probe(render(link_of(s, e)))),
                turns,
            ) == play(
                u.at(Phase::WalkNext),
                World { seen: k + 2, ..v },
                v.entry(k + 1),
                (turns - 2) as nat,
            )
        }),
{
    let e = v.order[k];
    let link = link_of(s, e);
    let u = taken(t, e);
    lemma_entry_places(t, v, e);
    assert(link_of(t, e) == link && link_place(t, e) == link_place(s, e));
    let probe_link: Action<Seq<char>> = Action::Probe(render(link));
    let found: Event<Seq<char>> = Event::Probed { exists: true, is_symlink: true, is_file: true };
    assert(v.answer(probe_link) == found);
    // Ask where the link leads.
    let probing = u.at(Phase::RestoreProbeLink);
    let locating = u.at(Phase::RestoreLocateLink);
    let locate: Action<Seq<char>> = Action::Canonicalize(render(link));
    assert(probing.step(found) == (locating, Step::Perform(locate)));
    lemma_play_turn(probing, v, found, turns);
    let place: Event<Seq<char>> = Event::Location(render(e));
    assert(v.answer(locate) == place);
    assert(v.after(locate) == v);
    // It leads to the file: go on.
    let next: Action<Seq<char>> = Action::NextEntry;
    assert(locating.step(place) == (u.at(Phase::WalkNext), Step::Perform(next)));
    lemma_play_turn(locating, v, place, (turns - 1) as nat);
    assert(v.after(next) == World { seen: k + 2, ..v });
    assert(v.answer(next) == v.entry(k + 1));
}

/// Where something that is not the right link stands in the place of the
/// link, Restore comes to judge it a conflict: at once, or after asking
/// where the link that stands there leads. The world stays as it is.
pub proof fn lemma_judges_conflict(s: State, t: State, v: World, k: int, turns: nat)
    requires
        is_at_entry(s, t, v, k),
        is_tracked(s, v, v.order[k]),
        link_blocked(s, v, v.order[k]),
        turns >= 2,
    ensures
        ({
            let e = v.order[k];
            let u = taken(t, e);
            let look = v.answer(Action::Probe(render(link_of(s, e))));
            let verdict = u.at(Phase::RestoreProbeLink).settle(crate::link::LinkState::Conflict);
            let place = Event::Location(render(v.leads(link_place(s, e))));
            ||| u.at(Phase::RestoreProbeLink).advance(look) == verdict
            ||| (u.at(Phase::RestoreLocateLink).advance(place) == verdict && play(
                u.at(Phase::RestoreProbeLink),
                v,
                look,
                turns,
            ) == play(u.at(Phase::RestoreLocateLink), v, place, (turns - 1) as nat))
        }),
{
    let e = v.order[k];
    let link = link_of(s, e);
    let at = link_place(s, e);
    let u = taken(t, e);
    lemma_entry_places(t, v, e);
    assert(link_of(t, e) == link && link_place(t, e) == at && link_dir(t, e) == link_dir(s, e));
    let probing = u.at(Phase::RestoreProbeLink);
    let look = v.answer(Action::Probe(render(link)));
    if v.nodes[at] is Link && v.holds(v.leads(at)) {
        // A link that leads somewhere, but not to the file.
        let end = v.leads(at);
        lemma_leads_to_location(s, v, e);
        lemma_parse_render(end);
        let locating = u.at(Phase::RestoreLocateLink);
        let locate: Action<Seq<char>> = Action::Canonicalize(render(link));
        assert(probing.step(look) == (locating, Step::Perform(locate)));
        lemma_play_turn(probing, v, look, turns);
        assert(v.after(locate) == v);
        assert(v.answer(locate) == Event::Location(render(end)));
    } else if !(v.nodes[at] is Link) {
        assert(v.leads(at) == at);
    }
}

/// Where a link leads is a resolved location.
pub proof fn lemma_leads_to_location(s: State, v: World, e: Seq<Part>)
    requires
        v.cwd == s.cwd,
        is_resolved(s.cwd),
        well_formed(s.cwd),
        is_resolved(s.root),
        place_fits(s, e),
        e.len() > s.root.len(),
        v.nodes[link_place(s, e)] is Link,
    ensures
        is_resolved(v.leads(link_place(s, e))),
        well_formed(v.leads(link_place(s, e))),
{
    lemma_entry_places(s, v, e);
    let link = link_of(s, e);
    let dir = link_dir(s, e);
    if link.len() > 1 {
        let names = link.drop_last();
        assert(is_plain(names) && well_formed(names)) by {
            assert forall|i: int| 0 <= i < names.len() implies #[trigger] names[i] is Normal
                && part_fits(names[i], i) by {
                assert(names[i] == e[i + s.root.len()]);
                assert(part_fits(e[i + s.root.len()], i + s.root.len()));
            }
        }
        lemma_below_resolved(s.cwd, names);
    } else {
        assert(dir =~= s.cwd);
    }
    let text = v.nodes[link_place(s, e)]->Link_0;
    lemma_parse_well_formed(text);
    lemma_well_formed_names_fit(parse(text));
    lemma_resolve_keeps_resolved(dir, parse(text));
}

/// Without `force`, Restore stops at what stands in the place of a link
/// without being the right link, and leaves the world as it is.
pub proof fn lemma_stops_at_conflict(s: State, t: State, v: World, k: int, turns: nat)
    requires
        is_at_entry(s, t, v, k),
        is_tracked(s, v, v.order[k]),
        link_blocked(s, v, v.order[k]),
        !s.force,
        turns >= 2,
    ensures
        play(
            taken(t, v.order[k]).at(Phase::RestoreProbeLink),
            v,
            v.answer(Action::Probe(render(link_of(s, v.order[k])))),
            turns,
        ) == (
            Some(Step::<Seq<char>>::Fail(Error::LinkConflict(render(link_of(s, v.order[k]))))),
            v,
        ),
{
    let e = v.order[k];
    let u = taken(t, e);
    let probing = u.at(Phase::RestoreProbeLink);
    let look = v.answer(Action::Probe(render(link_of(s, e))));
    lemma_entry_places(t, v, e);
    assert(link_of(t, e) == link_of(s, e));
    lemma_judges_conflict(s, t, v, k, turns);
    if probing.advance(look) == probing.settle(crate::link::LinkState::Conflict) {
        lemma_play_turn(probing, v, look, turns);
    } else {
        let place: Event<Seq<char>> = Event::Location(render(v.leads(link_place(s, e))));
        lemma_play_turn(u.at(Phase::RestoreLocateLink), v, place, (turns - 1) as nat);
    }
}

/// Once what stood in the place of the link is removed, the link is
/// created, and the walk goes on.
pub proof fn lemma_links_after_clearing(s: State, t: State, v: World, k: int, turns: nat)
    requires
        is_at_entry(s, t, v, k),
        is_tracked(s, v, v.order[k]),
        v.holds(link_place(s, v.order[k])),
        !(v.nodes[link_place(s, v.order[k])] is Directory),
        turns >= 3,
    ensures
        ({
            let e = v.order[k];
            let u = taken(t, e);
            let linked = World {
                nodes: v.nodes.insert(link_place(s, e), Node::Link(link_text(s, e))),
                seen: k + 2,
                ..v
            };
            play(
                u.at(Phase::RestoreClear),
                World { nodes: v.nodes.remove(link_place(s, e)), ..v },
                Event::Done,
                (turns - 1) as nat,
            ) == play(u.at(Phase::WalkNext), linked, linked.entry(k + 1), (turns - 3) as nat)
        }),
{
    let e = v.order[k];
    let link = link_of(s, e);
    let at = link_place(s, e);
    let u = taken(t, e);
    let cleared = World { nodes: v.nodes.remove(at), ..v };
    lemma_entry_places(t, cleared, e);
    assert(link_of(t, e) == link && link_dir(t, e) == link_dir(s, e) && link_place(t, e) == at
        && link_text(t, e) == link_text(s, e));
    let clearing = u.at(Phase::RestoreClear);
    let linking = u.at(Phase::RestoreLink);
    let create: Action<Seq<char>> = Action::Symlink {
        target: link_text(s, e),
        link: render(link),
    };
    assert(linking.pending() == Some(create));
    assert(clearing.step(Event::Done) == (linking, Step::Perform(create)));
    lemma_play_turn(clearing, cleared, Event::Done, (turns - 1) as nat);
    assert(cleared.answer(create) == Event::<Seq<char>>::Done);
    let made = World { nodes: cleared.nodes.insert(at, Node::Link(link_text(s, e))), ..v };
    assert(cleared.after(create) == made);
    assert(made.nodes =~= v.nodes.insert(at, Node::Link(link_text(s, e))));
    let next: Action<Seq<char>> = Action::NextEntry;
    assert(linking.step(Event::Done) == (u.at(Phase::WalkNext), Step::Perform(next)));
    lemma_play_turn(linking, made, Event::Done, (turns - 2) as nat);
    let linked = World { seen: k + 2, ..made };
    assert(made.after(next) == linked);
    assert(made.answer(next) == linked.entry(k + 1));
}

/// With `force`, Restore removes what stands in the place of a link
/// without being the right link, creates the link, and goes on.
pub proof fn lemma_replaces_conflict(s: State, t: State, v: World, k: int, turns: nat)
    requires
        is_at_entry(s, t, v, k),
        is_tracked(s, v, v.order[k]),
        link_blocked(s, v, v.order[k]),
        !(v.nodes[link_place(s, v.order[k])] is Directory),
        s.force,
        turns >= 4,
    ensures
        ({
            let e = v.order[k];
            let u = taken(t, e);
            let look = v.answer(Action::Probe(render(link_of(s, e))));
            let linked = World {
                nodes: v.nodes.insert(link_place(s, e), Node::Link(link_text(s, e))),
                seen: k + 2,
                ..v
            };
            ||| play(u.at(Phase::RestoreProbeLink), v, look, turns) == play(
                u.at(Phase::WalkNext),
                linked,
                linked.entry(k + 1),
                (turns - 3) as nat,
            )
            ||| play(u.at(Phase::RestoreProbeLink), v, look, turns) == play(
                u.at(Phase::WalkNext),
                linked,
                linked.entry(k + 1),
                (turns - 4) as nat,
            )
        }),
{
    let e = v.order[k];
    let link = link_of(s, e);
    let at = link_place(s, e);
    let u = taken(t, e);
    let probing = u.at(Phase::RestoreProbeLink);
    let clearing = u.at(Phase::RestoreClear);
    let look = v.answer(Action::Probe(render(link)));
    let remove: Action<Seq<char>> = Action::RemoveFile(render(link));
    let cleared = World { nodes: v.nodes.remove(at), ..v };
    lemma_entry_places(t, v, e);
    assert(link_of(t, e) == link && link_place(t, e) == at);
    assert(clearing.pending() == Some(remove));
    assert(v.answer(remove) == Event::<Seq<char>>::Done);
    assert(v.after(remove) == cleared);
    lemma_judges_conflict(s, t, v, k, turns);
    if probing.advance(look) == probing.settle(crate::link::LinkState::Conflict) {
        lemma_play_turn(probing, v, look, turns);
        lemma_links_after_clearing(s, t, v, k, turns);
    } else {
        let place: Event<Seq<char>> = Event::Location(render(v.leads(link_place(s, e))));
        lemma_play_turn(u.at(Phase::RestoreLocateLink), v, place, (turns - 1) as nat);
        lemma_links_after_clearing(s, t, v, k, (turns - 1) as nat);
    }
}

/// What holds at place `k` of the walk once the places before it are dealt
/// with: nothing has changed at the place or where its link belongs, and
/// nothing but a directory stands where the directory of its link belongs.
pub proof fn lemma_next_entry_is_untouched(s: State, w: World, t: State, k: int)
    requires
        is_shadow_tree(s, w),
        links_fit(s, w, k),
        is_walking(s, t),
        0 <= k < w.order.len(),
    ensures
        is_at_entry(s, t, restored_until(s, w, k), k),
        is_tracked(s, restored_until(s, w, k), w.order[k]) == is_tracked(s, w, w.order[k]),
        is_tracked(s, w, w.order[k]) ==> {
            &&& restored(s, w, k).contains_key(link_place(s, w.order[k])) == w.holds(
                link_place(s, w.order[k]),
            )
            &&& restored(s, w, k)[link_place(s, w.order[k])] == w.nodes[link_place(
                s,
                w.order[k],
            )]
            &&& link_right(s, restored_until(s, w, k), w.order[k]) == link_right(s, w, w.order[k])
        },
{
    let e = w.order[k];
    let v = restored_until(s, w, k);
    assert(place_fits(s, e));
    lemma_node_is_untouched(s, w, k, e);
    if e.len() == s.root.len() {
        assert(e =~= s.root);
    }
    if is_tracked(s, w, e) {
        assert(link_dir_fits(s, w, e));
        lemma_link_place_is_untouched(s, w, k, k);
        if is_deep(s, e) {
            lemma_restored_dir(s, w, k, link_dir(s, e));
        }
    }
}

/// Nothing changes at a place of the tree.
pub proof fn lemma_node_is_untouched(s: State, w: World, k: int, e: Seq<Part>)
    requires
        is_shadow_tree(s, w),
        0 <= k <= w.order.len(),
        exists|i: int| 0 <= i < w.order.len() && w.order[i] == e,
    ensures
        restored(s, w, k).contains_key(e) == w.holds(e),
        restored(s, w, k)[e] == w.nodes[e],
{
    let i = choose|i: int| 0 <= i < w.order.len() && w.order[i] == e;
    assert forall|j: int| 0 <= j < k && is_tracked(s, w, w.order[j]) implies link_place(
        s,
        #[trigger] w.order[j],
    ) != e && link_dir(s, w.order[j]) != e by {
        assert(w.order[i] == e);
    }
    if w.holds(e) {
        lemma_restored_keeps(s, w, k, e);
    } else {
        lemma_restored_stays_free(s, w, k, e);
    }
}

/// Nothing changes where the link of the file at place `i` belongs while
/// the places before it are dealt with.
pub proof fn lemma_link_place_is_untouched(s: State, w: World, k: int, i: int)
    requires
        is_shadow_tree(s, w),
        0 <= k <= i < w.order.len(),
        is_tracked(s, w, w.order[i]),
    ensures
        restored(s, w, k).contains_key(link_place(s, w.order[i])) == w.holds(
            link_place(s, w.order[i]),
        ),
        restored(s, w, k)[link_place(s, w.order[i])] == w.nodes[link_place(s, w.order[i])],
{
    let e = w.order[i];
    assert(place_fits(s, e));
    assert forall|j: int| 0 <= j < k && is_tracked(s, w, w.order[j]) implies link_place(
        s,
        #[trigger] w.order[j],
    ) != link_place(s, e) && link_dir(s, w.order[j]) != link_place(s, e) by {
        assert(place_fits(s, w.order[j]));
        lemma_link_places_differ(s, w.order[j], e);
    }
    if w.holds(link_place(s, e)) {
        lemma_restored_keeps(s, w, k, link_place(s, e));
    } else {
        lemma_restored_stays_free(s, w, k, link_place(s, e));
    }
}

/// How a Restore ends that can deal with the links of the first `m` places
/// and, if those are not all, stops at place `m`.
pub open spec fn ending(s: State, w: World, m: int) -> Step<Seq<char>> {
    if m >= w.order.len() {
        Step::Succeed
    } else {
        Step::Fail(Error::LinkConflict(render(link_of(s, w.order[m]))))
    }
}

/// The world that such a Restore leaves: the first `m` places are dealt
/// with; at the place where it stops, the directory of the link is made.
pub open spec fn restored_as_far_as(s: State, w: World, m: int) -> World {
    if m >= w.order.len() {
        restored_until(s, w, m)
    } else {
        dir_made(s, restored_until(s, w, m), w.order[m])
    }
}

/// The walk from place `k` on, as far as place `m`: every file on the way
/// gets its link unless it has it, and the walk ends in success at the end
/// of the tree, or with an error at the place where it stops.
pub proof fn lemma_walk_restores(s: State, w: World, t: State, k: int, m: int, turns: nat)
    requires
        is_shadow_tree(s, w),
        is_walking(s, t),
        0 <= k <= m <= w.order.len(),
        links_fit(s, w, m),
        m < w.order.len() ==> stops_at(s, w, m),
        turns >= 7 * (m - k) + 5,
    ensures
        play(t, restored_until(s, w, k), restored_until(s, w, k).entry(k), turns) == (
            Some(ending(s, w, m)),
            restored_as_far_as(s, w, m),
        ),
    decreases m - k,
{
    let v = restored_until(s, w, k);
    if k == w.order.len() {
        assert(t.step(Event::EndOfWalk).1 == Step::<Seq<char>>::Succeed);
        lemma_play_turn(t, v, Event::EndOfWalk, turns);
    } else {
        let e = w.order[k];
        lemma_next_entry_is_untouched(s, w, t, k);
        if !is_tracked(s, w, e) {
            lemma_passes_by(s, t, v, k, turns);
            assert(World { seen: k + 2, ..v } == restored_until(s, w, k + 1));
            lemma_walk_restores(s, w, t.at(Phase::WalkNext), k + 1, m, (turns - 1) as nat);
        } else {
            let made = dir_made(s, v, e);
            let u = taken(t, e).at(Phase::WalkNext);
            let linked = World {
                nodes: made.nodes.insert(link_place(s, e), Node::Link(link_text(s, e))),
                seen: k + 2,
                ..made
            };
            lemma_dir_made_keeps(s, t, v, k);
            lemma_comes_to_link(s, t, v, k, turns);
            if k == m {
                lemma_stops_at_conflict(s, t, made, k, (turns - 1) as nat);
                lemma_stops_at_conflict(s, t, made, k, (turns - 2) as nat);
                lemma_stops_at_conflict(s, t, made, k, (turns - 3) as nat);
            } else {
                assert(link_fits(s, w, e));
                if link_right(s, w, e) {
                    lemma_finds_link(s, t, made, k, (turns - 1) as nat);
                    lemma_finds_link(s, t, made, k, (turns - 2) as nat);
                    lemma_finds_link(s, t, made, k, (turns - 3) as nat);
                    assert(World { seen: k + 2, ..made } == restored_until(s, w, k + 1));
                } else if link_missing(s, w, e) {
                    lemma_creates_link(s, t, made, k, (turns - 1) as nat);
                    lemma_creates_link(s, t, made, k, (turns - 2) as nat);
                    lemma_creates_link(s, t, made, k, (turns - 3) as nat);
                    assert(linked == restored_until(s, w, k + 1));
                } else {
                    lemma_replaces_conflict(s, t, made, k, (turns - 1) as nat);
                    lemma_replaces_conflict(s, t, made, k, (turns - 2) as nat);
                    lemma_replaces_conflict(s, t, made, k, (turns - 3) as nat);
                    assert(linked == restored_until(s, w, k + 1));
                }
                lemma_walk_restores(s, w, u, k + 1, m, (turns - 3) as nat);
                lemma_walk_restores(s, w, u, k + 1, m, (turns - 4) as nat);
                lemma_walk_restores(s, w, u, k + 1, m, (turns - 5) as nat);
                lemma_walk_restores(s, w, u, k + 1, m, (turns - 6) as nat);
                lemma_walk_restores(s, w, u, k + 1, m, (turns - 7) as nat);
            }
        }
    }
}

/// Restore begins by finding the shadow root and opening the walk.
pub proof fn lemma_restore_opens_walk(s: State, w: World, turns: nat)
    requires
        is_shadow_tree(s, w),
        s.job == Job::Restore,
        s.phase == Phase::Start,
        turns >= 2,
    ensures
        play(s, w, Event::Start, turns) == play(
            s.at(Phase::WalkOpen),
            World { seen: 1, ..w },
            w.entry(0),
            (turns - 2) as nat,
        ),
{
    lemma_place_of_location(w, s.root);
    let probing = s.at(Phase::ProbeRoot);
    let probe: Action<Seq<char>> = Action::Probe(render(s.root));
    assert(s.step(Event::Start) == (probing, Step::Perform(probe)));
    lemma_play_turn(s, w, Event::Start, turns);
    assert(w.leads(s.root) == s.root);
    let there: Event<Seq<char>> = Event::Probed { exists: true, is_symlink: false, is_file: false };
    assert(w.answer(probe) == there);
    assert(w.after(probe) == w);
    let walk: Action<Seq<char>> = Action::Walk(render(s.root));
    assert(probing.step(there) == (s.at(Phase::WalkOpen), Step::Perform(walk)));
    lemma_play_turn(probing, w, there, (turns - 1) as nat);
    assert(w.answer(walk) == w.entry(0));
    assert(w.after(walk) == World { seen: 1, ..w });
}

/// Once the first `m` places are dealt with, the tree is as it was, each
/// file among those places has its link in place, and nothing has changed
/// where the links of the other files belong.
pub proof fn lemma_restored_until_has_links(s: State, w: World, m: int)
    requires
        is_shadow_tree(s, w),
        0 <= m <= w.order.len(),
        links_fit(s, w, m),
    ensures
        is_shadow_tree(s, restored_until(s, w, m)),
        links_found_until(s, restored_until(s, w, m), m),
        forall|i: int|
            0 <= i < w.order.len() ==> restored_until(s, w, m).holds(#[trigger] w.order[i])
                == w.holds(w.order[i]) && restored_until(s, w, m).nodes[w.order[i]]
                == w.nodes[w.order[i]],
        forall|i: int|
            m <= i < w.order.len() && is_tracked(s, w, #[trigger] w.order[i]) ==> restored_until(
                s,
                w,
                m,
            ).holds(link_place(s, w.order[i])) == w.holds(link_place(s, w.order[i]))
                && restored_until(s, w, m).nodes[link_place(s, w.order[i])] == w.nodes[link_place(
                s,
                w.order[i],
            )],
{
    let n = w.order.len() as int;
    let v = restored_until(s, w, m);
    assert forall|j: int|
        0 <= j < m && is_tracked(s, w, w.order[j]) && !link_right(
            s,
            w,
            w.order[j],
        ) implies link_place(s, #[trigger] w.order[j]) != s.root by {
        assert(link_fits(s, w, w.order[j]));
    }
    lemma_restored_keeps(s, w, m, s.root);
    assert forall|i: int| 0 <= i < n implies v.holds(#[trigger] w.order[i]) == w.holds(w.order[i])
        && v.nodes[w.order[i]] == w.nodes[w.order[i]] by {
        lemma_node_is_untouched(s, w, m, w.order[i]);
    }
    assert forall|i: int| 0 <= i < n && is_tracked(s, w, #[trigger] w.order[i]) implies link_dir_fits(
        s,
        v,
        w.order[i],
    ) && (i < m ==> link_found(s, v, w.order[i])) && (i >= m ==> v.holds(
        link_place(s, w.order[i]),
    ) == w.holds(link_place(s, w.order[i])) && v.nodes[link_place(s, w.order[i])]
        == w.nodes[link_place(s, w.order[i])]) by {
        let e = w.order[i];
        assert(link_dir_fits(s, w, e));
        assert(place_fits(s, e));
        if is_deep(s, e) {
            lemma_restored_dir(s, w, m, link_dir(s, e));
        }
        if i >= m {
            lemma_link_place_is_untouched(s, w, m, i);
        } else {
            if is_deep(s, e) {
                lemma_restored_has_dir(s, w, m, i);
            }
            if link_right(s, w, e) {
                assert forall|j: int|
                    0 <= j < m && is_tracked(s, w, w.order[j]) && !link_right(
                        s,
                        w,
                        w.order[j],
                    ) implies link_place(s, #[trigger] w.order[j]) != link_place(s, e) by {
                    assert(place_fits(s, w.order[j]));
                    lemma_link_places_differ(s, w.order[j], e);
                }
                lemma_restored_keeps(s, w, m, link_place(s, e));
            } else {
                lemma_restored_links(s, w, m, i);
                lemma_entry_places(s, v, e);
            }
        }
    }
}

/// Where every link is in place, nothing is put anywhere.
pub proof fn lemma_restored_nothing(s: State, w: World, k: int)
    requires
        0 <= k <= w.order.len(),
        links_found_until(s, w, k),
    ensures
        restored(s, w, k) == w.nodes,
    decreases k,
{
    if k > 0 {
        lemma_restored_nothing(s, w, k - 1);
        assert(is_tracked(s, w, w.order[k - 1]) ==> link_found(s, w, w.order[k - 1]));
    }
}

/// The world after a Restore that can deal with every link.
pub open spec fn restored_world(s: State, w: World) -> World {
    restored_until(s, w, w.order.len() as int)
}

/// Restore gives every file its link. Played out on a shadow tree in which
/// nothing stands where a link belongs but, at most, the right link, or,
/// with `force`, anything but a directory, Restore ends in success. Then
/// every file of the tree has its link in place: the directory of the link
/// is there, made if need be, and a symbolic link that leads to the file
/// stands where the link belongs, in the place of whatever stood there. The
/// tree itself is as it was.
pub proof fn lemma_restore_links_every_file(s: State, w: World, turns: nat)
    requires
        is_shadow_tree(s, w),
        links_fit(s, w, w.order.len() as int),
        s.job == Job::Restore,
        s.phase == Phase::Start,
        turns >= 7 * w.order.len() + 7,
    ensures
        play(s, w, Event::Start, turns) == (
            Some(Step::<Seq<char>>::Succeed),
            restored_world(s, w),
        ),
        is_shadow_tree(s, restored_world(s, w)),
        links_found(s, restored_world(s, w)),
{
    let n = w.order.len() as int;
    lemma_restore_opens_walk(s, w, turns);
    assert(restored_until(s, w, 0) == World { seen: 1, ..w });
    lemma_walk_restores(s, w, s.at(Phase::WalkOpen), 0, n, (turns - 2) as nat);
    lemma_restored_until_has_links(s, w, n);
    let v = restored_world(s, w);
    assert forall|i: int| 0 <= i < n && is_tracked(s, v, #[trigger] v.order[i]) implies link_found(
        s,
        v,
        v.order[i],
    ) by {
        assert(is_tracked(s, w, w.order[i]));
    }
}

/// Without `force`, Restore stops at the first file that has something else
/// where its link belongs. Played out on a shadow tree, it ends with
/// `LinkConflict` for that link. The files before it have their links in
/// place; what stands in the way is as it was. All that was done for the
/// file itself is that the directory of its link was made, if it was not
/// there.
pub proof fn lemma_restore_stops_at_first_conflict(s: State, w: World, m: int, turns: nat)
    requires
        is_shadow_tree(s, w),
        stops_at(s, w, m),
        links_fit(s, w, m),
        s.job == Job::Restore,
        s.phase == Phase::Start,
        turns >= 7 * m + 7,
    ensures
        play(s, w, Event::Start, turns) == (
            Some(Step::<Seq<char>>::Fail(Error::LinkConflict(render(link_of(s, w.order[m]))))),
            restored_as_far_as(s, w, m),
        ),
        links_found_until(s, restored_as_far_as(s, w, m), m),
        restored_as_far_as(s, w, m).holds(link_place(s, w.order[m])),
        restored_as_far_as(s, w, m).nodes[link_place(s, w.order[m])] == w.nodes[link_place(
            s,
            w.order[m],
        )],
{
    lemma_restore_opens_walk(s, w, turns);
    assert(restored_until(s, w, 0) == World { seen: 1, ..w });
    lemma_walk_restores(s, w, s.at(Phase::WalkOpen), 0, m, (turns - 2) as nat);
    lemma_restored_until_has_links(s, w, m);
    let v = restored_until(s, w, m);
    let last = restored_as_far_as(s, w, m);
    let at = w.order[m];
    assert(is_tracked(s, w, at));
    assert(place_fits(s, at));
    lemma_entry_places(s, v, at);
    assert(link_dir(s, at).len() + 1 == link_place(s, at).len());
    assert forall|i: int| 0 <= i < m && is_tracked(s, last, #[trigger] last.order[i]) implies link_found(
        s,
        last,
        last.order[i],
    ) by {
        let e = w.order[i];
        assert(is_tracked(s, w, e));
        assert(link_found(s, v, e));
    }
}

/// Restore is idempotent. Played out on a shadow tree of which every file
/// has its link in place, Restore ends in success and leaves every node as
/// it is.
pub proof fn lemma_restore_again_is_identity(s: State, w: World, turns: nat)
    requires
        is_shadow_tree(s, w),
        links_found(s, w),
        s.job == Job::Restore,
        s.phase == Phase::Start,
        turns >= 7 * w.order.len() + 7,
    ensures
        play(s, w, Event::Start, turns) == (
            Some(Step::<Seq<char>>::Succeed),
            World { seen: w.order.len() as int + 1, ..w },
        ),
{
    let n = w.order.len() as int;
    assert(links_fit(s, w, n)) by {
        assert forall|i: int| 0 <= i < n && is_tracked(s, w, #[trigger] w.order[i]) implies link_fits(
            s,
            w,
            w.order[i],
        ) by {
            assert(link_found(s, w, w.order[i]));
        }
    }
    lemma_restore_links_every_file(s, w, turns);
    lemma_restored_nothing(s, w, n);
}

/// Restore twice is Restore once. After a Restore that ended in success, a
/// second Restore ends in success and leaves the world exactly as the first
/// left it.
pub proof fn lemma_restore_twice(s: State, w: World, turns: nat)
    requires
        is_shadow_tree(s, w),
        links_fit(s, w, w.order.len() as int),
        s.job == Job::Restore,
        s.phase == Phase::Start,
        turns >= 7 * w.order.len() + 7,
    ensures
        play(s, w, Event::Start, turns) == (
            Some(Step::<Seq<char>>::Succeed),
            restored_world(s, w),
        ),
        play(s, restored_world(s, w), Event::Start, turns) == (
            Some(Step::<Seq<char>>::Succeed),
            restored_world(s, w),
        ),
{
    lemma_restore_links_every_file(s, w, turns);
    lemma_restore_again_is_identity(s, restored_world(s, w), turns);
    assert(World { seen: w.order.len() as int + 1, ..restored_world(s, w) } == restored_world(
        s,
        w,
    ));
}

} // verus!
