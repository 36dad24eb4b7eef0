//! What holds of relative paths: followed from where they were computed,
//! they lead back to the path they were computed for; and text written from
//! components reads back as the same components.
use crate::path::{
    close, common_prefix_len, is_absolute, is_resolved, join, lemma_common_prefix, normalize,
    parent, parse, relative, render, resolve, scan, step_into, text_of, ups, Component, Part,
};
use vstd::prelude::*;

verus! {

/// Whether no character of the word is a `/`.
pub open spec fn no_slash(word: Seq<char>) -> bool {
    forall|i: int| 0 <= i < word.len() ==> word[i] != '/'
}

/// Whether the word can be a plain name: not empty, without `/`, and neither
/// `.` nor `..`.
pub open spec fn is_name(word: Seq<char>) -> bool {
    &&& word.len() > 0
    &&& no_slash(word)
    &&& word != seq!['.']
    &&& word != seq!['.', '.']
}

/// Whether the component may stand at position `i` of a path that was read
/// from text: the root and `.` only in front, a name only if it can be one.
pub open spec fn part_fits(c: Part, i: int) -> bool {
    match c {
        Component::RootDir => i == 0,
        Component::CurDir => i == 0,
        Component::ParentDir => true,
        Component::Normal(s) => is_name(s),
    }
}

/// Whether the components are such as reading text yields.
pub open spec fn well_formed(p: Seq<Part>) -> bool {
    forall|i: int| 0 <= i < p.len() ==> part_fits(#[trigger] p[i], i)
}

/// Following `a` and then `b` is following `a + b`.
pub proof fn lemma_resolve_concat(at: Seq<Part>, a: Seq<Part>, b: Seq<Part>)
    ensures
        resolve(at, a + b) == resolve(resolve(at, a), b),
    decreases b.len(),
{
    if b.len() == 0 {
        assert(a + b =~= a);
    } else {
        assert((a + b).drop_last() =~= a + b.drop_last());
        lemma_resolve_concat(at, a, b.drop_last());
    }
}

/// Following plain names only descends.
pub proof fn lemma_resolve_names(at: Seq<Part>, names: Seq<Part>)
    requires
        forall|i: int| 0 <= i < names.len() ==> #[trigger] names[i] is Normal,
    ensures
        resolve(at, names) == at + names,
    decreases names.len(),
{
    if names.len() == 0 {
        assert(at + names =~= at);
    } else {
        lemma_resolve_names(at, names.drop_last());
        assert(names.last() == names[names.len() - 1]);
        assert(names.last() is Normal);
        assert((at + names.drop_last()).push(names.last()) =~= at + names);
    }
}

/// A resolved path has no step left to carry out.
pub proof fn lemma_normalize_resolved(p: Seq<Part>)
    requires
        is_resolved(p),
    ensures
        normalize(p) == p,
{
    let root: Seq<Part> = seq![Component::RootDir];
    let rest = p.skip(1);
    assert(p =~= root + rest);
    lemma_resolve_concat(Seq::empty(), root, rest);
    assert(root.drop_last() =~= Seq::<Part>::empty());
    assert(resolve(Seq::empty(), root) == root);
    assert forall|i: int| 0 <= i < rest.len() implies #[trigger] rest[i] is Normal by {
        assert(rest[i] == p[i + 1]);
    }
    lemma_resolve_names(root, rest);
}

/// From a resolved path, `n` steps up leave its last `n` names, as long as
/// the root is not reached.
pub proof fn lemma_resolve_ups(at: Seq<Part>, n: int)
    requires
        is_resolved(at),
        0 <= n < at.len(),
    ensures
        resolve(at, ups(n)) == at.take(at.len() - n),
    decreases n,
{
    if n == 0 {
        assert(ups(0) =~= Seq::<Part>::empty());
        assert(at.take(at.len() as int) =~= at);
    } else {
        lemma_resolve_ups(at, n - 1);
        assert(ups(n).drop_last() =~= ups(n - 1));
        assert(ups(n).last() == Component::<Seq<char>>::ParentDir);
        let before = at.take(at.len() - (n - 1));
        assert(before.last() == at[at.len() - n]);
        assert(before.last() is Normal);
        assert(before.drop_last() =~= at.take(at.len() - n));
    }
}

/// The relative path leads back. For an absolute `path` and a resolved
/// location `to`, following the way from `to` to `path`, starting at `to`,
/// ends at `path` with its `..` steps carried out; at `path` itself when it
/// is resolved too.
pub proof fn lemma_relative_round_trip(path: Seq<Part>, to: Seq<Part>)
    requires
        is_absolute(path),
        is_resolved(to),
    ensures
        resolve(to, relative(path, to)) == normalize(path),
        is_resolved(path) ==> resolve(to, relative(path, to)) == path,
{
    let shared = common_prefix_len(path, to);
    lemma_common_prefix(path, to);
    assert(shared >= 1) by {
        if shared == 0 {
            assert(path[0] == to[0]);
        }
    }
    let climb = ups(to.len() - shared);
    let rest = path.skip(shared);
    let steps = climb + rest;
    let common = to.take(shared);
    assert(is_resolved(common)) by {
        assert forall|i: int| 1 <= i < common.len() implies #[trigger] common[i] is Normal by {
            assert(common[i] == to[i]);
        }
    }
    // Up from `to` to what the two share, then down along the rest.
    lemma_resolve_ups(to, to.len() - shared);
    assert(to.take(to.len() - (to.len() - shared)) == common);
    lemma_resolve_concat(to, climb, rest);
    assert(resolve(to, steps) == resolve(common, rest));
    // The same descent is the end of carrying out `path` from nothing.
    assert(path =~= path.take(shared) + rest);
    lemma_resolve_concat(Seq::empty(), path.take(shared), rest);
    lemma_normalize_resolved(common);
    assert(resolve(common, rest) == normalize(path));
    if steps.len() == 0 {
        assert(rest =~= Seq::<Part>::empty());
        let dot: Seq<Part> = seq![Component::CurDir];
        assert(dot.drop_last() =~= Seq::<Part>::empty());
        assert(resolve(to, dot) == to);
        assert(resolve(to, steps) == to);
    }
    if is_resolved(path) {
        lemma_normalize_resolved(path);
    }
}

/// A link leads to its target. Where a link stands at the resolved location
/// `link` and holds the way from its directory to the absolute `target`,
/// following it from that directory ends at `target`.
pub proof fn lemma_link_leads_to_target(target: Seq<Part>, link: Seq<Part>)
    requires
        is_absolute(target),
        is_resolved(link),
        parent(link).is_some(),
    ensures
        resolve(parent(link).unwrap(), relative(target, parent(link).unwrap())) == normalize(
            target,
        ),
        is_resolved(target) ==> resolve(
            parent(link).unwrap(),
            relative(target, parent(link).unwrap()),
        ) == target,
{
    lemma_parent_resolved(link);
    lemma_relative_round_trip(target, parent(link).unwrap());
}

/// Reading on through a word without `/` only lengthens the open word.
pub proof fn lemma_scan_word(text: Seq<char>, word: Seq<char>)
    requires
        no_slash(word),
    ensures
        scan(text + word) == (scan(text).0, scan(text).1 + word),
    decreases word.len(),
{
    if word.len() == 0 {
        assert(text + word =~= text);
        assert(scan(text).1 + word =~= scan(text).1);
    } else {
        let shorter = word.drop_last();
        assert((text + word).drop_last() =~= text + shorter);
        assert((text + word).last() == word[word.len() - 1]);
        lemma_scan_word(text, shorter);
        assert((scan(text).1 + shorter).push(word.last()) =~= scan(text).1 + word);
    }
}

/// What reading leaves open is free of `/`, and what it has completed is
/// well formed.
pub proof fn lemma_scan_well_formed(text: Seq<char>)
    ensures
        well_formed(scan(text).0),
        no_slash(scan(text).1),
        well_formed(close(scan(text).0, scan(text).1)),
    decreases text.len(),
{
    if text.len() > 0 {
        lemma_scan_well_formed(text.drop_last());
    }
    let (done, word) = scan(text);
    assert(well_formed(done));
    assert(no_slash(word));
    if word.len() > 0 && word != seq!['.'] && word != seq!['.', '.'] {
        assert(is_name(word));
    }
}

/// Text reads as well-formed components: the root and `.` stand only in
/// front, and every name is a name.
pub proof fn lemma_parse_well_formed(text: Seq<char>)
    ensures
        well_formed(parse(text)),
{
    lemma_scan_well_formed(text);
}

/// Ending the word that a component is written as records that component.
pub proof fn lemma_close_text(done: Seq<Part>, c: Part)
    requires
        part_fits(c, done.len() as int),
        !(c is RootDir),
    ensures
        close(done, text_of(c)) == done.push(c),
        no_slash(text_of(c)),
        text_of(c).len() > 0,
{
    let dot: Seq<char> = seq!['.'];
    let dots: Seq<char> = seq!['.', '.'];
    assert(dot.len() == 1 && dot[0] == '.');
    assert(dots.len() == 2 && dots[0] == '.' && dots[1] == '.');
}

/// How the text of well-formed components reads: all but the last component
/// complete and the last one open; for the root alone, the root complete.
pub proof fn lemma_scan_render(p: Seq<Part>)
    requires
        well_formed(p),
        p.len() > 0,
    ensures
        render(p).len() > 0,
        p.last() is RootDir ==> render(p) == seq!['/'] && scan(render(p)) == (
            p,
            Seq::<char>::empty(),
        ),
        !(p.last() is RootDir) ==> render(p).last() != '/' && scan(render(p)) == (
            p.drop_last(),
            text_of(p.last()),
        ),
    decreases p.len(),
{
    let c = p.last();
    let q = p.drop_last();
    let slash: Seq<char> = seq!['/'];
    let root: Seq<Part> = seq![Component::RootDir];
    assert(slash.drop_last() =~= Seq::<char>::empty());
    assert(scan(slash) == (root, Seq::<char>::empty()));
    assert(part_fits(p[p.len() - 1], p.len() - 1));
    if c is RootDir {
        assert(p =~= root);
    } else {
        lemma_close_text(q, c);
        let word = text_of(c);
        if q.len() == 0 {
            assert(render(q) =~= Seq::<char>::empty());
            assert(render(p) =~= word);
            lemma_scan_word(Seq::empty(), word);
            assert(Seq::<char>::empty() + word =~= word);
        } else {
            assert(well_formed(q)) by {
                assert forall|i: int| 0 <= i < q.len() implies part_fits(#[trigger] q[i], i) by {
                    assert(q[i] == p[i]);
                }
            }
            lemma_scan_render(q);
            if q.last() is RootDir {
                assert(render(p) =~= slash + word);
                lemma_scan_word(slash, word);
                assert(Seq::<char>::empty() + word =~= word);
            } else {
                let head = render(q).push('/');
                assert(render(p) =~= head + word);
                assert(head.drop_last() =~= render(q));
                assert(part_fits(q[q.len() - 1], q.len() - 1));
                lemma_close_text(q.drop_last(), q.last());
                assert(q.drop_last().push(q.last()) =~= q);
                assert(scan(head) == (q, Seq::<char>::empty()));
                lemma_scan_word(head, word);
                assert(Seq::<char>::empty() + word =~= word);
            }
        }
        assert(render(p).last() == word.last());
    }
}

/// Writing and reading back. The text of well-formed components reads as
/// those components.
pub proof fn lemma_parse_render(p: Seq<Part>)
    requires
        well_formed(p),
    ensures
        parse(render(p)) == p,
{
    if p.len() == 0 {
        assert(p =~= Seq::<Part>::empty());
    } else {
        lemma_scan_render(p);
        if !(p.last() is RootDir) {
            assert(part_fits(p[p.len() - 1], p.len() - 1));
            lemma_close_text(p.drop_last(), p.last());
            assert(p.drop_last().push(p.last()) =~= p);
        }
    }
}

/// The way between two absolute paths is well formed when the paths are.
pub proof fn lemma_relative_well_formed(path: Seq<Part>, to: Seq<Part>)
    requires
        well_formed(path),
        is_absolute(path),
        is_absolute(to),
    ensures
        well_formed(relative(path, to)),
{
    let shared = common_prefix_len(path, to);
    lemma_common_prefix(path, to);
    assert(shared >= 1) by {
        if shared == 0 {
            assert(path[0] == to[0]);
        }
    }
    let steps = ups(to.len() - shared) + path.skip(shared);
    assert forall|i: int| 0 <= i < steps.len() implies part_fits(#[trigger] steps[i], i) by {
        if i >= to.len() - shared {
            let j = i - (to.len() - shared) + shared;
            assert(steps[i] == path[j]);
            assert(part_fits(path[j], j));
        }
    }
}

/// Joining well-formed paths gives a well-formed path, and an absolute one
/// if the first is absolute.
pub proof fn lemma_join_well_formed(base: Seq<Part>, other: Seq<Part>)
    requires
        well_formed(base),
        well_formed(other),
    ensures
        well_formed(join(base, other)),
        is_absolute(base) ==> is_absolute(join(base, other)),
{
    let joined = join(base, other);
    assert forall|i: int| 0 <= i < joined.len() implies part_fits(#[trigger] joined[i], i) by {
        if is_absolute(other) {
            assert(part_fits(other[i], i));
        } else if i < base.len() {
            assert(part_fits(base[i], i));
        } else if base.len() > 0 && other.len() > 0 && other[0] is CurDir {
            let j = i - base.len() + 1;
            assert(joined[i] == other[j]);
            assert(part_fits(other[j], j));
        } else {
            let j = i - base.len();
            assert(joined[i] == other[j]);
            assert(part_fits(other[j], j));
            if j == 0 && base.len() > 0 {
                assert(!(other[0] is RootDir));
            }
        }
    }
}

/// The directory of a resolved location is resolved.
pub proof fn lemma_parent_resolved(place: Seq<Part>)
    requires
        is_resolved(place),
        parent(place).is_some(),
    ensures
        is_resolved(parent(place).unwrap()),
{
    let dir = parent(place).unwrap();
    assert(place.len() >= 2);
    assert(dir[0] == place[0]);
    assert forall|i: int| 1 <= i < dir.len() implies #[trigger] dir[i] is Normal by {
        assert(dir[i] == place[i]);
    }
}

/// The relative path leads back, text to text. For the text of an absolute
/// `path` and of a resolved location `to`, the text that
/// `make_path_relative_to` gives reads as steps that lead from `to` to
/// `path`.
pub proof fn lemma_relative_text_round_trip(path: Seq<char>, to: Seq<char>)
    requires
        is_absolute(parse(path)),
        is_resolved(parse(to)),
    ensures
        parse(render(relative(parse(path), parse(to)))) == relative(parse(path), parse(to)),
        resolve(parse(to), parse(render(relative(parse(path), parse(to))))) == normalize(
            parse(path),
        ),
        is_resolved(parse(path)) ==> resolve(
            parse(to),
            parse(render(relative(parse(path), parse(to)))),
        ) == parse(path),
{
    lemma_parse_well_formed(path);
    lemma_relative_well_formed(parse(path), parse(to));
    lemma_parse_render(relative(parse(path), parse(to)));
    lemma_relative_round_trip(parse(path), parse(to));
}

/// Written text is in normal form: what any text reads as, once written,
/// reads as the same again.
pub proof fn lemma_written_text_is_stable(text: Seq<char>)
    ensures
        parse(render(parse(text))) == parse(text),
{
    lemma_parse_well_formed(text);
    lemma_parse_render(parse(text));
}

/// Whether every name among the components can be a name.
pub open spec fn names_fit(p: Seq<Part>) -> bool {
    forall|i: int| 0 <= i < p.len() ==> (#[trigger] p[i] matches Component::Normal(word)
        ==> is_name(word))
}

/// Steps followed from a resolved and well-formed location end at such a
/// location.
pub proof fn lemma_resolve_keeps_resolved(at: Seq<Part>, steps: Seq<Part>)
    requires
        is_resolved(at),
        well_formed(at),
        names_fit(steps),
    ensures
        is_resolved(resolve(at, steps)),
        well_formed(resolve(at, steps)),
    decreases steps.len(),
{
    if steps.len() > 0 {
        let before = steps.drop_last();
        assert(names_fit(before)) by {
            assert forall|i: int| 0 <= i < before.len() implies (#[trigger] before[i] matches Component::Normal(
                word,
            ) ==> is_name(word)) by {
                assert(before[i] == steps[i]);
            }
        }
        lemma_resolve_keeps_resolved(at, before);
        let mid = resolve(at, before);
        let c = steps[steps.len() - 1];
        let end = step_into(mid, c);
        assert(end == resolve(at, steps));
        assert(part_fits(mid[mid.len() - 1], mid.len() - 1));
        assert forall|i: int| 0 <= i < end.len() implies part_fits(#[trigger] end[i], i) && (i
            >= 1 ==> end[i] is Normal) by {
            if i < mid.len() {
                assert(part_fits(mid[i], i));
                assert(i >= 1 ==> mid[i] is Normal);
            }
        }
    }
}

/// An absolute path with its steps carried out is a resolved location.
pub proof fn lemma_normalize_absolute(p: Seq<Part>)
    requires
        is_absolute(p),
        names_fit(p),
    ensures
        is_resolved(normalize(p)),
        well_formed(normalize(p)),
{
    let root: Seq<Part> = seq![Component::RootDir];
    let rest = p.skip(1);
    assert(p =~= root + rest);
    lemma_resolve_concat(Seq::empty(), root, rest);
    assert(root.drop_last() =~= Seq::<Part>::empty());
    assert(resolve(Seq::empty(), root) == root);
    assert(names_fit(rest)) by {
        assert forall|i: int| 0 <= i < rest.len() implies (#[trigger] rest[i] matches Component::Normal(
            word,
        ) ==> is_name(word)) by {
            assert(rest[i] == p[i + 1]);
        }
    }
    lemma_resolve_keeps_resolved(root, rest);
}

/// Well-formed components have names that can be names.
pub proof fn lemma_well_formed_names_fit(p: Seq<Part>)
    requires
        well_formed(p),
    ensures
        names_fit(p),
{
    assert forall|i: int| 0 <= i < p.len() implies (#[trigger] p[i] matches Component::Normal(word)
        ==> is_name(word)) by {
        assert(part_fits(p[i], i));
    }
}

} // verus!
