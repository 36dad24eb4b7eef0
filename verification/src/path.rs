//! Lexical paths: a path is the sequence of its components.
//!
//! Text is read the way Unix reads a path: `/` separates components, a
//! leading `/` is the root, empty components vanish, and `.` vanishes
//! everywhere but at the very start. Nothing here touches the filesystem.
use crate::round_trip::{lemma_relative_round_trip, lemma_relative_text_round_trip};
use vstd::prelude::*;

verus! {

/// One component of a path. `S` is the text type of a name: `String` in
/// executable code, `Seq<char>` in contracts.
#[derive(Debug, PartialEq, Eq)]
pub enum Component<S> {
    /// The root directory `/`.
    RootDir,
    /// The current directory `.`.
    CurDir,
    /// The parent directory `..`.
    ParentDir,
    /// A plain name.
    Normal(S),
}

/// A component as contracts see it.
pub type Part = Component<Seq<char>>;

impl View for Component<String> {
    type V = Part;

    open spec fn view(&self) -> Part {
        match *self {
            Component::RootDir => Component::RootDir,
            Component::CurDir => Component::CurDir,
            Component::ParentDir => Component::ParentDir,
            Component::Normal(s) => Component::Normal(s@),
        }
    }
}

/// The components of a vector, each by its view.
pub open spec fn parts_view(parts: Seq<Component<String>>) -> Seq<Part> {
    Seq::new(parts.len(), |i: int| parts[i]@)
}

/// How a component is written.
pub open spec fn text_of(c: Part) -> Seq<char> {
    match c {
        Component::RootDir => seq!['/'],
        Component::CurDir => seq!['.'],
        Component::ParentDir => seq!['.', '.'],
        Component::Normal(s) => s,
    }
}

/// The text of a path: its components in order, a `/` between two of them
/// unless the text so far already ends in one. A root starts the text anew.
pub open spec fn render(parts: Seq<Part>) -> Seq<char>
    decreases parts.len(),
{
    if parts.len() == 0 {
        Seq::empty()
    } else {
        let head = render(parts.drop_last());
        let c = parts.last();
        if c is RootDir {
            seq!['/']
        } else if head.len() == 0 || head.last() == '/' {
            head + text_of(c)
        } else {
            head.push('/') + text_of(c)
        }
    }
}

/// The components read so far, once the word `word` ends: an empty word adds
/// nothing, `.` counts only as the first component, `..` is the parent, and
/// anything else is a name.
pub open spec fn close(done: Seq<Part>, word: Seq<char>) -> Seq<Part> {
    if word.len() == 0 {
        done
    } else if word == seq!['.'] {
        if done.len() == 0 {
            done.push(Component::CurDir)
        } else {
            done
        }
    } else if word == seq!['.', '.'] {
        done.push(Component::ParentDir)
    } else {
        done.push(Component::Normal(word))
    }
}

/// Reading `text` from the left: the components that are complete, and the
/// characters of the word that is still open.
pub open spec fn scan(text: Seq<char>) -> (Seq<Part>, Seq<char>)
    decreases text.len(),
{
    if text.len() == 0 {
        (Seq::empty(), Seq::empty())
    } else {
        let (done, word) = scan(text.drop_last());
        if text.last() != '/' {
            (done, word.push(text.last()))
        } else if text.len() == 1 {
            (seq![Component::RootDir], Seq::empty())
        } else {
            (close(done, word), Seq::empty())
        }
    }
}

/// The components of a path given as text.
pub open spec fn parse(text: Seq<char>) -> Seq<Part> {
    close(scan(text).0, scan(text).1)
}

/// Whether the path starts at the root.
pub open spec fn is_absolute(p: Seq<Part>) -> bool {
    p.len() > 0 && p[0] is RootDir
}

/// Whether the path is absolute and every later component is a plain name:
/// the form of a fully resolved location.
pub open spec fn is_resolved(p: Seq<Part>) -> bool {
    &&& is_absolute(p)
    &&& forall|i: int| 1 <= i < p.len() ==> #[trigger] p[i] is Normal
}

/// The path without its last component. The root and the empty path have
/// no parent.
pub open spec fn parent(p: Seq<Part>) -> Option<Seq<Part>> {
    if p.len() > 0 && !(p.last() is RootDir) {
        Some(p.drop_last())
    } else {
        None
    }
}

/// `other` seen from `base`: an absolute `other` stands for itself, a
/// relative one is appended, and its leading `.` is dropped unless `base`
/// is empty.
pub open spec fn join(base: Seq<Part>, other: Seq<Part>) -> Seq<Part> {
    if is_absolute(other) {
        other
    } else if base.len() > 0 && other.len() > 0 && other[0] is CurDir {
        base + other.drop_first()
    } else {
        base + other
    }
}

/// Whether `p` begins with all the components of `base`.
pub open spec fn starts_with(p: Seq<Part>, base: Seq<Part>) -> bool {
    base.len() <= p.len() && p.take(base.len() as int) == base
}

/// What is left of `p` after `base`, if `p` begins with `base`.
pub open spec fn strip_prefix(p: Seq<Part>, base: Seq<Part>) -> Option<Seq<Part>> {
    if starts_with(p, base) {
        Some(p.skip(base.len() as int))
    } else {
        None
    }
}

/// The first position at or after `from` where `a` and `b` differ or one
/// of them ends.
pub open spec fn agree_until(a: Seq<Part>, b: Seq<Part>, from: int) -> int
    decreases a.len() - from,
{
    if 0 <= from < a.len() && from < b.len() && a[from] == b[from] {
        agree_until(a, b, from + 1)
    } else {
        from
    }
}

/// How many leading components `a` and `b` share.
pub open spec fn common_prefix_len(a: Seq<Part>, b: Seq<Part>) -> int {
    agree_until(a, b, 0)
}

/// `n` steps up.
pub open spec fn ups(n: int) -> Seq<Part> {
    Seq::new(n as nat, |i: int| Component::ParentDir)
}

/// The way from `to` to `path`: one step up for each component of `to`
/// beyond what the two share, then the components of `path` beyond it; a
/// single `.` if that is nothing at all.
pub open spec fn relative(path: Seq<Part>, to: Seq<Part>) -> Seq<Part> {
    let shared = common_prefix_len(path, to);
    let steps = ups(to.len() - shared) + path.skip(shared);
    if steps.len() == 0 {
        seq![Component::CurDir]
    } else {
        steps
    }
}

/// Where one step leads from `at`: the root leads to the root, `.` stays,
/// a name descends, and `..` leaves the last name, stays at the root, and is
/// kept where there is nothing to leave.
pub open spec fn step_into(at: Seq<Part>, c: Part) -> Seq<Part> {
    match c {
        Component::RootDir => seq![Component::RootDir],
        Component::CurDir => at,
        Component::ParentDir => if at.len() > 0 && at.last() is Normal {
            at.drop_last()
        } else if at.len() > 0 && at.last() is RootDir {
            at
        } else {
            at.push(Component::ParentDir)
        },
        Component::Normal(_) => at.push(c),
    }
}

/// Where `steps` lead when followed one by one from `at`, by the text of
/// the paths alone.
pub open spec fn resolve(at: Seq<Part>, steps: Seq<Part>) -> Seq<Part>
    decreases steps.len(),
{
    if steps.len() == 0 {
        at
    } else {
        step_into(resolve(at, steps.drop_last()), steps.last())
    }
}

/// The path with its `.` and `..` steps carried out.
pub open spec fn normalize(p: Seq<Part>) -> Seq<Part> {
    resolve(Seq::empty(), p)
}

/// Whether two components are the same.
pub fn component_eq(a: &Component<String>, b: &Component<String>) -> (r: bool)
    ensures
        r == (a@ == b@),
{
    match (a, b) {
        (Component::RootDir, Component::RootDir) => true,
        (Component::CurDir, Component::CurDir) => true,
        (Component::ParentDir, Component::ParentDir) => true,
        (Component::Normal(x), Component::Normal(y)) => *x == *y,
        _ => false,
    }
}

/// A copy of a component.
pub fn component_clone(c: &Component<String>) -> (r: Component<String>)
    ensures
        r@ == c@,
{
    match c {
        Component::RootDir => Component::RootDir,
        Component::CurDir => Component::CurDir,
        Component::ParentDir => Component::ParentDir,
        Component::Normal(s) => Component::Normal(s.clone()),
    }
}

/// Ends the word `text[start..end]` and records the component it stands for.
fn close_word(parts: &mut Vec<Component<String>>, text: &str, start: usize, end: usize)
    requires
        start <= end <= text@.len(),
    ensures
        parts_view(final(parts)@) == close(
            parts_view(old(parts)@),
            text@.subrange(start as int, end as int),
        ),
{
    let ghost word = text@.subrange(start as int, end as int);
    let len: usize = end - start;
    if len == 0 {
        return ;
    }
    let first = text.get_char(start);
    assert(word[0] == first);
    if len == 1 && first == '.' {
        assert(word =~= seq!['.']);
        if parts.len() == 0 {
            parts.push(Component::CurDir);
            assert(parts_view(parts@) =~= parts_view(old(parts)@).push(Component::CurDir));
        }
        return ;
    }
    if len == 2 && first == '.' {
        let second = text.get_char(start + 1);
        assert(word[1] == second);
        if second == '.' {
            assert(word =~= seq!['.', '.']);
            parts.push(Component::ParentDir);
            assert(parts_view(parts@) =~= parts_view(old(parts)@).push(Component::ParentDir));
            return ;
        }
    }
    assert(word != seq!['.']) by {
        if word == seq!['.'] {
            assert(seq!['.'].len() == 1 && seq!['.'][0] == '.');
        }
    }
    assert(word != seq!['.', '.']) by {
        if word == seq!['.', '.'] {
            assert(seq!['.', '.'].len() == 2 && seq!['.', '.'][0] == '.' && seq!['.', '.'][1]
                == '.');
        }
    }
    let name = String::from_str(text.substring_char(start, end));
    parts.push(Component::Normal(name));
    assert(parts_view(parts@) =~= parts_view(old(parts)@).push(Component::Normal(word)));
}

/// Appends a `/` unless the text is empty or already ends in one.
fn push_separator(out: &mut String)
    ensures
        final(out)@ == if old(out)@.len() == 0 || old(out)@.last() == '/' {
            old(out)@
        } else {
            old(out)@.push('/')
        },
{
    let n: usize = out.as_str().unicode_len();
    if n > 0 && out.as_str().get_char(n - 1) != '/' {
        proof {
            reveal_strlit("/");
        }
        out.append("/");
        assert(out@ =~= old(out)@.push('/'));
    }
}

/// Appends copies of `src[from..]` to `out`.
fn append_from(out: &mut Vec<Component<String>>, src: &Vec<Component<String>>, from: usize)
    requires
        from <= src.len(),
    ensures
        parts_view(final(out)@) == parts_view(old(out)@) + parts_view(src@).skip(from as int),
{
    let mut i: usize = from;
    assert(parts_view(out@) =~= parts_view(old(out)@) + parts_view(src@).subrange(
        from as int,
        i as int,
    ));
    while i < src.len()
        invariant
            from <= i <= src.len(),
            parts_view(out@) == parts_view(old(out)@) + parts_view(src@).subrange(
                from as int,
                i as int,
            ),
        decreases src.len() - i,
    {
        let ghost before = parts_view(out@);
        out.push(component_clone(&src[i]));
        assert(parts_view(out@) =~= before.push(src@[i as int]@));
        assert(parts_view(src@).subrange(from as int, i + 1) =~= parts_view(src@).subrange(
            from as int,
            i as int,
        ).push(src@[i as int]@));
        i = i + 1;
    }
    assert(parts_view(src@).subrange(from as int, i as int) =~= parts_view(src@).skip(
        from as int,
    ));
}

/// A path held as its components.
pub struct LexPath {
    parts: Vec<Component<String>>,
}

impl View for LexPath {
    type V = Seq<Part>;

    closed spec fn view(&self) -> Seq<Part> {
        parts_view(self.parts@)
    }
}

impl LexPath {
    /// Reads a path from its text.
    pub fn parse(text: &str) -> (path: LexPath)
        ensures
            path@ == parse(text@),
    {
        let n: usize = text.unicode_len();
        let mut parts: Vec<Component<String>> = Vec::new();
        let mut start: usize = 0;
        let mut i: usize = 0;
        assert(parts_view(parts@) =~= Seq::empty());
        assert(text@.subrange(0, 0) =~= Seq::empty());
        assert(text@.take(0) =~= Seq::empty());
        while i < n
            invariant
                n == text@.len(),
                start <= i <= n,
                scan(text@.take(i as int)) == (
                    parts_view(parts@),
                    text@.subrange(start as int, i as int),
                ),
            decreases n - i,
        {
            let c = text.get_char(i);
            proof {
                assert(text@.take(i + 1).drop_last() =~= text@.take(i as int));
                assert(text@.take(i + 1).last() == c);
            }
            if c == '/' {
                if i == 0 {
                    parts.push(Component::RootDir);
                    assert(parts_view(parts@) =~= seq![Component::RootDir]);
                } else {
                    close_word(&mut parts, text, start, i);
                }
                start = i + 1;
                assert(text@.subrange(start as int, i + 1) =~= Seq::empty());
            } else {
                assert(text@.subrange(start as int, i + 1) =~= text@.subrange(
                    start as int,
                    i as int,
                ).push(c));
            }
            i = i + 1;
        }
        assert(text@.take(n as int) =~= text@);
        close_word(&mut parts, text, start, n);
        LexPath { parts }
    }

    /// Writes the path as text.
    pub fn to_string(&self) -> (text: String)
        ensures
            text@ == render(self@),
    {
        let mut out = String::new();
        let mut i: usize = 0;
        assert(self@.take(0) =~= Seq::empty());
        while i < self.parts.len()
            invariant
                i <= self.parts.len(),
                self@ == parts_view(self.parts@),
                out@ == render(self@.take(i as int)),
            decreases self.parts.len() - i,
        {
            proof {
                assert(self@.take(i + 1).drop_last() =~= self@.take(i as int));
                assert(self@.take(i + 1).last() == self.parts@[i as int]@);
                reveal_strlit("/");
                reveal_strlit(".");
                reveal_strlit("..");
            }
            match &self.parts[i] {
                Component::RootDir => {
                    out = String::from_str("/");
                    assert(out@ =~= seq!['/']);
                },
                Component::CurDir => {
                    push_separator(&mut out);
                    out.append(".");
                    assert("."@ =~= seq!['.']);
                },
                Component::ParentDir => {
                    push_separator(&mut out);
                    out.append("..");
                    assert(".."@ =~= seq!['.', '.']);
                },
                Component::Normal(name) => {
                    push_separator(&mut out);
                    out.append(name.as_str());
                },
            }
            i = i + 1;
        }
        assert(self@.take(i as int) =~= self@);
        out
    }

    /// A copy of the path.
    pub fn duplicate(&self) -> (path: LexPath)
        ensures
            path@ == self@,
    {
        let mut parts: Vec<Component<String>> = Vec::new();
        assert(parts_view(parts@) =~= Seq::empty());
        append_from(&mut parts, &self.parts, 0);
        assert(parts_view(parts@) =~= self@);
        LexPath { parts }
    }

    /// The number of components.
    pub fn len(&self) -> (n: usize)
        ensures
            n == self@.len(),
    {
        self.parts.len()
    }

    /// Whether the path starts at the root.
    pub fn is_absolute(&self) -> (r: bool)
        ensures
            r == is_absolute(self@),
    {
        self.parts.len() > 0 && component_eq(&self.parts[0], &Component::RootDir)
    }

    /// Whether both paths have the same components.
    pub fn same(&self, other: &LexPath) -> (r: bool)
        ensures
            r == (self@ == other@),
    {
        if self.parts.len() != other.parts.len() {
            return false;
        }
        let shared: usize = self.shared_len(other);
        proof {
            lemma_common_prefix(self@, other@);
            if shared == self.parts.len() {
                assert(self@.take(shared as int) =~= self@);
                assert(other@.take(shared as int) =~= other@);
            }
        }
        shared == self.parts.len()
    }

    /// How many leading components the two paths share.
    pub fn shared_len(&self, other: &LexPath) -> (n: usize)
        ensures
            n == common_prefix_len(self@, other@),
    {
        let mut i: usize = 0;
        while i < self.parts.len() && i < other.parts.len() && component_eq(
            &self.parts[i],
            &other.parts[i],
        )
            invariant
                i <= self.parts.len(),
                i <= other.parts.len(),
                self@ == parts_view(self.parts@),
                other@ == parts_view(other.parts@),
                common_prefix_len(self@, other@) == agree_until(self@, other@, i as int),
            decreases self.parts.len() - i,
        {
            i = i + 1;
        }
        i
    }

    /// The path without its last component; `None` for the root and for the
    /// empty path.
    pub fn parent(&self) -> (r: Option<LexPath>)
        ensures
            r.is_some() == parent(self@).is_some(),
            r.is_some() ==> r.unwrap()@ == parent(self@).unwrap(),
    {
        let n: usize = self.parts.len();
        if n == 0 || component_eq(&self.parts[n - 1], &Component::RootDir) {
            return None;
        }
        let mut parts: Vec<Component<String>> = Vec::new();
        let mut i: usize = 0;
        assert(parts_view(parts@) =~= self@.take(0));
        while i < n - 1
            invariant
                n == self.parts.len(),
                i <= n - 1,
                self@ == parts_view(self.parts@),
                parts_view(parts@) == self@.take(i as int),
            decreases n - i,
        {
            let ghost before = parts_view(parts@);
            parts.push(component_clone(&self.parts[i]));
            assert(parts_view(parts@) =~= before.push(self@[i as int]));
            assert(self@.take(i + 1) =~= self@.take(i as int).push(self@[i as int]));
            i = i + 1;
        }
        assert(self@.take(n - 1) =~= self@.drop_last());
        Some(LexPath { parts })
    }

    /// `other` seen from this path.
    pub fn join(&self, other: &LexPath) -> (path: LexPath)
        ensures
            path@ == join(self@, other@),
    {
        if other.is_absolute() {
            return other.duplicate();
        }
        let mut parts: Vec<Component<String>> = Vec::new();
        assert(parts_view(parts@) =~= Seq::empty());
        append_from(&mut parts, &self.parts, 0);
        assert(parts_view(parts@) =~= self@);
        let skip_dot: bool = self.parts.len() > 0 && other.parts.len() > 0 && component_eq(
            &other.parts[0],
            &Component::CurDir,
        );
        if skip_dot {
            append_from(&mut parts, &other.parts, 1);
            assert(other@.skip(1) =~= other@.drop_first());
        } else {
            append_from(&mut parts, &other.parts, 0);
            assert(other@.skip(0) =~= other@);
        }
        LexPath { parts }
    }

    /// What is left of the path after `base`; `None` unless the path begins
    /// with every component of `base`.
    pub fn strip_prefix(&self, base: &LexPath) -> (r: Option<LexPath>)
        ensures
            r.is_some() == strip_prefix(self@, base@).is_some(),
            r.is_some() ==> r.unwrap()@ == strip_prefix(self@, base@).unwrap(),
    {
        let shared: usize = self.shared_len(base);
        proof {
            lemma_common_prefix(self@, base@);
            if shared == base@.len() {
                assert(self@.take(base@.len() as int) =~= base@);
            } else if base@.len() <= self@.len() {
                assert(self@.take(base@.len() as int)[shared as int] == self@[shared as int]);
            }
        }
        if shared != base.parts.len() {
            return None;
        }
        let mut parts: Vec<Component<String>> = Vec::new();
        assert(parts_view(parts@) =~= Seq::empty());
        append_from(&mut parts, &self.parts, shared);
        assert(parts_view(parts@) =~= self@.skip(shared as int));
        Some(LexPath { parts })
    }

    /// The way from `to` to this path. For an absolute path and a resolved
    /// `to`, following it from `to` leads to this path.
    pub fn relative_to(&self, to: &LexPath) -> (path: LexPath)
        ensures
            path@ == relative(self@, to@),
            is_absolute(self@) && is_resolved(to@) ==> resolve(to@, path@) == normalize(self@),
    {
        let shared: usize = self.shared_len(to);
        proof {
            lemma_common_prefix(self@, to@);
            if is_absolute(self@) && is_resolved(to@) {
                lemma_relative_round_trip(self@, to@);
            }
        }
        let mut parts: Vec<Component<String>> = Vec::new();
        let mut i: usize = shared;
        assert(parts_view(parts@) =~= ups(i - shared));
        while i < to.parts.len()
            invariant
                shared <= i <= to.parts.len(),
                parts_view(parts@) == ups(i - shared),
            decreases to.parts.len() - i,
        {
            let ghost before = parts_view(parts@);
            parts.push(Component::ParentDir);
            assert(parts_view(parts@) =~= before.push(Component::ParentDir));
            assert(before.push(Component::ParentDir) =~= ups(i + 1 - shared));
            i = i + 1;
        }
        append_from(&mut parts, &self.parts, shared);
        if parts.len() == 0 {
            parts.push(Component::CurDir);
            assert(parts_view(parts@) =~= seq![Component::CurDir]);
        }
        LexPath { parts }
    }

    /// Where `steps` lead from this path, by the text of the paths alone.
    pub fn resolve(&self, steps: &LexPath) -> (path: LexPath)
        ensures
            path@ == resolve(self@, steps@),
    {
        let mut at: Vec<Component<String>> = Vec::new();
        assert(parts_view(at@) =~= Seq::empty());
        append_from(&mut at, &self.parts, 0);
        assert(parts_view(at@) =~= self@);
        let mut i: usize = 0;
        assert(steps@.take(0) =~= Seq::empty());
        while i < steps.parts.len()
            invariant
                i <= steps.parts.len(),
                steps@ == parts_view(steps.parts@),
                parts_view(at@) == resolve(self@, steps@.take(i as int)),
            decreases steps.parts.len() - i,
        {
            proof {
                assert(steps@.take(i + 1).drop_last() =~= steps@.take(i as int));
                assert(steps@.take(i + 1).last() == steps.parts@[i as int]@);
            }
            let ghost before = parts_view(at@);
            match &steps.parts[i] {
                Component::RootDir => {
                    at = Vec::new();
                    at.push(Component::RootDir);
                    assert(parts_view(at@) =~= seq![Component::RootDir]);
                },
                Component::CurDir => {},
                Component::ParentDir => {
                    let n: usize = at.len();
                    if n > 0 && component_eq(&at[n - 1], &Component::RootDir) {
                    } else if n > 0 && !component_eq(&at[n - 1], &Component::CurDir)
                        && !component_eq(&at[n - 1], &Component::ParentDir) {
                        assert(before.last() is Normal);
                        at.pop();
                        assert(parts_view(at@) =~= before.drop_last());
                    } else {
                        at.push(Component::ParentDir);
                        assert(parts_view(at@) =~= before.push(Component::ParentDir));
                    }
                },
                Component::Normal(name) => {
                    at.push(Component::Normal(name.clone()));
                    assert(parts_view(at@) =~= before.push(Component::Normal(name@)));
                },
            }
            i = i + 1;
        }
        assert(steps@.take(i as int) =~= steps@);
        LexPath { parts: at }
    }
}

/// What `agree_until` finds: up to it the two paths agree, and at it they
/// differ or one of them ends.
pub proof fn lemma_agree_until(a: Seq<Part>, b: Seq<Part>, from: int)
    requires
        0 <= from <= a.len(),
        from <= b.len(),
    ensures
        from <= agree_until(a, b, from) <= a.len(),
        agree_until(a, b, from) <= b.len(),
        forall|i: int| from <= i < agree_until(a, b, from) ==> a[i] == b[i],
        agree_until(a, b, from) < a.len() && agree_until(a, b, from) < b.len() ==> a[agree_until(
            a,
            b,
            from,
        )] != b[agree_until(a, b, from)],
    decreases a.len() - from,
{
    if from < a.len() && from < b.len() && a[from] == b[from] {
        lemma_agree_until(a, b, from + 1);
    }
}

/// The shared prefix is a prefix of both paths and cannot be made longer.
pub proof fn lemma_common_prefix(a: Seq<Part>, b: Seq<Part>)
    ensures
        0 <= common_prefix_len(a, b) <= a.len(),
        common_prefix_len(a, b) <= b.len(),
        a.take(common_prefix_len(a, b)) == b.take(common_prefix_len(a, b)),
        common_prefix_len(a, b) < a.len() && common_prefix_len(a, b) < b.len()
            ==> a[common_prefix_len(a, b)] != b[common_prefix_len(a, b)],
{
    lemma_agree_until(a, b, 0);
    assert(a.take(common_prefix_len(a, b)) =~= b.take(common_prefix_len(a, b)));
}

/// The way from the directory `to` to `path`, both given as text, as text.
/// For an absolute `path` and a resolved `to`, the result reads as steps
/// that lead from `to` to `path`.
pub fn make_path_relative_to(path: &str, to: &str) -> (r: String)
    ensures
        r@ == render(relative(parse(path@), parse(to@))),
        is_absolute(parse(path@)) && is_resolved(parse(to@)) ==> resolve(parse(to@), parse(r@))
            == normalize(parse(path@)),
{
    proof {
        if is_absolute(parse(path@)) && is_resolved(parse(to@)) {
            lemma_relative_text_round_trip(path@, to@);
        }
    }
    let path = LexPath::parse(path);
    let to = LexPath::parse(to);
    path.relative_to(&to).to_string()
}

} // verus!
