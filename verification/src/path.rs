//! Paths of templates, as sequences of components.
use vstd::prelude::*;

use crate::text::same_text;

verus! {

/// A component of a path.
pub enum Part {
    /// What a path on Windows may start with, such as a drive, and whether it is verbatim.
    Prefix(Seq<char>, bool),
    /// The root.
    RootDir,
    /// The current directory.
    CurDir,
    /// The directory above.
    ParentDir,
    /// A file or a directory.
    Normal(Seq<char>),
}

/// The components of a path.
pub type Parts = Seq<Part>;

/// The pieces of `s` between slashes.
pub open spec fn segments(s: Seq<char>) -> Seq<Seq<char>>
    decreases s.len(),
{
    if s.len() == 0 {
        seq![Seq::<char>::empty()]
    } else {
        let before = segments(s.drop_last());
        if s.last() == '/' {
            before.push(Seq::<char>::empty())
        } else {
            before.drop_last().push(before.last().push(s.last()))
        }
    }
}

/// What the segment `s` stands for.
pub open spec fn part(s: Seq<char>) -> Part {
    if s == "."@ {
        Part::CurDir
    } else if s == ".."@ {
        Part::ParentDir
    } else {
        Part::Normal(s)
    }
}

/// The segments that are components: not the empty ones, and `.` only in front.
pub open spec fn kept(segs: Seq<Seq<char>>) -> Parts
    decreases segs.len(),
{
    if segs.len() == 0 {
        Seq::empty()
    } else {
        let before = kept(segs.drop_last());
        if segs.last().len() == 0 || (segs.last() == "."@ && segs.len() > 1) {
            before
        } else {
            before.push(part(segs.last()))
        }
    }
}

/// The components of the path written as `s` with slashes: the root, if `s` starts with a slash,
/// and what stands between the slashes.
pub open spec fn components(s: Seq<char>) -> Parts {
    let root = if s.len() > 0 && s[0] == '/' {
        seq![Part::RootDir]
    } else {
        Seq::empty()
    };
    root + kept(segments(s))
}

/// Whether every platform reads the path written as `s` alike: no backslash and no colon is in
/// it, and it does not start with two slashes.
pub open spec fn portable(s: Seq<char>) -> bool {
    &&& !s.contains('\\')
    &&& !s.contains(':')
    &&& !(s.len() > 1 && s[0] == '/' && s[1] == '/')
}

/// `p` without its last component; a path that ends in a root or a prefix, and the empty path,
/// stay.
pub open spec fn parent(p: Parts) -> Parts {
    if p.len() == 0 || p.last() is RootDir || p.last() is Prefix {
        p
    } else {
        p.drop_last()
    }
}

/// The position of the last dot of `name`, or -1.
pub open spec fn last_dot(name: Seq<char>) -> int
    decreases name.len(),
{
    if name.len() == 0 {
        -1
    } else if name.last() == '.' {
        name.len() - 1
    } else {
        last_dot(name.drop_last())
    }
}

/// What follows the last dot of the file name, unless that dot is its first character.
pub open spec fn extension(p: Parts) -> Option<Seq<char>> {
    if p.len() == 0 {
        None
    } else {
        match p.last() {
            Part::Normal(name) => if last_dot(name) > 0 {
                Some(name.skip(last_dot(name) + 1))
            } else {
                None
            },
            _ => None,
        }
    }
}

/// The prefix of `p`, if it has one.
pub open spec fn prefix(p: Parts) -> Parts {
    if p.len() > 0 && p[0] is Prefix {
        p.take(1)
    } else {
        Seq::empty()
    }
}

/// Whether `p` starts with a verbatim prefix.
pub open spec fn verbatim(p: Parts) -> bool {
    p.len() > 0 && (p[0] matches Part::Prefix(_, v) && v)
}

/// The component `c` seen from the verbatim path `p`: a root leaves the prefix only, and the
/// current directory and the one above are resolved.
pub open spec fn resolved_part(p: Parts, c: Part) -> Parts {
    match c {
        Part::RootDir => prefix(p).push(c),
        Part::CurDir => p,
        Part::ParentDir => if p.len() > 0 && p.last() is Normal {
            p.drop_last()
        } else {
            p
        },
        _ => p.push(c),
    }
}

/// The path `q` seen from the verbatim path `p`.
pub open spec fn resolved_path(p: Parts, q: Parts) -> Parts
    decreases q.len(),
{
    if q.len() == 0 {
        p
    } else {
        resolved_part(resolved_path(p, q.drop_last()), q.last())
    }
}

/// The path `q` seen from `p`. A `q` with a prefix replaces `p`, and one with a root replaces
/// all but the prefix of `p`. From a verbatim path, the current directory and the one above are
/// resolved.
pub open spec fn join(p: Parts, q: Parts) -> Parts {
    if q.len() == 0 {
        p
    } else if q[0] is Prefix {
        q
    } else if verbatim(p) {
        resolved_path(p, q)
    } else if q[0] is RootDir {
        prefix(p) + q
    } else if q[0] is CurDir && p.len() > 0 && !(p.last() is Prefix) {
        p + q.skip(1)
    } else {
        p + q
    }
}

/// The path `p`, with the extension of `owner` if it has none of its own.
pub open spec fn extended(owner: Parts, p: Parts) -> Parts {
    if p.len() == 0 {
        p
    } else {
        match (p.last(), extension(p), extension(owner)) {
            (Part::Normal(name), None, Some(e)) => if e.len() > 0 {
                p.drop_last().push(Part::Normal(name + "."@ + e))
            } else {
                p
            },
            _ => p,
        }
    }
}

/// The template that the partial `name` stands for in the template at `on`, where `root` is the
/// template that is generated.
pub open spec fn partial_path(root: Parts, on: Parts, name: Parts) -> Parts {
    join(parent(on), extended(root, name))
}

/// A component of a path.
#[derive(Debug, PartialEq, Eq)]
pub enum Component {
    /// What a path on Windows may start with, such as a drive, and whether it is verbatim. Two
    /// prefixes with the same meaning have the same text.
    Prefix(String, bool),
    /// The root.
    RootDir,
    /// The current directory.
    CurDir,
    /// The directory above.
    ParentDir,
    /// A file or a directory.
    Normal(String),
}

impl View for Component {
    type V = Part;

    open spec fn view(&self) -> Part {
        match *self {
            Component::Prefix(s, v) => Part::Prefix(s@, v),
            Component::RootDir => Part::RootDir,
            Component::CurDir => Part::CurDir,
            Component::ParentDir => Part::ParentDir,
            Component::Normal(s) => Part::Normal(s@),
        }
    }
}

/// The components held by a sequence.
pub open spec fn part_views(v: Seq<Component>) -> Parts {
    Seq::new(v.len(), |i: int| v[i]@)
}

/// Reads a path with `std::path::Path::components`, and shows the prefix of a path on Windows as
/// its `std::path::Prefix`. The contract says what the components are where every platform reads
/// the path alike: repeated slashes count once, a slash at the end does not count, and `.` counts
/// in front only. What stands where in other paths depends on the platform, and is left unsaid.
#[verifier::external_body]
fn read_components(path: &str) -> (r: Vec<Component>)
    ensures
        portable(path@) ==> part_views(r@) == components(path@),
{
    let mut parts = Vec::new();
    for c in std::path::Path::new(path).components() {
        parts.push(match c {
            std::path::Component::Prefix(p) => {
                Component::Prefix(format!("{:?}", p.kind()), p.kind().is_verbatim())
            },
            std::path::Component::RootDir => Component::RootDir,
            std::path::Component::CurDir => Component::CurDir,
            std::path::Component::ParentDir => Component::ParentDir,
            std::path::Component::Normal(s) => Component::Normal(s.to_string_lossy().into_owned()),
        });
    }
    parts
}

impl Component {
    /// A copy of the component.
    pub fn copy(&self) -> (r: Component)
        ensures
            r@ == self@,
    {
        match self {
            Component::Prefix(s, v) => Component::Prefix(s.clone(), *v),
            Component::RootDir => Component::RootDir,
            Component::CurDir => Component::CurDir,
            Component::ParentDir => Component::ParentDir,
            Component::Normal(s) => Component::Normal(s.clone()),
        }
    }

    /// Whether the two components are the same.
    pub fn same(&self, other: &Component) -> (r: bool)
        ensures
            r == (self@ == other@),
    {
        match (self, other) {
            (Component::Prefix(s, v), Component::Prefix(t, w)) => {
                *v == *w && same_text(s.as_str(), t.as_str())
            },
            (Component::RootDir, Component::RootDir) => true,
            (Component::CurDir, Component::CurDir) => true,
            (Component::ParentDir, Component::ParentDir) => true,
            (Component::Normal(s), Component::Normal(t)) => same_text(s.as_str(), t.as_str()),
            _ => false,
        }
    }
}

/// A path.
pub struct TemplatePath {
    /// Its components.
    pub parts: Vec<Component>,
}

impl View for TemplatePath {
    type V = Parts;

    open spec fn view(&self) -> Parts {
        part_views(self.parts@)
    }
}

impl TemplatePath {
    /// The path written as `path`, as the platform reads it.
    pub fn parse(path: &str) -> (r: TemplatePath)
        ensures
            portable(path@) ==> r@ == components(path@),
    {
        TemplatePath { parts: read_components(path) }
    }

    /// A copy of the path.
    pub fn copy(&self) -> (r: TemplatePath)
        ensures
            r@ == self@,
    {
        let mut parts: Vec<Component> = Vec::new();
        let mut i: usize = 0;
        while i < self.parts.len()
            invariant
                i <= self.parts.len(),
                part_views(parts@) == self@.take(i as int),
            decreases self.parts.len() - i,
        {
            let ghost before = part_views(parts@);
            parts.push(self.parts[i].copy());
            assert(part_views(parts@) =~= before.push(self@[i as int]));
            assert(self@.take(i + 1) =~= self@.take(i as int).push(self@[i as int]));
            i += 1;
        }
        assert(self@.take(i as int) =~= self@);
        TemplatePath { parts }
    }

    /// Whether the two paths have the same components.
    pub fn same(&self, other: &TemplatePath) -> (r: bool)
        ensures
            r == (self@ == other@),
    {
        if self.parts.len() != other.parts.len() {
            assert(self@.len() != other@.len());
            return false;
        }
        let mut i: usize = 0;
        while i < self.parts.len()
            invariant
                self.parts.len() == other.parts.len(),
                i <= self.parts.len(),
                forall|j: int| 0 <= j < i ==> self@[j] == other@[j],
            decreases self.parts.len() - i,
        {
            if !self.parts[i].same(&other.parts[i]) {
                assert(self@[i as int] != other@[i as int]);
                return false;
            }
            assert(self@[i as int] == other@[i as int]);
            i += 1;
        }
        assert(self@ =~= other@);
        true
    }

    /// Drops the last component, unless the path is empty or ends in a root or a prefix.
    pub fn pop(&mut self)
        ensures
            final(self)@ == parent(old(self)@),
    {
        let n = self.parts.len();
        let drops = n > 0 && match &self.parts[n - 1] {
            Component::RootDir => false,
            Component::Prefix(_, _) => false,
            _ => true,
        };
        if drops {
            self.parts.pop();
        }
        assert(self@ =~= parent(old(self)@));
    }

    /// Drops everything but the prefix.
    fn keep_prefix(&mut self)
        ensures
            final(self)@ == prefix(old(self)@),
    {
        let n: usize = if self.parts.len() > 0 {
            match &self.parts[0] {
                Component::Prefix(_, _) => 1,
                _ => 0,
            }
        } else {
            0
        };
        self.parts.truncate(n);
        assert(self@ =~= prefix(old(self)@));
    }

    /// Appends a component to a verbatim path.
    fn push_resolved(&mut self, c: Component)
        ensures
            final(self)@ == resolved_part(old(self)@, c@),
    {
        let ghost part = c@;
        match c {
            Component::RootDir => {
                self.keep_prefix();
                self.parts.push(Component::RootDir);
            },
            Component::CurDir => {},
            Component::ParentDir => {
                let n = self.parts.len();
                let drops = n > 0 && match &self.parts[n - 1] {
                    Component::Normal(_) => true,
                    _ => false,
                };
                if drops {
                    self.parts.pop();
                }
            },
            other => {
                self.parts.push(other);
            },
        }
        assert(self@ =~= resolved_part(old(self)@, part));
    }

    /// Appends the components `parts` to a verbatim path.
    fn push_all_resolved(&mut self, parts: &Vec<Component>)
        ensures
            final(self)@ == resolved_path(old(self)@, part_views(parts@)),
    {
        let ghost q = part_views(parts@);
        let mut i: usize = 0;
        while i < parts.len()
            invariant
                q == part_views(parts@),
                i <= parts.len(),
                self@ == resolved_path(old(self)@, q.take(i as int)),
            decreases parts.len() - i,
        {
            self.push_resolved(parts[i].copy());
            assert(q.take(i + 1).drop_last() =~= q.take(i as int));
            assert(q.take(i + 1).last() == parts@[i as int]@);
            i += 1;
        }
        assert(q.take(i as int) =~= q);
    }

    /// Appends `other`, which replaces the path if it has a prefix, and all but its prefix if it
    /// has a root.
    pub fn push(&mut self, other: TemplatePath)
        ensures
            final(self)@ == join(old(self)@, other@),
    {
        let mut other = other;
        let ghost q = other@;
        if other.parts.len() == 0 {
            return;
        }
        if let Component::Prefix(_, _) = &other.parts[0] {
            self.parts = other.parts;
            return;
        }
        let n = self.parts.len();
        if n > 0 {
            if let Component::Prefix(_, true) = &self.parts[0] {
                assert(verbatim(self@));
                self.push_all_resolved(&other.parts);
                return;
            }
        }
        assert(!verbatim(self@));
        match &other.parts[0] {
            Component::RootDir => {
                self.keep_prefix();
            },
            Component::CurDir => {
                let dropped = n > 0 && match &self.parts[n - 1] {
                    Component::Prefix(_, _) => false,
                    _ => true,
                };
                if dropped {
                    other.parts.remove(0);
                    assert(other@ =~= q.skip(1));
                }
            },
            _ => {},
        }
        let ghost base = self@;
        let ghost tail = other@;
        self.parts.append(&mut other.parts);
        assert(self@ =~= base + tail);
    }

    /// The extension of the file name, if it has one.
    pub fn extension(&self) -> (r: Option<&str>)
        ensures
            r is Some == extension(self@) is Some,
            r matches Some(e) ==> extension(self@) == Some(e@),
    {
        let count = self.parts.len();
        if count == 0 {
            return None;
        }
        match &self.parts[count - 1] {
            Component::Normal(name) => {
                assert(self@.last() == Part::Normal(name@));
                after_last_dot(name.as_str())
            },
            _ => None,
        }
    }
}

/// What follows the last dot of `name`, unless that dot is its first character.
fn after_last_dot(name: &str) -> (r: Option<&str>)
    ensures
        r is Some == (last_dot(name@) > 0),
        r matches Some(e) ==> e@ == name@.skip(last_dot(name@) + 1),
{
    let n = name.unicode_len();
    let mut i: usize = n;
    proof {
        assert(name@.take(n as int) =~= name@);
    }
    while i > 0
        invariant
            n == name@.len(),
            i <= n,
            last_dot(name@.take(i as int)) == last_dot(name@),
        decreases i,
    {
        proof {
            assert(name@.take(i as int).drop_last() =~= name@.take(i - 1));
            assert(name@.take(i as int).last() == name@[i - 1]);
        }
        if name.get_char(i - 1) == '.' {
            if i == 1 {
                return None;
            }
            let e = name.substring_char(i, n);
            assert(e@ =~= name@.skip(last_dot(name@) + 1));
            return Some(e);
        }
        i -= 1;
    }
    None
}

/// The path `path`, with the extension of `owner` if it has none of its own.
pub fn append_extension(owner: &TemplatePath, path: &TemplatePath) -> (r: TemplatePath)
    ensures
        r@ == extended(owner@, path@),
{
    let mut p = path.copy();
    let n = p.parts.len();
    if n == 0 || p.extension().is_some() {
        return p;
    }
    if let Some(e) = owner.extension() {
        if !e.is_empty() {
            if let Component::Normal(name) = &path.parts[n - 1] {
                assert(path@.last() == Part::Normal(name@));
                let mut longer = name.clone();
                longer.append(".");
                longer.append(e);
                p.parts.pop();
                p.parts.push(Component::Normal(longer));
                assert(p@ =~= path@.drop_last().push(Part::Normal(name@ + "."@ + e@)));
            } else {
                assert(!(path@.last() is Normal));
            }
        }
    }
    p
}

} // verus!
