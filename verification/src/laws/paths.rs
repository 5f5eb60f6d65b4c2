//! Which template a partial stands for.
use vstd::prelude::*;

use crate::path::{
    components, extended, extension, join, kept, last_dot, parent, part, partial_path,
    resolved_part, resolved_path, segments, Part, Parts,
};

verus! {

proof fn lemma_segments(a: Seq<char>, b: Seq<char>)
    requires
        !b.contains('/'),
    ensures
        segments(b) == seq![b],
        segments(a + "/"@ + b) == segments(a).push(b),
    decreases b.len(),
{
    reveal_strlit("/");
    let s = a + "/"@ + b;
    if b.len() == 0 {
        assert(s.drop_last() =~= a);
        assert(s.last() == '/');
        assert(b =~= Seq::<char>::empty());
    } else {
        let c = b.drop_last();
        assert forall|i: int| 0 <= i < c.len() implies c[i] != '/' by {
            assert(b.contains(b[i]));
        }
        assert(b.contains(b.last()));
        lemma_segments(a, c);
        assert(s.drop_last() =~= a + "/"@ + c);
        assert(s.last() == b.last());
        assert(c.push(b.last()) =~= b);
        assert(seq![c].drop_last().push(b) =~= seq![b]);
        assert(segments(a).push(c).drop_last().push(b) =~= segments(a).push(b));
    }
}

proof fn lemma_some_segment(s: Seq<char>)
    ensures
        segments(s).len() > 0,
    decreases s.len(),
{
    if s.len() > 0 {
        lemma_some_segment(s.drop_last());
    }
}

/// A path is read component by component: what follows a slash is a file or a directory, unless it
/// is empty, a dot or two dots. A dot counts in front only, and a slash in front is the root.
pub proof fn lemma_components(a: Seq<char>, b: Seq<char>)
    requires
        !b.contains('/'),
    ensures
        components(Seq::empty()) == Seq::<Part>::empty(),
        b == "."@ ==> components(b) == seq![Part::CurDir],
        b == ".."@ ==> components(b) == seq![Part::ParentDir],
        b.len() > 0 && b != "."@ && b != ".."@ ==> components(b) == seq![Part::Normal(b)],
        components("/"@) == seq![Part::RootDir],
        b.len() == 0 || b == "."@ ==> components(a + "/"@ + b) == if a.len() == 0 {
            seq![Part::RootDir]
        } else {
            components(a)
        },
        b == ".."@ ==> components(a + "/"@ + b) == if a.len() == 0 {
            seq![Part::RootDir, Part::ParentDir]
        } else {
            components(a).push(Part::ParentDir)
        },
        b.len() > 0 && b != "."@ && b != ".."@ ==> components(a + "/"@ + b) == if a.len() == 0 {
            seq![Part::RootDir, Part::Normal(b)]
        } else {
            components(a).push(Part::Normal(b))
        },
{
    reveal_strlit("/");
    reveal_strlit(".");
    reveal_strlit("..");
    let none = Seq::<char>::empty();
    let s = a + "/"@ + b;
    lemma_segments(a, b);
    lemma_some_segment(a);
    assert(kept(Seq::empty()) == Seq::<Part>::empty());
    assert(seq![b].drop_last() =~= Seq::empty());
    assert(seq![none].drop_last() =~= Seq::empty());
    assert(segments(none) == seq![none]);
    assert(kept(seq![none]) == Seq::<Part>::empty());
    assert("."@ != ".."@) by {
        assert("."@.len() != ".."@.len());
    }
    assert(components(none) =~= Seq::<Part>::empty());
    if b.len() > 0 {
        assert(b.contains(b[0]));
        assert(kept(seq![b]) =~= seq![part(b)]);
        assert(components(b) =~= seq![part(b)]);
    }
    lemma_segments(none, none);
    assert(none + "/"@ + none =~= "/"@);
    assert(seq![none].push(none).drop_last() =~= seq![none]);
    assert(components("/"@) =~= seq![Part::RootDir]);
    assert(segments(a).push(b).drop_last() =~= segments(a));
    let parts = if b.len() == 0 || b == "."@ {
        kept(segments(a))
    } else {
        kept(segments(a)).push(part(b))
    };
    assert(kept(segments(s)) == parts);
    if a.len() == 0 {
        assert(a =~= none);
        assert(s[0] == '/');
        if b.len() == 0 || b == "."@ {
            assert(components(s) =~= seq![Part::RootDir]);
        } else {
            assert(components(s) =~= seq![Part::RootDir, part(b)]);
        }
    } else {
        assert(s[0] == a[0]);
        if b.len() == 0 || b == "."@ {
            assert(components(s) =~= components(a));
        } else {
            assert(components(s) =~= components(a).push(part(b)));
        }
    }
}

/// The parent of a path is the path without its last component, which a root or a prefix is not.
pub proof fn lemma_parent(p: Parts, c: Part)
    ensures
        parent(Seq::empty()) == Seq::<Part>::empty(),
        c is Normal || c is CurDir || c is ParentDir ==> parent(p + seq![c]) == p,
        c is RootDir || c is Prefix ==> parent(p + seq![c]) == p + seq![c],
{
    assert((p + seq![c]).drop_last() =~= p);
}

/// Behind the last dot there is no other.
pub proof fn lemma_last_dot(name: Seq<char>)
    ensures
        -1 <= last_dot(name) < name.len(),
        last_dot(name) >= 0 ==> name[last_dot(name)] == '.',
        forall|i: int| last_dot(name) < i < name.len() ==> name[i] != '.',
    decreases name.len(),
{
    if name.len() > 0 && name.last() != '.' {
        let rest = name.drop_last();
        lemma_last_dot(rest);
        assert forall|i: int| last_dot(name) < i < name.len() implies name[i] != '.' by {
            if i < rest.len() {
                assert(rest[i] == name[i]);
            }
        }
    }
}

/// The extension of a file is what follows the last dot of its name, unless there is nothing
/// before that dot; a name without a dot has none, and only a file has one.
pub proof fn lemma_extension(p: Parts, stem: Seq<char>, e: Seq<char>, c: Part)
    ensures
        extension(Seq::empty()) is None,
        !(c is Normal) ==> extension(p + seq![c]) is None,
        !e.contains('.') ==> extension(p + seq![Part::Normal(e)]) is None,
        !e.contains('.') && stem.len() > 0 ==> extension(
            p + seq![Part::Normal(stem + "."@ + e)],
        ) == Some(e),
        !e.contains('.') && stem.len() == 0 ==> extension(
            p + seq![Part::Normal(stem + "."@ + e)],
        ) is None,
{
    reveal_strlit(".");
    let name = stem + "."@ + e;
    let d = last_dot(name);
    lemma_last_dot(name);
    lemma_last_dot(e);
    if !e.contains('.') {
        assert(name[stem.len() as int] == '.');
        if d > stem.len() {
            assert(name[d] == e[d - stem.len() - 1]);
        }
        assert(d == stem.len());
        assert(name.skip(d + 1) =~= e);
        if last_dot(e) >= 0 {
            assert(e.contains(e[last_dot(e)]));
        }
    }
    assert((p + seq![c]).last() == c);
    assert((p + seq![Part::Normal(e)]).last() == Part::Normal(e));
    assert((p + seq![Part::Normal(name)]).last() == Part::Normal(name));
}

/// A path is read from another one: one without a root behind it, with the current directory left
/// out; one with a root in place of all but the prefix; one with a prefix in place of all.
pub proof fn lemma_join(p: Parts, q: Parts)
    requires
        p.len() > 0 ==> !(p[0] matches Part::Prefix(_, verbatim) && verbatim),
    ensures
        q.len() == 0 ==> join(p, q) == p,
        p.len() == 0 ==> join(p, q) == q,
        q.len() > 0 && q[0] is Prefix ==> join(p, q) == q,
        q.len() > 0 && q[0] is RootDir && (p.len() == 0 || !(p[0] is Prefix)) ==> join(p, q) == q,
        q.len() > 0 && q[0] is RootDir && p.len() > 0 && p[0] is Prefix ==> join(p, q)
            == seq![p[0]] + q,
        q.len() > 0 && (q[0] is Normal || q[0] is ParentDir) ==> join(p, q) == p + q,
        q.len() > 0 && q[0] is CurDir && p.len() > 0 && !(p.last() is Prefix) ==> join(p, q) == p
            + q.skip(1),
        q.len() > 0 && q[0] is CurDir && p.len() > 0 && p.last() is Prefix ==> join(p, q) == p
            + q,
{
    if p.len() == 0 {
        assert(p + q =~= q);
        assert(p =~= Seq::<Part>::empty());
        if q.len() == 0 {
            assert(q =~= p);
        }
        assert(Seq::<Part>::empty() + q =~= q);
    } else {
        assert(p.take(1) =~= seq![p[0]]);
        assert(Seq::<Part>::empty() + q =~= q);
    }
}

/// From a verbatim path, a file is added, the current directory is left out, the directory above
/// takes a file or a directory away, and a root leaves the prefix only.
pub proof fn lemma_join_verbatim(p: Parts, q: Parts, c: Part)
    requires
        p.len() > 0,
        p[0] matches Part::Prefix(_, verbatim) && verbatim,
        q.len() > 0 ==> !(q[0] is Prefix),
        !(c is Prefix),
    ensures
        c is Normal ==> join(p, q + seq![c]) == join(p, q) + seq![c],
        c is CurDir ==> join(p, q + seq![c]) == join(p, q),
        c is ParentDir && join(p, q).len() > 0 && join(p, q).last() is Normal ==> join(
            p,
            q + seq![c],
        ) == join(p, q).drop_last(),
        c is ParentDir && join(p, q).len() > 0 && !(join(p, q).last() is Normal) ==> join(
            p,
            q + seq![c],
        ) == join(p, q),
        c is RootDir && q.len() == 0 ==> join(p, q + seq![c]) == seq![p[0], c],
{
    let r = q + seq![c];
    assert(r.drop_last() =~= q);
    assert(r.last() == c);
    if q.len() > 0 {
        assert(r[0] == q[0]);
    } else {
        assert(r[0] == c);
        assert(p.take(1).push(c) =~= seq![p[0], c]);
    }
    assert(resolved_path(p, q) == join(p, q));
    assert(resolved_path(p, r) == resolved_part(resolved_path(p, q), c));
    assert(join(p, r) == resolved_path(p, r));
    assert(join(p, q).push(c) =~= join(p, q) + seq![c]);
}

/// A file without an extension gets that of the owner, if the owner has one that is not empty;
/// any other path stays.
pub proof fn lemma_extended(owner: Parts, p: Parts, name: Seq<char>)
    ensures
        extension(p) is Some ==> extended(owner, p) == p,
        p.len() == 0 || !(p.last() is Normal) ==> extended(owner, p) == p,
        extension(owner) is None ==> extended(owner, p) == p,
        extension(owner) matches Some(e) ==> (e.len() == 0 ==> extended(owner, p) == p),
        extension(owner) matches Some(e) ==> (e.len() > 0 && extension(
            p + seq![Part::Normal(name)],
        ) is None ==> extended(owner, p + seq![Part::Normal(name)]) == p + seq![
            Part::Normal(name + "."@ + e),
        ]),
{
    let q = p + seq![Part::Normal(name)];
    assert(q.drop_last() =~= p);
    assert(q.last() == Part::Normal(name));
    if let Some(e) = extension(owner) {
        let part = Part::Normal(name + "."@ + e);
        assert(p.push(part) =~= p + seq![part]);
    }
}

/// A partial that is named without a directory and an extension stands beside the template that
/// names it, with the extension of the template that is generated.
pub proof fn lemma_partial_beside(
    root: Parts,
    dir: Parts,
    file: Seq<char>,
    name: Seq<char>,
    e: Seq<char>,
)
    requires
        dir.len() > 0 ==> !(dir[0] matches Part::Prefix(_, verbatim) && verbatim),
        extension(root) == Some(e),
        e.len() > 0,
        !name.contains('.'),
    ensures
        partial_path(root, dir + seq![Part::Normal(file)], seq![Part::Normal(name)]) == dir
            + seq![Part::Normal(name + "."@ + e)],
{
    let none = Seq::<Part>::empty();
    let named = seq![Part::Normal(name)];
    lemma_parent(dir, Part::Normal(file));
    assert(none + named =~= named);
    lemma_extension(none, name, name, Part::Normal(name));
    lemma_extended(root, none, name);
    let full = seq![Part::Normal(name + "."@ + e)];
    assert(none + full =~= full);
    lemma_join(dir, full);
}

/// The template that a partial stands for is looked up from the directory of the template that
/// names it.
pub proof fn lemma_partial_from(root: Parts, on: Parts, name: Parts)
    ensures
        partial_path(root, on, name) == join(parent(on), extended(root, name)),
{
}

} // verus!
