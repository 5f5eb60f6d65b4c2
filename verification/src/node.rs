//! Parsed templates.
use vstd::prelude::*;

use crate::expr::{Expression, Statement};
use crate::path::{Parts, TemplatePath};

verus! {

/// Whether the whitespace before and after a tag is suppressed.
#[derive(Clone, Copy, Debug, PartialEq, Eq, Structural)]
pub struct Ws(pub bool, pub bool);

/// A node of a template.
pub enum Node {
    /// A statement.
    Let(Statement),
    /// An expression that is written without escaping.
    Safe(Ws, Expression),
    /// An expression.
    Expr(Ws, Expression),
    /// Text, between its leading and its trailing whitespace.
    Lit(String, String, String),
    /// A helper with its blocks.
    Helper(Helper),
    /// Another template, by the path that it has in this one.
    Partial(Ws, TemplatePath),
    /// A comment.
    Comment(String),
}

/// A helper; its tags' whitespace comes first.
pub enum Helper {
    /// A loop over an expression.
    Each((Ws, Ws), Expression, Vec<Node>),
    /// A conditional, with its further conditions and what is left.
    If(
        ((Ws, Ws), Expression, Vec<Node>),
        Vec<(Ws, Expression, Vec<Node>)>,
        Option<(Ws, Vec<Node>)>,
    ),
    /// A block in which names belong to an expression.
    With((Ws, Ws), Expression, Vec<Node>),
    /// A block for when an expression is false.
    Unless((Ws, Ws), Expression, Vec<Node>),
    /// A helper that is not built in.
    Defined((Ws, Ws), Expression, Expression, Vec<Node>),
}

/// The templates by their paths.
pub struct Context {
    /// Each template with its path.
    pub entries: Vec<(TemplatePath, Vec<Node>)>,
}

impl View for Context {
    type V = Map<Parts, Seq<Node>>;

    open spec fn view(&self) -> Map<Parts, Seq<Node>> {
        Map::new(
            |p: Parts| self.paths().contains(p),
            |p: Parts| self.entries@[self.paths().index_of(p)].1@,
        )
    }
}

impl Context {
    /// The paths, in the order in which they came.
    pub open spec fn paths(&self) -> Seq<Parts> {
        Seq::new(self.entries@.len(), |i: int| self.entries@[i].0@)
    }

    /// No path occurs twice.
    pub open spec fn wf(&self) -> bool {
        self.paths().no_duplicates()
    }

    /// There are as many templates as entries.
    pub proof fn lemma_len(&self)
        requires
            self.wf(),
        ensures
            self@.dom().finite(),
            self@.dom().len() == self.entries@.len(),
    {
        self.paths().unique_seq_to_set();
        assert(self@.dom() =~= self.paths().to_set());
    }

    /// No templates.
    pub fn new() -> (r: Context)
        ensures
            r.wf(),
            r@ == Map::<Parts, Seq<Node>>::empty(),
    {
        let r = Context { entries: Vec::new() };
        assert(r@ =~= Map::<Parts, Seq<Node>>::empty());
        r
    }

    /// The place of the template at `path`.
    fn position(&self, path: &TemplatePath) -> (r: Option<usize>)
        requires
            self.wf(),
        ensures
            r is Some == self@.dom().contains(path@),
            r matches Some(i) ==> i < self.entries@.len() && self.paths()[i as int] == path@
                && self.paths().index_of(path@) == i,
    {
        let mut i: usize = 0;
        while i < self.entries.len()
            invariant
                self.wf(),
                i <= self.entries@.len(),
                forall|j: int| 0 <= j < i ==> self.paths()[j] != path@,
            decreases self.entries@.len() - i,
        {
            if self.entries[i].0.same(path) {
                assert(self.paths()[i as int] == path@);
                return Some(i);
            }
            assert(self.paths()[i as int] != path@);
            i += 1;
        }
        None
    }

    /// The nodes of the template at `path`.
    pub fn get(&self, path: &TemplatePath) -> (r: Option<&Vec<Node>>)
        requires
            self.wf(),
        ensures
            r is Some == self@.dom().contains(path@),
            r matches Some(nodes) ==> nodes@ == self@[path@],
    {
        match self.position(path) {
            Some(i) => Some(&self.entries[i].1),
            None => None,
        }
    }

    /// Adds the template at `path`, in place of the one that was there.
    pub fn insert(&mut self, path: TemplatePath, nodes: Vec<Node>)
        requires
            old(self).wf(),
        ensures
            final(self).wf(),
            final(self)@ == old(self)@.insert(path@, nodes@),
    {
        let ghost key = path@;
        let ghost value = nodes@;
        match self.position(&path) {
            Some(i) => {
                self.entries.set(i, (path, nodes));
                proof {
                    assert(self.paths() =~= old(self).paths());
                    assert(self@ =~= old(self)@.insert(key, value));
                }
            },
            None => {
                let n = self.entries.len();
                self.entries.push((path, nodes));
                proof {
                    assert(self.paths() =~= old(self).paths().push(key));
                    assert(self.paths()[n as int] == key);
                    assert(!old(self).paths().contains(key));
                    assert forall|p: Parts| self.paths().contains(p) == (old(
                        self,
                    ).paths().contains(p) || p == key) by {
                        if old(self).paths().contains(p) {
                            let j = choose|j: int|
                                0 <= j < old(self).paths().len() && old(self).paths()[j] == p;
                            assert(self.paths()[j] == p);
                        }
                    }
                    assert(self.wf());
                    assert forall|p: Parts| old(self).paths().contains(p) implies self@[p] == old(
                        self,
                    )@[p] by {
                        let j = old(self).paths().index_of(p);
                        assert(old(self).paths()[j] == p);
                        assert(self.paths()[j] == p);
                        assert(self.paths().index_of(p) == j);
                    }
                    assert(self.paths().index_of(key) == n);
                    assert(self@ =~= old(self)@.insert(key, value));
                }
            },
        }
    }
}

} // verus!
