//! Which loops have a counter.
use vstd::prelude::*;

use crate::expr::{uses_counter, Expression, Piece};
use crate::loops::{else_if_counts, else_ifs_count, helper_counts, loops_count, node_counts};
use crate::model::Env;
use crate::node::{Helper, Node, Ws};
use crate::path::{partial_path, Parts};

verus! {

/// Whether `ident` is one of the words that are made of the counter of a loop.
pub open spec fn counter_word(ident: Seq<char>) -> bool {
    ident == "index0"@ || ident == "index"@ || ident == "first"@ || ident == "last"@
}

/// An expression needs a counter if and only if one of its names is such a word.
pub proof fn lemma_expression_counts(a: Seq<Piece>, b: Seq<Piece>, s: String)
    ensures
        !uses_counter(Seq::empty()),
        uses_counter(seq![Piece::Name(s)]) <==> counter_word(s@),
        !uses_counter(seq![Piece::Text(s)]),
        !uses_counter(seq![Piece::Declare(s)]),
        !uses_counter(seq![Piece::Wrap]),
        uses_counter(a + b) <==> uses_counter(a) || uses_counter(b),
{
    let c = a + b;
    assert(seq![Piece::Name(s)][0] == Piece::Name(s));
    if uses_counter(a) {
        let i = choose|i: int|
            0 <= i < a.len() && (#[trigger] a[i] matches Piece::Name(x) && counter_word(x@));
        assert(c[i] == a[i]);
    }
    if uses_counter(b) {
        let i = choose|i: int|
            0 <= i < b.len() && (#[trigger] b[i] matches Piece::Name(x) && counter_word(x@));
        assert(c[a.len() + i] == b[i]);
    }
    if uses_counter(c) {
        let i = choose|i: int|
            0 <= i < c.len() && (#[trigger] c[i] matches Piece::Name(x) && counter_word(x@));
        if i < a.len() {
            assert(a[i] == c[i]);
        } else {
            assert(b[i - a.len()] == c[i]);
        }
    }
}

/// A body needs a counter if and only if a part of it does.
pub proof fn lemma_body_counts(
    env: Env,
    path: Parts,
    a: Seq<Node>,
    b: Seq<Node>,
    n: Node,
    depth: nat,
)
    ensures
        !loops_count(env, path, Seq::empty(), depth),
        loops_count(env, path, seq![n], depth) <==> node_counts(env, path, n, depth),
        loops_count(env, path, a + b, depth) <==> loops_count(env, path, a, depth) || loops_count(
            env,
            path,
            b,
            depth,
        ),
    decreases b.len(),
{
    assert(seq![n].drop_last() =~= Seq::empty());
    assert(!loops_count(env, path, Seq::empty(), depth));
    if b.len() == 0 {
        assert(a + b =~= a);
    } else {
        lemma_body_counts(env, path, a, b.drop_last(), n, depth);
        assert((a + b).drop_last() =~= a + b.drop_last());
        assert((a + b).last() == b.last());
    }
}

/// A node needs the counter of the loop around it for its expressions and blocks, and a partial
/// for its template; text and comments do not. A loop inside needs it for its expression only,
/// as its body has a counter of its own.
pub proof fn lemma_node_needs(env: Env, path: Parts, n: Node, depth: nat)
    ensures
        n matches Node::Let(stmt) ==> (node_counts(env, path, n, depth) <==> uses_counter(
            stmt.pieces@,
        )),
        n matches Node::Safe(_, e) ==> (node_counts(env, path, n, depth) <==> uses_counter(
            e.pieces@,
        )),
        n matches Node::Expr(_, e) ==> (node_counts(env, path, n, depth) <==> uses_counter(
            e.pieces@,
        )),
        n is Lit || n is Comment ==> !node_counts(env, path, n, depth),
        n matches Node::Partial(_, name) ==> (depth > 0 ==> (node_counts(env, path, n, depth)
            <==> loops_count(
            env,
            partial_path(env.root, path, name@),
            env.templates[partial_path(env.root, path, name@)],
            (depth - 1) as nat,
        ))),
        n matches Node::Helper(Helper::Each(_, args, _)) ==> (node_counts(env, path, n, depth)
            <==> uses_counter(args.pieces@)),
        n matches Node::Helper(Helper::With(_, args, nodes)) ==> (node_counts(env, path, n, depth)
            <==> uses_counter(args.pieces@) || loops_count(env, path, nodes@, depth)),
        n matches Node::Helper(Helper::Unless(_, args, nodes)) ==> (node_counts(
            env,
            path,
            n,
            depth,
        ) <==> uses_counter(args.pieces@) || loops_count(env, path, nodes@, depth)),
{
    if let Node::Helper(h) = n {
        assert(node_counts(env, path, n, depth) == helper_counts(env, path, h, depth));
    }
}

/// A conditional needs the counter for any of its conditions and blocks.
pub proof fn lemma_conditional_needs(
    env: Env,
    path: Parts,
    first: ((Ws, Ws), Expression, Vec<Node>),
    ifs: Vec<(Ws, Expression, Vec<Node>)>,
    els: Option<(Ws, Vec<Node>)>,
    one: (Ws, Expression, Vec<Node>),
    more: Seq<(Ws, Expression, Vec<Node>)>,
    depth: nat,
)
    ensures
        node_counts(env, path, Node::Helper(Helper::If(first, ifs, els)), depth) <==> {
            ||| uses_counter(first.1.pieces@)
            ||| loops_count(env, path, first.2@, depth)
            ||| else_ifs_count(env, path, ifs@, depth)
            ||| els matches Some(e) && loops_count(env, path, e.1@, depth)
        },
        !else_ifs_count(env, path, Seq::empty(), depth),
        else_ifs_count(env, path, more.push(one), depth) <==> {
            ||| else_ifs_count(env, path, more, depth)
            ||| uses_counter(one.1.pieces@)
            ||| loops_count(env, path, one.2@, depth)
        },
{
    assert(node_counts(env, path, Node::Helper(Helper::If(first, ifs, els)), depth)
        == helper_counts(env, path, Helper::If(first, ifs, els), depth));
    assert(more.push(one).drop_last() =~= more);
    assert(else_if_counts(env, path, one, depth) == (uses_counter(one.1.pieces@) || loops_count(
        env,
        path,
        one.2@,
        depth,
    )));
}

} // verus!
