//! Which loops need a counter.
use vstd::prelude::*;

use crate::derive::Struct;
use crate::expr::{counts, uses_counter, Expression, Piece};
use crate::model::Env;
use crate::node::{Context, Helper, Node, Ws};
use crate::partials::{
    else_ifs_within, helper_within, lemma_each_else_if_within, lemma_each_within, node_within,
    nodes_within, partial_target,
};
use crate::path::{partial_path, Parts, TemplatePath};
use crate::text::same_text;

verus! {

/// Whether the body `nodes` of a loop, in the template at `path`, names a variable that the
/// counter of the loop is needed for. A loop inside has a counter of its own.
pub open spec fn loops_count(env: Env, path: Parts, nodes: Seq<Node>, depth: nat) -> bool
    decreases depth, nodes,
{
    nodes.len() > 0 && (loops_count(env, path, nodes.drop_last(), depth) || node_counts(
        env,
        path,
        nodes.last(),
        depth,
    ))
}

/// Whether the node `n` names such a variable.
pub open spec fn node_counts(env: Env, path: Parts, n: Node, depth: nat) -> bool
    decreases depth, n,
{
    match n {
        Node::Let(stmt) => uses_counter(stmt.pieces@),
        Node::Safe(_, expr) => uses_counter(expr.pieces@),
        Node::Expr(_, expr) => uses_counter(expr.pieces@),
        Node::Lit(_, _, _) => false,
        Node::Helper(h) => helper_counts(env, path, h, depth),
        Node::Partial(_, name) => {
            let target = partial_path(env.root, path, name@);
            depth > 0 && loops_count(env, target, env.templates[target], (depth - 1) as nat)
        },
        Node::Comment(_) => false,
    }
}

/// Whether the helper `h` names such a variable.
pub open spec fn helper_counts(env: Env, path: Parts, h: Helper, depth: nat) -> bool
    decreases depth, h,
{
    match h {
        Helper::Each(_, args, _) => uses_counter(args.pieces@),
        Helper::If(first, ifs, els) => {
            ||| uses_counter(first.1.pieces@)
            ||| loops_count(env, path, first.2@, depth)
            ||| else_ifs_count(env, path, ifs@, depth)
            ||| (els matches Some(e) && loops_count(env, path, e.1@, depth))
        },
        Helper::With(_, args, nodes) => uses_counter(args.pieces@) || loops_count(
            env,
            path,
            nodes@,
            depth,
        ),
        Helper::Unless(_, args, nodes) => uses_counter(args.pieces@) || loops_count(
            env,
            path,
            nodes@,
            depth,
        ),
        Helper::Defined(_, _, _, _) => false,
    }
}

/// Whether the further conditions `ifs` name such a variable.
pub open spec fn else_ifs_count(
    env: Env,
    path: Parts,
    ifs: Seq<(Ws, Expression, Vec<Node>)>,
    depth: nat,
) -> bool
    decreases depth, ifs,
{
    ifs.len() > 0 && (else_ifs_count(env, path, ifs.drop_last(), depth) || else_if_counts(
        env,
        path,
        ifs.last(),
        depth,
    ))
}

/// Whether a further condition, or its block, names such a variable.
pub open spec fn else_if_counts(
    env: Env,
    path: Parts,
    one: (Ws, Expression, Vec<Node>),
    depth: nat,
) -> bool
    decreases depth, one,
{
    uses_counter(one.1.pieces@) || loops_count(env, path, one.2@, depth)
}

/// A node that names such a variable is enough.
pub proof fn lemma_counts(env: Env, path: Parts, nodes: Seq<Node>, depth: nat)
    ensures
        loops_count(env, path, nodes, depth) == exists|i: int|
            0 <= i < nodes.len() && node_counts(env, path, #[trigger] nodes[i], depth),
    decreases nodes.len(),
{
    if nodes.len() > 0 {
        let before = nodes.drop_last();
        lemma_counts(env, path, before, depth);
        if exists|i: int|
            0 <= i < before.len() && node_counts(env, path, #[trigger] before[i], depth) {
            let i = choose|i: int|
                0 <= i < before.len() && node_counts(env, path, #[trigger] before[i], depth);
            assert(nodes[i] == before[i]);
        }
        if exists|i: int|
            0 <= i < nodes.len() && node_counts(env, path, #[trigger] nodes[i], depth) {
            let i = choose|i: int|
                0 <= i < nodes.len() && node_counts(env, path, #[trigger] nodes[i], depth);
            if i < before.len() {
                assert(nodes[i] == before[i]);
            }
        }
        assert(nodes.last() == nodes[nodes.len() - 1]);
    }
}

/// A further condition that names such a variable is enough.
pub proof fn lemma_else_ifs_count(
    env: Env,
    path: Parts,
    ifs: Seq<(Ws, Expression, Vec<Node>)>,
    depth: nat,
)
    ensures
        else_ifs_count(env, path, ifs, depth) == exists|i: int|
            0 <= i < ifs.len() && else_if_counts(env, path, #[trigger] ifs[i], depth),
    decreases ifs.len(),
{
    if ifs.len() > 0 {
        let before = ifs.drop_last();
        lemma_else_ifs_count(env, path, before, depth);
        if exists|i: int|
            0 <= i < before.len() && else_if_counts(env, path, #[trigger] before[i], depth) {
            let i = choose|i: int|
                0 <= i < before.len() && else_if_counts(env, path, #[trigger] before[i], depth);
            assert(ifs[i] == before[i]);
        }
        if exists|i: int|
            0 <= i < ifs.len() && else_if_counts(env, path, #[trigger] ifs[i], depth) {
            let i = choose|i: int|
                0 <= i < ifs.len() && else_if_counts(env, path, #[trigger] ifs[i], depth);
            if i < before.len() {
                assert(ifs[i] == before[i]);
            }
        }
        assert(ifs.last() == ifs[ifs.len() - 1]);
    }
}

/// Whether `ident` is a variable of a loop that its counter is needed for.
pub fn needs_counter(ident: &str) -> (r: bool)
    ensures
        r == counts(ident@),
{
    same_text(ident, "index0") || same_text(ident, "index") || same_text(ident, "first")
        || same_text(ident, "last")
}

fn pieces_use_counter(pieces: &Vec<Piece>) -> (r: bool)
    ensures
        r == uses_counter(pieces@),
{
    let mut i: usize = 0;
    while i < pieces.len()
        invariant
            i <= pieces.len(),
            forall|j: int|
                0 <= j < i ==> !(#[trigger] pieces@[j] matches Piece::Name(ident) && counts(
                    ident@,
                )),
        decreases pieces.len() - i,
    {
        if let Piece::Name(ident) = &pieces[i] {
            if needs_counter(ident.as_str()) {
                assert(pieces@[i as int] matches Piece::Name(ident) && counts(ident@));
                return true;
            }
        }
        i += 1;
    }
    false
}

/// Whether the loop with the body `nodes`, in the template at `path`, needs a counter.
pub(crate) fn find_loop_var(
    s: &Struct,
    ctx: &Context,
    path: &TemplatePath,
    nodes: &Vec<Node>,
    Ghost(depth): Ghost<nat>,
) -> (r: bool)
    requires
        ctx.wf(),
        nodes_within(s.env(*ctx), path@, nodes@, depth),
    ensures
        r == loops_count(s.env(*ctx), path@, nodes@, depth),
    decreases depth, *nodes,
{
    proof {
        lemma_counts(s.env(*ctx), path@, nodes@, depth);
        lemma_each_within(s.env(*ctx), path@, nodes@, depth);
    }
    let mut i: usize = 0;
    while i < nodes.len()
        invariant
            ctx.wf(),
            i <= nodes.len(),
            forall|j: int|
                0 <= j < nodes.len() ==> node_within(
                    s.env(*ctx),
                    path@,
                    #[trigger] nodes@[j],
                    depth,
                ),
            forall|j: int|
                0 <= j < i ==> !node_counts(s.env(*ctx), path@, #[trigger] nodes@[j], depth),
            loops_count(s.env(*ctx), path@, nodes@, depth) == exists|j: int|
                0 <= j < nodes.len() && node_counts(
                    s.env(*ctx),
                    path@,
                    #[trigger] nodes@[j],
                    depth,
                ),
        decreases nodes.len() - i,
    {
        if find_in_node(s, ctx, path, &nodes[i], Ghost(depth)) {
            assert(node_counts(s.env(*ctx), path@, nodes@[i as int], depth));
            return true;
        }
        i += 1;
    }
    false
}

fn find_in_node(
    s: &Struct,
    ctx: &Context,
    path: &TemplatePath,
    n: &Node,
    Ghost(depth): Ghost<nat>,
) -> (r: bool)
    requires
        ctx.wf(),
        node_within(s.env(*ctx), path@, *n, depth),
    ensures
        r == node_counts(s.env(*ctx), path@, *n, depth),
    decreases depth, *n,
{
    match n {
        Node::Let(stmt) => pieces_use_counter(&stmt.pieces),
        Node::Safe(_, expr) => pieces_use_counter(&expr.pieces),
        Node::Expr(_, expr) => pieces_use_counter(&expr.pieces),
        Node::Lit(_, _, _) => false,
        Node::Helper(h) => find_in_helper(s, ctx, path, h, Ghost(depth)),
        Node::Partial(_, name) => {
            let target = partial_target(&s.path, path, name);
            match ctx.get(&target) {
                Some(nodes) => find_loop_var(s, ctx, &target, nodes, Ghost((depth - 1) as nat)),
                None => false,
            }
        },
        Node::Comment(_) => false,
    }
}

fn find_in_helper(
    s: &Struct,
    ctx: &Context,
    path: &TemplatePath,
    h: &Helper,
    Ghost(depth): Ghost<nat>,
) -> (r: bool)
    requires
        ctx.wf(),
        helper_within(s.env(*ctx), path@, *h, depth),
    ensures
        r == helper_counts(s.env(*ctx), path@, *h, depth),
    decreases depth, *h,
{
    match h {
        Helper::Each(_, args, _) => pieces_use_counter(&args.pieces),
        Helper::If(first, ifs, els) => {
            pieces_use_counter(&first.1.pieces) || find_loop_var(
                s,
                ctx,
                path,
                &first.2,
                Ghost(depth),
            ) || find_in_else_ifs(s, ctx, path, ifs, Ghost(depth)) || match els {
                Some(e) => find_loop_var(s, ctx, path, &e.1, Ghost(depth)),
                None => false,
            }
        },
        Helper::With(_, args, nodes) => {
            pieces_use_counter(&args.pieces) || find_loop_var(s, ctx, path, nodes, Ghost(depth))
        },
        Helper::Unless(_, args, nodes) => {
            pieces_use_counter(&args.pieces) || find_loop_var(s, ctx, path, nodes, Ghost(depth))
        },
        Helper::Defined(_, _, _, _) => false,
    }
}

fn find_in_else_ifs(
    s: &Struct,
    ctx: &Context,
    path: &TemplatePath,
    ifs: &Vec<(Ws, Expression, Vec<Node>)>,
    Ghost(depth): Ghost<nat>,
) -> (r: bool)
    requires
        ctx.wf(),
        else_ifs_within(s.env(*ctx), path@, ifs@, depth),
    ensures
        r == else_ifs_count(s.env(*ctx), path@, ifs@, depth),
    decreases depth, *ifs,
{
    proof {
        lemma_else_ifs_count(s.env(*ctx), path@, ifs@, depth);
        lemma_each_else_if_within(s.env(*ctx), path@, ifs@, depth);
    }
    let mut i: usize = 0;
    while i < ifs.len()
        invariant
            ctx.wf(),
            i <= ifs.len(),
            forall|j: int|
                0 <= j < ifs.len() ==> nodes_within(
                    s.env(*ctx),
                    path@,
                    (#[trigger] ifs@[j]).2@,
                    depth,
                ),
            forall|j: int|
                0 <= j < i ==> !else_if_counts(s.env(*ctx), path@, #[trigger] ifs@[j], depth),
            else_ifs_count(s.env(*ctx), path@, ifs@, depth) == exists|j: int|
                0 <= j < ifs.len() && else_if_counts(
                    s.env(*ctx),
                    path@,
                    #[trigger] ifs@[j],
                    depth,
                ),
        decreases ifs.len() - i,
    {
        let one = &ifs[i];
        if pieces_use_counter(&one.1.pieces) || find_loop_var(
            s,
            ctx,
            path,
            &one.2,
            Ghost(depth),
        ) {
            assert(else_if_counts(s.env(*ctx), path@, ifs@[i as int], depth));
            return true;
        }
        i += 1;
    }
    false
}

} // verus!
