//! What the generator can go through.
use vstd::prelude::*;

use crate::check::unless_refused;
use crate::expr::Expression;
use crate::loops::loops_count;
use crate::model::{
    emit_else_ifs, emit_nodes, open_each, open_else, open_if, open_partial, open_unless,
    open_with, Env, State,
};
use crate::node::{Helper, Node, Ws};
use crate::path::partial_path;

verus! {

/// The generator can go through `nodes` from the state `st`: each text is met in order, the
/// scopes hold what each expression is made of where it is met, each partial stands for a
/// template that is there, with partials nested no deeper than `depth`, and each helper is one
/// that is built in, with an argument that it accepts.
pub open spec fn nodes_ready(env: Env, nodes: Seq<Node>, st: State, depth: nat) -> bool
    decreases depth, nodes,
{
    nodes.len() > 0 ==> nodes_ready(env, nodes.drop_last(), st, depth) && node_ready(
        env,
        nodes.last(),
        emit_nodes(env, nodes.drop_last(), st, depth),
        depth,
    )
}

/// The generator can go through the node `n`.
pub open spec fn node_ready(env: Env, n: Node, st: State, depth: nat) -> bool
    decreases depth, n,
{
    match n {
        Node::Let(stmt) => st.reaches_all(stmt.pieces@),
        Node::Safe(_, expr) => st.reaches_all(expr.pieces@),
        Node::Expr(_, expr) => st.reaches_all(expr.pieces@),
        Node::Lit(l, lit, r) => st.in_order(l@, lit@, r@),
        Node::Helper(h) => helper_ready(env, h, st, depth),
        Node::Partial(ws, name) => {
            let target = partial_path(env.root, st.path, name@);
            &&& env.templates.dom().contains(target)
            &&& depth > 0
            &&& nodes_ready(
                env,
                env.templates[target],
                open_partial(st, ws, target),
                (depth - 1) as nat,
            )
        },
        Node::Comment(_) => true,
    }
}

/// The generator can go through the helper `h`.
pub open spec fn helper_ready(env: Env, h: Helper, st: State, depth: nat) -> bool
    decreases depth, h,
{
    match h {
        Helper::Each(ws, args, nodes) => {
            let counted = loops_count(env, st.path, nodes@, depth);
            let body = open_each(env, st, ws.0, args.kind, args.pieces@, counted);
            &&& st.reaches_all(args.pieces@)
            &&& nodes_ready(env, nodes@, body, depth)
        },
        Helper::If(first, ifs, els) => {
            let body = open_if(env, st, first.0.0, "if "@, first.1.pieces@);
            let block = emit_nodes(env, first.2@, body, depth).settle(env.escaping).close_scope();
            let rest = emit_else_ifs(env, ifs@, block, depth);
            &&& st.open_scope(Seq::empty()).reaches_all(first.1.pieces@)
            &&& nodes_ready(env, first.2@, body, depth)
            &&& else_ifs_ready(env, ifs@, block, depth)
            &&& els matches Some(e) ==> nodes_ready(env, e.1@, open_else(env, rest, e.0), depth)
        },
        Helper::With(ws, args, nodes) => {
            &&& st.reaches_all(args.pieces@)
            &&& nodes_ready(env, nodes@, open_with(st, ws.0, args.pieces@), depth)
        },
        Helper::Unless(ws, args, nodes) => {
            &&& unless_refused(args.kind) is None
            &&& st.reaches_all(args.pieces@)
            &&& nodes_ready(env, nodes@, open_unless(env, st, ws.0, args.pieces@), depth)
        },
        Helper::Defined(_, _, _, _) => false,
    }
}

/// The generator can go through the further conditions `ifs`.
pub open spec fn else_ifs_ready(
    env: Env,
    ifs: Seq<(Ws, Expression, Vec<Node>)>,
    st: State,
    depth: nat,
) -> bool
    decreases depth, ifs,
{
    ifs.len() > 0 ==> {
        let before = emit_else_ifs(env, ifs.drop_last(), st, depth);
        let one = ifs.last();
        let body = open_if(env, before, one.0, "} else if "@, one.1.pieces@);
        &&& else_ifs_ready(env, ifs.drop_last(), st, depth)
        &&& before.open_scope(Seq::empty()).reaches_all(one.1.pieces@)
        &&& nodes_ready(env, one.2@, body, depth)
    }
}

} // verus!
