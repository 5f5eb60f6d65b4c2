//! The numbers of loops, which their names are made of.
use vstd::prelude::*;

use crate::expr::{Expression, Piece};
use crate::laws::follow::{
    lemma_else_ifs_follow, lemma_if_block_follows, lemma_nodes_follow, lemma_pieces,
};
use crate::loops::loops_count;
use crate::model::{
    emit_else_ifs, emit_nodes, index_name, key_name, loop_scope, open_each, open_else, open_if,
    open_partial, open_unless, open_with, Env, Frame, State,
};
use crate::node::{Helper, Node, Ws};
use crate::path::partial_path;

verus! {

/// The number of a loop over `args` that is met in the state `st`.
pub open spec fn loop_number(env: Env, st: State, ws: Ws, args: Seq<Piece>) -> nat {
    st.handle_ws(ws).flush(env.escaping).pieces(args).scopes.len()
}

/// Every loop in `nodes`, at any depth, has a number of at least `n`.
pub open spec fn nodes_from(env: Env, nodes: Seq<Node>, st: State, depth: nat, n: nat) -> bool
    decreases depth, nodes,
{
    nodes.len() > 0 ==> nodes_from(env, nodes.drop_last(), st, depth, n) && node_from(
        env,
        nodes.last(),
        emit_nodes(env, nodes.drop_last(), st, depth),
        depth,
        n,
    )
}

/// Every loop in the node `x` has a number of at least `n`.
pub open spec fn node_from(env: Env, x: Node, st: State, depth: nat, n: nat) -> bool
    decreases depth, x,
{
    match x {
        Node::Helper(h) => helper_from(env, h, st, depth, n),
        Node::Partial(ws, name) => {
            let target = partial_path(env.root, st.path, name@);
            depth > 0 ==> nodes_from(
                env,
                env.templates[target],
                open_partial(st, ws, target),
                (depth - 1) as nat,
                n,
            )
        },
        _ => true,
    }
}

/// Every loop in the helper `h`, itself among them, has a number of at least `n`.
pub open spec fn helper_from(env: Env, h: Helper, st: State, depth: nat, n: nat) -> bool
    decreases depth, h,
{
    match h {
        Helper::Each(ws, args, nodes) => {
            let counted = loops_count(env, st.path, nodes@, depth);
            let body = open_each(env, st, ws.0, args.kind, args.pieces@, counted);
            &&& loop_number(env, st, ws.0, args.pieces@) >= n
            &&& nodes_from(env, nodes@, body, depth, n)
        },
        Helper::If(first, ifs, els) => {
            let body = open_if(env, st, first.0.0, "if "@, first.1.pieces@);
            let block = emit_nodes(env, first.2@, body, depth).settle(env.escaping).close_scope();
            let rest = emit_else_ifs(env, ifs@, block, depth);
            &&& nodes_from(env, first.2@, body, depth, n)
            &&& else_ifs_from(env, ifs@, block, depth, n)
            &&& els matches Some(e) ==> nodes_from(
                env,
                e.1@,
                open_else(env, rest, e.0),
                depth,
                n,
            )
        },
        Helper::With(ws, args, nodes) => nodes_from(
            env,
            nodes@,
            open_with(st, ws.0, args.pieces@),
            depth,
            n,
        ),
        Helper::Unless(ws, args, nodes) => nodes_from(
            env,
            nodes@,
            open_unless(env, st, ws.0, args.pieces@),
            depth,
            n,
        ),
        Helper::Defined(_, _, _, _) => true,
    }
}

/// Every loop in the further conditions `ifs` has a number of at least `n`.
pub open spec fn else_ifs_from(
    env: Env,
    ifs: Seq<(Ws, Expression, Vec<Node>)>,
    st: State,
    depth: nat,
    n: nat,
) -> bool
    decreases depth, ifs,
{
    ifs.len() > 0 ==> {
        let before = emit_else_ifs(env, ifs.drop_last(), st, depth);
        let one = ifs.last();
        let body = open_if(env, before, one.0, "} else if "@, one.1.pieces@);
        &&& else_ifs_from(env, ifs.drop_last(), st, depth, n)
        &&& nodes_from(env, one.2@, body, depth, n)
    }
}

/// The number of scopes grows inwards: where `n` of them are open, every loop has a number of at
/// least `n`, at any depth.
pub proof fn lemma_nodes_from(env: Env, nodes: Seq<Node>, st: State, depth: nat, n: nat)
    requires
        st.scopes.len() >= n,
    ensures
        nodes_from(env, nodes, st, depth, n),
    decreases depth, nodes,
{
    if nodes.len() > 0 {
        let before = emit_nodes(env, nodes.drop_last(), st, depth);
        lemma_nodes_from(env, nodes.drop_last(), st, depth, n);
        lemma_nodes_follow(env, nodes.drop_last(), st, depth);
        lemma_node_from(env, nodes.last(), before, depth, n);
    }
}

/// The same for one node.
pub proof fn lemma_node_from(env: Env, x: Node, st: State, depth: nat, n: nat)
    requires
        st.scopes.len() >= n,
    ensures
        node_from(env, x, st, depth, n),
    decreases depth, x,
{
    match x {
        Node::Helper(h) => {
            lemma_helper_from(env, h, st, depth, n);
        },
        Node::Partial(ws, name) => {
            if depth > 0 {
                let target = partial_path(env.root, st.path, name@);
                let body = open_partial(st, ws, target);
                lemma_nodes_from(env, env.templates[target], body, (depth - 1) as nat, n);
            }
        },
        _ => {},
    }
}

proof fn lemma_open_if_scopes(env: Env, st: State, ws: Ws, keyword: Seq<char>, cond: Seq<Piece>)
    ensures
        open_if(env, st, ws, keyword, cond).scopes.len() == st.scopes.len() + 1,
{
    lemma_pieces(st.handle_ws(ws).flush(env.escaping).open_scope(Seq::empty()), cond);
}

/// The same for a helper.
pub proof fn lemma_helper_from(env: Env, h: Helper, st: State, depth: nat, n: nat)
    requires
        st.scopes.len() >= n,
    ensures
        helper_from(env, h, st, depth, n),
    decreases depth, h,
{
    match h {
        Helper::Each(ws, args, nodes) => {
            let counted = loops_count(env, st.path, nodes@, depth);
            let body = open_each(env, st, ws.0, args.kind, args.pieces@, counted);
            lemma_pieces(st.handle_ws(ws.0).flush(env.escaping), args.pieces@);
            lemma_nodes_from(env, nodes@, body, depth, n);
        },
        Helper::If(first, ifs, els) => {
            let body = open_if(env, st, first.0.0, "if "@, first.1.pieces@);
            let block = emit_nodes(env, first.2@, body, depth).settle(env.escaping).close_scope();
            lemma_open_if_scopes(env, st, first.0.0, "if "@, first.1.pieces@);
            lemma_nodes_from(env, first.2@, body, depth, n);
            lemma_if_block_follows(
                env,
                st,
                first.0.0,
                "if "@,
                first.1.pieces@,
                first.2@,
                depth,
            );
            lemma_else_ifs_from(env, ifs@, block, depth, n);
            lemma_else_ifs_follow(env, ifs@, block, depth);
            if let Some(e) = els {
                let rest = emit_else_ifs(env, ifs@, block, depth);
                lemma_nodes_from(env, e.1@, open_else(env, rest, e.0), depth, n);
            }
        },
        Helper::With(ws, args, nodes) => {
            lemma_pieces(st.handle_ws(ws.0), args.pieces@);
            lemma_nodes_from(env, nodes@, open_with(st, ws.0, args.pieces@), depth, n);
        },
        Helper::Unless(ws, args, nodes) => {
            lemma_pieces(st.handle_ws(ws.0).flush(env.escaping), args.pieces@);
            lemma_nodes_from(env, nodes@, open_unless(env, st, ws.0, args.pieces@), depth, n);
        },
        Helper::Defined(_, _, _, _) => {},
    }
}

/// The same for further conditions.
pub proof fn lemma_else_ifs_from(
    env: Env,
    ifs: Seq<(Ws, Expression, Vec<Node>)>,
    st: State,
    depth: nat,
    n: nat,
)
    requires
        st.scopes.len() >= n,
    ensures
        else_ifs_from(env, ifs, st, depth, n),
    decreases depth, ifs,
{
    if ifs.len() > 0 {
        let before = emit_else_ifs(env, ifs.drop_last(), st, depth);
        let one = ifs.last();
        let body = open_if(env, before, one.0, "} else if "@, one.1.pieces@);
        lemma_else_ifs_from(env, ifs.drop_last(), st, depth, n);
        lemma_else_ifs_follow(env, ifs.drop_last(), st, depth);
        lemma_open_if_scopes(env, before, one.0, "} else if "@, one.1.pieces@);
        lemma_nodes_from(env, one.2@, body, depth, n);
    }
}

/// A loop has its number in the names of its item and its counter, and every loop inside of it,
/// at any depth and through partials, has a greater number.
pub proof fn lemma_inner_loops(
    env: Env,
    ws: Ws,
    args: Expression,
    nodes: Seq<Node>,
    st: State,
    depth: nat,
)
    ensures
        ({
            let counted = loops_count(env, st.path, nodes, depth);
            let body = open_each(env, st, ws, args.kind, args.pieces@, counted);
            let id = loop_number(env, st, ws, args.pieces@);
            &&& body.on.last() == Frame::Each(id)
            &&& body.scopes.last()[0] == key_name(id)
            &&& counted ==> body.scopes.last()[1] == index_name(id)
            &&& nodes_from(env, nodes, body, depth, id + 1)
        }),
{
    let counted = loops_count(env, st.path, nodes, depth);
    let body = open_each(env, st, ws, args.kind, args.pieces@, counted);
    let id = loop_number(env, st, ws, args.pieces@);
    assert(body.scopes.last() == loop_scope(id, counted));
    lemma_nodes_from(env, nodes, body, depth, id + 1);
}

} // verus!
