//! Templates that are accepted can be gone through.
use vstd::prelude::*;

use crate::check::{
    else_ifs_refused, helper_refused, node_refused, node_spaces, nodes_refused, nodes_spaces,
};
use crate::expr::{counts, uses_counter, Expression, Piece};
use crate::laws::after::{
    lemma_else_ifs_after, lemma_nodes_after, lemma_pieces_after, lemma_steps_after,
};
use crate::laws::follow::{
    lemma_else_ifs_follow, lemma_if_block_follows, lemma_nodes_follow, lemma_pieces,
    lemma_scopes_last,
};
use crate::laws::names::{lemma_loop_is_open, lemma_pieces_local};
use crate::loops::{else_if_counts, else_ifs_count, loops_count, node_counts};
use crate::model::{
    emit_else_ifs, emit_helper, emit_node, emit_nodes, emit_partial, loop_scope, open_each,
    open_else, open_if, open_partial, open_unless, open_with, Env, Frame, State,
};
use crate::node::{Helper, Node, Ws};
use crate::partials::{else_ifs_within, helper_within, node_within, nodes_within};
use crate::path::partial_path;
use crate::ready::{else_ifs_ready, helper_ready, node_ready, nodes_ready};

verus! {

/// The code for the names in the first `n` pieces is within reach if that for all of them is.
pub proof fn lemma_reaches_first(st: State, pieces: Seq<Piece>, n: int)
    requires
        st.reaches_all(pieces),
        0 <= n <= pieces.len(),
    ensures
        st.reaches_all(pieces.take(n)),
    decreases pieces.len(),
{
    if n == pieces.len() {
        assert(pieces.take(n) =~= pieces);
    } else {
        assert(pieces.drop_last().take(n) =~= pieces.take(n));
        lemma_reaches_first(st, pieces.drop_last(), n);
    }
}

/// In valid scopes, the code for every name is within reach, that for the variables of a loop
/// that has a counter among them.
pub proof fn lemma_reaches(st: State, pieces: Seq<Piece>)
    requires
        st.scoped(),
        uses_counter(pieces) ==> st.counted(),
    ensures
        st.reaches_all(pieces),
    decreases pieces.len(),
{
    if pieces.len() > 0 {
        let rest = pieces.drop_last();
        let before = st.pieces(rest);
        if uses_counter(rest) {
            let i = choose|i: int|
                0 <= i < rest.len() && (#[trigger] rest[i] matches Piece::Name(ident) && counts(
                    ident@,
                ));
            assert(pieces[i] == rest[i]);
        }
        lemma_reaches(st, rest);
        lemma_pieces(st, rest);
        lemma_scopes_last(st, before);
        lemma_loop_is_open(before.on);
        if let Piece::Name(ident) = pieces.last() {
            assert(pieces[pieces.len() - 1] == pieces.last());
            assert(counts(ident@) ==> before.counted());
            assert(before.on.len() > 0 ==> before.on[before.on.len() - 1].scope()
                < before.scopes.len());
        }
    }
}

/// Inside a new scope, names are looked up as before.
pub proof fn lemma_inside(a: State, b: State)
    requires
        a.scoped(),
        b.on == a.on,
        b.scopes.len() == a.scopes.len() + 1,
        forall|j: int|
            0 <= j < a.scopes.len() ==> a.scopes[j].len() <= (#[trigger] b.scopes[j]).len(),
    ensures
        b.scoped(),
        a.counted() ==> b.counted(),
{
}

/// Inside a new block that names are looked up in, they are looked up in its scope.
pub proof fn lemma_entered(a: State, b: State, frame: Frame, names: Seq<Seq<char>>)
    requires
        a.scoped(),
        b.on == a.on.push(frame),
        frame.scope() == a.scopes.len(),
        b.scopes == a.scopes.push(names),
        names.len() > 0,
    ensures
        b.scoped(),
        frame is Each && names.len() > 1 ==> b.counted(),
        frame is With && a.counted() ==> b.counted(),
{
    assert(b.on.drop_last() =~= a.on);
    assert forall|i: int| 0 <= i < b.on.len() implies (#[trigger] b.on[i]).scope() < b.scopes.len()
        && b.scopes[b.on[i].scope() as int].len() > 0 by {
        if i < a.on.len() {
            assert(b.on[i] == a.on[i]);
        }
    }
}

/// What the names in `pieces` stand for depends on the scopes and the open blocks alone.
pub proof fn lemma_reaches_local(a: State, b: State, pieces: Seq<Piece>)
    requires
        a.scopes == b.scopes,
        a.on == b.on,
        a.text == b.text,
    ensures
        a.reaches_all(pieces) == b.reaches_all(pieces),
    decreases pieces.len(),
{
    if pieces.len() > 0 {
        let rest = pieces.drop_last();
        lemma_reaches_local(a, b, rest);
        lemma_pieces_local(a, b, rest);
        lemma_pieces(a, rest);
        lemma_pieces(b, rest);
    }
}

/// What is known of the whitespace after nodes is what the generator finds there.
pub proof fn lemma_nodes_spaces(env: Env, nodes: Seq<Node>, st: State, depth: nat)
    ensures
        emit_nodes(env, nodes, st, depth).spaces() == nodes_spaces(
            env,
            st.path,
            nodes,
            st.spaces(),
            depth,
        ),
    decreases depth, nodes,
{
    if nodes.len() > 0 {
        let before = emit_nodes(env, nodes.drop_last(), st, depth);
        lemma_nodes_spaces(env, nodes.drop_last(), st, depth);
        lemma_nodes_follow(env, nodes.drop_last(), st, depth);
        lemma_node_spaces(env, nodes.last(), before, depth);
    }
}

/// The same for one node.
pub proof fn lemma_node_spaces(env: Env, n: Node, st: State, depth: nat)
    ensures
        emit_node(env, n, st, depth).spaces() == node_spaces(env, st.path, n, st.spaces(), depth),
    decreases depth, n,
{
    match n {
        Node::Let(stmt) => {
            lemma_pieces(st.drop_ws().flush(env.escaping), stmt.pieces@);
        },
        Node::Partial(ws, name) => {
            if depth > 0 {
                let target = partial_path(env.root, st.path, name@);
                let body = open_partial(st, ws, target);
                lemma_nodes_spaces(env, env.templates[target], body, (depth - 1) as nat);
                assert(emit_partial(env, ws, name@, st, depth).spaces() == node_spaces(
                    env,
                    st.path,
                    n,
                    st.spaces(),
                    depth,
                ));
            }
        },
        Node::Helper(h) => {
            assert(emit_helper(env, h, st, depth).spaces() == node_spaces(
                env,
                st.path,
                n,
                st.spaces(),
                depth,
            ));
        },
        _ => {},
    }
}

/// The generator can go through nodes that are accepted, from valid scopes and with a counter in
/// the innermost loop if they name one.
pub proof fn lemma_nodes_ready(env: Env, nodes: Seq<Node>, st: State, depth: nat)
    requires
        st.scoped(),
        loops_count(env, st.path, nodes, depth) ==> st.counted(),
        nodes_refused(env, st.path, nodes, st.spaces(), depth) is None,
    ensures
        nodes_ready(env, nodes, st, depth),
    decreases depth, nodes,
{
    if nodes.len() > 0 {
        let before = emit_nodes(env, nodes.drop_last(), st, depth);
        lemma_nodes_ready(env, nodes.drop_last(), st, depth);
        lemma_nodes_follow(env, nodes.drop_last(), st, depth);
        lemma_nodes_spaces(env, nodes.drop_last(), st, depth);
        lemma_scopes_last(st, before);
        lemma_node_ready(env, nodes.last(), before, depth);
    }
}

/// The same for one node.
pub proof fn lemma_node_ready(env: Env, n: Node, st: State, depth: nat)
    requires
        st.scoped(),
        node_counts(env, st.path, n, depth) ==> st.counted(),
        node_refused(env, st.path, n, st.spaces(), depth) is None,
    ensures
        node_ready(env, n, st, depth),
    decreases depth, n,
{
    match n {
        Node::Let(stmt) => {
            lemma_reaches(st, stmt.pieces@);
        },
        Node::Safe(_, expr) => {
            lemma_reaches(st, expr.pieces@);
        },
        Node::Expr(_, expr) => {
            lemma_reaches(st, expr.pieces@);
        },
        Node::Helper(h) => {
            lemma_helper_ready(env, h, st, depth);
        },
        Node::Partial(ws, name) => {
            let target = partial_path(env.root, st.path, name@);
            let body = open_partial(st, ws, target);
            lemma_inside(st, body);
            lemma_nodes_ready(env, env.templates[target], body, (depth - 1) as nat);
        },
        _ => {},
    }
}

/// The body of a loop starts in valid scopes, with a counter if it names one.
proof fn lemma_each_opened(
    env: Env,
    ws: Ws,
    args: Expression,
    nodes: Seq<Node>,
    st: State,
    depth: nat,
)
    requires
        st.scoped(),
    ensures
        ({
            let counted = loops_count(env, st.path, nodes, depth);
            let body = open_each(env, st, ws, args.kind, args.pieces@, counted);
            &&& body.scoped()
            &&& counted ==> body.counted()
            &&& body.path == st.path
            &&& body.spaces() == st.handle_ws(ws).spaces()
        }),
{
    let counted = loops_count(env, st.path, nodes, depth);
    let a = st.handle_ws(ws).flush(env.escaping);
    let v = a.pieces(args.pieces@);
    let id = v.scopes.len();
    let body = open_each(env, st, ws, args.kind, args.pieces@, counted);
    lemma_pieces(a, args.pieces@);
    lemma_scopes_last(a, v);
    lemma_entered(v, body, Frame::Each(id), loop_scope(id, counted));
}

/// A conditional block starts in valid scopes.
proof fn lemma_if_opened(env: Env, st: State, ws: Ws, keyword: Seq<char>, cond: Expression)
    requires
        st.scoped(),
        uses_counter(cond.pieces@) ==> st.counted(),
    ensures
        ({
            let body = open_if(env, st, ws, keyword, cond.pieces@);
            &&& st.open_scope(Seq::empty()).reaches_all(cond.pieces@)
            &&& body.scoped()
            &&& st.counted() ==> body.counted()
            &&& body.path == st.path
            &&& body.spaces() == st.handle_ws(ws).spaces()
        }),
{
    let opened = st.handle_ws(ws).flush(env.escaping).open_scope(Seq::empty());
    lemma_inside(st, st.open_scope(Seq::empty()));
    lemma_inside(st, opened);
    lemma_reaches(st.open_scope(Seq::empty()), cond.pieces@);
    lemma_pieces(opened, cond.pieces@);
    lemma_scopes_last(opened, opened.pieces(cond.pieces@));
}

/// The same for a helper.
pub proof fn lemma_helper_ready(env: Env, h: Helper, st: State, depth: nat)
    requires
        st.scoped(),
        node_counts(env, st.path, Node::Helper(h), depth) ==> st.counted(),
        helper_refused(env, st.path, h, depth) is None,
    ensures
        helper_ready(env, h, st, depth),
    decreases depth, h,
{
    match h {
        Helper::Each(ws, args, nodes) => {
            let counted = loops_count(env, st.path, nodes@, depth);
            let body = open_each(env, st, ws.0, args.kind, args.pieces@, counted);
            lemma_reaches(st, args.pieces@);
            lemma_each_opened(env, ws.0, args, nodes@, st, depth);
            lemma_nodes_ready(env, nodes@, body, depth);
        },
        Helper::If(first, ifs, els) => {
            let body = open_if(env, st, first.0.0, "if "@, first.1.pieces@);
            let block = emit_nodes(env, first.2@, body, depth).settle(env.escaping).close_scope();
            lemma_if_opened(env, st, first.0.0, "if "@, first.1);
            lemma_nodes_ready(env, first.2@, body, depth);
            lemma_if_block_follows(
                env,
                st,
                first.0.0,
                "if "@,
                first.1.pieces@,
                first.2@,
                depth,
            );
            lemma_scopes_last(st, block);
            lemma_else_ifs_ready(env, ifs@, block, depth);
            if let Some(e) = els {
                let rest = emit_else_ifs(env, ifs@, block, depth);
                lemma_else_ifs_follow(env, ifs@, block, depth);
                lemma_scopes_last(block, rest);
                lemma_inside(rest, open_else(env, rest, e.0));
                lemma_nodes_ready(env, e.1@, open_else(env, rest, e.0), depth);
            }
        },
        Helper::With(ws, args, nodes) => {
            let a = st.handle_ws(ws.0);
            let v = a.pieces(args.pieces@);
            let body = open_with(st, ws.0, args.pieces@);
            lemma_reaches(st, args.pieces@);
            lemma_pieces(a, args.pieces@);
            lemma_scopes_last(a, v);
            lemma_entered(v, body, Frame::With(v.scopes.len()), seq![v.text]);
            lemma_nodes_ready(env, nodes@, body, depth);
        },
        Helper::Unless(ws, args, nodes) => {
            let a = st.handle_ws(ws.0).flush(env.escaping);
            let v = a.pieces(args.pieces@);
            let body = open_unless(env, st, ws.0, args.pieces@);
            lemma_reaches(st, args.pieces@);
            lemma_pieces(a, args.pieces@);
            lemma_scopes_last(a, v);
            lemma_inside(v, body);
            lemma_nodes_ready(env, nodes@, body, depth);
        },
        Helper::Defined(_, _, _, _) => {},
    }
}

/// The same for further conditions.
pub proof fn lemma_else_ifs_ready(
    env: Env,
    ifs: Seq<(Ws, Expression, Vec<Node>)>,
    st: State,
    depth: nat,
)
    requires
        st.scoped(),
        else_ifs_count(env, st.path, ifs, depth) ==> st.counted(),
        else_ifs_refused(env, st.path, ifs, depth) is None,
    ensures
        else_ifs_ready(env, ifs, st, depth),
    decreases depth, ifs,
{
    if ifs.len() > 0 {
        let before = emit_else_ifs(env, ifs.drop_last(), st, depth);
        let one = ifs.last();
        lemma_else_ifs_ready(env, ifs.drop_last(), st, depth);
        lemma_else_ifs_follow(env, ifs.drop_last(), st, depth);
        lemma_scopes_last(st, before);
        assert(else_if_counts(env, st.path, one, depth) ==> st.counted());
        lemma_if_opened(env, before, one.0, "} else if "@, one.1);
        lemma_nodes_ready(
            env,
            one.2@,
            open_if(env, before, one.0, "} else if "@, one.1.pieces@),
            depth,
        );
    }
}

/// Where the generator can go through nodes, the templates that they take in are there.
pub proof fn lemma_ready_within(env: Env, nodes: Seq<Node>, st: State, depth: nat)
    requires
        nodes_ready(env, nodes, st, depth),
    ensures
        nodes_within(env, st.path, nodes, depth),
    decreases depth, nodes,
{
    if nodes.len() > 0 {
        let before = emit_nodes(env, nodes.drop_last(), st, depth);
        lemma_ready_within(env, nodes.drop_last(), st, depth);
        lemma_nodes_follow(env, nodes.drop_last(), st, depth);
        lemma_node_ready_within(env, nodes.last(), before, depth);
    }
}

proof fn lemma_node_ready_within(env: Env, n: Node, st: State, depth: nat)
    requires
        node_ready(env, n, st, depth),
    ensures
        node_within(env, st.path, n, depth),
    decreases depth, n,
{
    match n {
        Node::Helper(h) => {
            lemma_helper_ready_within(env, h, st, depth);
        },
        Node::Partial(ws, name) => {
            let target = partial_path(env.root, st.path, name@);
            let body = open_partial(st, ws, target);
            lemma_ready_within(env, env.templates[target], body, (depth - 1) as nat);
        },
        _ => {},
    }
}

proof fn lemma_helper_ready_within(env: Env, h: Helper, st: State, depth: nat)
    requires
        helper_ready(env, h, st, depth),
    ensures
        helper_within(env, st.path, h, depth),
    decreases depth, h,
{
    match h {
        Helper::Each(ws, args, nodes) => {
            let counted = loops_count(env, st.path, nodes@, depth);
            let body = open_each(env, st, ws.0, args.kind, args.pieces@, counted);
            lemma_pieces(st.handle_ws(ws.0).flush(env.escaping), args.pieces@);
            lemma_ready_within(env, nodes@, body, depth);
        },
        Helper::If(first, ifs, els) => {
            let body = open_if(env, st, first.0.0, "if "@, first.1.pieces@);
            let block = emit_nodes(env, first.2@, body, depth).settle(env.escaping).close_scope();
            lemma_pieces(
                st.handle_ws(first.0.0).flush(env.escaping).open_scope(Seq::empty()),
                first.1.pieces@,
            );
            lemma_ready_within(env, first.2@, body, depth);
            lemma_nodes_follow(env, first.2@, body, depth);
            lemma_else_ifs_ready_within(env, ifs@, block, depth);
            if let Some(e) = els {
                let rest = emit_else_ifs(env, ifs@, block, depth);
                lemma_else_ifs_follow(env, ifs@, block, depth);
                lemma_ready_within(env, e.1@, open_else(env, rest, e.0), depth);
            }
        },
        Helper::With(ws, args, nodes) => {
            lemma_pieces(st.handle_ws(ws.0), args.pieces@);
            lemma_ready_within(env, nodes@, open_with(st, ws.0, args.pieces@), depth);
        },
        Helper::Unless(ws, args, nodes) => {
            lemma_pieces(st.handle_ws(ws.0).flush(env.escaping), args.pieces@);
            lemma_ready_within(env, nodes@, open_unless(env, st, ws.0, args.pieces@), depth);
        },
        Helper::Defined(_, _, _, _) => {},
    }
}

proof fn lemma_else_ifs_ready_within(
    env: Env,
    ifs: Seq<(Ws, Expression, Vec<Node>)>,
    st: State,
    depth: nat,
)
    requires
        else_ifs_ready(env, ifs, st, depth),
    ensures
        else_ifs_within(env, st.path, ifs, depth),
    decreases depth, ifs,
{
    if ifs.len() > 0 {
        let before = emit_else_ifs(env, ifs.drop_last(), st, depth);
        let one = ifs.last();
        let body = open_if(env, before, one.0, "} else if "@, one.1.pieces@);
        lemma_else_ifs_ready_within(env, ifs.drop_last(), st, depth);
        lemma_else_ifs_follow(env, ifs.drop_last(), st, depth);
        lemma_pieces(
            before.handle_ws(one.0).flush(env.escaping).open_scope(Seq::empty()),
            one.1.pieces@,
        );
        lemma_ready_within(env, one.2@, body, depth);
    }
}

/// The generator can go through the first `n` nodes if it can go through all of them.
pub proof fn lemma_ready_first(env: Env, nodes: Seq<Node>, st: State, depth: nat, n: int)
    requires
        nodes_ready(env, nodes, st, depth),
        0 <= n <= nodes.len(),
    ensures
        nodes_ready(env, nodes.take(n), st, depth),
    decreases nodes.len(),
{
    if n == nodes.len() {
        assert(nodes.take(n) =~= nodes);
    } else {
        assert(nodes.drop_last().take(n) =~= nodes.take(n));
        lemma_ready_first(env, nodes.drop_last(), st, depth, n);
    }
}

/// The generator can go through the first `n` conditions if it can go through all of them.
pub proof fn lemma_else_ifs_ready_first(
    env: Env,
    ifs: Seq<(Ws, Expression, Vec<Node>)>,
    st: State,
    depth: nat,
    n: int,
)
    requires
        else_ifs_ready(env, ifs, st, depth),
        0 <= n <= ifs.len(),
    ensures
        else_ifs_ready(env, ifs.take(n), st, depth),
    decreases ifs.len(),
{
    if n == ifs.len() {
        assert(ifs.take(n) =~= ifs);
    } else {
        assert(ifs.drop_last().take(n) =~= ifs.take(n));
        lemma_else_ifs_ready_first(env, ifs.drop_last(), st, depth, n);
    }
}

/// What has been written before does not matter to what the generator can go through.
pub proof fn lemma_ready_after(env: Env, nodes: Seq<Node>, st: State, depth: nat, out: Seq<char>)
    requires
        nodes_ready(env, nodes, st, depth),
    ensures
        nodes_ready(env, nodes, st.after(out), depth),
    decreases depth, nodes,
{
    if nodes.len() > 0 {
        let before = emit_nodes(env, nodes.drop_last(), st, depth);
        lemma_ready_after(env, nodes.drop_last(), st, depth, out);
        lemma_nodes_after(env, nodes.drop_last(), st, depth, out);
        lemma_node_ready_after(env, nodes.last(), before, depth, out);
    }
}

proof fn lemma_node_ready_after(env: Env, n: Node, st: State, depth: nat, out: Seq<char>)
    requires
        node_ready(env, n, st, depth),
    ensures
        node_ready(env, n, st.after(out), depth),
    decreases depth, n,
{
    match n {
        Node::Let(stmt) => {
            lemma_reaches_local(st, st.after(out), stmt.pieces@);
        },
        Node::Safe(_, expr) => {
            lemma_reaches_local(st, st.after(out), expr.pieces@);
        },
        Node::Expr(_, expr) => {
            lemma_reaches_local(st, st.after(out), expr.pieces@);
        },
        Node::Helper(h) => {
            lemma_helper_ready_after(env, h, st, depth, out);
        },
        Node::Partial(ws, name) => {
            let target = partial_path(env.root, st.path, name@);
            let body = open_partial(st, ws, target);
            assert(open_partial(st.after(out), ws, target) =~= body.after(out));
            lemma_ready_after(env, env.templates[target], body, (depth - 1) as nat, out);
        },
        _ => {},
    }
}

proof fn lemma_if_after(
    env: Env,
    st: State,
    ws: Ws,
    keyword: Seq<char>,
    cond: Seq<Piece>,
    nodes: Seq<Node>,
    depth: nat,
    out: Seq<char>,
)
    ensures
        ({
            let body = open_if(env, st, ws, keyword, cond);
            let block = emit_nodes(env, nodes, body, depth).settle(env.escaping).close_scope();
            let later = open_if(env, st.after(out), ws, keyword, cond);
            &&& later == body.after(out)
            &&& emit_nodes(env, nodes, later, depth).settle(env.escaping).close_scope()
                == block.after(out)
            &&& st.open_scope(Seq::empty()).reaches_all(cond) == st.after(out).open_scope(
                Seq::empty(),
            ).reaches_all(cond)
        }),
{
    let a = st.handle_ws(ws).flush(env.escaping);
    let opened = a.open_scope(Seq::empty());
    let v = opened.pieces(cond);
    let body = open_if(env, st, ws, keyword, cond);
    lemma_steps_after(st, out, env, ws, keyword);
    lemma_steps_after(st.handle_ws(ws), out, env, ws, keyword);
    assert(opened.after(out) =~= a.after(out).open_scope(Seq::empty()));
    lemma_pieces_after(opened, out, cond);
    lemma_steps_after(v, out, env, ws, keyword + v.text + " {"@);
    assert(open_if(env, st.after(out), ws, keyword, cond) =~= body.after(out));
    lemma_nodes_after(env, nodes, body, depth, out);
    let done = emit_nodes(env, nodes, body, depth);
    lemma_steps_after(done, out, env, ws, keyword);
    lemma_steps_after(done.settle(env.escaping), out, env, ws, keyword);
    lemma_reaches_local(
        st.open_scope(Seq::empty()),
        st.after(out).open_scope(Seq::empty()),
        cond,
    );
}

proof fn lemma_helper_ready_after(env: Env, h: Helper, st: State, depth: nat, out: Seq<char>)
    requires
        helper_ready(env, h, st, depth),
    ensures
        helper_ready(env, h, st.after(out), depth),
    decreases depth, h,
{
    match h {
        Helper::Each(ws, args, nodes) => {
            let counted = loops_count(env, st.path, nodes@, depth);
            let body = open_each(env, st, ws.0, args.kind, args.pieces@, counted);
            let a = st.handle_ws(ws.0).flush(env.escaping);
            lemma_steps_after(st, out, env, ws.0, Seq::empty());
            lemma_steps_after(st.handle_ws(ws.0), out, env, ws.0, Seq::empty());
            lemma_pieces_after(a, out, args.pieces@);
            lemma_reaches_local(st, st.after(out), args.pieces@);
            assert(open_each(
                env,
                st.after(out),
                ws.0,
                args.kind,
                args.pieces@,
                counted,
            ) =~= body.after(out));
            lemma_ready_after(env, nodes@, body, depth, out);
        },
        Helper::If(first, ifs, els) => {
            let cond = first.1.pieces@;
            let body = open_if(env, st, first.0.0, "if "@, cond);
            let block = emit_nodes(env, first.2@, body, depth).settle(env.escaping).close_scope();
            lemma_if_after(env, st, first.0.0, "if "@, cond, first.2@, depth, out);
            lemma_ready_after(env, first.2@, body, depth, out);
            lemma_else_ifs_ready_after(env, ifs@, block, depth, out);
            if let Some(e) = els {
                let rest = emit_else_ifs(env, ifs@, block, depth);
                let last = open_else(env, rest, e.0);
                lemma_else_ifs_after(env, ifs@, block, depth, out);
                assert(open_else(env, rest.after(out), e.0) =~= last.after(out));
                lemma_ready_after(env, e.1@, last, depth, out);
            }
        },
        Helper::With(ws, args, nodes) => {
            let body = open_with(st, ws.0, args.pieces@);
            lemma_pieces_after(st.handle_ws(ws.0), out, args.pieces@);
            lemma_steps_after(st, out, env, ws.0, Seq::empty());
            lemma_reaches_local(st, st.after(out), args.pieces@);
            assert(open_with(st.after(out), ws.0, args.pieces@) =~= body.after(out));
            lemma_ready_after(env, nodes@, body, depth, out);
        },
        Helper::Unless(ws, args, nodes) => {
            let body = open_unless(env, st, ws.0, args.pieces@);
            let a = st.handle_ws(ws.0).flush(env.escaping);
            lemma_steps_after(st, out, env, ws.0, Seq::empty());
            lemma_steps_after(st.handle_ws(ws.0), out, env, ws.0, Seq::empty());
            lemma_pieces_after(a, out, args.pieces@);
            lemma_reaches_local(st, st.after(out), args.pieces@);
            assert(open_unless(env, st.after(out), ws.0, args.pieces@) =~= body.after(out));
            lemma_ready_after(env, nodes@, body, depth, out);
        },
        Helper::Defined(_, _, _, _) => {},
    }
}

proof fn lemma_else_ifs_ready_after(
    env: Env,
    ifs: Seq<(Ws, Expression, Vec<Node>)>,
    st: State,
    depth: nat,
    out: Seq<char>,
)
    requires
        else_ifs_ready(env, ifs, st, depth),
    ensures
        else_ifs_ready(env, ifs, st.after(out), depth),
    decreases depth, ifs,
{
    if ifs.len() > 0 {
        let before = emit_else_ifs(env, ifs.drop_last(), st, depth);
        let one = ifs.last();
        let body = open_if(env, before, one.0, "} else if "@, one.1.pieces@);
        lemma_else_ifs_ready_after(env, ifs.drop_last(), st, depth, out);
        lemma_else_ifs_after(env, ifs.drop_last(), st, depth, out);
        lemma_if_after(
            env,
            before,
            one.0,
            "} else if "@,
            one.1.pieces@,
            one.2@,
            depth,
            out,
        );
        lemma_ready_after(env, one.2@, body, depth, out);
    }
}

} // verus!
