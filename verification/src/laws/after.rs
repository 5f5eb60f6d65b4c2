//! What has been written before does not matter.
use vstd::prelude::*;

use crate::expr::{ExprKind, Expression, Piece};
use crate::loops::loops_count;
use crate::model::{
    close_block, emit_else_ifs, emit_helper, emit_node, emit_nodes, loop_head, open_each,
    open_else, open_if, open_partial, open_unless, open_with, Env, State,
};
use crate::node::{Helper, Node, Ws};
use crate::path::partial_path;

verus! {

/// What has been written before does not matter to an expression.
pub proof fn lemma_pieces_after(st: State, out: Seq<char>, pieces: Seq<Piece>)
    ensures
        st.after(out).pieces(pieces) == st.pieces(pieces).after(out),
    decreases pieces.len(),
{
    if pieces.len() > 0 {
        lemma_pieces_after(st, out, pieces.drop_last());
        let before = st.pieces(pieces.drop_last());
        assert(before.after(out).piece(pieces.last()) =~= before.piece(pieces.last()).after(out));
    }
}

/// What has been written before does not matter to the steps that the generator takes.
pub proof fn lemma_steps_after(st: State, out: Seq<char>, env: Env, ws: Ws, s: Seq<char>)
    ensures
        st.after(out).handle_ws(ws) == st.handle_ws(ws).after(out),
        st.after(out).flush_ws(ws) == st.flush_ws(ws).after(out),
        st.after(out).prepare_ws(ws) == st.prepare_ws(ws).after(out),
        st.after(out).drop_ws() == st.drop_ws().after(out),
        st.after(out).flush(env.escaping) == st.flush(env.escaping).after(out),
        st.after(out).settle(env.escaping) == st.settle(env.escaping).after(out),
        st.after(out).line(s) == st.line(s).after(out),
        st.after(out).taken() == st.taken().after(out),
        st.after(out).close_scope() == st.close_scope().after(out),
        st.after(out).leave() == st.leave().after(out),
{
    assert(st.after(out).flush(env.escaping) =~= st.flush(env.escaping).after(out));
    assert(st.after(out).line(s) =~= st.line(s).after(out));
}

/// What has been written before does not matter to what is generated.
pub proof fn lemma_nodes_after(env: Env, nodes: Seq<Node>, st: State, depth: nat, out: Seq<char>)
    ensures
        emit_nodes(env, nodes, st.after(out), depth) == emit_nodes(env, nodes, st, depth).after(
            out,
        ),
    decreases depth, nodes,
{
    if nodes.len() > 0 {
        lemma_nodes_after(env, nodes.drop_last(), st, depth, out);
        let before = emit_nodes(env, nodes.drop_last(), st, depth);
        lemma_node_after(env, nodes.last(), before, depth, out);
    }
}

/// The same for one node.
pub proof fn lemma_node_after(env: Env, n: Node, st: State, depth: nat, out: Seq<char>)
    ensures
        emit_node(env, n, st.after(out), depth) == emit_node(env, n, st, depth).after(out),
    decreases depth, n,
{
    match n {
        Node::Let(stmt) => {
            let a = st.drop_ws().flush(env.escaping);
            let v = a.pieces(stmt.pieces@);
            lemma_steps_after(st.drop_ws(), out, env, Ws(true, true), Seq::empty());
            lemma_pieces_after(a, out, stmt.pieces@);
            lemma_steps_after(v, out, env, Ws(true, true), v.text);
        },
        Node::Safe(ws, expr) => {
            lemma_pieces_after(st, out, expr.pieces@);
        },
        Node::Expr(ws, expr) => {
            lemma_pieces_after(State { wrapped: false, ..st }, out, expr.pieces@);
        },
        Node::Lit(l, lit, r) => {},
        Node::Helper(h) => {
            lemma_helper_after(env, h, st, depth, out);
        },
        Node::Partial(ws, name) => {
            if depth > 0 {
                let target = partial_path(env.root, st.path, name@);
                let inner = open_partial(st, ws, target);
                lemma_nodes_after(env, env.templates[target], inner, (depth - 1) as nat, out);
                let done = emit_nodes(env, env.templates[target], inner, (depth - 1) as nat);
                lemma_steps_after(done, out, env, ws, Seq::empty());
            }
        },
        Node::Comment(_) => {},
    }
}

proof fn lemma_open_if_after(
    env: Env,
    st: State,
    ws: Ws,
    keyword: Seq<char>,
    cond: Seq<Piece>,
    out: Seq<char>,
)
    ensures
        open_if(env, st.after(out), ws, keyword, cond) == open_if(
            env,
            st,
            ws,
            keyword,
            cond,
        ).after(out),
{
    let a = st.handle_ws(ws).flush(env.escaping).open_scope(Seq::empty());
    let v = a.pieces(cond);
    lemma_steps_after(st.handle_ws(ws), out, env, ws, Seq::empty());
    lemma_pieces_after(a, out, cond);
    lemma_steps_after(v, out, env, ws, keyword + v.text + " {"@);
}

proof fn lemma_close_after(env: Env, st: State, ws: Ws, out: Seq<char>)
    ensures
        close_block(env, st.after(out), ws) == close_block(env, st, ws).after(out),
        close_block(env, st.after(out), ws).line("}"@) == close_block(env, st, ws).line("}"@).after(
            out,
        ),
        close_block(env, st.after(out), ws).leave().line("}"@) == close_block(
            env,
            st,
            ws,
        ).leave().line("}"@).after(out),
{
    lemma_steps_after(st.handle_ws(ws), out, env, ws, Seq::empty());
    lemma_steps_after(close_block(env, st, ws), out, env, ws, "}"@);
    lemma_steps_after(close_block(env, st, ws).leave(), out, env, ws, "}"@);
}

proof fn lemma_open_each_after(
    env: Env,
    st: State,
    ws: Ws,
    kind: ExprKind,
    args: Seq<Piece>,
    counted: bool,
    out: Seq<char>,
)
    ensures
        open_each(env, st.after(out), ws, kind, args, counted) == open_each(
            env,
            st,
            ws,
            kind,
            args,
            counted,
        ).after(out),
{
    let a = st.handle_ws(ws).flush(env.escaping);
    let v = a.pieces(args);
    let head = loop_head(v.scopes.len(), counted, kind == ExprKind::Range, v.text);
    lemma_steps_after(st.handle_ws(ws), out, env, ws, Seq::empty());
    lemma_pieces_after(a, out, args);
    lemma_steps_after(v, out, env, ws, head);
}

proof fn lemma_open_unless_after(env: Env, st: State, ws: Ws, args: Seq<Piece>, out: Seq<char>)
    ensures
        open_unless(env, st.after(out), ws, args) == open_unless(env, st, ws, args).after(out),
{
    let a = st.handle_ws(ws).flush(env.escaping);
    let v = a.pieces(args);
    lemma_steps_after(st.handle_ws(ws), out, env, ws, Seq::empty());
    lemma_pieces_after(a, out, args);
    lemma_steps_after(v, out, env, ws, "if !("@ + v.text + ") {"@);
}

proof fn lemma_open_else_after(env: Env, st: State, ws: Ws, out: Seq<char>)
    ensures
        open_else(env, st.after(out), ws) == open_else(env, st, ws).after(out),
{
    let a = st.handle_ws(ws).flush(env.escaping);
    lemma_steps_after(st.handle_ws(ws), out, env, ws, Seq::empty());
    lemma_steps_after(a, out, env, ws, "} else {"@);
}

/// The same for a conditional, if it holds of its blocks.
proof fn lemma_if_after(
    env: Env,
    first: ((Ws, Ws), Expression, Vec<Node>),
    ifs: Vec<(Ws, Expression, Vec<Node>)>,
    els: Option<(Ws, Vec<Node>)>,
    st: State,
    depth: nat,
    out: Seq<char>,
)
    requires
        ({
            let inner = open_if(env, st, first.0.0, "if "@, first.1.pieces@);
            let inside = emit_nodes(env, first.2@, inner, depth);
            let then = inside.settle(env.escaping).close_scope();
            let more = emit_else_ifs(env, ifs@, then, depth);
            &&& emit_nodes(env, first.2@, inner.after(out), depth) == inside.after(out)
            &&& emit_else_ifs(env, ifs@, then.after(out), depth) == more.after(out)
            &&& els matches Some(e) ==> emit_nodes(
                env,
                e.1@,
                open_else(env, more, e.0).after(out),
                depth,
            ) == emit_nodes(env, e.1@, open_else(env, more, e.0), depth).after(out)
        }),
    ensures
        emit_helper(env, Helper::If(first, ifs, els), st.after(out), depth) == emit_helper(
            env,
            Helper::If(first, ifs, els),
            st,
            depth,
        ).after(out),
{
    let inner = open_if(env, st, first.0.0, "if "@, first.1.pieces@);
    let inside = emit_nodes(env, first.2@, inner, depth);
    let then = inside.settle(env.escaping).close_scope();
    let more = emit_else_ifs(env, ifs@, then, depth);
    lemma_open_if_after(env, st, first.0.0, "if "@, first.1.pieces@, out);
    lemma_steps_after(inside, out, env, first.0.0, Seq::empty());
    assert(inside.after(out).settle(env.escaping).close_scope() == then.after(out));
    match els {
        Some(e) => {
            let body = open_else(env, more, e.0);
            let r = emit_nodes(env, e.1@, body, depth);
            lemma_open_else_after(env, more, e.0, out);
            lemma_steps_after(r, out, env, e.0, Seq::empty());
            lemma_close_after(env, r.settle(env.escaping).close_scope(), first.0.1, out);
        },
        None => {
            lemma_close_after(env, more, first.0.1, out);
        },
    }
}

/// The same for a helper.
pub proof fn lemma_helper_after(env: Env, h: Helper, st: State, depth: nat, out: Seq<char>)
    ensures
        emit_helper(env, h, st.after(out), depth) == emit_helper(env, h, st, depth).after(out),
    decreases depth, h,
{
    match h {
        Helper::Each(ws, args, nodes) => {
            let counted = loops_count(env, st.path, nodes@, depth);
            let body = open_each(env, st, ws.0, args.kind, args.pieces@, counted);
            let done = emit_nodes(env, nodes@, body, depth);
            lemma_open_each_after(env, st, ws.0, args.kind, args.pieces@, counted, out);
            lemma_nodes_after(env, nodes@, body, depth, out);
            lemma_steps_after(done, out, env, ws.1, Seq::empty());
            lemma_close_after(env, done.settle(env.escaping), ws.1, out);
        },
        Helper::If(first, ifs, els) => {
            let inner = open_if(env, st, first.0.0, "if "@, first.1.pieces@);
            let then = emit_nodes(env, first.2@, inner, depth).settle(env.escaping).close_scope();
            let more = emit_else_ifs(env, ifs@, then, depth);
            lemma_nodes_after(env, first.2@, inner, depth, out);
            lemma_else_ifs_after(env, ifs@, then, depth, out);
            if let Some(e) = els {
                lemma_nodes_after(env, e.1@, open_else(env, more, e.0), depth, out);
            }
            lemma_if_after(env, first, ifs, els, st, depth, out);
        },
        Helper::With(ws, args, nodes) => {
            let body = open_with(st, ws.0, args.pieces@);
            let done = emit_nodes(env, nodes@, body, depth);
            lemma_pieces_after(st.handle_ws(ws.0), out, args.pieces@);
            assert(open_with(st.after(out), ws.0, args.pieces@) =~= body.after(out));
            lemma_nodes_after(env, nodes@, body, depth, out);
            lemma_steps_after(done, out, env, ws.1, Seq::empty());
        },
        Helper::Unless(ws, args, nodes) => {
            let body = open_unless(env, st, ws.0, args.pieces@);
            let done = emit_nodes(env, nodes@, body, depth);
            lemma_open_unless_after(env, st, ws.0, args.pieces@, out);
            lemma_nodes_after(env, nodes@, body, depth, out);
            lemma_steps_after(done, out, env, ws.1, Seq::empty());
            lemma_close_after(env, done.settle(env.escaping).close_scope(), ws.1, out);
        },
        Helper::Defined(_, _, _, _) => {},
    }
}

/// The same for further conditions.
pub proof fn lemma_else_ifs_after(
    env: Env,
    ifs: Seq<(Ws, Expression, Vec<Node>)>,
    st: State,
    depth: nat,
    out: Seq<char>,
)
    ensures
        emit_else_ifs(env, ifs, st.after(out), depth) == emit_else_ifs(env, ifs, st, depth).after(
            out,
        ),
    decreases depth, ifs,
{
    if ifs.len() > 0 {
        let before = emit_else_ifs(env, ifs.drop_last(), st, depth);
        lemma_else_ifs_after(env, ifs.drop_last(), st, depth, out);
        let one = ifs.last();
        let body = open_if(env, before, one.0, "} else if "@, one.1.pieces@);
        lemma_open_if_after(env, before, one.0, "} else if "@, one.1.pieces@, out);
        lemma_nodes_after(env, one.2@, body, depth, out);
        lemma_steps_after(
            emit_nodes(env, one.2@, body, depth),
            out,
            env,
            one.0,
            Seq::empty(),
        );
    }
}

} // verus!
