//! What is kept while the generator goes on.
use vstd::prelude::*;

use crate::derive::EscapeMode;
use crate::expr::{Expression, Piece};
use crate::loops::loops_count;
use crate::model::{
    close_block, emit_else_ifs, emit_helper, emit_node, emit_nodes, open_each,
    open_else, open_if, open_partial, open_unless, open_with, Env, Scopes, State,
};
use crate::node::{Helper, Node, Ws};
use crate::path::partial_path;

verus! {

/// The scopes `b` are the scopes `a`, with names added to the innermost one at most.
pub open spec fn grown(a: Scopes, b: Scopes) -> bool {
    &&& a.len() == b.len()
    &&& forall|i: int| 0 <= i < a.len() - 1 ==> a[i] == #[trigger] b[i]
    &&& a.len() > 0 ==> a.last().is_prefix_of(b.last())
}

/// The state `b` comes after `a` in the same block: the code written so far stands, the open
/// blocks and the template are the same, and names are added to the innermost scope at most.
pub open spec fn follows(a: State, b: State) -> bool {
    &&& a.out.is_prefix_of(b.out)
    &&& a.on == b.on
    &&& a.path == b.path
    &&& grown(a.scopes, b.scopes)
}

proof fn lemma_grown_trans(a: Scopes, b: Scopes, c: Scopes)
    requires
        grown(a, b),
        grown(b, c),
    ensures
        grown(a, c),
{
    assert forall|i: int| 0 <= i < a.len() - 1 implies a[i] == #[trigger] c[i] by {
        assert(a[i] == b[i]);
    }
    if a.len() > 0 {
        assert(a.last() =~= c.last().take(a.last().len() as int));
    }
}

proof fn lemma_follows_trans(a: State, b: State, c: State)
    requires
        follows(a, b),
        follows(b, c),
    ensures
        follows(a, c),
{
    lemma_grown_trans(a.scopes, b.scopes, c.scopes);
    assert(a.out =~= c.out.take(a.out.len() as int));
}

/// Closing a scope gives back the scopes from before it was opened.
pub proof fn lemma_grown_closed(a: Scopes, names: Seq<Seq<char>>, b: Scopes)
    requires
        grown(a.push(names), b),
    ensures
        b.drop_last() == a,
{
    assert forall|i: int| 0 <= i < a.len() implies a[i] == #[trigger] b.drop_last()[i] by {
        assert(a.push(names)[i] == b[i]);
    }
    assert(b.drop_last() =~= a);
}

/// Writing an expression changes its code and whether it needs escaping, and may bind names.
pub proof fn lemma_pieces(st: State, pieces: Seq<Piece>)
    ensures
        follows(st, st.pieces(pieces)),
        st.pieces(pieces) == (State {
            text: st.pieces(pieces).text,
            wrapped: st.pieces(pieces).wrapped,
            scopes: st.pieces(pieces).scopes,
            ..st
        }),
    decreases pieces.len(),
{
    if pieces.len() > 0 {
        let before = st.pieces(pieces.drop_last());
        lemma_pieces(st, pieces.drop_last());
        let after = before.piece(pieces.last());
        if let Piece::Declare(ident) = pieces.last() {
            if before.scopes.len() > 0 {
                assert(before.scopes.last() =~= after.scopes.last().take(
                    before.scopes.last().len() as int,
                ));
            }
        }
        assert(grown(before.scopes, after.scopes));
        lemma_grown_trans(st.scopes, before.scopes, after.scopes);
    }
}

/// Code that is written stands.
proof fn lemma_flush(st: State, escaping: EscapeMode)
    ensures
        follows(st, st.flush(escaping)),
        follows(st, st.settle(escaping)),
{
    assert(st.out =~= st.flush(escaping).out.take(st.out.len() as int));
}

proof fn lemma_line(st: State, s: Seq<char>)
    ensures
        follows(st, st.line(s)),
{
    assert(st.out =~= st.line(s).out.take(st.out.len() as int));
}

/// While the generator goes through nodes, the code written so far stands; at the end it is in
/// the same blocks, scopes and template as before, with names added to the innermost scope at
/// most.
pub proof fn lemma_nodes_follow(env: Env, nodes: Seq<Node>, st: State, depth: nat)
    ensures
        follows(st, emit_nodes(env, nodes, st, depth)),
    decreases depth, nodes,
{
    if nodes.len() > 0 {
        let before = emit_nodes(env, nodes.drop_last(), st, depth);
        lemma_nodes_follow(env, nodes.drop_last(), st, depth);
        lemma_node_follows(env, nodes.last(), before, depth);
        lemma_follows_trans(st, before, emit_nodes(env, nodes, st, depth));
    }
}

/// The same for one node.
pub proof fn lemma_node_follows(env: Env, n: Node, st: State, depth: nat)
    ensures
        follows(st, emit_node(env, n, st, depth)),
    decreases depth, n,
{
    match n {
        Node::Let(stmt) => {
            let a = st.drop_ws().flush(env.escaping);
            let v = a.pieces(stmt.pieces@);
            lemma_flush(st.drop_ws(), env.escaping);
            lemma_pieces(a, stmt.pieces@);
            lemma_line(v, v.text);
            lemma_follows_trans(st, a, v);
            lemma_follows_trans(st, v, v.line(v.text));
        },
        Node::Safe(ws, expr) => {
            lemma_pieces(st, expr.pieces@);
        },
        Node::Expr(ws, expr) => {
            lemma_pieces(State { wrapped: false, ..st }, expr.pieces@);
        },
        Node::Lit(l, lit, r) => {
            assert(st.out =~= st.out.take(st.out.len() as int));
        },
        Node::Helper(h) => {
            lemma_helper_follows(env, h, st, depth);
        },
        Node::Partial(ws, name) => {
            assert(st.out =~= st.out.take(st.out.len() as int));
            if depth > 0 {
                let target = partial_path(env.root, st.path, name@);
                let inner = open_partial(st, ws, target);
                let done = emit_nodes(env, env.templates[target], inner, (depth - 1) as nat);
                lemma_nodes_follow(env, env.templates[target], inner, (depth - 1) as nat);
                lemma_flush(done, env.escaping);
                lemma_follows_trans(inner, done, done.settle(env.escaping));
                lemma_grown_closed(st.scopes, Seq::empty(), done.settle(env.escaping).scopes);
            }
        },
        Node::Comment(_) => {
            assert(st.out =~= st.out.take(st.out.len() as int));
        },
    }
}

/// The body of a block is gone through and its scope closed.
proof fn lemma_block(
    outer: State,
    names: Seq<Seq<char>>,
    body: State,
    done: State,
    escaping: EscapeMode,
)
    requires
        outer.out.is_prefix_of(body.out),
        grown(outer.scopes.push(names), body.scopes),
        follows(body, done),
    ensures
        outer.out.is_prefix_of(done.settle(escaping).out),
        done.settle(escaping).scopes.drop_last() == outer.scopes,
        done.settle(escaping).on == body.on,
        done.settle(escaping).path == body.path,
{
    let settled = done.settle(escaping);
    lemma_flush(done, escaping);
    lemma_follows_trans(body, done, settled);
    lemma_grown_trans(outer.scopes.push(names), body.scopes, settled.scopes);
    lemma_grown_closed(outer.scopes, names, settled.scopes);
    assert(outer.out =~= settled.out.take(outer.out.len() as int));
}

/// The tag that opens a block is gone through.
proof fn lemma_tag(env: Env, st: State, ws: Ws)
    ensures
        follows(st, st.handle_ws(ws)),
        follows(st, st.handle_ws(ws).flush(env.escaping)),
{
    assert(st.out =~= st.out.take(st.out.len() as int));
    lemma_flush(st.handle_ws(ws), env.escaping);
}

/// The last tag of a helper is gone through.
proof fn lemma_close(env: Env, st: State, ws: Ws)
    ensures
        follows(st, close_block(env, st, ws)),
        follows(st, close_block(env, st, ws).line("}"@)),
{
    lemma_tag(env, st, ws);
    lemma_line(close_block(env, st, ws), "}"@);
    lemma_follows_trans(st, close_block(env, st, ws), close_block(env, st, ws).line("}"@));
}

/// A conditional block is opened.
proof fn lemma_open_if(env: Env, st: State, ws: Ws, keyword: Seq<char>, cond: Seq<Piece>)
    ensures
        ({
            let a = st.handle_ws(ws).flush(env.escaping);
            let body = open_if(env, st, ws, keyword, cond);
            &&& a.out.is_prefix_of(body.out)
            &&& grown(a.scopes.push(Seq::empty()), body.scopes)
            &&& body.on == a.on
            &&& body.path == a.path
        }),
{
    let a = st.handle_ws(ws).flush(env.escaping);
    let opened = a.open_scope(Seq::empty());
    let v = opened.pieces(cond);
    lemma_pieces(opened, cond);
    lemma_line(v, keyword + v.text + " {"@);
    lemma_follows_trans(opened, v, v.line(keyword + v.text + " {"@));
}

/// A loop is gone through, if its body is.
proof fn lemma_each_follows(
    env: Env,
    ws: (Ws, Ws),
    args: Expression,
    nodes: Vec<Node>,
    st: State,
    depth: nat,
)
    requires
        ({
            let counted = loops_count(env, st.path, nodes@, depth);
            let body = open_each(env, st, ws.0, args.kind, args.pieces@, counted);
            follows(body, emit_nodes(env, nodes@, body, depth))
        }),
    ensures
        follows(st, emit_helper(env, Helper::Each(ws, args, nodes), st, depth)),
{
    let counted = loops_count(env, st.path, nodes@, depth);
    let a = st.handle_ws(ws.0).flush(env.escaping);
    let v = a.pieces(args.pieces@);
    let body = open_each(env, st, ws.0, args.kind, args.pieces@, counted);
    let done = emit_nodes(env, nodes@, body, depth);
    lemma_tag(env, st, ws.0);
    lemma_pieces(a, args.pieces@);
    lemma_follows_trans(st, a, v);
    assert(v.out =~= body.out.take(v.out.len() as int));
    lemma_block(v, body.scopes.last(), body, done, env.escaping);
    let left = done.settle(env.escaping).leave();
    assert(left.on =~= v.on);
    assert(follows(v, left));
    lemma_close(env, left, ws.1);
    lemma_follows_trans(st, v, left);
    lemma_follows_trans(st, left, close_block(env, left, ws.1).line("}"@));
    assert(close_block(env, left, ws.1) =~= close_block(
        env,
        done.settle(env.escaping),
        ws.1,
    ).leave());
}

/// A `with` block is gone through, if its body is.
proof fn lemma_with_follows(
    env: Env,
    ws: (Ws, Ws),
    args: Expression,
    nodes: Vec<Node>,
    st: State,
    depth: nat,
)
    requires
        ({
            let body = open_with(st, ws.0, args.pieces@);
            follows(body, emit_nodes(env, nodes@, body, depth))
        }),
    ensures
        follows(st, emit_helper(env, Helper::With(ws, args, nodes), st, depth)),
{
    let a = st.handle_ws(ws.0);
    let v = a.pieces(args.pieces@);
    let body = open_with(st, ws.0, args.pieces@);
    let done = emit_nodes(env, nodes@, body, depth);
    lemma_tag(env, st, ws.0);
    lemma_pieces(a, args.pieces@);
    lemma_follows_trans(st, a, v);
    assert(v.out =~= body.out.take(v.out.len() as int));
    lemma_block(v, body.scopes.last(), body, done, env.escaping);
    let left = done.settle(env.escaping).leave();
    assert(left.on =~= v.on);
    assert(follows(v, left));
    lemma_follows_trans(st, v, left);
    lemma_tag(env, left, ws.1);
    lemma_follows_trans(st, left, left.handle_ws(ws.1));
}

/// An `unless` block is gone through, if its body is.
proof fn lemma_unless_follows(
    env: Env,
    ws: (Ws, Ws),
    args: Expression,
    nodes: Vec<Node>,
    st: State,
    depth: nat,
)
    requires
        ({
            let body = open_unless(env, st, ws.0, args.pieces@);
            follows(body, emit_nodes(env, nodes@, body, depth))
        }),
    ensures
        follows(st, emit_helper(env, Helper::Unless(ws, args, nodes), st, depth)),
{
    let a = st.handle_ws(ws.0).flush(env.escaping);
    let v = a.pieces(args.pieces@);
    let body = open_unless(env, st, ws.0, args.pieces@);
    let done = emit_nodes(env, nodes@, body, depth);
    lemma_tag(env, st, ws.0);
    lemma_pieces(a, args.pieces@);
    lemma_follows_trans(st, a, v);
    assert(v.out =~= body.out.take(v.out.len() as int));
    lemma_block(v, Seq::empty(), body, done, env.escaping);
    let closed = done.settle(env.escaping).close_scope();
    assert(follows(v, closed));
    lemma_follows_trans(st, v, closed);
    lemma_close(env, closed, ws.1);
    lemma_follows_trans(st, closed, close_block(env, closed, ws.1).line("}"@));
}

/// The block for what is left is gone through, if its body is.
proof fn lemma_else_follows(env: Env, st: State, ws: Ws, done: State)
    requires
        follows(open_else(env, st, ws), done),
    ensures
        follows(st, done.settle(env.escaping).close_scope()),
{
    let a = st.handle_ws(ws).flush(env.escaping);
    let closed = done.settle(env.escaping).close_scope();
    lemma_tag(env, st, ws);
    lemma_line(a, "} else {"@);
    lemma_block(a, Seq::empty(), open_else(env, st, ws), done, env.escaping);
    assert(follows(a, closed));
    lemma_follows_trans(st, a, closed);
}

/// The same for a helper.
pub proof fn lemma_helper_follows(env: Env, h: Helper, st: State, depth: nat)
    ensures
        follows(st, emit_helper(env, h, st, depth)),
    decreases depth, h,
{
    match h {
        Helper::Each(ws, args, nodes) => {
            let counted = loops_count(env, st.path, nodes@, depth);
            let body = open_each(env, st, ws.0, args.kind, args.pieces@, counted);
            lemma_nodes_follow(env, nodes@, body, depth);
            lemma_each_follows(env, ws, args, nodes, st, depth);
        },
        Helper::If(first, ifs, els) => {
            let inner = open_if(env, st, first.0.0, "if "@, first.1.pieces@);
            let inside = emit_nodes(env, first.2@, inner, depth);
            let then = inside.settle(env.escaping).close_scope();
            let more = emit_else_ifs(env, ifs@, then, depth);
            lemma_nodes_follow(env, first.2@, inner, depth);
            lemma_if_follows(env, st, first.0.0, "if "@, first.1.pieces@, inside);
            lemma_else_ifs_follow(env, ifs@, then, depth);
            lemma_follows_trans(st, then, more);
            let done = match els {
                Some(e) => {
                    let body = open_else(env, more, e.0);
                    let r = emit_nodes(env, e.1@, body, depth);
                    lemma_nodes_follow(env, e.1@, body, depth);
                    lemma_else_follows(env, more, e.0, r);
                    lemma_follows_trans(st, more, r.settle(env.escaping).close_scope());
                    r.settle(env.escaping).close_scope()
                },
                None => more,
            };
            lemma_close(env, done, first.0.1);
            lemma_follows_trans(st, done, close_block(env, done, first.0.1).line("}"@));
        },
        Helper::With(ws, args, nodes) => {
            lemma_nodes_follow(env, nodes@, open_with(st, ws.0, args.pieces@), depth);
            lemma_with_follows(env, ws, args, nodes, st, depth);
        },
        Helper::Unless(ws, args, nodes) => {
            lemma_nodes_follow(env, nodes@, open_unless(env, st, ws.0, args.pieces@), depth);
            lemma_unless_follows(env, ws, args, nodes, st, depth);
        },
        Helper::Defined(_, _, _, _) => {
            assert(st.out =~= st.out.take(st.out.len() as int));
        },
    }
}

/// A conditional block is gone through.
proof fn lemma_if_follows(
    env: Env,
    st: State,
    ws: Ws,
    keyword: Seq<char>,
    cond: Seq<Piece>,
    done: State,
)
    requires
        follows(open_if(env, st, ws, keyword, cond), done),
    ensures
        follows(st, done.settle(env.escaping).close_scope()),
{
    let a = st.handle_ws(ws).flush(env.escaping);
    let body = open_if(env, st, ws, keyword, cond);
    let r = done.settle(env.escaping).close_scope();
    lemma_tag(env, st, ws);
    lemma_open_if(env, st, ws, keyword, cond);
    lemma_block(a, Seq::empty(), body, done, env.escaping);
    assert(follows(a, r));
    lemma_follows_trans(st, a, r);
}

/// The same for a conditional block.
pub proof fn lemma_if_block_follows(
    env: Env,
    st: State,
    ws: Ws,
    keyword: Seq<char>,
    cond: Seq<Piece>,
    nodes: Seq<Node>,
    depth: nat,
)
    ensures
        follows(
            st,
            emit_nodes(env, nodes, open_if(env, st, ws, keyword, cond), depth).settle(
                env.escaping,
            ).close_scope(),
        ),
{
    let body = open_if(env, st, ws, keyword, cond);
    lemma_nodes_follow(env, nodes, body, depth);
    lemma_if_follows(env, st, ws, keyword, cond, emit_nodes(env, nodes, body, depth));
}

/// The same for further conditions.
pub proof fn lemma_else_ifs_follow(
    env: Env,
    ifs: Seq<(Ws, Expression, Vec<Node>)>,
    st: State,
    depth: nat,
)
    ensures
        follows(st, emit_else_ifs(env, ifs, st, depth)),
    decreases depth, ifs,
{
    if ifs.len() == 0 {
        assert(st.out =~= st.out.take(st.out.len() as int));
    } else {
        let before = emit_else_ifs(env, ifs.drop_last(), st, depth);
        lemma_else_ifs_follow(env, ifs.drop_last(), st, depth);
        let one = ifs.last();
        let body = open_if(env, before, one.0, "} else if "@, one.1.pieces@);
        lemma_nodes_follow(env, one.2@, body, depth);
        let done = emit_nodes(env, one.2@, body, depth);
        lemma_if_follows(env, before, one.0, "} else if "@, one.1.pieces@, done);
        lemma_follows_trans(st, before, done.settle(env.escaping).close_scope());
    }
}

/// Blocks that names are looked up in keep their scopes, and loops their counters.
pub proof fn lemma_scopes_last(a: State, b: State)
    requires
        follows(a, b),
    ensures
        a.scoped() ==> b.scoped(),
        a.scoped() && a.counted() ==> b.counted(),
{
    assert forall|j: int| 0 <= j < a.scopes.len() implies a.scopes[j].len()
        <= #[trigger] b.scopes[j].len() by {
        if j < a.scopes.len() - 1 {
            assert(a.scopes[j] == b.scopes[j]);
        }
    }
}

} // verus!
