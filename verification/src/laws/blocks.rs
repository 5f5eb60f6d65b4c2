//! Blocks are closed, and what is bound in them ends with them.
use vstd::prelude::*;

use crate::code::{finish, start};
use crate::expr::{Expression, Piece};
use crate::laws::after::{lemma_nodes_after, lemma_steps_after};
use crate::laws::follow::{lemma_grown_closed, lemma_nodes_follow, lemma_pieces};
use crate::laws::names::{lemma_loop_is_open, lemma_pieces_local};
use crate::laws::texts::lemma_nodes_taken;
use crate::loops::loops_count;
use crate::model::{
    bound, close_block, emit_else_ifs, emit_helper, emit_nodes, emit_partial, open_each,
    open_else, open_if, open_partial, open_unless, open_with, resolved, Env, State,
};
use crate::node::{Helper, Node, Ws};
use crate::path::{partial_path, Parts};
use crate::text::line;

verus! {

/// Going through nodes is going through the first of them and then through the rest.
pub proof fn lemma_nodes_in_turn(env: Env, a: Seq<Node>, b: Seq<Node>, st: State, depth: nat)
    ensures
        emit_nodes(env, a + b, st, depth) == emit_nodes(
            env,
            b,
            emit_nodes(env, a, st, depth),
            depth,
        ),
    decreases b.len(),
{
    if b.len() == 0 {
        assert(a + b =~= a);
    } else {
        lemma_nodes_in_turn(env, a, b.drop_last(), st, depth);
        assert((a + b).drop_last() =~= a + b.drop_last());
        assert((a + b).last() == b.last());
    }
}

/// After a partial, the names in scope and the template are those before it.
pub proof fn lemma_partial_scopes(env: Env, ws: Ws, name: Parts, st: State, depth: nat)
    ensures
        emit_partial(env, ws, name, st, depth).scopes == st.scopes,
        emit_partial(env, ws, name, st, depth).on == st.on,
        emit_partial(env, ws, name, st, depth).path == st.path,
{
    if depth > 0 {
        let target = partial_path(env.root, st.path, name);
        let body = open_partial(st, ws, target);
        let done = emit_nodes(env, env.templates[target], body, (depth - 1) as nat);
        lemma_nodes_follow(env, env.templates[target], body, (depth - 1) as nat);
        lemma_grown_closed(st.scopes, Seq::empty(), done.scopes);
    }
}

/// After the further conditions of an `if`, the names in scope are those before them.
pub proof fn lemma_else_ifs_scopes(
    env: Env,
    ifs: Seq<(Ws, Expression, Vec<Node>)>,
    st: State,
    depth: nat,
)
    ensures
        emit_else_ifs(env, ifs, st, depth).scopes == st.scopes,
    decreases ifs.len(),
{
    if ifs.len() > 0 {
        let before = emit_else_ifs(env, ifs.drop_last(), st, depth);
        lemma_else_ifs_scopes(env, ifs.drop_last(), st, depth);
        lemma_if_scopes(
            env,
            before,
            ifs.last().0,
            "} else if "@,
            ifs.last().1,
            ifs.last().2@,
            depth,
        );
    }
}

proof fn lemma_if_scopes(
    env: Env,
    st: State,
    ws: Ws,
    keyword: Seq<char>,
    cond: Expression,
    nodes: Seq<Node>,
    depth: nat,
)
    ensures
        emit_nodes(env, nodes, open_if(env, st, ws, keyword, cond.pieces@), depth).settle(
            env.escaping,
        ).close_scope().scopes == st.scopes,
{
    let opened = st.handle_ws(ws).flush(env.escaping).open_scope(Seq::empty());
    let body = open_if(env, st, ws, keyword, cond.pieces@);
    let done = emit_nodes(env, nodes, body, depth);
    lemma_pieces(opened, cond.pieces@);
    lemma_nodes_follow(env, nodes, body, depth);
    let a = opened.scopes;
    let b = body.scopes;
    let c = done.scopes;
    assert forall|i: int| 0 <= i < st.scopes.len() implies st.scopes[i]
        == #[trigger] c.drop_last()[i] by {
        assert(a[i] == b[i]);
        assert(b[i] == c[i]);
    }
    assert(c.drop_last() =~= st.scopes);
}

/// After an `if`, the names in scope are those before it: what a condition or a block binds ends
/// with the block.
pub proof fn lemma_if_ends(env: Env, h: Helper, st: State, depth: nat)
    requires
        h is If,
    ensures
        emit_helper(env, h, st, depth).scopes == st.scopes,
{
    if let Helper::If(first, ifs, els) = h {
        let body = open_if(env, st, first.0.0, "if "@, first.1.pieces@);
        let block = emit_nodes(env, first.2@, body, depth).settle(env.escaping).close_scope();
        let more = emit_else_ifs(env, ifs@, block, depth);
        lemma_if_scopes(env, st, first.0.0, "if "@, first.1, first.2@, depth);
        lemma_else_ifs_scopes(env, ifs@, block, depth);
        if let Some(e) = els {
            let rest = open_else(env, more, e.0);
            lemma_nodes_follow(env, e.1@, rest, depth);
            let end = emit_nodes(env, e.1@, rest, depth);
            lemma_grown_closed(more.scopes, Seq::empty(), end.scopes);
        }
    }
}

/// The expression of a loop, a `with` or an `unless` block.
pub open spec fn argument(h: Helper) -> Option<Expression> {
    match h {
        Helper::Each(_, args, _) => Some(args),
        Helper::With(_, args, _) => Some(args),
        Helper::Unless(_, args, _) => Some(args),
        _ => None,
    }
}

/// After a loop, a `with` or an `unless` block, the names in scope are those that its expression
/// left: what the block binds ends with the block.
pub proof fn lemma_block_ends(env: Env, h: Helper, st: State, depth: nat)
    requires
        argument(h) is Some,
    ensures
        emit_helper(env, h, st, depth).scopes == st.pieces(argument(h)->0.pieces@).scopes,
        emit_helper(env, h, st, depth).on == st.on,
{
    let args = argument(h)->0.pieces@;
    match h {
        Helper::Each(ws, expr, nodes) => {
            let counted = loops_count(env, st.path, nodes@, depth);
            let v = st.handle_ws(ws.0).flush(env.escaping);
            let body = open_each(env, st, ws.0, expr.kind, args, counted);
            lemma_pieces(v, args);
            lemma_pieces_local(st, v, args);
            lemma_nodes_follow(env, nodes@, body, depth);
            lemma_grown_closed(
                v.pieces(args).scopes,
                body.scopes.last(),
                emit_nodes(env, nodes@, body, depth).scopes,
            );
            assert(body.on.drop_last() =~= st.on);
        },
        Helper::With(ws, expr, nodes) => {
            let v = st.handle_ws(ws.0);
            let body = open_with(st, ws.0, args);
            lemma_pieces(v, args);
            lemma_pieces_local(st, v, args);
            lemma_nodes_follow(env, nodes@, body, depth);
            lemma_grown_closed(
                v.pieces(args).scopes,
                body.scopes.last(),
                emit_nodes(env, nodes@, body, depth).scopes,
            );
            assert(body.on.drop_last() =~= st.on);
        },
        Helper::Unless(ws, expr, nodes) => {
            let v = st.handle_ws(ws.0).flush(env.escaping);
            let body = open_unless(env, st, ws.0, args);
            lemma_pieces(v, args);
            lemma_pieces_local(st, v, args);
            lemma_nodes_follow(env, nodes@, body, depth);
            lemma_grown_closed(
                v.pieces(args).scopes,
                body.scopes.last(),
                emit_nodes(env, nodes@, body, depth).scopes,
            );
        },
        _ => {},
    }
}

/// A loop, an `if` and an `unless` block end with a closing brace, after all that was to be
/// written in them.
pub proof fn lemma_braces(env: Env, h: Helper, st: State, depth: nat)
    requires
        h is Each || h is If || h is Unless,
    ensures
        line("}"@).is_suffix_of(emit_helper(env, h, st, depth).out),
        emit_helper(env, h, st, depth).pending.len() == 0,
{
    let out = emit_helper(env, h, st, depth).out;
    let end = line("}"@);
    assert(exists|before: Seq<char>| out == #[trigger] (before + end));
    let before = choose|before: Seq<char>| out == #[trigger] (before + end);
    assert(end =~= out.subrange(out.len() - end.len(), out.len() as int));
}

/// Whether `pieces` bind no name.
pub open spec fn binds_nothing(pieces: Seq<Piece>) -> bool {
    forall|i: int| 0 <= i < pieces.len() ==> !(#[trigger] pieces[i] is Declare)
}

/// In a new scope without names, names stand for what they stood for before.
proof fn lemma_resolved_inside(st: State, ident: Seq<char>)
    requires
        st.scoped(),
    ensures
        resolved(st.scopes.push(Seq::empty()), st.on, ident) == resolved(
            st.scopes,
            st.on,
            ident,
        ),
{
    let inner = st.scopes.push(Seq::empty());
    if bound(st.scopes, ident) {
        let (i, j) = choose|i: int, j: int|
            0 <= i < st.scopes.len() && 0 <= j < st.scopes[i].len() && #[trigger] st.scopes[i][j]
                == ident;
        assert(inner[i][j] == ident);
    }
    if bound(inner, ident) {
        let (i, j) = choose|i: int, j: int|
            0 <= i < inner.len() && 0 <= j < inner[i].len() && #[trigger] inner[i][j] == ident;
        assert(st.scopes[i][j] == ident);
    }
    lemma_loop_is_open(st.on);
    if st.on.len() > 0 {
        assert(st.on[st.on.len() - 1].scope() < st.scopes.len());
    }
}

/// An expression that binds no name is written in a new scope as outside of it.
proof fn lemma_pieces_inside(st: State, pieces: Seq<Piece>)
    requires
        st.scoped(),
        binds_nothing(pieces),
    ensures
        st.open_scope(Seq::empty()).pieces(pieces) == st.pieces(pieces).open_scope(Seq::empty()),
        st.pieces(pieces).scopes == st.scopes,
    decreases pieces.len(),
{
    if pieces.len() > 0 {
        let rest = pieces.drop_last();
        assert forall|i: int| 0 <= i < rest.len() implies !(#[trigger] rest[i] is Declare) by {
            assert(rest[i] == pieces[i]);
        }
        assert(!(pieces[pieces.len() - 1] is Declare));
        lemma_pieces_inside(st, rest);
        let before = st.pieces(rest);
        lemma_pieces(st, rest);
        if let Piece::Name(ident) = pieces.last() {
            lemma_resolved_inside(before, ident@);
        }
        assert(before.open_scope(Seq::empty()).piece(pieces.last()) =~= before.piece(
            pieces.last(),
        ).open_scope(Seq::empty()));
    }
}

/// What follows the line that opens a block with the body `nodes`, up to its closing brace.
pub open spec fn block_rest(env: Env, body: State, ws: Ws, nodes: Seq<Node>, depth: nat) -> State {
    let done = emit_nodes(env, nodes, State { out: Seq::empty(), ..body }, depth).settle(
        env.escaping,
    ).close_scope();
    close_block(env, done, ws).line("}"@)
}

proof fn lemma_block_rest(
    env: Env,
    body: State,
    ws: Ws,
    nodes: Seq<Node>,
    depth: nat,
    head: Seq<char>,
)
    requires
        body.out == head,
    ensures
        close_block(
            env,
            emit_nodes(env, nodes, body, depth).settle(env.escaping).close_scope(),
            ws,
        ).line("}"@) == block_rest(env, body, ws, nodes, depth).after(head),
{
    let bare = State { out: Seq::empty(), ..body };
    assert(bare.after(head) =~= body);
    lemma_nodes_after(env, nodes, bare, depth, head);
    let a = emit_nodes(env, nodes, bare, depth);
    let b = a.settle(env.escaping);
    let c = b.close_scope();
    let d = c.handle_ws(ws);
    let e = d.flush(env.escaping);
    lemma_steps_after(a, head, env, ws, "}"@);
    lemma_steps_after(b, head, env, ws, "}"@);
    lemma_steps_after(c, head, env, ws, "}"@);
    lemma_steps_after(d, head, env, ws, "}"@);
    lemma_steps_after(e, head, env, ws, "}"@);
}

/// An `unless` block on an expression that binds no name is written as an `if` without further
/// branches, apart from the line that opens it.
pub proof fn lemma_unless_and_if(
    env: Env,
    ws: (Ws, Ws),
    args: Expression,
    nodes: Vec<Node>,
    ifs: Vec<(Ws, Expression, Vec<Node>)>,
    st: State,
    depth: nat,
)
    requires
        st.scoped(),
        binds_nothing(args.pieces@),
        ifs@.len() == 0,
    ensures
        ({
            let v = st.handle_ws(ws.0).flush(env.escaping).pieces(args.pieces@);
            let rest = block_rest(
                env,
                open_unless(env, st, ws.0, args.pieces@),
                ws.1,
                nodes@,
                depth,
            );
            &&& emit_helper(env, Helper::Unless(ws, args, nodes), st, depth) == rest.after(
                v.out + line("if !("@ + v.text + ") {"@),
            )
            &&& emit_helper(env, Helper::If((ws, args, nodes), ifs, None), st, depth)
                == rest.after(v.out + line("if "@ + v.text + " {"@))
        }),
{
    let a = st.handle_ws(ws.0).flush(env.escaping);
    let v = a.pieces(args.pieces@);
    let unless = open_unless(env, st, ws.0, args.pieces@);
    let body = open_if(env, st, ws.0, "if "@, args.pieces@);
    lemma_pieces_inside(a, args.pieces@);
    assert(State { out: Seq::empty(), ..body } =~= State { out: Seq::empty(), ..unless });
    lemma_block_rest(env, unless, ws.1, nodes@, depth, unless.out);
    lemma_block_rest(env, body, ws.1, nodes@, depth, body.out);
    let block = emit_nodes(env, nodes@, body, depth).settle(env.escaping).close_scope();
    assert(emit_else_ifs(env, ifs@, block, depth) == block);
}

/// At the end of a template, all that was to be written is written, every block is closed, and the
/// generator is back in the template, with `self` as in the beginning.
pub proof fn lemma_finished(env: Env)
    ensures
        finish(env).pending.len() == 0,
        finish(env).on.len() == 0,
        finish(env).path == env.root,
        finish(env).scopes.len() == 1,
        finish(env).scopes[0][0] == "self"@,
        finish(env).text.len() == 0,
{
    let st = start(env);
    let depth = env.templates.dom().len();
    let end = emit_nodes(env, env.templates[env.root], st, depth);
    lemma_nodes_follow(env, env.templates[env.root], st, depth);
    lemma_nodes_taken(env, env.templates[env.root], st, depth);
    assert(st.scopes.last().is_prefix_of(end.scopes.last()));
    assert(st.scopes.last()[0] == "self"@);
    assert(end.scopes[0][0] == end.scopes.last()[0]);
}

} // verus!
