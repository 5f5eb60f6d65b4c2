//! What each tag of a template has written.
use vstd::prelude::*;

use crate::expr::{ExprKind, Expression, Piece};
use crate::laws::follow::{lemma_nodes_follow, lemma_pieces};
use crate::laws::lines::lemma_loop_head;
use crate::laws::names::lemma_pieces_local;
use crate::laws::steps::{added, lemma_joined, lemma_text_written};
use crate::loops::loops_count;
use crate::model::{
    emit_else_ifs, emit_helper, emit_node, emit_nodes, emit_partial, joined, open_each, open_else,
    open_if, open_partial, open_unless, open_with, written, Env, Frame, State, Written,
};
use crate::node::{Helper, Node, Ws};
use crate::path::{partial_path, Parts, TemplatePath};
use crate::text::decimal;

verus! {

/// Whatever waits before a tag, with the whitespace that the tag does not suppress, is written.
pub open spec fn before_tag(env: Env, st: State, ws: Ws) -> Seq<char> {
    st.out + written(st.flush_ws(ws).pending, env.escaping)
}

/// The code of an expression that is met in the state `st`.
pub open spec fn code_of(st: State, pieces: Seq<Piece>) -> Seq<char> {
    st.pieces(pieces).text
}

proof fn lemma_code(env: Env, st: State, ws: Ws, args: Seq<Piece>)
    ensures
        ({
            let v = st.handle_ws(ws).flush(env.escaping).pieces(args);
            let w = st.handle_ws(ws).pieces(args);
            &&& v.text == code_of(st, args)
            &&& w.text == code_of(st, args)
            &&& v.scopes == st.pieces(args).scopes
            &&& w.scopes == st.pieces(args).scopes
            &&& v.scopes.len() == st.scopes.len()
            &&& v == (State { text: v.text, wrapped: v.wrapped, scopes: v.scopes, ..st.handle_ws(
                ws,
            ).flush(env.escaping) })
            &&& w == (State { text: w.text, wrapped: w.wrapped, scopes: w.scopes, ..st.handle_ws(
                ws,
            ) })
        }),
{
    let a = st.handle_ws(ws).flush(env.escaping);
    let b = st.handle_ws(ws);
    lemma_pieces(a, args);
    lemma_pieces(b, args);
    lemma_pieces_local(st, a, args);
    lemma_pieces_local(st, b, args);
}

/// A loop is opened by one line, behind all that comes before its tag: over the code itself for a
/// range and for a range only, over what it refers to for every other form, and with the number
/// of each item if and only if the loop is counted. Nothing is left to write, and the names of
/// the loop are the only ones in its scope.
pub proof fn lemma_each_opens(
    env: Env,
    st: State,
    ws: Ws,
    kind: ExprKind,
    args: Seq<Piece>,
    counted: bool,
)
    ensures
        ({
            let body = open_each(env, st, ws, kind, args, counted);
            let n = decimal(st.scopes.len());
            let code = code_of(st, args);
            let before = before_tag(env, st, ws);
            &&& kind != ExprKind::Range && !counted ==> body.out == before + ("for _key_"@ + n
                + " in (&"@ + code + ").into_iter() {"@ + "\n"@)
            &&& kind != ExprKind::Range && counted ==> body.out == before + ("for (_index_"@ + n
                + ", _key_"@ + n + ") in (&"@ + code + ").into_iter().enumerate() {"@ + "\n"@)
            &&& kind == ExprKind::Range && !counted ==> body.out == before + ("for _key_"@ + n
                + " in "@ + code + " {"@ + "\n"@)
            &&& kind == ExprKind::Range && counted ==> body.out == before + ("for (_index_"@ + n
                + ", _key_"@ + n + ") in ("@ + code + ").enumerate() {"@ + "\n"@)
            &&& body.pending.len() == 0
            &&& body.next_ws is None
            &&& body.skip_ws == ws.1
            &&& body.text.len() == 0
            &&& body.path == st.path
            &&& body.on == st.on + seq![Frame::Each(st.scopes.len())]
            &&& body.scopes.len() == st.scopes.len() + 1
            &&& body.scopes.drop_last() == st.pieces(args).scopes
            &&& body.scopes.last()[0] == "_key_"@ + n
            &&& counted ==> body.scopes.last().len() == 2 && body.scopes.last()[1] == "_index_"@
                + n
            &&& !counted ==> body.scopes.last().len() == 1
        }),
{
    let body = open_each(env, st, ws, kind, args, counted);
    let code = code_of(st, args);
    lemma_code(env, st, ws, args);
    lemma_loop_head(st.scopes.len(), code);
    assert(body.on =~= st.on + seq![Frame::Each(st.scopes.len())]);
    assert(body.scopes.drop_last() =~= st.pieces(args).scopes);
}

/// A loop ends with a brace, behind all that its body has left to write and the whitespace that
/// its closing tag does not suppress.
pub proof fn lemma_each_closes(
    env: Env,
    ws: (Ws, Ws),
    args: Expression,
    nodes: Vec<Node>,
    st: State,
    depth: nat,
)
    ensures
        ({
            let counted = loops_count(env, st.path, nodes@, depth);
            let body = open_each(env, st, ws.0, args.kind, args.pieces@, counted);
            let end = emit_nodes(env, nodes@, body, depth);
            let after = emit_helper(env, Helper::Each(ws, args, nodes), st, depth);
            &&& after.out == before_tag(env, end, ws.1) + ("}"@ + "\n"@)
            &&& after.pending.len() == 0
            &&& after.next_ws is None
            &&& after.skip_ws == ws.1.1
            &&& after.path == st.path
        }),
{
    let counted = loops_count(env, st.path, nodes@, depth);
    let body = open_each(env, st, ws.0, args.kind, args.pieces@, counted);
    lemma_code(env, st, ws.0, args.pieces@);
    lemma_nodes_follow(env, nodes@, body, depth);
}

/// A `with` block writes no line of its own: what comes before its tags waits, and the code of
/// its expression is the only name in its scope.
pub proof fn lemma_with_opens(env: Env, st: State, ws: Ws, args: Seq<Piece>)
    ensures
        ({
            let body = open_with(st, ws, args);
            &&& body.out == st.out
            &&& body.pending == st.flush_ws(ws).pending
            &&& body.next_ws is None
            &&& body.skip_ws == ws.1
            &&& body.text.len() == 0
            &&& body.path == st.path
            &&& body.on == st.on + seq![Frame::With(st.scopes.len())]
            &&& body.scopes.len() == st.scopes.len() + 1
            &&& body.scopes.drop_last() == st.pieces(args).scopes
            &&& body.scopes.last() == seq![code_of(st, args)]
        }),
{
    let body = open_with(st, ws, args);
    lemma_code(env, st, ws, args);
    assert(body.on =~= st.on + seq![Frame::With(st.scopes.len())]);
    assert(body.scopes.drop_last() =~= st.pieces(args).scopes);
}

/// The end of a `with` block decides on the whitespace before and after it, and writes nothing.
pub proof fn lemma_with_closes(
    env: Env,
    ws: (Ws, Ws),
    args: Expression,
    nodes: Vec<Node>,
    st: State,
    depth: nat,
)
    ensures
        ({
            let body = open_with(st, ws.0, args.pieces@);
            let end = emit_nodes(env, nodes@, body, depth);
            let after = emit_helper(env, Helper::With(ws, args, nodes), st, depth);
            &&& after.out == end.out
            &&& after.pending == end.flush_ws(ws.1).pending
            &&& after.next_ws is None
            &&& after.skip_ws == ws.1.1
            &&& after.path == st.path
        }),
{
    let body = open_with(st, ws.0, args.pieces@);
    lemma_code(env, st, ws.0, args.pieces@);
    lemma_nodes_follow(env, nodes@, body, depth);
}

/// An `unless` block is opened by one line with its expression negated, behind all that comes
/// before its tag.
pub proof fn lemma_unless_opens(env: Env, st: State, ws: Ws, args: Seq<Piece>)
    ensures
        ({
            let body = open_unless(env, st, ws, args);
            &&& body.out == before_tag(env, st, ws) + ("if !("@ + code_of(st, args) + ") {"@
                + "\n"@)
            &&& body.pending.len() == 0
            &&& body.next_ws is None
            &&& body.skip_ws == ws.1
            &&& body.text.len() == 0
            &&& body.path == st.path
            &&& body.on == st.on
            &&& body.scopes == st.pieces(args).scopes.push(Seq::empty())
        }),
{
    lemma_code(env, st, ws, args);
}

/// A conditional block is opened by one line with its keyword and its condition, behind all that
/// comes before its tag; its condition is in the scope of the block.
pub proof fn lemma_if_opens(env: Env, st: State, ws: Ws, keyword: Seq<char>, cond: Seq<Piece>)
    ensures
        ({
            let body = open_if(env, st, ws, keyword, cond);
            let inside = st.open_scope(Seq::empty());
            &&& body.out == before_tag(env, st, ws) + (keyword + code_of(inside, cond) + " {"@
                + "\n"@)
            &&& body.pending.len() == 0
            &&& body.next_ws is None
            &&& body.skip_ws == ws.1
            &&& body.text.len() == 0
            &&& body.path == st.path
            &&& body.on == st.on
            &&& body.scopes == inside.pieces(cond).scopes
            &&& inside.scopes == st.scopes.push(Seq::empty())
        }),
{
    let opened = st.handle_ws(ws).flush(env.escaping).open_scope(Seq::empty());
    lemma_pieces(opened, cond);
    lemma_pieces_local(st.open_scope(Seq::empty()), opened, cond);
}

/// Where an `else` tag is met, all that belongs to the block before it is written before the line
/// that opens the block for what is left, and nothing of it goes on waiting.
pub proof fn lemma_else_opens(env: Env, st: State, ws: Ws)
    ensures
        ({
            let body = open_else(env, st, ws);
            &&& body.out == before_tag(env, st, ws) + ("} else {"@ + "\n"@)
            &&& body.pending.len() == 0
            &&& body.next_ws is None
            &&& body.skip_ws == ws.1
            &&& body.text == st.text
            &&& body.path == st.path
            &&& body.on == st.on
            &&& body.scopes == st.scopes.push(Seq::empty())
        }),
{
}

/// The state in which the tag after the block `nodes` is met.
pub open spec fn block_end(env: Env, nodes: Seq<Node>, body: State, depth: nat) -> State {
    let end = emit_nodes(env, nodes, body, depth);
    State {
        out: if end.on.len() == 0 {
            end.out + written(end.pending, env.escaping)
        } else {
            end.out
        },
        pending: if end.on.len() == 0 {
            Seq::empty()
        } else {
            end.pending
        },
        scopes: end.scopes.drop_last(),
        ..end
    }
}

/// A conditional goes through its blocks in order: the first under `if`, the further ones under
/// `else if`, and what is left under `else`. It ends with a brace, behind all that the last block
/// has left to write and the whitespace that the closing tag does not suppress.
pub proof fn lemma_if_parts(
    env: Env,
    first: ((Ws, Ws), Expression, Vec<Node>),
    ifs: Vec<(Ws, Expression, Vec<Node>)>,
    els: Option<(Ws, Vec<Node>)>,
    st: State,
    depth: nat,
)
    ensures
        ({
            let body = open_if(env, st, first.0.0, "if "@, first.1.pieces@);
            let more = emit_else_ifs(env, ifs@, block_end(env, first.2@, body, depth), depth);
            let end = match els {
                Some(e) => block_end(env, e.1@, open_else(env, more, e.0), depth),
                None => more,
            };
            let after = emit_helper(env, Helper::If(first, ifs, els), st, depth);
            &&& after.out == before_tag(env, end, first.0.1) + ("}"@ + "\n"@)
            &&& after.pending.len() == 0
            &&& after.next_ws is None
            &&& after.skip_ws == first.0.1.1
        }),
{
    let body = open_if(env, st, first.0.0, "if "@, first.1.pieces@);
    lemma_block_end(env, first.2@, body, depth);
    let more = emit_else_ifs(env, ifs@, block_end(env, first.2@, body, depth), depth);
    if let Some(e) = els {
        lemma_block_end(env, e.1@, open_else(env, more, e.0), depth);
    }
}

proof fn lemma_block_end(env: Env, nodes: Seq<Node>, body: State, depth: nat)
    ensures
        block_end(env, nodes, body, depth) == emit_nodes(env, nodes, body, depth).settle(
            env.escaping,
        ).close_scope(),
{
    assert(block_end(env, nodes, body, depth) =~= emit_nodes(env, nodes, body, depth).settle(
        env.escaping,
    ).close_scope());
}

/// Further conditions come one after the other, each under `else if`.
pub proof fn lemma_else_ifs_in_turn(
    env: Env,
    ifs: Seq<(Ws, Expression, Vec<Node>)>,
    one: (Ws, Expression, Vec<Node>),
    st: State,
    depth: nat,
)
    ensures
        emit_else_ifs(env, Seq::empty(), st, depth) == st,
        emit_else_ifs(env, ifs.push(one), st, depth) == block_end(
            env,
            one.2@,
            open_if(
                env,
                emit_else_ifs(env, ifs, st, depth),
                one.0,
                "} else if "@,
                one.1.pieces@,
            ),
            depth,
        ),
{
    assert(ifs.push(one).drop_last() =~= ifs);
    let before = emit_else_ifs(env, ifs, st, depth);
    let body = open_if(env, before, one.0, "} else if "@, one.1.pieces@);
    lemma_block_end(env, one.2@, body, depth);
}

/// An `unless` block ends with a brace, behind all that it has left to write and the whitespace
/// that the closing tag does not suppress.
pub proof fn lemma_unless_closes(
    env: Env,
    ws: (Ws, Ws),
    args: Expression,
    nodes: Vec<Node>,
    st: State,
    depth: nat,
)
    ensures
        ({
            let end = block_end(env, nodes@, open_unless(env, st, ws.0, args.pieces@), depth);
            let after = emit_helper(env, Helper::Unless(ws, args, nodes), st, depth);
            &&& after.out == before_tag(env, end, ws.1) + ("}"@ + "\n"@)
            &&& after.pending.len() == 0
            &&& after.next_ws is None
            &&& after.skip_ws == ws.1.1
        }),
{
    lemma_block_end(env, nodes@, open_unless(env, st, ws.0, args.pieces@), depth);
}

/// A partial is its template's nodes in place of the tag: the tag decides on the whitespace
/// before them by its first flag, and on that after them by its second flag. A suppression by the
/// tag before the partial goes on inside of it.
pub proof fn lemma_partial_in_place(env: Env, ws: Ws, name: Parts, st: State, depth: nat)
    requires
        depth > 0,
    ensures
        ({
            let target = partial_path(env.root, st.path, name);
            let body = open_partial(st, ws, target);
            let end = block_end(env, env.templates[target], body, (depth - 1) as nat);
            let after = emit_partial(env, ws, name, st, depth);
            &&& body.out == st.out
            &&& body.pending == st.flush_ws(ws).pending
            &&& body.next_ws is None
            &&& body.skip_ws == st.skip_ws
            &&& body.path == target
            &&& body.on == st.on
            &&& body.text == st.text
            &&& body.scopes == st.scopes.push(Seq::empty())
            &&& after.out == end.out
            &&& after.pending == end.pending
            &&& after.next_ws == end.next_ws
            &&& after.skip_ws == ws.1
            &&& after.path == st.path
        }),
{
    let target = partial_path(env.root, st.path, name);
    let body = open_partial(st, ws, target);
    lemma_block_end(env, env.templates[target], body, (depth - 1) as nat);
}

/// A partial keeps the whitespace of the text before it unless its tag suppresses it.
pub proof fn lemma_text_before_partial(
    st: State,
    lws: Seq<char>,
    lit: Seq<char>,
    rws: Seq<char>,
    after: bool,
    target: Parts,
)
    requires
        st.in_order(lws, lit, rws),
        !st.skip_ws,
    ensures
        joined(open_partial(st.lit(lws, lit, rws), Ws(false, after), target).pending) == joined(
            st.pending,
        ) + lws + lit + rws,
        open_partial(st.lit(lws, lit, rws), Ws(true, after), target).pending == st.lit(
            lws,
            lit,
            Seq::empty(),
        ).pending,
{
    let ws = Ws(false, after);
    let end = open_partial(st.lit(lws, lit, rws), ws, target).pending;
    let more = added(st, lws, lit, rws, ws);
    lemma_text_written(st, lws, lit, rws, ws);
    assert(end =~= st.pending + more);
    lemma_joined(st.pending, more, lws, lit, false);
    assert(joined(st.pending) + (lws + lit + rws) =~= joined(st.pending) + lws + lit + rws);
}

/// A statement is written as a line, behind all that waits; the whitespace on both sides of it is
/// dropped.
pub proof fn lemma_let_line(env: Env, st: State, n: Node, depth: nat)
    requires
        n is Let,
    ensures
        ({
            let pieces = n->Let_0.pieces@;
            let after = emit_node(env, n, st, depth);
            &&& after.out == st.out + written(st.pending, env.escaping) + (code_of(st, pieces)
                + "\n"@)
            &&& after.pending.len() == 0
            &&& after.next_ws is None
            &&& after.skip_ws
            &&& after.text.len() == 0
            &&& after.scopes == st.pieces(pieces).scopes
            &&& after.on == st.on
            &&& after.path == st.path
        }),
{
    let pieces = n->Let_0.pieces@;
    let a = st.drop_ws().flush(env.escaping);
    lemma_pieces(a, pieces);
    lemma_pieces_local(st, a, pieces);
}

/// An expression waits behind all that comes before its tag: one that is written without escaping
/// as such, and any other as its pieces say.
pub proof fn lemma_value_waits(env: Env, ws: Ws, expr: Expression, st: State, depth: nat)
    ensures
        ({
            let code = code_of(st, expr.pieces@);
            let safe = emit_node(env, Node::Safe(ws, expr), st, depth);
            let value = emit_node(env, Node::Expr(ws, expr), st, depth);
            let wrapped = State { wrapped: false, ..st }.pieces(expr.pieces@).wrapped;
            &&& safe.pending == st.flush_ws(ws).pending + seq![Written::Code(code, true)]
            &&& value.pending == st.flush_ws(ws).pending + seq![Written::Code(code, wrapped)]
            &&& safe.out == st.out && value.out == st.out
            &&& safe.next_ws is None && value.next_ws is None
            &&& safe.skip_ws == ws.1 && value.skip_ws == ws.1
            &&& safe.text.len() == 0 && value.text.len() == 0
            &&& safe.scopes == st.pieces(expr.pieces@).scopes
            &&& value.scopes == st.pieces(expr.pieces@).scopes
            &&& safe.on == st.on && value.on == st.on
            &&& safe.path == st.path && value.path == st.path
        }),
{
    let code = code_of(st, expr.pieces@);
    let b = State { wrapped: false, ..st };
    lemma_pieces(st, expr.pieces@);
    lemma_pieces(b, expr.pieces@);
    lemma_pieces_local(st, b, expr.pieces@);
    let safe = emit_node(env, Node::Safe(ws, expr), st, depth);
    let value = emit_node(env, Node::Expr(ws, expr), st, depth);
    let wrapped = b.pieces(expr.pieces@).wrapped;
    assert(safe.pending =~= st.flush_ws(ws).pending + seq![Written::Code(code, true)]);
    assert(value.pending =~= st.flush_ws(ws).pending + seq![Written::Code(code, wrapped)]);
}

/// A node does what its tag says: text is met as text, a helper and a partial are gone through,
/// and a comment drops the whitespace on both sides of it.
pub proof fn lemma_node_kinds(
    env: Env,
    lit: (String, String, String),
    h: Helper,
    ws: Ws,
    name: TemplatePath,
    comment: String,
    st: State,
    depth: nat,
)
    ensures
        emit_node(env, Node::Lit(lit.0, lit.1, lit.2), st, depth) == st.lit(
            lit.0@,
            lit.1@,
            lit.2@,
        ),
        emit_node(env, Node::Helper(h), st, depth) == emit_helper(env, h, st, depth),
        depth > 0 ==> emit_node(env, Node::Partial(ws, name), st, depth) == emit_partial(
            env,
            ws,
            name@,
            st,
            depth,
        ),
        emit_node(env, Node::Comment(comment), st, depth) == (State {
            next_ws: None,
            skip_ws: true,
            ..st
        }),
{
}

} // verus!
