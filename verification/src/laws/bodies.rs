//! What names stand for anywhere in the body of a block.
use vstd::prelude::*;

use crate::expr::{ExprKind, Expression, Piece};
use crate::laws::follow::{follows, lemma_nodes_follow, lemma_pieces};
use crate::laws::names::{lemma_innermost_loop, lemma_loop_words, lemma_pieces_local};
use crate::laws::steps::lemma_pieces_in_turn;
use crate::laws::tags::{code_of, lemma_each_opens, lemma_value_waits, lemma_with_opens};
use crate::model::{
    bound, emit_node, emit_nodes, innermost_loop, open_each, open_else, open_if, open_partial,
    open_unless, open_with, resolved, Env, Frame, State, Written,
};
use crate::node::{Node, Ws};
use crate::path::Parts;
use crate::text::decimal;

verus! {

/// The innermost loop is the counted loop with the number `id`.
pub open spec fn in_loop(st: State, id: nat) -> bool {
    &&& innermost_loop(st.on) == Some(id)
    &&& id < st.scopes.len()
    &&& st.scopes[id as int].len() >= 2
    &&& st.scopes[id as int][0] == "_key_"@ + decimal(id)
    &&& st.scopes[id as int][1] == "_index_"@ + decimal(id)
}

/// The innermost loop, counted or not, has the number `id`.
pub open spec fn in_any_loop(st: State, id: nat) -> bool {
    &&& innermost_loop(st.on) == Some(id)
    &&& id < st.scopes.len()
    &&& st.scopes[id as int].len() >= 1
    &&& st.scopes[id as int][0] == "_key_"@ + decimal(id)
}

/// Names are looked up in the scope at `id`, which is on `owner`.
pub open spec fn on_value(st: State, id: nat, owner: Seq<char>) -> bool {
    &&& st.on.len() > 0
    &&& st.on.last().scope() == id
    &&& id < st.scopes.len()
    &&& st.scopes[id as int].len() >= 1
    &&& st.scopes[id as int][0] == owner
}

/// In a counted loop, `index0`, `index`, `first` and `last` are made of its counter and `key` is
/// its item, whatever else has been bound, unless the template binds these names itself.
pub proof fn lemma_variables(st: State, id: nat)
    requires
        in_loop(st, id),
    ensures
        ({
            let key = "_key_"@ + decimal(id);
            let index = "_index_"@ + decimal(id);
            let free = |ident: Seq<char>| !bound(st.scopes, ident);
            let code = |ident: Seq<char>| resolved(st.scopes, st.on, ident);
            &&& free("index0"@) ==> code("index0"@) == (index, true)
            &&& free("index"@) ==> code("index"@) == ("("@ + index + " + 1)"@, true)
            &&& free("first"@) ==> code("first"@) == ("("@ + index + " == 0)"@, true)
            &&& free("last"@) ==> code("last"@) == (
                "(("@ + key + ").len() == ("@ + index + " + 1))"@,
                true,
            )
            &&& free("key"@) ==> code("key"@) == (key, false)
        }),
{
    lemma_loop_words();
}

/// In a loop, `key` is its item, unless the template binds that name itself.
pub proof fn lemma_key(st: State, id: nat)
    requires
        in_any_loop(st, id),
        !bound(st.scopes, "key"@),
    ensures
        resolved(st.scopes, st.on, "key"@) == ("_key_"@ + decimal(id), false),
{
    lemma_loop_words();
}

/// A name that is not bound and no variable of a loop is a field of what names are looked up in.
pub proof fn lemma_field(st: State, id: nat, owner: Seq<char>, ident: Seq<char>)
    requires
        on_value(st, id, owner),
        !bound(st.scopes, ident),
        ident != "self"@,
        innermost_loop(st.on) is Some ==> ident != "index0"@ && ident != "index"@ && ident
            != "first"@ && ident != "last"@ && ident != "key"@,
    ensures
        resolved(st.scopes, st.on, ident) == (owner + "."@ + ident, false),
{
}

proof fn lemma_scope_kept(a: State, b: State, i: int, j: int)
    requires
        follows(a, b),
        0 <= i < a.scopes.len(),
        0 <= j < a.scopes[i].len(),
    ensures
        i < b.scopes.len(),
        j < b.scopes[i].len(),
        b.scopes[i][j] == a.scopes[i][j],
{
    if i < a.scopes.len() - 1 {
        assert(a.scopes[i] == b.scopes[i]);
    } else {
        assert(a.scopes.last().is_prefix_of(b.scopes.last()));
        assert(a.scopes.last() =~= b.scopes.last().take(a.scopes.last().len() as int));
        assert(a.scopes.last()[j] == b.scopes.last()[j]);
    }
}

proof fn lemma_in_loop_kept(a: State, b: State, id: nat)
    requires
        follows(a, b),
        in_loop(a, id),
    ensures
        in_loop(b, id),
{
    lemma_scope_kept(a, b, id as int, 0);
    lemma_scope_kept(a, b, id as int, 1);
}

proof fn lemma_in_any_loop_kept(a: State, b: State, id: nat)
    requires
        follows(a, b),
        in_any_loop(a, id),
    ensures
        in_any_loop(b, id),
{
    lemma_scope_kept(a, b, id as int, 0);
}

proof fn lemma_on_value_kept(a: State, b: State, id: nat, owner: Seq<char>)
    requires
        follows(a, b),
        on_value(a, id, owner),
    ensures
        on_value(b, id, owner),
{
    lemma_scope_kept(a, b, id as int, 0);
}

/// Anywhere in the body of a loop, after any of its nodes and whatever they have bound, the loop
/// has its number in all of its variables, and other names are fields of its item.
pub proof fn lemma_in_body(
    env: Env,
    st: State,
    ws: Ws,
    kind: ExprKind,
    args: Seq<Piece>,
    counted: bool,
    before: Seq<Node>,
    depth: nat,
)
    ensures
        ({
            let body = open_each(env, st, ws, kind, args, counted);
            let now = emit_nodes(env, before, body, depth);
            let id = st.scopes.len();
            &&& counted ==> in_loop(now, id)
            &&& in_any_loop(now, id)
            &&& on_value(now, id, "_key_"@ + decimal(id))
        }),
{
    let body = open_each(env, st, ws, kind, args, counted);
    let id = st.scopes.len();
    lemma_each_opens(env, st, ws, kind, args, counted);
    lemma_innermost_loop(st.on, id);
    assert(body.on =~= st.on.push(Frame::Each(id)));
    lemma_nodes_follow(env, before, body, depth);
    lemma_in_any_loop_kept(body, emit_nodes(env, before, body, depth), id);
    if counted {
        lemma_in_loop_kept(body, emit_nodes(env, before, body, depth), id);
    }
    lemma_on_value_kept(
        body,
        emit_nodes(env, before, body, depth),
        id,
        "_key_"@ + decimal(id),
    );
}

/// Anywhere in a `with` block, after any of its nodes, names are fields of the value, and the
/// variables of a loop around it stay.
pub proof fn lemma_in_with(
    env: Env,
    st: State,
    ws: Ws,
    args: Seq<Piece>,
    before: Seq<Node>,
    depth: nat,
    id: nat,
)
    ensures
        ({
            let now = emit_nodes(env, before, open_with(st, ws, args), depth);
            &&& on_value(now, st.scopes.len(), code_of(st, args))
            &&& innermost_loop(now.on) == innermost_loop(st.on)
            &&& in_loop(st, id) ==> in_loop(now, id)
            &&& in_any_loop(st, id) ==> in_any_loop(now, id)
        }),
{
    let body = open_with(st, ws, args);
    let now = emit_nodes(env, before, body, depth);
    lemma_with_opens(env, st, ws, args);
    lemma_innermost_loop(st.on, st.scopes.len());
    assert(body.on =~= st.on.push(Frame::With(st.scopes.len())));
    lemma_nodes_follow(env, before, body, depth);
    lemma_on_value_kept(body, now, st.scopes.len(), code_of(st, args));
    if in_any_loop(st, id) {
        let v = st.pieces(args);
        lemma_pieces(st, args);
        lemma_scope_kept(st, v, id as int, 0);
        assert(body.scopes.drop_last()[id as int] == body.scopes[id as int]);
        lemma_in_any_loop_kept(body, now, id);
    }
    if in_loop(st, id) {
        let v = st.pieces(args);
        lemma_pieces(st, args);
        lemma_scope_kept(st, v, id as int, 0);
        lemma_scope_kept(st, v, id as int, 1);
        assert(body.scopes.drop_last()[id as int] == body.scopes[id as int]);
        lemma_in_loop_kept(body, now, id);
    }
}

/// After any nodes, in a conditional block and in a partial, the variables of the loop around
/// them stay, and so does what names are looked up in.
pub proof fn lemma_goes_on(
    env: Env,
    st: State,
    nodes: Seq<Node>,
    ws: Ws,
    keyword: Seq<char>,
    cond: Seq<Piece>,
    target: Parts,
    depth: nat,
    id: nat,
    owner: Seq<char>,
)
    ensures
        in_loop(st, id) ==> {
            &&& in_loop(emit_nodes(env, nodes, st, depth), id)
            &&& in_loop(open_if(env, st, ws, keyword, cond), id)
            &&& in_loop(open_else(env, st, ws), id)
            &&& in_loop(open_unless(env, st, ws, cond), id)
            &&& in_loop(open_partial(st, ws, target), id)
        },
        in_any_loop(st, id) ==> {
            &&& in_any_loop(emit_nodes(env, nodes, st, depth), id)
            &&& in_any_loop(open_if(env, st, ws, keyword, cond), id)
            &&& in_any_loop(open_else(env, st, ws), id)
            &&& in_any_loop(open_unless(env, st, ws, cond), id)
            &&& in_any_loop(open_partial(st, ws, target), id)
        },
        on_value(st, id, owner) ==> {
            &&& on_value(emit_nodes(env, nodes, st, depth), id, owner)
            &&& on_value(open_if(env, st, ws, keyword, cond), id, owner)
            &&& on_value(open_else(env, st, ws), id, owner)
            &&& on_value(open_unless(env, st, ws, cond), id, owner)
            &&& on_value(open_partial(st, ws, target), id, owner)
        },
{
    lemma_nodes_follow(env, nodes, st, depth);
    let a = st.handle_ws(ws).flush(env.escaping);
    let opened = a.open_scope(Seq::empty());
    lemma_pieces(a, cond);
    lemma_pieces(opened, cond);
    if in_loop(st, id) {
        lemma_in_loop_kept(st, emit_nodes(env, nodes, st, depth), id);
        lemma_in_loop_kept(a, a.pieces(cond), id);
        lemma_in_loop_kept(opened, opened.pieces(cond), id);
    }
    if in_any_loop(st, id) {
        lemma_in_any_loop_kept(st, emit_nodes(env, nodes, st, depth), id);
        lemma_in_any_loop_kept(a, a.pieces(cond), id);
        lemma_in_any_loop_kept(opened, opened.pieces(cond), id);
    }
    if on_value(st, id, owner) {
        lemma_on_value_kept(st, emit_nodes(env, nodes, st, depth), id, owner);
        lemma_on_value_kept(a, a.pieces(cond), id, owner);
        lemma_on_value_kept(opened, opened.pieces(cond), id, owner);
    }
}

/// Once a piece of an expression says that the value needs no escaping, no other piece takes it
/// back.
pub proof fn lemma_stays_safe(st: State, pieces: Seq<Piece>)
    requires
        st.wrapped,
    ensures
        st.pieces(pieces).wrapped,
    decreases pieces.len(),
{
    if pieces.len() > 0 {
        lemma_stays_safe(st, pieces.drop_last());
    }
}

/// An expression with a piece that says that the value needs no escaping, or with a free variable
/// of the counter of the innermost loop, is written without escaping.
pub proof fn lemma_safe_value(
    env: Env,
    ws: Ws,
    expr: Expression,
    st: State,
    depth: nat,
    i: int,
    id: nat,
)
    requires
        0 <= i < expr.pieces@.len(),
        expr.pieces@[i] is Wrap || {
            &&& in_loop(st, id)
            &&& expr.pieces@[i] matches Piece::Name(s) && {
                &&& s@ == "index0"@ || s@ == "index"@ || s@ == "first"@ || s@ == "last"@
                &&& !bound(st.pieces(expr.pieces@.take(i)).scopes, s@)
            }
        },
    ensures
        emit_node(env, Node::Expr(ws, expr), st, depth).pending.last() matches Written::Code(
            _,
            safe,
        ) && safe,
{
    let all = expr.pieces@;
    let b = State { wrapped: false, ..st };
    let before = b.pieces(all.take(i));
    lemma_pieces_local(b, st, all.take(i));
    lemma_pieces(b, all.take(i));
    lemma_pieces_in_turn(b, all.take(i), all.skip(i), all[i]);
    lemma_pieces_in_turn(before, seq![all[i]], all.skip(i + 1), all[i]);
    assert(all =~= all.take(i) + all.skip(i));
    assert(all.skip(i) =~= seq![all[i]] + all.skip(i + 1));
    if let Piece::Name(s) = all[i] {
        lemma_in_loop_kept(b, before, id);
        lemma_variables(before, id);
    }
    assert(before.piece(all[i]).wrapped);
    lemma_stays_safe(before.piece(all[i]), all.skip(i + 1));
    assert(b.pieces(all).wrapped);
    lemma_value_waits(env, ws, expr, st, depth);
}

} // verus!
