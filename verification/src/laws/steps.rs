//! The single steps of the generator.
use vstd::prelude::*;

use crate::derive::EscapeMode;
use crate::expr::Piece;
use crate::laws::names::lemma_loop_words;
use crate::model::{
    bound, emit_node, emit_nodes, innermost_loop, joined, only_text, resolved, written, Env, Frame,
    Scopes, State, Written,
};
use crate::node::{Node, Ws};

verus! {

/// The whitespace that waits before a tag is written if and only if the tag does not suppress it,
/// after all that waits already. None waits after the tag, and nothing else changes.
pub proof fn lemma_flush_ws(st: State, ws: Ws, w: Seq<char>)
    ensures
        ws.0 ==> st.flush_ws(ws).pending == st.pending,
        st.next_ws is None ==> st.flush_ws(ws).pending == st.pending,
        st.next_ws == Some(w) && w.len() == 0 ==> st.flush_ws(ws).pending == st.pending,
        st.next_ws == Some(w) && w.len() > 0 && !ws.0 ==> st.flush_ws(ws).pending == st.pending
            + seq![Written::Lit(w)],
        st.flush_ws(ws) == (State {
            pending: st.flush_ws(ws).pending,
            next_ws: None,
            ..st
        }),
{
    assert(st.pending.push(Written::Lit(w)) =~= st.pending + seq![Written::Lit(w)]);
}

/// A tag decides on the whitespace before it by its first flag, and on that after it by its
/// second flag.
pub proof fn lemma_handle_ws(st: State, ws: Ws)
    ensures
        st.handle_ws(ws).pending == st.flush_ws(Ws(ws.0, !ws.1)).pending,
        st.handle_ws(ws) == (State {
            pending: st.handle_ws(ws).pending,
            next_ws: None,
            skip_ws: ws.1,
            ..st
        }),
        st.prepare_ws(ws) == (State { skip_ws: ws.1, ..st }),
{
}

/// The texts of what waits are put together in order, and expressions have none.
pub proof fn lemma_joined(
    a: Seq<Written>,
    b: Seq<Written>,
    s: Seq<char>,
    code: Seq<char>,
    safe: bool,
)
    ensures
        joined(Seq::empty()) == Seq::<char>::empty(),
        joined(seq![Written::Lit(s)]) == s,
        joined(seq![Written::Code(code, safe)]) == Seq::<char>::empty(),
        joined(a + b) == joined(a) + joined(b),
    decreases b.len(),
{
    assert(seq![Written::Lit(s)].drop_last() =~= Seq::empty());
    assert(seq![Written::Code(code, safe)].drop_last() =~= Seq::empty());
    assert(joined(Seq::<Written>::empty()) =~= Seq::<char>::empty());
    assert(seq![Written::Lit(s)].last() == Written::Lit(s));
    assert(joined(seq![Written::Lit(s)]) =~= s);
    if b.len() == 0 {
        assert(a + b =~= a);
        assert(joined(a) + joined(b) =~= joined(a));
    } else {
        lemma_joined(a, b.drop_last(), s, code, safe);
        assert((a + b).drop_last() =~= a + b.drop_last());
        assert((a + b).last() == b.last());
        assert(joined(a + b) =~= joined(a) + joined(b));
    }
}

/// What a text adds up to the tag after it, which has the whitespace flags `ws`.
pub open spec fn added(
    st: State,
    lws: Seq<char>,
    lit: Seq<char>,
    rws: Seq<char>,
    ws: Ws,
) -> Seq<Written> {
    st.lit(lws, lit, rws).flush_ws(ws).pending.skip(st.pending.len() as int)
}

/// A text is written after all that waits: its leading whitespace unless the tag before it
/// suppresses it, its trailing whitespace unless the tag after it suppresses it, and whitespace
/// alone unless either does.
pub proof fn lemma_text_written(
    st: State,
    lws: Seq<char>,
    lit: Seq<char>,
    rws: Seq<char>,
    ws: Ws,
)
    requires
        st.in_order(lws, lit, rws),
    ensures
        st.pending.is_prefix_of(st.lit(lws, lit, rws).flush_ws(ws).pending),
        only_text(added(st, lws, lit, rws, ws)),
        !st.skip_ws && !ws.0 ==> joined(added(st, lws, lit, rws, ws)) == lws + lit + rws,
        st.skip_ws && !ws.0 ==> joined(added(st, lws, lit, rws, ws)) == lit + rws,
        st.skip_ws && ws.0 ==> joined(added(st, lws, lit, rws, ws)) == lit,
        !st.skip_ws && ws.0 && lit.len() > 0 ==> joined(added(st, lws, lit, rws, ws)) == lws
            + lit,
        !st.skip_ws && ws.0 && lit.len() == 0 ==> joined(added(st, lws, lit, rws, ws)).len() == 0,
{
    let end = st.lit(lws, lit, rws).flush_ws(ws).pending;
    let more = added(st, lws, lit, rws, ws);
    let l = seq![Written::Lit(lws)];
    let t = seq![Written::Lit(lit)];
    let r = seq![Written::Lit(rws)];
    let none = Seq::<Written>::empty();
    let keeps_l = !st.skip_ws && lws.len() > 0 && (lit.len() > 0 || !ws.0);
    let keeps_r = !ws.0 && rws.len() > 0;
    let a = if keeps_l {
        l
    } else {
        none
    };
    let b = if lit.len() > 0 {
        t
    } else {
        none
    };
    let c = if keeps_r {
        r
    } else {
        none
    };
    assert(end =~= st.pending + (a + b + c));
    assert(more =~= a + b + c);
    lemma_joined(a + b, c, lws, Seq::empty(), false);
    lemma_joined(a, b, lit, Seq::empty(), false);
    lemma_joined(a, b, rws, Seq::empty(), false);
    assert(joined(more) == joined(a) + joined(b) + joined(c));
    assert(joined(a) == if keeps_l { lws } else { Seq::empty() });
    assert(joined(b) =~= lit);
    assert(joined(c) == if keeps_r { rws } else { Seq::empty() });
    if !st.skip_ws && !ws.0 {
        assert(joined(more) =~= lws + lit + rws);
    }
    if st.skip_ws && !ws.0 {
        assert(joined(more) =~= lit + rws);
    }
    if st.skip_ws && ws.0 {
        assert(joined(more) =~= lit);
    }
    if !st.skip_ws && ws.0 && lit.len() > 0 {
        assert(joined(more) =~= lws + lit);
    }
}

/// Text is met in order if and only if no whitespace waits and it is not whitespace alone, without
/// a suppression, with other whitespace after it.
pub proof fn lemma_in_order(st: State, lws: Seq<char>, lit: Seq<char>, rws: Seq<char>)
    ensures
        st.in_order(lws, lit, rws) <==> st.next_ws is None && (st.skip_ws || lws.len() == 0
            || lit.len() > 0 || rws.len() == 0),
{
}

/// Text writes no line and binds no name; a suppression lasts up to the next whitespace, and the
/// whitespace after the text waits.
pub proof fn lemma_text_waits(st: State, lws: Seq<char>, lit: Seq<char>, rws: Seq<char>)
    requires
        st.in_order(lws, lit, rws),
    ensures
        st.lit(lws, lit, rws) == (State {
            pending: st.lit(lws, lit, rws).pending,
            next_ws: st.lit(lws, lit, rws).next_ws,
            skip_ws: st.lit(lws, lit, rws).skip_ws,
            ..st
        }),
        st.lit(lws, lit, rws).skip_ws <==> st.skip_ws && lws.len() == 0,
        rws.len() > 0 ==> st.lit(lws, lit, rws).next_ws == Some(rws),
        rws.len() == 0 && lit.len() > 0 ==> st.lit(lws, lit, rws).next_ws is None,
        rws.len() == 0 && lit.len() == 0 && lws.len() > 0 && !st.skip_ws ==> st.lit(
            lws,
            lit,
            rws,
        ).next_ws == Some(lws),
        rws.len() == 0 && (lws.len() == 0 || st.skip_ws) ==> st.lit(lws, lit, rws).next_ws is None,
{
}

/// Outside of loops and `with` blocks, what waits is written at the end of nodes; inside, it goes
/// on waiting.
pub proof fn lemma_settle(st: State, escaping: EscapeMode)
    ensures
        st.on.len() == 0 ==> st.settle(escaping) == (State {
            out: st.out + written(st.pending, escaping),
            pending: Seq::empty(),
            ..st
        }),
        st.on.len() > 0 ==> st.settle(escaping) == st,
        st.flush(escaping) == (State {
            out: st.out + written(st.pending, escaping),
            pending: Seq::empty(),
            ..st
        }),
{
}

/// An expression is written piece by piece: text as it is, a name as what it stands for, and
/// nothing for what is bound or said of escaping. A name is bound in the innermost scope, behind
/// those that are there. An expression needs no escaping if it needed none before, if it says so,
/// or if a name in it needs none.
pub proof fn lemma_piece(st: State, s: String)
    ensures
        st.piece(Piece::Text(s)) == (State { text: st.text + s@, ..st }),
        st.piece(Piece::Name(s)) == (State {
            text: st.text + resolved(st.scopes, st.on, s@).0,
            wrapped: st.wrapped || resolved(st.scopes, st.on, s@).1,
            ..st
        }),
        st.piece(Piece::Wrap) == (State { wrapped: true, ..st }),
        st.piece(Piece::Declare(s)) == (State { scopes: st.piece(Piece::Declare(s)).scopes, ..st }),
        st.scopes.len() > 0 ==> {
            let scopes = st.piece(Piece::Declare(s)).scopes;
            &&& scopes.len() == st.scopes.len()
            &&& scopes.last() == st.scopes.last() + seq![s@]
            &&& forall|i: int| 0 <= i < scopes.len() - 1 ==> scopes[i] == st.scopes[i]
        },
{
    if st.scopes.len() > 0 {
        assert(st.piece(Piece::Declare(s)).scopes.last() =~= st.scopes.last() + seq![s@]);
    }
}

/// The pieces of an expression are written in order.
pub proof fn lemma_pieces_in_turn(st: State, a: Seq<Piece>, b: Seq<Piece>, p: Piece)
    ensures
        st.pieces(Seq::empty()) == st,
        st.pieces(seq![p]) == st.piece(p),
        st.pieces(a + b) == st.pieces(a).pieces(b),
    decreases b.len(),
{
    assert(seq![p].drop_last() =~= Seq::empty());
    assert(st.pieces(Seq::empty()) == st);
    if b.len() == 0 {
        assert(a + b =~= a);
    } else {
        lemma_pieces_in_turn(st, a, b.drop_last(), p);
        assert((a + b).drop_last() =~= a + b.drop_last());
        assert((a + b).last() == b.last());
    }
}

/// Nodes are gone through one by one.
pub proof fn lemma_nodes_one_by_one(env: Env, n: Node, st: State, depth: nat)
    ensures
        emit_nodes(env, Seq::empty(), st, depth) == st,
        emit_nodes(env, seq![n], st, depth) == emit_node(env, n, st, depth),
{
    assert(seq![n].drop_last() =~= Seq::empty());
    assert(emit_nodes(env, Seq::empty(), st, depth) == st);
}

/// A name is bound if and only if a scope holds it.
pub proof fn lemma_bound(scopes: Scopes, names: Seq<Seq<char>>, ident: Seq<char>)
    ensures
        !bound(Seq::empty(), ident),
        bound(scopes.push(names), ident) <==> bound(scopes, ident) || names.contains(ident),
{
    let more = scopes.push(names);
    if bound(scopes, ident) {
        let (i, j) = choose|i: int, j: int|
            0 <= i < scopes.len() && 0 <= j < scopes[i].len() && #[trigger] scopes[i][j] == ident;
        assert(more[i][j] == ident);
    }
    if names.contains(ident) {
        let j = names.index_of(ident);
        assert(more[scopes.len() as int][j] == ident);
    }
    if bound(more, ident) {
        let (i, j) = choose|i: int, j: int|
            0 <= i < more.len() && 0 <= j < more[i].len() && #[trigger] more[i][j] == ident;
        if i < scopes.len() {
            assert(scopes[i][j] == ident);
        } else {
            assert(names[j] == ident);
        }
    }
}

/// Where no block is open, no loop is.
pub proof fn lemma_no_block(on: Seq<Frame>)
    ensures
        on.len() == 0 ==> innermost_loop(on) is None,
        on.len() == 1 && on[0] is With ==> innermost_loop(on) is None,
{
    if on.len() == 1 {
        assert(innermost_loop(on.drop_last()) is None);
    }
}

/// What the code for a name is made of: nothing but the name if it is bound, the first name of all
/// for `self` and outside of all blocks, the names of the loop for its variables, and what the
/// innermost block is on for any other.
pub proof fn lemma_reached(st: State, ident: Seq<char>, j: nat)
    ensures
        ({
            let first = st.scopes.len() > 0 && st.scopes[0].len() > 0;
            let free = ident != "self"@ && !bound(st.scopes, ident);
            let word = ident == "index0"@ || ident == "index"@ || ident == "first"@ || ident
                == "last"@;
            &&& ident == "self"@ ==> (st.reaches(ident) <==> first)
            &&& ident != "self"@ && bound(st.scopes, ident) ==> st.reaches(ident)
            &&& free && st.on.len() == 0 ==> (st.reaches(ident) <==> first)
            &&& free && innermost_loop(st.on) == Some(j) && word ==> (st.reaches(ident) <==> j
                < st.scopes.len() && st.scopes[j as int].len() > 1)
            &&& free && innermost_loop(st.on) == Some(j) && ident == "key"@ ==> (st.reaches(ident)
                <==> j < st.scopes.len() && st.scopes[j as int].len() > 0)
            &&& free && st.on.len() > 0 && (innermost_loop(st.on) is None || (!word && ident
                != "key"@)) ==> (st.reaches(ident) <==> st.on.last().scope() < st.scopes.len()
                && st.scopes[st.on.last().scope() as int].len() > 0)
        }),
{
    lemma_loop_words();
    lemma_no_block(st.on);
}

/// `self` is the first name of all, a name that is bound stands for itself, and a name outside of
/// all blocks is a field of `self`. None of them says that a value needs no escaping.
pub proof fn lemma_resolved(scopes: Scopes, on: Seq<Frame>, ident: Seq<char>)
    ensures
        resolved(scopes, on, "self"@) == (scopes[0][0], false),
        ident != "self"@ && bound(scopes, ident) ==> resolved(scopes, on, ident) == (ident, false),
        ident != "self"@ && !bound(scopes, ident) && on.len() == 0 ==> resolved(scopes, on, ident)
            == (scopes[0][0] + "."@ + ident, false),
{
}

} // verus!
