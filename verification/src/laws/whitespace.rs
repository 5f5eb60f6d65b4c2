//! What becomes of the whitespace around tags.
use vstd::prelude::*;

use crate::model::{emit_node, joined, Env, State, Written};
use crate::node::{Node, Ws};

verus! {

proof fn lemma_joined_push(pending: Seq<Written>, s: Seq<char>)
    ensures
        joined(pending.push(Written::Lit(s))) == joined(pending) + s,
{
    assert(pending.push(Written::Lit(s)).drop_last() =~= pending);
}

/// Where neither the tag before nor the tag after suppresses it, whitespace is kept: exactly the
/// text of the template is written between them, as long as it is met in order.
pub proof fn lemma_text_kept(
    st: State,
    lws: Seq<char>,
    lit: Seq<char>,
    rws: Seq<char>,
    after: bool,
)
    requires
        st.in_order(lws, lit, rws),
        !st.skip_ws,
    ensures
        joined(st.lit(lws, lit, rws).handle_ws(Ws(false, after)).pending) == joined(st.pending)
            + lws + lit + rws,
{
    let b = st.lit(lws, lit, rws);
    let c = b.handle_ws(Ws(false, after));
    lemma_joined_push(st.pending, lws);
    lemma_joined_push(st.pending, lit);
    lemma_joined_push(st.pending.push(Written::Lit(lws)), lit);
    lemma_joined_push(b.pending, rws);
    lemma_joined_push(b.pending, lws);
    if lit.len() > 0 {
        if lws.len() > 0 {
            assert(b.pending =~= st.pending.push(Written::Lit(lws)).push(Written::Lit(lit)));
        } else {
            assert(b.pending =~= st.pending.push(Written::Lit(lit)));
        }
    } else {
        assert(b.pending =~= st.pending);
    }
    assert(joined(c.pending) =~= joined(st.pending) + lws + lit + rws);
}

/// After a tag, text is met in order, unless it is whitespace alone with other whitespace after
/// it.
pub proof fn lemma_after_tag(st: State, ws: Ws, lws: Seq<char>, lit: Seq<char>, rws: Seq<char>)
    requires
        lit.len() > 0 || lws.len() == 0 || rws.len() == 0,
    ensures
        st.handle_ws(ws).in_order(lws, lit, rws),
        st.handle_ws(ws).skip_ws == ws.1,
{
}

/// A tag that suppresses the whitespace after it has the text after it written as if it had no
/// whitespace in front.
pub proof fn lemma_suppressed_after(
    st: State,
    ws: bool,
    lws: Seq<char>,
    lit: Seq<char>,
    rws: Seq<char>,
)
    requires
        lws.len() > 0,
    ensures
        st.handle_ws(Ws(ws, true)).lit(lws, lit, rws) == st.handle_ws(Ws(ws, false)).lit(
            Seq::empty(),
            lit,
            rws,
        ),
{
    assert(st.handle_ws(Ws(ws, true)).lit(lws, lit, rws) =~= st.handle_ws(Ws(ws, false)).lit(
        Seq::empty(),
        lit,
        rws,
    ));
}

/// A tag that suppresses the whitespace before it has the text before it written as if it had no
/// whitespace behind.
pub proof fn lemma_suppressed_before(
    st: State,
    lws: Seq<char>,
    lit: Seq<char>,
    rws: Seq<char>,
    ws: bool,
)
    ensures
        st.lit(lws, lit, rws).handle_ws(Ws(true, ws)) == st.lit(lws, lit, Seq::empty()).handle_ws(
            Ws(true, ws),
        ),
{
}

/// After a tag, no whitespace of the text before it is left to decide on.
pub proof fn lemma_decided(st: State, ws: Ws)
    ensures
        st.handle_ws(ws).next_ws is None,
        st.handle_ws(ws).handle_ws(ws) == st.handle_ws(ws),
        st.handle_ws(ws) == st.flush_ws(ws).prepare_ws(ws),
{
}

/// A comment writes nothing, and the whitespace on both sides of it is dropped.
pub proof fn lemma_comment(env: Env, st: State, comment: String, depth: nat)
    ensures
        emit_node(env, Node::Comment(comment), st, depth) == st.drop_ws(),
        st.drop_ws() == (State { next_ws: None, skip_ws: true, ..st }),
{
}

} // verus!
