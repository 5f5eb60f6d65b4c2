//! How text is written.
use vstd::prelude::*;

use crate::derive::EscapeMode;
use crate::expr::{counts, uses_counter, Expression, Piece};
use crate::laws::follow::lemma_pieces;
use crate::loops::loops_count;
use crate::model::{
    code_line, emit_else_ifs, emit_helper, emit_node, emit_nodes, emit_partial, joined, only_text,
    open_each, open_else, open_if, open_partial, open_unless, open_with, some_text_line, written,
    written_after, Env, State, Written,
};
use crate::node::{Helper, Node, Ws};
use crate::path::partial_path;
use crate::text::line;

verus! {

/// No empty text waits to be written.
pub open spec fn no_empty_text(pending: Seq<Written>) -> bool {
    forall|i: int|
        0 <= i < pending.len() ==> (#[trigger] pending[i] matches Written::Lit(s) ==> s.len() > 0)
}

/// No node has an empty text written.
pub proof fn lemma_nodes_no_empty_text(env: Env, nodes: Seq<Node>, st: State, depth: nat)
    requires
        no_empty_text(st.pending),
    ensures
        no_empty_text(emit_nodes(env, nodes, st, depth).pending),
    decreases depth, nodes,
{
    if nodes.len() > 0 {
        lemma_nodes_no_empty_text(env, nodes.drop_last(), st, depth);
        lemma_node_no_empty_text(
            env,
            nodes.last(),
            emit_nodes(env, nodes.drop_last(), st, depth),
            depth,
        );
    }
}

proof fn lemma_node_no_empty_text(env: Env, n: Node, st: State, depth: nat)
    requires
        no_empty_text(st.pending),
    ensures
        no_empty_text(emit_node(env, n, st, depth).pending),
    decreases depth, n,
{
    match n {
        Node::Let(stmt) => {
            lemma_pieces(st.drop_ws().flush(env.escaping), stmt.pieces@);
        },
        Node::Safe(_, expr) => {
            lemma_pieces(st, expr.pieces@);
        },
        Node::Expr(_, expr) => {
            lemma_pieces(State { wrapped: false, ..st }, expr.pieces@);
        },
        Node::Helper(h) => {
            lemma_helper_no_empty_text(env, h, st, depth);
        },
        Node::Partial(ws, name) => {
            if depth > 0 {
                let target = partial_path(env.root, st.path, name@);
                lemma_nodes_no_empty_text(
                    env,
                    env.templates[target],
                    open_partial(st, ws, target),
                    (depth - 1) as nat,
                );
            }
        },
        _ => {},
    }
}

proof fn lemma_helper_no_empty_text(env: Env, h: Helper, st: State, depth: nat)
    requires
        no_empty_text(st.pending),
    ensures
        no_empty_text(emit_helper(env, h, st, depth).pending),
    decreases depth, h,
{
    match h {
        Helper::With(ws, args, nodes) => {
            lemma_pieces(st.handle_ws(ws.0), args.pieces@);
            lemma_nodes_no_empty_text(
                env,
                nodes@,
                open_with(st, ws.0, args.pieces@),
                depth,
            );
        },
        _ => {},
    }
}

/// Text and nothing else is written in one line, if there is any.
proof fn lemma_only_text(before: Seq<char>, pending: Seq<Written>, escaping: EscapeMode)
    requires
        only_text(pending),
    ensures
        written_after(before, pending, escaping) == some_text_line(before + joined(pending)),
    decreases pending.len(),
{
    if pending.len() == 0 {
        assert(before + joined(pending) =~= before);
    } else {
        let rest = pending.skip(1);
        let s = pending[0]->Lit_0;
        assert(pending[0] is Lit);
        assert forall|i: int| 0 <= i < rest.len() implies #[trigger] rest[i] is Lit by {
            assert(rest[i] == pending[i + 1]);
        }
        lemma_only_text(before + s, rest, escaping);
        lemma_joined_first(pending);
        assert(before + s + joined(rest) =~= before + (s + joined(rest)));
    }
}

proof fn lemma_joined_first(pending: Seq<Written>)
    requires
        pending.len() > 0,
        pending[0] is Lit,
    ensures
        joined(pending) == pending[0]->Lit_0 + joined(pending.skip(1)),
    decreases pending.len(),
{
    let rest = pending.skip(1);
    if pending.len() == 1 {
        assert(pending.drop_last() =~= Seq::<Written>::empty());
        assert(rest =~= Seq::<Written>::empty());
        assert(joined(pending) =~= pending[0]->Lit_0 + joined(rest));
    } else {
        lemma_joined_first(pending.drop_last());
        assert(pending.drop_last().skip(1) =~= rest.drop_last());
        assert(joined(pending) =~= pending[0]->Lit_0 + joined(rest));
    }
}

/// What waits is written text by text and expression by expression, with adjacent texts in one
/// line.
pub proof fn lemma_written(pending: Seq<Written>, escaping: EscapeMode)
    requires
        no_empty_text(pending),
    ensures
        written(pending, escaping) == written_after(Seq::empty(), pending, escaping),
{
    if pending.len() > 0 && only_text(pending) {
        lemma_only_text(Seq::empty(), pending, escaping);
        lemma_joined_first(pending);
        assert(pending[0] is Lit);
        assert(Seq::<char>::empty() + joined(pending) =~= joined(pending));
    }
}

proof fn lemma_merge_after(
    before: Seq<char>,
    a: Seq<Written>,
    x: Seq<char>,
    y: Seq<char>,
    b: Seq<Written>,
    escaping: EscapeMode,
)
    ensures
        written_after(before, a + seq![Written::Lit(x), Written::Lit(y)] + b, escaping)
            == written_after(before, a + seq![Written::Lit(x + y)] + b, escaping),
    decreases a.len(),
{
    let two = a + seq![Written::Lit(x), Written::Lit(y)] + b;
    let one = a + seq![Written::Lit(x + y)] + b;
    if a.len() == 0 {
        assert(two.skip(1).skip(1) =~= b);
        assert(one.skip(1) =~= b);
        assert(two.skip(1)[0] == Written::Lit(y));
        assert(before + x + y =~= before + (x + y));
        assert(written_after(before, two, escaping) == written_after(
            before + x,
            two.skip(1),
            escaping,
        ));
    } else {
        let rest = a.skip(1);
        assert(two.skip(1) =~= rest + seq![Written::Lit(x), Written::Lit(y)] + b);
        assert(one.skip(1) =~= rest + seq![Written::Lit(x + y)] + b);
        assert(two[0] == a[0] && one[0] == a[0]);
        match a[0] {
            Written::Lit(s) => lemma_merge_after(before + s, rest, x, y, b, escaping),
            Written::Code(_, _) => lemma_merge_after(Seq::empty(), rest, x, y, b, escaping),
        }
    }
}

proof fn lemma_merge_joined(a: Seq<Written>, x: Seq<char>, y: Seq<char>, b: Seq<Written>)
    ensures
        joined(a + seq![Written::Lit(x), Written::Lit(y)] + b) == joined(
            a + seq![Written::Lit(x + y)] + b,
        ),
    decreases b.len(),
{
    let two = a + seq![Written::Lit(x), Written::Lit(y)] + b;
    let one = a + seq![Written::Lit(x + y)] + b;
    if b.len() == 0 {
        assert(two.drop_last().drop_last() =~= a);
        assert(two.drop_last().last() == Written::Lit(x));
        assert(one.drop_last() =~= a);
        assert(joined(two.drop_last()) == joined(a) + x);
        assert(joined(a) + x + y =~= joined(a) + (x + y));
    } else {
        lemma_merge_joined(a, x, y, b.drop_last());
        assert(two.drop_last() =~= a + seq![Written::Lit(x), Written::Lit(y)] + b.drop_last());
        assert(one.drop_last() =~= a + seq![Written::Lit(x + y)] + b.drop_last());
    }
}

/// Two adjacent texts are written as one text would be.
pub proof fn lemma_texts_merge(
    a: Seq<Written>,
    x: Seq<char>,
    y: Seq<char>,
    b: Seq<Written>,
    escaping: EscapeMode,
)
    ensures
        written(a + seq![Written::Lit(x), Written::Lit(y)] + b, escaping) == written(
            a + seq![Written::Lit(x + y)] + b,
            escaping,
        ),
{
    let two = a + seq![Written::Lit(x), Written::Lit(y)] + b;
    let one = a + seq![Written::Lit(x + y)] + b;
    lemma_merge_after(Seq::empty(), a, x, y, b, escaping);
    lemma_merge_joined(a, x, y, b);
    assert(two.len() == one.len() + 1);
    if only_text(two) {
        assert forall|i: int| 0 <= i < one.len() implies #[trigger] one[i] is Lit by {
            if i < a.len() {
                assert(one[i] == two[i]);
            } else if i > a.len() {
                assert(one[i] == two[i + 1]);
            }
        }
    }
    if only_text(one) {
        assert forall|i: int| 0 <= i < two.len() implies #[trigger] two[i] is Lit by {
            if i < a.len() {
                assert(two[i] == one[i]);
            } else if i > a.len() + 1 {
                assert(two[i] == one[i - 1]);
            }
        }
    }
}

/// What needs no escaping is written as it is, and so is everything where nothing is escaped.
pub proof fn lemma_not_escaped(code: Seq<char>, safe: bool, escaping: EscapeMode)
    requires
        safe || escaping == EscapeMode::Plain,
    ensures
        code_line(code, safe, escaping) == line("("@ + code + ").fmt(_fmt)?;"@),
{
}

proof fn lemma_not_wrapped(st: State, pieces: Seq<Piece>)
    requires
        !st.wrapped,
        !uses_counter(pieces),
        forall|i: int| 0 <= i < pieces.len() ==> !(#[trigger] pieces[i] is Wrap),
    ensures
        !st.pieces(pieces).wrapped,
    decreases pieces.len(),
{
    if pieces.len() > 0 {
        let rest = pieces.drop_last();
        assert forall|i: int| 0 <= i < rest.len() implies #[trigger] rest[i] == pieces[i] by {}
        assert(!uses_counter(rest));
        lemma_not_wrapped(st, rest);
        assert(pieces[pieces.len() - 1] == pieces.last());
        if let Piece::Name(ident) = pieces.last() {
            assert(!counts(ident@));
        }
    }
}

/// Where expressions are escaped, one is written as it is only if it says that it needs no
/// escaping, or names the counter of a loop.
pub proof fn lemma_escaped(env: Env, ws: Ws, expr: Expression, st: State, depth: nat)
    requires
        env.escaping == EscapeMode::Html,
        !uses_counter(expr.pieces@),
        forall|i: int| 0 <= i < expr.pieces@.len() ==> !(#[trigger] expr.pieces@[i] is Wrap),
    ensures
        ({
            let last = emit_node(env, Node::Expr(ws, expr), st, depth).pending.last();
            last matches Written::Code(code, safe) && code_line(code, safe, env.escaping) == line(
                "("@ + ("::wearte::MarkupAsStr::from(&"@ + code + ")"@) + ").fmt(_fmt)?;"@,
            )
        }),
{
    lemma_not_wrapped(State { wrapped: false, ..st }, expr.pieces@);
}

/// No code of an expression is left over after nodes, if there was none before them.
pub proof fn lemma_nodes_taken(env: Env, nodes: Seq<Node>, st: State, depth: nat)
    requires
        st.text.len() == 0,
    ensures
        emit_nodes(env, nodes, st, depth).text.len() == 0,
    decreases depth, nodes,
{
    if nodes.len() > 0 {
        let before = emit_nodes(env, nodes.drop_last(), st, depth);
        lemma_nodes_taken(env, nodes.drop_last(), st, depth);
        lemma_node_taken(env, nodes.last(), before, depth);
    }
}

/// The same for one node.
pub proof fn lemma_node_taken(env: Env, n: Node, st: State, depth: nat)
    requires
        st.text.len() == 0,
    ensures
        emit_node(env, n, st, depth).text.len() == 0,
    decreases depth, n,
{
    match n {
        Node::Helper(h) => {
            lemma_helper_taken(env, h, st, depth);
        },
        Node::Partial(ws, name) => {
            if depth > 0 {
                let target = partial_path(env.root, st.path, name@);
                let body = open_partial(st, ws, target);
                lemma_nodes_taken(env, env.templates[target], body, (depth - 1) as nat);
                assert(emit_partial(env, ws, name@, st, depth).text.len() == 0);
            }
        },
        _ => {},
    }
}

/// The same for a helper.
pub proof fn lemma_helper_taken(env: Env, h: Helper, st: State, depth: nat)
    requires
        st.text.len() == 0,
    ensures
        emit_helper(env, h, st, depth).text.len() == 0,
    decreases depth, h,
{
    match h {
        Helper::Each(ws, args, nodes) => {
            let counted = loops_count(env, st.path, nodes@, depth);
            let body = open_each(env, st, ws.0, args.kind, args.pieces@, counted);
            lemma_nodes_taken(env, nodes@, body, depth);
        },
        Helper::If(first, ifs, els) => {
            let body = open_if(env, st, first.0.0, "if "@, first.1.pieces@);
            lemma_nodes_taken(env, first.2@, body, depth);
            let block = emit_nodes(env, first.2@, body, depth).settle(env.escaping).close_scope();
            lemma_else_ifs_taken(env, ifs@, block, depth);
            if let Some(e) = els {
                let rest = emit_else_ifs(env, ifs@, block, depth);
                lemma_nodes_taken(env, e.1@, open_else(env, rest, e.0), depth);
            }
        },
        Helper::With(ws, args, nodes) => {
            lemma_nodes_taken(env, nodes@, open_with(st, ws.0, args.pieces@), depth);
        },
        Helper::Unless(ws, args, nodes) => {
            lemma_nodes_taken(env, nodes@, open_unless(env, st, ws.0, args.pieces@), depth);
        },
        Helper::Defined(_, _, _, _) => {},
    }
}

/// The same for further conditions.
pub proof fn lemma_else_ifs_taken(
    env: Env,
    ifs: Seq<(Ws, Expression, Vec<Node>)>,
    st: State,
    depth: nat,
)
    requires
        st.text.len() == 0,
    ensures
        emit_else_ifs(env, ifs, st, depth).text.len() == 0,
    decreases depth, ifs,
{
    if ifs.len() > 0 {
        let before = emit_else_ifs(env, ifs.drop_last(), st, depth);
        let one = ifs.last();
        lemma_else_ifs_taken(env, ifs.drop_last(), st, depth);
        let body = open_if(env, before, one.0, "} else if "@, one.1.pieces@);
        lemma_nodes_taken(env, one.2@, body, depth);
    }
}

} // verus!
