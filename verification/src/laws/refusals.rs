//! Which templates are refused.
use vstd::prelude::*;

use crate::check::{
    else_ifs_refused, first_of, helper_refused, node_refused, nodes_refused, nodes_spaces,
    refused, text_refused, unless_refused, Refusal,
};
use crate::derive::Struct;
use crate::expr::{ExprKind, Expression};
use crate::laws::follow::{lemma_else_ifs_follow, lemma_nodes_follow, lemma_pieces};
use crate::laws::ready::lemma_nodes_spaces;
use crate::loops::loops_count;
use crate::mime::{mime_extension, mime_type};
use crate::model::{
    emit_else_ifs, emit_nodes, open_each, open_else, open_if, open_partial, open_unless,
    open_with, Env, State,
};
use crate::node::{Context, Helper, Node, Ws};
use crate::path::{partial_path, Parts, TemplatePath};
use crate::ready::{else_ifs_ready, helper_ready, node_ready, nodes_ready};
use crate::spaces::Spaces;

verus! {

/// An `unless` block refuses a negation, and any form but operators, calls, indices, fields,
/// paths, parentheses, macros, literals and `?`.
pub proof fn lemma_unless_forms(kind: ExprKind)
    ensures
        unless_refused(kind) == Some(Refusal::NegatedUnless) <==> kind == ExprKind::Not,
        unless_refused(kind) is None <==> {
            ||| kind == ExprKind::Binary
            ||| kind == ExprKind::Call
            ||| kind == ExprKind::MethodCall
            ||| kind == ExprKind::Index
            ||| kind == ExprKind::Field
            ||| kind == ExprKind::Path
            ||| kind == ExprKind::Paren
            ||| kind == ExprKind::Macro
            ||| kind == ExprKind::Lit
            ||| kind == ExprKind::Try
            ||| kind == ExprKind::Unary
        },
        unless_refused(kind) is Some && kind != ExprKind::Not ==> unless_refused(kind) == Some(
            Refusal::UnlessArgument,
        ),
{
}

/// Text is refused while whitespace waits, and so is whitespace alone that is not suppressed and
/// has other whitespace after it; other text is not.
pub proof fn lemma_texts_refused(sp: Spaces, lws: Seq<char>, lit: Seq<char>, rws: Seq<char>)
    ensures
        text_refused(sp, lws, lit, rws) == Some(Refusal::WaitingWhitespace) <==> sp.waits,
        text_refused(sp, lws, lit, rws) == Some(Refusal::SplitWhitespace) <==> !sp.waits
            && !sp.skips && lws.len() > 0 && lit.len() == 0 && rws.len() > 0,
        text_refused(sp, lws, lit, rws) is None <==> !sp.waits && (sp.skips || lws.len() == 0
            || lit.len() > 0 || rws.len() == 0),
{
}

/// What is refused in the first nodes comes first.
pub proof fn lemma_refused_in_turn(
    env: Env,
    path: Parts,
    a: Seq<Node>,
    b: Seq<Node>,
    n: Node,
    sp: Spaces,
    depth: nat,
)
    ensures
        nodes_refused(env, path, Seq::empty(), sp, depth) is None,
        nodes_refused(env, path, seq![n], sp, depth) == node_refused(env, path, n, sp, depth),
        nodes_refused(env, path, a, sp, depth) is Some ==> nodes_refused(
            env,
            path,
            a + b,
            sp,
            depth,
        ) == nodes_refused(env, path, a, sp, depth),
        nodes_refused(env, path, a, sp, depth) is None ==> nodes_refused(
            env,
            path,
            a + b,
            sp,
            depth,
        ) == nodes_refused(env, path, b, nodes_spaces(env, path, a, sp, depth), depth),
        nodes_spaces(env, path, a + b, sp, depth) == nodes_spaces(
            env,
            path,
            b,
            nodes_spaces(env, path, a, sp, depth),
            depth,
        ),
    decreases b.len(),
{
    assert(seq![n].drop_last() =~= Seq::empty());
    assert(nodes_refused(env, path, Seq::empty(), sp, depth) is None);
    assert(nodes_spaces(env, path, Seq::empty(), sp, depth) == sp);
    if b.len() == 0 {
        assert(a + b =~= a);
    } else {
        lemma_refused_in_turn(env, path, a, b.drop_last(), n, sp, depth);
        assert((a + b).drop_last() =~= a + b.drop_last());
        assert((a + b).last() == b.last());
    }
}

/// A partial is refused if there is no template for it, or, with none left to nest in, as part of
/// itself; otherwise it is refused for what its template is refused for, met right behind the
/// tag. Text is refused for its whitespace, a helper for itself, and nothing else is refused.
pub proof fn lemma_nodes_refused_for(
    env: Env,
    path: Parts,
    ws: Ws,
    name: TemplatePath,
    n: Node,
    sp: Spaces,
    depth: nat,
)
    ensures
        ({
            let target = partial_path(env.root, path, name@);
            let why = node_refused(env, path, Node::Partial(ws, name), sp, depth);
            &&& !env.templates.dom().contains(target) ==> why == Some(Refusal::TemplateNotFound)
            &&& env.templates.dom().contains(target) && depth == 0 ==> why == Some(
                Refusal::RecursivePartial,
            )
            &&& env.templates.dom().contains(target) && depth > 0 ==> why == nodes_refused(
                env,
                target,
                env.templates[target],
                (Spaces { waits: false, skips: sp.skips }),
                (depth - 1) as nat,
            )
        }),
        n is Let || n is Safe || n is Expr || n is Comment ==> node_refused(
            env,
            path,
            n,
            sp,
            depth,
        ) is None,
        n matches Node::Lit(l, s, r) ==> node_refused(env, path, n, sp, depth) == text_refused(
            sp,
            l@,
            s@,
            r@,
        ),
        n matches Node::Helper(h) ==> node_refused(env, path, n, sp, depth) == helper_refused(
            env,
            path,
            h,
            depth,
        ),
        n matches Node::Helper(Helper::Defined(_, _, _, _)) ==> node_refused(
            env,
            path,
            n,
            sp,
            depth,
        ) == Some(Refusal::DefinedHelper),
        n matches Node::Helper(Helper::Unless(_, args, _)) ==> (unless_refused(args.kind) is Some
            ==> node_refused(env, path, n, sp, depth) == unless_refused(args.kind)),
{
    if let Node::Helper(h) = n {
        assert(node_refused(env, path, n, sp, depth) == helper_refused(env, path, h, depth));
    }
}

/// A block is refused for its nodes, met right behind its tag; the blocks of a conditional come in
/// order.
pub proof fn lemma_blocks_refused(
    env: Env,
    path: Parts,
    h: Helper,
    ifs: Seq<(Ws, Expression, Vec<Node>)>,
    one: (Ws, Expression, Vec<Node>),
    depth: nat,
)
    ensures
        ({
            let behind = |ws: Ws, nodes: Seq<Node>|
                nodes_refused(env, path, nodes, (Spaces { waits: false, skips: ws.1 }), depth);
            let why = helper_refused(env, path, h, depth);
            &&& h matches Helper::Each(ws, _, nodes) ==> why == behind(ws.0, nodes@)
            &&& h matches Helper::With(ws, _, nodes) ==> why == behind(ws.0, nodes@)
            &&& h matches Helper::Unless(ws, args, nodes) ==> (unless_refused(args.kind) is None
                ==> why == behind(ws.0, nodes@))
            &&& h matches Helper::If(first, more, els) ==> {
                let a = behind(first.0.0, first.2@);
                let b = else_ifs_refused(env, path, more@, depth);
                &&& a is Some ==> why == a
                &&& a is None && b is Some ==> why == b
                &&& a is None && b is None ==> (els matches Some(e) ==> why == behind(
                    e.0,
                    e.1@,
                ))
                &&& a is None && b is None && els is None ==> why is None
            }
            &&& else_ifs_refused(env, path, Seq::empty(), depth) is None
            &&& else_ifs_refused(env, path, ifs, depth) is Some ==> else_ifs_refused(
                env,
                path,
                ifs.push(one),
                depth,
            ) == else_ifs_refused(env, path, ifs, depth)
            &&& else_ifs_refused(env, path, ifs, depth) is None ==> else_ifs_refused(
                env,
                path,
                ifs.push(one),
                depth,
            ) == behind(one.0, one.2@)
        }),
{
    assert(ifs.push(one).drop_last() =~= ifs);
}

/// A template that is not there is refused as such, whatever its extension; one that is there is
/// refused for its nodes first, and for its media type only if nothing is wrong with them.
pub proof fn lemma_refused_first(env: Env)
    ensures
        !env.templates.dom().contains(env.root) ==> refused(env) == Some(
            Refusal::TemplateNotFound,
        ),
        env.templates.dom().contains(env.root) ==> {
            let why = nodes_refused(
                env,
                env.root,
                env.templates[env.root],
                (Spaces { waits: false, skips: false }),
                env.templates.dom().len(),
            );
            let known = mime_type(mime_extension(env.root)) is Some;
            &&& why is Some ==> refused(env) == why
            &&& why is None && known ==> refused(env) is None
            &&& why is None && !known ==> refused(env) == Some(Refusal::UnknownMime)
        },
{
}

/// What a template is generated from is its path, its escaping and all of the templates.
pub proof fn lemma_environment(s: Struct, ctx: Context)
    ensures
        s.env(ctx).templates == ctx@,
        s.env(ctx).root == s.path@,
        s.env(ctx).escaping == s.escaping,
        s.heading().generics == s.generics@,
        s.heading().target == s.target@,
{
}

/// Nodes that the generator can go through are not refused.
pub proof fn lemma_ready_accepted(env: Env, nodes: Seq<Node>, st: State, depth: nat)
    requires
        nodes_ready(env, nodes, st, depth),
    ensures
        nodes_refused(env, st.path, nodes, st.spaces(), depth) is None,
    decreases depth, nodes,
{
    if nodes.len() > 0 {
        let before = emit_nodes(env, nodes.drop_last(), st, depth);
        lemma_ready_accepted(env, nodes.drop_last(), st, depth);
        lemma_nodes_follow(env, nodes.drop_last(), st, depth);
        lemma_nodes_spaces(env, nodes.drop_last(), st, depth);
        lemma_node_ready_accepted(env, nodes.last(), before, depth);
    }
}

proof fn lemma_node_ready_accepted(env: Env, n: Node, st: State, depth: nat)
    requires
        node_ready(env, n, st, depth),
    ensures
        node_refused(env, st.path, n, st.spaces(), depth) is None,
    decreases depth, n,
{
    match n {
        Node::Helper(h) => {
            lemma_helper_ready_accepted(env, h, st, depth);
        },
        Node::Partial(ws, name) => {
            let target = partial_path(env.root, st.path, name@);
            let body = open_partial(st, ws, target);
            lemma_ready_accepted(env, env.templates[target], body, (depth - 1) as nat);
        },
        _ => {},
    }
}

proof fn lemma_helper_ready_accepted(env: Env, h: Helper, st: State, depth: nat)
    requires
        helper_ready(env, h, st, depth),
    ensures
        helper_refused(env, st.path, h, depth) is None,
    decreases depth, h,
{
    match h {
        Helper::Each(ws, args, nodes) => {
            let counted = loops_count(env, st.path, nodes@, depth);
            let body = open_each(env, st, ws.0, args.kind, args.pieces@, counted);
            lemma_pieces(st.handle_ws(ws.0).flush(env.escaping), args.pieces@);
            lemma_ready_accepted(env, nodes@, body, depth);
        },
        Helper::If(first, ifs, els) => {
            let body = open_if(env, st, first.0.0, "if "@, first.1.pieces@);
            let block = emit_nodes(env, first.2@, body, depth).settle(env.escaping).close_scope();
            lemma_pieces(
                st.handle_ws(first.0.0).flush(env.escaping).open_scope(Seq::empty()),
                first.1.pieces@,
            );
            lemma_ready_accepted(env, first.2@, body, depth);
            lemma_nodes_follow(env, first.2@, body, depth);
            lemma_else_ifs_ready_accepted(env, ifs@, block, depth);
            if let Some(e) = els {
                let rest = emit_else_ifs(env, ifs@, block, depth);
                lemma_else_ifs_follow(env, ifs@, block, depth);
                lemma_ready_accepted(env, e.1@, open_else(env, rest, e.0), depth);
            }
        },
        Helper::With(ws, args, nodes) => {
            lemma_pieces(st.handle_ws(ws.0), args.pieces@);
            lemma_ready_accepted(env, nodes@, open_with(st, ws.0, args.pieces@), depth);
        },
        Helper::Unless(ws, args, nodes) => {
            lemma_pieces(st.handle_ws(ws.0).flush(env.escaping), args.pieces@);
            lemma_ready_accepted(env, nodes@, open_unless(env, st, ws.0, args.pieces@), depth);
        },
        Helper::Defined(_, _, _, _) => {},
    }
}

proof fn lemma_else_ifs_ready_accepted(
    env: Env,
    ifs: Seq<(Ws, Expression, Vec<Node>)>,
    st: State,
    depth: nat,
)
    requires
        else_ifs_ready(env, ifs, st, depth),
    ensures
        else_ifs_refused(env, st.path, ifs, depth) is None,
    decreases depth, ifs,
{
    if ifs.len() > 0 {
        let before = emit_else_ifs(env, ifs.drop_last(), st, depth);
        let one = ifs.last();
        let body = open_if(env, before, one.0, "} else if "@, one.1.pieces@);
        lemma_else_ifs_ready_accepted(env, ifs.drop_last(), st, depth);
        lemma_else_ifs_follow(env, ifs.drop_last(), st, depth);
        lemma_pieces(
            before.handle_ws(one.0).flush(env.escaping).open_scope(Seq::empty()),
            one.1.pieces@,
        );
        lemma_ready_accepted(env, one.2@, body, depth);
    }
}

/// The first of two reasons counts.
pub proof fn lemma_first_of(a: Refusal, b: Option<Refusal>)
    ensures
        first_of(Some(a), b) == Some(a),
        first_of(None, b) == b,
{
}

} // verus!
