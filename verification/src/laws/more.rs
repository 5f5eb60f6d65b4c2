//! Templates that are not used do not matter, nor how deep partials may nest, as long as it is
//! deep enough.
use vstd::prelude::*;

use crate::check::{
    else_ifs_refused, helper_refused, node_refused, node_spaces, nodes_refused, nodes_spaces,
    refused, spaces_at_start,
};
use crate::code::{finish, generated, start, Heading};
use crate::expr::Expression;
use crate::laws::follow::{
    lemma_else_ifs_follow, lemma_if_block_follows, lemma_nodes_follow, lemma_pieces,
};
use crate::laws::recursion::lemma_nodes_accepted_within;
use crate::loops::{else_if_counts, else_ifs_count, helper_counts, loops_count, node_counts};
use crate::model::{
    emit_else_ifs, emit_helper, emit_node, emit_nodes, emit_partial, open_each, open_else, open_if,
    open_partial, open_unless, open_with, Env, State,
};
use crate::node::{Helper, Node, Ws};
use crate::partials::{else_ifs_within, helper_within, node_within, nodes_within};
use crate::path::{partial_path, Parts};
use crate::spaces::Spaces;

verus! {

/// The environment `more` has the templates of `env`, and perhaps others.
pub open spec fn extends(env: Env, more: Env) -> bool {
    &&& env.templates.submap_of(more.templates)
    &&& env.root == more.root
    &&& env.escaping == more.escaping
}

/// Nodes whose partials are all there need a counter where there are more templates and partials
/// may nest deeper if and only if they need it here.
pub proof fn lemma_nodes_deeper(env: Env, more: Env, path: Parts, nodes: Seq<Node>, d: nat, e: nat)
    requires
        extends(env, more),
        d <= e,
        nodes_within(env, path, nodes, d),
    ensures
        nodes_within(more, path, nodes, e),
        loops_count(env, path, nodes, d) == loops_count(more, path, nodes, e),
    decreases d, nodes,
{
    if nodes.len() > 0 {
        lemma_nodes_deeper(env, more, path, nodes.drop_last(), d, e);
        lemma_node_deeper(env, more, path, nodes.last(), d, e);
    }
}

/// The same for one node.
pub proof fn lemma_node_deeper(env: Env, more: Env, path: Parts, n: Node, d: nat, e: nat)
    requires
        extends(env, more),
        d <= e,
        node_within(env, path, n, d),
    ensures
        node_within(more, path, n, e),
        node_counts(env, path, n, d) == node_counts(more, path, n, e),
    decreases d, n,
{
    match n {
        Node::Helper(h) => {
            lemma_helper_deeper(env, more, path, h, d, e);
        },
        Node::Partial(_, name) => {
            let target = partial_path(env.root, path, name@);
            lemma_nodes_deeper(
                env,
                more,
                target,
                env.templates[target],
                (d - 1) as nat,
                (e - 1) as nat,
            );
        },
        _ => {},
    }
}

/// The same for a helper.
pub proof fn lemma_helper_deeper(env: Env, more: Env, path: Parts, h: Helper, d: nat, e: nat)
    requires
        extends(env, more),
        d <= e,
        helper_within(env, path, h, d),
    ensures
        helper_within(more, path, h, e),
        helper_counts(env, path, h, d) == helper_counts(more, path, h, e),
    decreases d, h,
{
    match h {
        Helper::Each(_, _, nodes) => {
            lemma_nodes_deeper(env, more, path, nodes@, d, e);
        },
        Helper::If(first, ifs, els) => {
            lemma_nodes_deeper(env, more, path, first.2@, d, e);
            lemma_else_ifs_deeper(env, more, path, ifs@, d, e);
            if let Some(x) = els {
                lemma_nodes_deeper(env, more, path, x.1@, d, e);
            }
        },
        Helper::With(_, _, nodes) => {
            lemma_nodes_deeper(env, more, path, nodes@, d, e);
        },
        Helper::Unless(_, _, nodes) => {
            lemma_nodes_deeper(env, more, path, nodes@, d, e);
        },
        Helper::Defined(_, _, _, _) => {},
    }
}

/// The same for further conditions.
pub proof fn lemma_else_ifs_deeper(
    env: Env,
    more: Env,
    path: Parts,
    ifs: Seq<(Ws, Expression, Vec<Node>)>,
    d: nat,
    e: nat,
)
    requires
        extends(env, more),
        d <= e,
        else_ifs_within(env, path, ifs, d),
    ensures
        else_ifs_within(more, path, ifs, e),
        else_ifs_count(env, path, ifs, d) == else_ifs_count(more, path, ifs, e),
    decreases d, ifs,
{
    if ifs.len() > 0 {
        lemma_else_ifs_deeper(env, more, path, ifs.drop_last(), d, e);
        lemma_nodes_deeper(env, more, path, ifs.last().2@, d, e);
        assert(else_if_counts(env, path, ifs.last(), d) == else_if_counts(
            more,
            path,
            ifs.last(),
            e,
        ));
    }
}

/// What is generated for nodes whose partials are all there is generated where there are more templates and
/// partials may nest deeper.
pub proof fn lemma_nodes_same(env: Env, more: Env, nodes: Seq<Node>, st: State, d: nat, e: nat)
    requires
        extends(env, more),
        d <= e,
        nodes_within(env, st.path, nodes, d),
    ensures
        emit_nodes(env, nodes, st, d) == emit_nodes(more, nodes, st, e),
    decreases d, nodes,
{
    if nodes.len() > 0 {
        lemma_nodes_same(env, more, nodes.drop_last(), st, d, e);
        lemma_nodes_follow(env, nodes.drop_last(), st, d);
        lemma_node_same(env, more, nodes.last(), emit_nodes(env, nodes.drop_last(), st, d), d, e);
    }
}

/// The same for one node.
pub proof fn lemma_node_same(env: Env, more: Env, n: Node, st: State, d: nat, e: nat)
    requires
        extends(env, more),
        d <= e,
        node_within(env, st.path, n, d),
    ensures
        emit_node(env, n, st, d) == emit_node(more, n, st, e),
    decreases d, n,
{
    match n {
        Node::Helper(h) => {
            lemma_helper_same(env, more, h, st, d, e);
        },
        Node::Partial(ws, name) => {
            let target = partial_path(env.root, st.path, name@);
            let body = open_partial(st, ws, target);
            assert(more.templates.dom().contains(target));
            let (below, above) = ((d - 1) as nat, (e - 1) as nat);
            lemma_nodes_same(env, more, env.templates[target], body, below, above);
            assert(emit_partial(env, ws, name@, st, d) == emit_partial(more, ws, name@, st, e));
        },
        _ => {},
    }
}

/// The same for a helper.
pub proof fn lemma_helper_same(env: Env, more: Env, h: Helper, st: State, d: nat, e: nat)
    requires
        extends(env, more),
        d <= e,
        helper_within(env, st.path, h, d),
    ensures
        emit_helper(env, h, st, d) == emit_helper(more, h, st, e),
    decreases d, h,
{
    match h {
        Helper::Each(ws, args, nodes) => {
            let counted = loops_count(env, st.path, nodes@, d);
            let body = open_each(env, st, ws.0, args.kind, args.pieces@, counted);
            lemma_nodes_deeper(env, more, st.path, nodes@, d, e);
            lemma_pieces(st.handle_ws(ws.0).flush(env.escaping), args.pieces@);
            lemma_nodes_same(env, more, nodes@, body, d, e);
        },
        Helper::If(first, ifs, els) => {
            let body = open_if(env, st, first.0.0, "if "@, first.1.pieces@);
            lemma_open_if_path(env, st, first.0.0, "if "@, first.1);
            lemma_nodes_same(env, more, first.2@, body, d, e);
            let then = emit_nodes(env, first.2@, body, d).settle(env.escaping).close_scope();
            lemma_if_block_follows(
                env,
                st,
                first.0.0,
                "if "@,
                first.1.pieces@,
                first.2@,
                d,
            );
            lemma_else_ifs_same(env, more, ifs@, then, d, e);
            if let Some(x) = els {
                lemma_else_ifs_follow(env, ifs@, then, d);
                let tail = emit_else_ifs(env, ifs@, then, d);
                lemma_nodes_same(env, more, x.1@, open_else(env, tail, x.0), d, e);
            }
        },
        Helper::With(ws, args, nodes) => {
            lemma_pieces(st.handle_ws(ws.0), args.pieces@);
            lemma_nodes_same(env, more, nodes@, open_with(st, ws.0, args.pieces@), d, e);
        },
        Helper::Unless(ws, args, nodes) => {
            lemma_pieces(st.handle_ws(ws.0).flush(env.escaping), args.pieces@);
            lemma_nodes_same(env, more, nodes@, open_unless(env, st, ws.0, args.pieces@), d, e);
        },
        Helper::Defined(_, _, _, _) => {},
    }
}

proof fn lemma_open_if_path(env: Env, st: State, ws: Ws, keyword: Seq<char>, cond: Expression)
    ensures
        open_if(env, st, ws, keyword, cond.pieces@).path == st.path,
{
    lemma_pieces(
        st.handle_ws(ws).flush(env.escaping).open_scope(Seq::empty()),
        cond.pieces@,
    );
}

/// The same for further conditions.
pub proof fn lemma_else_ifs_same(
    env: Env,
    more: Env,
    ifs: Seq<(Ws, Expression, Vec<Node>)>,
    st: State,
    d: nat,
    e: nat,
)
    requires
        extends(env, more),
        d <= e,
        else_ifs_within(env, st.path, ifs, d),
    ensures
        emit_else_ifs(env, ifs, st, d) == emit_else_ifs(more, ifs, st, e),
    decreases d, ifs,
{
    if ifs.len() > 0 {
        let before = emit_else_ifs(env, ifs.drop_last(), st, d);
        let one = ifs.last();
        lemma_else_ifs_same(env, more, ifs.drop_last(), st, d, e);
        lemma_else_ifs_follow(env, ifs.drop_last(), st, d);
        lemma_open_if_path(env, before, one.0, "} else if "@, one.1);
        lemma_nodes_same(
            env,
            more,
            one.2@,
            open_if(env, before, one.0, "} else if "@, one.1.pieces@),
            d,
            e,
        );
    }
}

/// Nodes that are accepted are accepted where there are more templates and partials may nest
/// deeper, with the same whitespace after them.
pub proof fn lemma_nodes_still(
    env: Env,
    more: Env,
    path: Parts,
    nodes: Seq<Node>,
    sp: Spaces,
    d: nat,
    e: nat,
)
    requires
        extends(env, more),
        d <= e,
        nodes_refused(env, path, nodes, sp, d) is None,
    ensures
        nodes_refused(more, path, nodes, sp, e) is None,
        nodes_spaces(more, path, nodes, sp, e) == nodes_spaces(env, path, nodes, sp, d),
    decreases d, nodes,
{
    if nodes.len() > 0 {
        let rest = nodes.drop_last();
        let before = nodes_spaces(env, path, rest, sp, d);
        lemma_nodes_still(env, more, path, rest, sp, d, e);
        lemma_node_still(env, more, path, nodes.last(), before, d, e);
    }
}

/// The same for one node.
pub proof fn lemma_node_still(
    env: Env,
    more: Env,
    path: Parts,
    n: Node,
    sp: Spaces,
    d: nat,
    e: nat,
)
    requires
        extends(env, more),
        d <= e,
        node_refused(env, path, n, sp, d) is None,
    ensures
        node_refused(more, path, n, sp, e) is None,
        node_spaces(more, path, n, sp, e) == node_spaces(env, path, n, sp, d),
    decreases d, n,
{
    match n {
        Node::Helper(h) => {
            lemma_helper_still(env, more, path, h, d, e);
        },
        Node::Partial(_, name) => {
            let target = partial_path(env.root, path, name@);
            let (below, above) = ((d - 1) as nat, (e - 1) as nat);
            assert(more.templates.dom().contains(target));
            lemma_nodes_still(
                env,
                more,
                target,
                env.templates[target],
                sp.inside(),
                below,
                above,
            );
        },
        _ => {},
    }
}

/// The same for a helper.
pub proof fn lemma_helper_still(env: Env, more: Env, path: Parts, h: Helper, d: nat, e: nat)
    requires
        extends(env, more),
        d <= e,
        helper_refused(env, path, h, d) is None,
    ensures
        helper_refused(more, path, h, e) is None,
    decreases d, h,
{
    match h {
        Helper::Each(ws, _, nodes) => {
            lemma_nodes_still(env, more, path, nodes@, Spaces::tag(ws.0), d, e);
        },
        Helper::If(first, ifs, els) => {
            lemma_nodes_still(env, more, path, first.2@, Spaces::tag(first.0.0), d, e);
            lemma_else_ifs_still(env, more, path, ifs@, d, e);
            if let Some(x) = els {
                lemma_nodes_still(env, more, path, x.1@, Spaces::tag(x.0), d, e);
            }
        },
        Helper::With(ws, _, nodes) => {
            lemma_nodes_still(env, more, path, nodes@, Spaces::tag(ws.0), d, e);
        },
        Helper::Unless(ws, _, nodes) => {
            lemma_nodes_still(env, more, path, nodes@, Spaces::tag(ws.0), d, e);
        },
        Helper::Defined(_, _, _, _) => {},
    }
}

/// The same for further conditions.
pub proof fn lemma_else_ifs_still(
    env: Env,
    more: Env,
    path: Parts,
    ifs: Seq<(Ws, Expression, Vec<Node>)>,
    d: nat,
    e: nat,
)
    requires
        extends(env, more),
        d <= e,
        else_ifs_refused(env, path, ifs, d) is None,
    ensures
        else_ifs_refused(more, path, ifs, e) is None,
    decreases d, ifs,
{
    if ifs.len() > 0 {
        let one = ifs.last();
        lemma_else_ifs_still(env, more, path, ifs.drop_last(), d, e);
        lemma_nodes_still(env, more, path, one.2@, Spaces::tag(one.0), d, e);
    }
}

/// Templates that a template does not take in have no part in its code: with more of them at
/// hand, it is still accepted, and the code is the same.
pub proof fn lemma_more_templates(env: Env, more: Env, h: Heading, actix_web: bool)
    requires
        extends(env, more),
        more.templates.dom().finite(),
        refused(env) is None,
    ensures
        refused(more) is None,
        generated(more, h, actix_web) == generated(env, h, actix_web),
{
    let d = env.templates.dom().len();
    let e = more.templates.dom().len();
    let nodes = env.templates[env.root];
    vstd::set_lib::lemma_len_subset(env.templates.dom(), more.templates.dom());
    lemma_nodes_accepted_within(env, env.root, nodes, spaces_at_start(), d);
    lemma_nodes_still(env, more, env.root, nodes, spaces_at_start(), d, e);
    lemma_nodes_same(env, more, nodes, start(env), d, e);
    assert(start(env) == start(more));
    assert(finish(env) == finish(more));
}

} // verus!
