//! Templates that are part of themselves.
use vstd::prelude::*;

use crate::check::{
    else_ifs_refused, helper_refused, node_refused, nodes_refused, nodes_spaces, refused,
    spaces_at_start, Refusal,
};
use crate::expr::Expression;
use crate::model::Env;
use crate::node::{Helper, Node, Ws};
use crate::partials::{else_ifs_within, helper_within, node_within, nodes_within};
use crate::path::{partial_path, Parts};
use crate::spaces::Spaces;

verus! {

/// Whether a partial among `nodes`, of the template at `path`, stands for the template at
/// `target`.
pub open spec fn nodes_take(env: Env, path: Parts, nodes: Seq<Node>, target: Parts) -> bool
    decreases nodes,
{
    nodes.len() > 0 && (nodes_take(env, path, nodes.drop_last(), target) || node_takes(
        env,
        path,
        nodes.last(),
        target,
    ))
}

/// Whether a partial in the node `n` stands for the template at `target`.
pub open spec fn node_takes(env: Env, path: Parts, n: Node, target: Parts) -> bool
    decreases n,
{
    match n {
        Node::Helper(h) => helper_takes(env, path, h, target),
        Node::Partial(_, name) => partial_path(env.root, path, name@) == target,
        _ => false,
    }
}

/// Whether a partial in the helper `h` stands for the template at `target`.
pub open spec fn helper_takes(env: Env, path: Parts, h: Helper, target: Parts) -> bool
    decreases h,
{
    match h {
        Helper::Each(_, _, nodes) => nodes_take(env, path, nodes@, target),
        Helper::If(first, ifs, els) => {
            ||| nodes_take(env, path, first.2@, target)
            ||| else_ifs_take(env, path, ifs@, target)
            ||| els matches Some(e) && nodes_take(env, path, e.1@, target)
        },
        Helper::With(_, _, nodes) => nodes_take(env, path, nodes@, target),
        Helper::Unless(_, _, nodes) => nodes_take(env, path, nodes@, target),
        Helper::Defined(_, _, _, _) => false,
    }
}

/// Whether a partial in the further conditions `ifs` stands for the template at `target`.
pub open spec fn else_ifs_take(
    env: Env,
    path: Parts,
    ifs: Seq<(Ws, Expression, Vec<Node>)>,
    target: Parts,
) -> bool
    decreases ifs,
{
    ifs.len() > 0 && (else_ifs_take(env, path, ifs.drop_last(), target) || nodes_take(
        env,
        path,
        ifs.last().2@,
        target,
    ))
}

/// Whether the template at `a` takes in the one at `b`.
pub open spec fn takes(env: Env, a: Parts, b: Parts) -> bool {
    env.templates.dom().contains(b) && nodes_take(env, a, env.templates[a], b)
}

/// Each template of `c` takes in the next one.
pub open spec fn chain(env: Env, c: Seq<Parts>) -> bool {
    forall|i: int, j: int|
        0 <= i < c.len() && j == i + 1 && j < c.len() ==> takes(
            env,
            #[trigger] c[i],
            #[trigger] c[j],
        )
}

/// The templates of `c` are taken in one by the other, the first of them by `nodes`.
pub open spec fn chain_from(env: Env, path: Parts, nodes: Seq<Node>, c: Seq<Parts>) -> bool {
    &&& c.len() > 0
    &&& env.templates.dom().contains(c[0])
    &&& nodes_take(env, path, nodes, c[0])
    &&& chain(env, c)
}

proof fn lemma_longer_chain(env: Env, a: Parts, c: Seq<Parts>)
    requires
        chain(env, c),
        c.len() > 0 ==> takes(env, a, c[0]),
    ensures
        chain(env, seq![a] + c),
{
    let d = seq![a] + c;
    assert forall|i: int, j: int| 0 <= i < d.len() && j == i + 1 && j < d.len() implies takes(
        env,
        #[trigger] d[i],
        #[trigger] d[j],
    ) by {
        assert(d[j] == c[j - 1]);
        if i > 0 {
            assert(d[i] == c[i - 1]);
        }
    }
}

/// Partials that nest too deep give a chain of templates.
proof fn lemma_nodes_deep(
    env: Env,
    path: Parts,
    nodes: Seq<Node>,
    sp: Spaces,
    depth: nat,
) -> (c: Seq<Parts>)
    requires
        nodes_refused(env, path, nodes, sp, depth) == Some(Refusal::RecursivePartial),
    ensures
        c.len() == depth + 1,
        chain_from(env, path, nodes, c),
    decreases depth, nodes,
{
    let rest = nodes.drop_last();
    if nodes_refused(env, path, rest, sp, depth) is Some {
        lemma_nodes_deep(env, path, rest, sp, depth)
    } else {
        lemma_node_deep(
            env,
            path,
            nodes.last(),
            nodes_spaces(env, path, rest, sp, depth),
            depth,
        )
    }
}

proof fn lemma_node_deep(
    env: Env,
    path: Parts,
    n: Node,
    sp: Spaces,
    depth: nat,
) -> (c: Seq<Parts>)
    requires
        node_refused(env, path, n, sp, depth) == Some(Refusal::RecursivePartial),
    ensures
        c.len() == depth + 1,
        env.templates.dom().contains(c[0]),
        node_takes(env, path, n, c[0]),
        chain(env, c),
    decreases depth, n,
{
    match n {
        Node::Helper(h) => lemma_helper_deep(env, path, h, depth),
        Node::Partial(_, name) => {
            let target = partial_path(env.root, path, name@);
            if depth == 0 {
                seq![target]
            } else {
                let c = lemma_nodes_deep(
                    env,
                    target,
                    env.templates[target],
                    sp.inside(),
                    (depth - 1) as nat,
                );
                lemma_longer_chain(env, target, c);
                seq![target] + c
            }
        },
        _ => Seq::empty(),
    }
}

proof fn lemma_helper_deep(env: Env, path: Parts, h: Helper, depth: nat) -> (c: Seq<Parts>)
    requires
        helper_refused(env, path, h, depth) == Some(Refusal::RecursivePartial),
    ensures
        c.len() == depth + 1,
        env.templates.dom().contains(c[0]),
        helper_takes(env, path, h, c[0]),
        chain(env, c),
    decreases depth, h,
{
    match h {
        Helper::Each(ws, _, nodes) => lemma_nodes_deep(
            env,
            path,
            nodes@,
            Spaces::tag(ws.0),
            depth,
        ),
        Helper::If(first, ifs, els) => if nodes_refused(
            env,
            path,
            first.2@,
            Spaces::tag(first.0.0),
            depth,
        ) is Some {
            lemma_nodes_deep(env, path, first.2@, Spaces::tag(first.0.0), depth)
        } else if else_ifs_refused(env, path, ifs@, depth) is Some {
            lemma_else_ifs_deep(env, path, ifs@, depth)
        } else {
            match els {
                Some(e) => lemma_nodes_deep(env, path, e.1@, Spaces::tag(e.0), depth),
                None => Seq::empty(),
            }
        },
        Helper::With(ws, _, nodes) => lemma_nodes_deep(
            env,
            path,
            nodes@,
            Spaces::tag(ws.0),
            depth,
        ),
        Helper::Unless(ws, _, nodes) => lemma_nodes_deep(
            env,
            path,
            nodes@,
            Spaces::tag(ws.0),
            depth,
        ),
        Helper::Defined(_, _, _, _) => Seq::empty(),
    }
}

proof fn lemma_else_ifs_deep(
    env: Env,
    path: Parts,
    ifs: Seq<(Ws, Expression, Vec<Node>)>,
    depth: nat,
) -> (c: Seq<Parts>)
    requires
        else_ifs_refused(env, path, ifs, depth) == Some(Refusal::RecursivePartial),
    ensures
        c.len() == depth + 1,
        env.templates.dom().contains(c[0]),
        else_ifs_take(env, path, ifs, c[0]),
        chain(env, c),
    decreases depth, ifs,
{
    let rest = ifs.drop_last();
    if else_ifs_refused(env, path, rest, depth) is Some {
        lemma_else_ifs_deep(env, path, rest, depth)
    } else {
        lemma_nodes_deep(env, path, ifs.last().2@, Spaces::tag(ifs.last().0), depth)
    }
}

/// A template is refused as recursive only if, going from it to the templates that partials
/// stand for, one is met again.
pub proof fn lemma_recursive(env: Env)
    requires
        env.templates.dom().finite(),
        refused(env) == Some(Refusal::RecursivePartial),
    ensures
        exists|c: Seq<Parts>|
            #![trigger chain(env, c)]
            c.len() > 0 && c[0] == env.root && chain(env, c) && !c.no_duplicates(),
{
    let dom = env.templates.dom();
    let nodes = env.templates[env.root];
    let rest = lemma_nodes_deep(env, env.root, nodes, spaces_at_start(), dom.len());
    let c = seq![env.root] + rest;
    lemma_longer_chain(env, env.root, rest);
    assert forall|i: int| 0 <= i < c.len() implies dom.contains(#[trigger] c[i]) by {
        if i > 0 {
            assert(takes(env, c[i - 1], c[i]));
        }
    }
    if c.no_duplicates() {
        c.unique_seq_to_set();
        assert(c.to_set().subset_of(dom));
        vstd::set_lib::lemma_len_subset(c.to_set(), dom);
    }
}

/// The templates that accepted nodes take in are there, and partials nest no deeper than they may.
pub proof fn lemma_nodes_accepted_within(
    env: Env,
    path: Parts,
    nodes: Seq<Node>,
    sp: Spaces,
    depth: nat,
)
    requires
        nodes_refused(env, path, nodes, sp, depth) is None,
    ensures
        nodes_within(env, path, nodes, depth),
    decreases depth, nodes,
{
    if nodes.len() > 0 {
        let rest = nodes.drop_last();
        lemma_nodes_accepted_within(env, path, rest, sp, depth);
        lemma_node_accepted_within(
            env,
            path,
            nodes.last(),
            nodes_spaces(env, path, rest, sp, depth),
            depth,
        );
    }
}

proof fn lemma_node_accepted_within(env: Env, path: Parts, n: Node, sp: Spaces, depth: nat)
    requires
        node_refused(env, path, n, sp, depth) is None,
    ensures
        node_within(env, path, n, depth),
    decreases depth, n,
{
    match n {
        Node::Helper(h) => {
            lemma_helper_accepted_within(env, path, h, depth);
        },
        Node::Partial(_, name) => {
            let target = partial_path(env.root, path, name@);
            lemma_nodes_accepted_within(
                env,
                target,
                env.templates[target],
                sp.inside(),
                (depth - 1) as nat,
            );
        },
        _ => {},
    }
}

proof fn lemma_helper_accepted_within(env: Env, path: Parts, h: Helper, depth: nat)
    requires
        helper_refused(env, path, h, depth) is None,
    ensures
        helper_within(env, path, h, depth),
    decreases depth, h,
{
    match h {
        Helper::Each(ws, _, nodes) => {
            lemma_nodes_accepted_within(env, path, nodes@, Spaces::tag(ws.0), depth);
        },
        Helper::If(first, ifs, els) => {
            lemma_nodes_accepted_within(env, path, first.2@, Spaces::tag(first.0.0), depth);
            lemma_else_ifs_accepted_within(env, path, ifs@, depth);
            if let Some(e) = els {
                lemma_nodes_accepted_within(env, path, e.1@, Spaces::tag(e.0), depth);
            }
        },
        Helper::With(ws, _, nodes) => {
            lemma_nodes_accepted_within(env, path, nodes@, Spaces::tag(ws.0), depth);
        },
        Helper::Unless(ws, _, nodes) => {
            lemma_nodes_accepted_within(env, path, nodes@, Spaces::tag(ws.0), depth);
        },
        Helper::Defined(_, _, _, _) => {},
    }
}

proof fn lemma_else_ifs_accepted_within(
    env: Env,
    path: Parts,
    ifs: Seq<(Ws, Expression, Vec<Node>)>,
    depth: nat,
)
    requires
        else_ifs_refused(env, path, ifs, depth) is None,
    ensures
        else_ifs_within(env, path, ifs, depth),
    decreases depth, ifs,
{
    if ifs.len() > 0 {
        let one = ifs.last();
        lemma_else_ifs_accepted_within(env, path, ifs.drop_last(), depth);
        lemma_nodes_accepted_within(env, path, one.2@, Spaces::tag(one.0), depth);
    }
}

/// Where partials nest no deeper than a depth, those of a template that is taken in nest less
/// deep.
proof fn lemma_nodes_shallow(env: Env, path: Parts, nodes: Seq<Node>, target: Parts, depth: nat)
    requires
        nodes_within(env, path, nodes, depth),
        nodes_take(env, path, nodes, target),
    ensures
        depth > 0,
        nodes_within(env, target, env.templates[target], (depth - 1) as nat),
    decreases nodes,
{
    if nodes_take(env, path, nodes.drop_last(), target) {
        lemma_nodes_shallow(env, path, nodes.drop_last(), target, depth);
    } else {
        lemma_node_shallow(env, path, nodes.last(), target, depth);
    }
}

proof fn lemma_node_shallow(env: Env, path: Parts, n: Node, target: Parts, depth: nat)
    requires
        node_within(env, path, n, depth),
        node_takes(env, path, n, target),
    ensures
        depth > 0,
        nodes_within(env, target, env.templates[target], (depth - 1) as nat),
    decreases n,
{
    if let Node::Helper(h) = n {
        lemma_helper_shallow(env, path, h, target, depth);
    }
}

proof fn lemma_helper_shallow(env: Env, path: Parts, h: Helper, target: Parts, depth: nat)
    requires
        helper_within(env, path, h, depth),
        helper_takes(env, path, h, target),
    ensures
        depth > 0,
        nodes_within(env, target, env.templates[target], (depth - 1) as nat),
    decreases h,
{
    match h {
        Helper::Each(_, _, nodes) => lemma_nodes_shallow(env, path, nodes@, target, depth),
        Helper::If(first, ifs, els) => if nodes_take(env, path, first.2@, target) {
            lemma_nodes_shallow(env, path, first.2@, target, depth);
        } else if else_ifs_take(env, path, ifs@, target) {
            lemma_else_ifs_shallow(env, path, ifs@, target, depth);
        } else if let Some(e) = els {
            lemma_nodes_shallow(env, path, e.1@, target, depth);
        },
        Helper::With(_, _, nodes) => lemma_nodes_shallow(env, path, nodes@, target, depth),
        Helper::Unless(_, _, nodes) => lemma_nodes_shallow(env, path, nodes@, target, depth),
        Helper::Defined(_, _, _, _) => {},
    }
}

proof fn lemma_else_ifs_shallow(
    env: Env,
    path: Parts,
    ifs: Seq<(Ws, Expression, Vec<Node>)>,
    target: Parts,
    depth: nat,
)
    requires
        else_ifs_within(env, path, ifs, depth),
        else_ifs_take(env, path, ifs, target),
    ensures
        depth > 0,
        nodes_within(env, target, env.templates[target], (depth - 1) as nat),
    decreases ifs,
{
    if else_ifs_take(env, path, ifs.drop_last(), target) {
        lemma_else_ifs_shallow(env, path, ifs.drop_last(), target, depth);
    } else {
        lemma_nodes_shallow(env, path, ifs.last().2@, target, depth);
    }
}

/// The partials of the templates in a chain nest ever less deep.
proof fn lemma_accepted_along(env: Env, c: Seq<Parts>, k: int, depth: nat)
    requires
        chain(env, c),
        0 <= k < c.len(),
        nodes_within(env, c[0], env.templates[c[0]], depth),
    ensures
        k <= depth,
        nodes_within(env, c[k], env.templates[c[k]], (depth - k) as nat),
    decreases k,
{
    if k > 0 {
        lemma_accepted_along(env, c, k - 1, depth);
        assert(takes(env, c[k - 1], c[k]));
        lemma_nodes_shallow(
            env,
            c[k - 1],
            env.templates[c[k - 1]],
            c[k],
            (depth - (k - 1)) as nat,
        );
    }
}

/// The partials of a template that takes in itself nest deeper than any depth.
proof fn lemma_no_cycle(env: Env, c: Seq<Parts>, depth: nat)
    requires
        chain(env, c),
        c.len() > 1,
        c[0] == c.last(),
    ensures
        !nodes_within(env, c[0], env.templates[c[0]], depth),
    decreases depth,
{
    if nodes_within(env, c[0], env.templates[c[0]], depth) {
        lemma_accepted_along(env, c, c.len() - 1, depth);
        lemma_no_cycle(env, c, (depth - (c.len() - 1)) as nat);
    }
}

/// Where a template is accepted, going from it to the templates that partials stand for meets
/// none of them again.
pub proof fn lemma_not_recursive(env: Env, c: Seq<Parts>)
    requires
        refused(env) is None,
        chain(env, c),
        c.len() > 0,
        c[0] == env.root,
    ensures
        c.no_duplicates(),
{
    let depth = env.templates.dom().len();
    lemma_nodes_accepted_within(
        env,
        env.root,
        env.templates[env.root],
        spaces_at_start(),
        depth,
    );
    assert forall|i: int, j: int| 0 <= i < j < c.len() implies c[i] != c[j] by {
        if c[i] == c[j] {
            lemma_accepted_along(env, c, i, depth);
            let d = c.subrange(i, j + 1);
            assert(chain(env, d)) by {
                assert forall|a: int, b: int|
                    0 <= a < d.len() && b == a + 1 && b < d.len() implies takes(
                    env,
                    #[trigger] d[a],
                    #[trigger] d[b],
                ) by {
                    assert(d[a] == c[a + i] && d[b] == c[b + i]);
                }
            }
            lemma_no_cycle(env, d, (depth - i) as nat);
        }
    }
}

} // verus!
