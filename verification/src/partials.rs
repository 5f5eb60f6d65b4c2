//! The templates that partials stand for.
use vstd::prelude::*;

use crate::expr::Expression;
use crate::model::Env;
use crate::node::{Helper, Node, Ws};
use crate::path::{append_extension, partial_path, Parts, TemplatePath};

verus! {

/// Every partial among `nodes`, of the template at `path`, stands for a template that is there,
/// and partials nest no deeper than `depth`.
pub open spec fn nodes_within(env: Env, path: Parts, nodes: Seq<Node>, depth: nat) -> bool
    decreases depth, nodes,
{
    nodes.len() > 0 ==> nodes_within(env, path, nodes.drop_last(), depth) && node_within(
        env,
        path,
        nodes.last(),
        depth,
    )
}

/// The same of the node `n`.
pub open spec fn node_within(env: Env, path: Parts, n: Node, depth: nat) -> bool
    decreases depth, n,
{
    match n {
        Node::Helper(h) => helper_within(env, path, h, depth),
        Node::Partial(_, name) => {
            let target = partial_path(env.root, path, name@);
            &&& env.templates.dom().contains(target)
            &&& depth > 0
            &&& nodes_within(env, target, env.templates[target], (depth - 1) as nat)
        },
        _ => true,
    }
}

/// The same of the helper `h`.
pub open spec fn helper_within(env: Env, path: Parts, h: Helper, depth: nat) -> bool
    decreases depth, h,
{
    match h {
        Helper::Each(_, _, nodes) => nodes_within(env, path, nodes@, depth),
        Helper::If(first, ifs, els) => {
            &&& nodes_within(env, path, first.2@, depth)
            &&& else_ifs_within(env, path, ifs@, depth)
            &&& els matches Some(e) ==> nodes_within(env, path, e.1@, depth)
        },
        Helper::With(_, _, nodes) => nodes_within(env, path, nodes@, depth),
        Helper::Unless(_, _, nodes) => nodes_within(env, path, nodes@, depth),
        Helper::Defined(_, _, _, _) => true,
    }
}

/// The same of the further conditions `ifs`.
pub open spec fn else_ifs_within(
    env: Env,
    path: Parts,
    ifs: Seq<(Ws, Expression, Vec<Node>)>,
    depth: nat,
) -> bool
    decreases depth, ifs,
{
    ifs.len() > 0 ==> else_ifs_within(env, path, ifs.drop_last(), depth) && nodes_within(
        env,
        path,
        ifs.last().2@,
        depth,
    )
}

/// What holds of the nodes holds of each of them.
pub proof fn lemma_each_within(env: Env, path: Parts, nodes: Seq<Node>, depth: nat)
    requires
        nodes_within(env, path, nodes, depth),
    ensures
        forall|i: int|
            0 <= i < nodes.len() ==> node_within(env, path, #[trigger] nodes[i], depth),
    decreases nodes.len(),
{
    if nodes.len() > 0 {
        lemma_each_within(env, path, nodes.drop_last(), depth);
        assert forall|i: int| 0 <= i < nodes.len() implies node_within(
            env,
            path,
            #[trigger] nodes[i],
            depth,
        ) by {
            if i < nodes.len() - 1 {
                assert(nodes[i] == nodes.drop_last()[i]);
            }
        }
    }
}

/// What holds of further conditions holds of the block of each of them.
pub proof fn lemma_each_else_if_within(
    env: Env,
    path: Parts,
    ifs: Seq<(Ws, Expression, Vec<Node>)>,
    depth: nat,
)
    requires
        else_ifs_within(env, path, ifs, depth),
    ensures
        forall|i: int|
            0 <= i < ifs.len() ==> nodes_within(env, path, (#[trigger] ifs[i]).2@, depth),
    decreases ifs.len(),
{
    if ifs.len() > 0 {
        lemma_each_else_if_within(env, path, ifs.drop_last(), depth);
        assert forall|i: int| 0 <= i < ifs.len() implies nodes_within(
            env,
            path,
            (#[trigger] ifs[i]).2@,
            depth,
        ) by {
            if i < ifs.len() - 1 {
                assert(ifs[i] == ifs.drop_last()[i]);
            }
        }
    }
}

/// The template that the partial `name` stands for in the template at `on`, where `root` is the
/// template that is generated.
pub fn partial_target(
    root: &TemplatePath,
    on: &TemplatePath,
    name: &TemplatePath,
) -> (r: TemplatePath)
    ensures
        r@ == partial_path(root@, on@, name@),
{
    let mut p = on.copy();
    p.pop();
    p.push(append_extension(root, name));
    p
}

} // verus!
