//! Templates that no code is generated for.
use vstd::prelude::*;

use crate::derive::Struct;
use crate::expr::{ExprKind, Expression};
use crate::mime::{extension_or_txt, mime_extension, mime_type, mime_type_str};
use crate::model::Env;
use crate::node::{Context, Helper, Node, Ws};
use crate::partials::partial_target;
use crate::path::{partial_path, Parts, TemplatePath};
use crate::spaces::Spaces;

verus! {

/// Why no code is generated.
#[derive(Clone, Copy, Debug, PartialEq, Eq, Structural)]
pub enum Refusal {
    /// A template is not there.
    TemplateNotFound,
    /// A partial stands for a template that it is part of.
    RecursivePartial,
    /// The expression of an `unless` block is a negation.
    NegatedUnless,
    /// The expression of an `unless` block has a form that is not accepted.
    UnlessArgument,
    /// A helper is not built in.
    DefinedHelper,
    /// Text is met while whitespace waits for a tag to decide on it.
    WaitingWhitespace,
    /// Whitespace without text has other whitespace after it.
    SplitWhitespace,
    /// The extension of the template has no media type.
    UnknownMime,
}

/// The words for a refusal.
pub open spec fn message_of(r: Refusal) -> Seq<char> {
    match r {
        Refusal::TemplateNotFound => "template not found"@,
        Refusal::RecursivePartial => "recursive partial"@,
        Refusal::NegatedUnless =>
            "Unary negate operator in unless helper, use if helper instead"@,
        Refusal::UnlessArgument => "unless helper not accept some arguments"@,
        Refusal::DefinedHelper => "not implemented"@,
        Refusal::WaitingWhitespace => "assertion failed: self.next_ws.is_none()"@,
        Refusal::SplitWhitespace => "assertion failed: rws.is_empty()"@,
        Refusal::UnknownMime => "valid mime ext"@,
    }
}

impl Refusal {
    /// The words for the refusal.
    pub fn message(&self) -> (r: &'static str)
        ensures
            r@ == message_of(*self),
    {
        match self {
            Refusal::TemplateNotFound => "template not found",
            Refusal::RecursivePartial => "recursive partial",
            Refusal::NegatedUnless =>
                "Unary negate operator in unless helper, use if helper instead",
            Refusal::UnlessArgument => "unless helper not accept some arguments",
            Refusal::DefinedHelper => "not implemented",
            Refusal::WaitingWhitespace => "assertion failed: self.next_ws.is_none()",
            Refusal::SplitWhitespace => "assertion failed: rws.is_empty()",
            Refusal::UnknownMime => "valid mime ext",
        }
    }
}

/// Why an expression of the form `kind` is refused in an `unless` block.
pub open spec fn unless_refused(kind: ExprKind) -> Option<Refusal> {
    match kind {
        ExprKind::Not => Some(Refusal::NegatedUnless),
        ExprKind::Range | ExprKind::Other => Some(Refusal::UnlessArgument),
        _ => None,
    }
}

/// The first of two refusals.
pub open spec fn first_of(a: Option<Refusal>, b: Option<Refusal>) -> Option<Refusal> {
    if a is Some {
        a
    } else {
        b
    }
}

/// Why the text `lit`, with the whitespace `lws` before and `rws` after it, is refused where `sp`
/// is known of the whitespace.
pub open spec fn text_refused(
    sp: Spaces,
    lws: Seq<char>,
    lit: Seq<char>,
    rws: Seq<char>,
) -> Option<Refusal> {
    if sp.waits {
        Some(Refusal::WaitingWhitespace)
    } else if sp.alone(lws, lit) && rws.len() > 0 {
        Some(Refusal::SplitWhitespace)
    } else {
        None
    }
}

/// What is known of the whitespace after `nodes`, of the template at `path`, if it is `sp` before
/// them and partials nest no deeper than `depth`.
pub open spec fn nodes_spaces(
    env: Env,
    path: Parts,
    nodes: Seq<Node>,
    sp: Spaces,
    depth: nat,
) -> Spaces
    decreases depth, nodes,
{
    if nodes.len() == 0 {
        sp
    } else {
        let before = nodes_spaces(env, path, nodes.drop_last(), sp, depth);
        node_spaces(env, path, nodes.last(), before, depth)
    }
}

/// What is known of the whitespace after the node `n`.
pub open spec fn node_spaces(env: Env, path: Parts, n: Node, sp: Spaces, depth: nat) -> Spaces
    decreases depth, n,
{
    match n {
        Node::Let(_) => Spaces::dropped(),
        Node::Safe(ws, _) => Spaces::tag(ws),
        Node::Expr(ws, _) => Spaces::tag(ws),
        Node::Lit(l, lit, r) => sp.text(l@, lit@, r@),
        Node::Helper(h) => match h {
            Helper::Each(ws, _, _) => Spaces::tag(ws.1),
            Helper::If(first, _, _) => Spaces::tag(first.0.1),
            Helper::With(ws, _, _) => Spaces::tag(ws.1),
            Helper::Unless(ws, _, _) => Spaces::tag(ws.1),
            Helper::Defined(_, _, _, _) => sp,
        },
        Node::Partial(ws, name) => if depth == 0 {
            sp
        } else {
            let target = partial_path(env.root, path, name@);
            nodes_spaces(
                env,
                target,
                env.templates[target],
                sp.inside(),
                (depth - 1) as nat,
            ).outside(ws)
        },
        Node::Comment(_) => Spaces::dropped(),
    }
}

/// Why `nodes`, of the template at `path`, are refused, where `sp` is known of the whitespace
/// before them and partials nest no deeper than `depth`.
pub open spec fn nodes_refused(
    env: Env,
    path: Parts,
    nodes: Seq<Node>,
    sp: Spaces,
    depth: nat,
) -> Option<Refusal>
    decreases depth, nodes,
{
    if nodes.len() == 0 {
        None
    } else {
        let before = nodes_spaces(env, path, nodes.drop_last(), sp, depth);
        first_of(
            nodes_refused(env, path, nodes.drop_last(), sp, depth),
            node_refused(env, path, nodes.last(), before, depth),
        )
    }
}

/// Why the node `n` is refused.
pub open spec fn node_refused(
    env: Env,
    path: Parts,
    n: Node,
    sp: Spaces,
    depth: nat,
) -> Option<Refusal>
    decreases depth, n,
{
    match n {
        Node::Lit(l, lit, r) => text_refused(sp, l@, lit@, r@),
        Node::Helper(h) => helper_refused(env, path, h, depth),
        Node::Partial(_, name) => {
            let target = partial_path(env.root, path, name@);
            if !env.templates.dom().contains(target) {
                Some(Refusal::TemplateNotFound)
            } else if depth == 0 {
                Some(Refusal::RecursivePartial)
            } else {
                nodes_refused(
                    env,
                    target,
                    env.templates[target],
                    sp.inside(),
                    (depth - 1) as nat,
                )
            }
        },
        _ => None,
    }
}

/// Why the helper `h` is refused.
pub open spec fn helper_refused(env: Env, path: Parts, h: Helper, depth: nat) -> Option<Refusal>
    decreases depth, h,
{
    match h {
        Helper::Each(ws, _, nodes) => nodes_refused(env, path, nodes@, Spaces::tag(ws.0), depth),
        Helper::If(first, ifs, els) => first_of(
            nodes_refused(env, path, first.2@, Spaces::tag(first.0.0), depth),
            first_of(
                else_ifs_refused(env, path, ifs@, depth),
                match els {
                    Some(e) => nodes_refused(env, path, e.1@, Spaces::tag(e.0), depth),
                    None => None,
                },
            ),
        ),
        Helper::With(ws, _, nodes) => nodes_refused(env, path, nodes@, Spaces::tag(ws.0), depth),
        Helper::Unless(ws, args, nodes) => first_of(
            unless_refused(args.kind),
            nodes_refused(env, path, nodes@, Spaces::tag(ws.0), depth),
        ),
        Helper::Defined(_, _, _, _) => Some(Refusal::DefinedHelper),
    }
}

/// Why the further conditions `ifs` are refused.
pub open spec fn else_ifs_refused(
    env: Env,
    path: Parts,
    ifs: Seq<(Ws, Expression, Vec<Node>)>,
    depth: nat,
) -> Option<Refusal>
    decreases depth, ifs,
{
    if ifs.len() == 0 {
        None
    } else {
        first_of(
            else_ifs_refused(env, path, ifs.drop_last(), depth),
            nodes_refused(env, path, ifs.last().2@, Spaces::tag(ifs.last().0), depth),
        )
    }
}

/// What is known of the whitespace at the start of a template.
pub open spec fn spaces_at_start() -> Spaces {
    Spaces { waits: false, skips: false }
}

/// Why no code is generated for the template: the first reason met on the way through it. With
/// partials nested deeper than there are templates, one is part of itself.
pub open spec fn refused(env: Env) -> Option<Refusal> {
    if !env.templates.dom().contains(env.root) {
        Some(Refusal::TemplateNotFound)
    } else {
        first_of(
            nodes_refused(
                env,
                env.root,
                env.templates[env.root],
                spaces_at_start(),
                env.templates.dom().len(),
            ),
            if mime_type(mime_extension(env.root)) is None {
                Some(Refusal::UnknownMime)
            } else {
                None
            },
        )
    }
}

/// The form of the expression of an `unless` block is checked.
pub fn check_unless(kind: ExprKind) -> (r: Option<Refusal>)
    ensures
        r == unless_refused(kind),
{
    match kind {
        ExprKind::Not => Some(Refusal::NegatedUnless),
        ExprKind::Range | ExprKind::Other => Some(Refusal::UnlessArgument),
        _ => None,
    }
}

/// Text is checked against what is known of the whitespace.
pub fn check_text(sp: Spaces, lws: &str, lit: &str, rws: &str) -> (r: Option<Refusal>)
    ensures
        r == text_refused(sp, lws@, lit@, rws@),
{
    if sp.waits {
        Some(Refusal::WaitingWhitespace)
    } else if sp.is_alone(lws, lit) && !rws.is_empty() {
        Some(Refusal::SplitWhitespace)
    } else {
        None
    }
}

fn check_nodes(
    s: &Struct,
    ctx: &Context,
    path: &TemplatePath,
    nodes: &Vec<Node>,
    sp: Spaces,
    depth: usize,
) -> (r: Result<Spaces, Refusal>)
    requires
        ctx.wf(),
    ensures
        r == match nodes_refused(s.env(*ctx), path@, nodes@, sp, depth as nat) {
            Some(why) => Err::<Spaces, Refusal>(why),
            None => Ok(nodes_spaces(s.env(*ctx), path@, nodes@, sp, depth as nat)),
        },
    decreases depth, *nodes, 0nat,
{
    let mut now = sp;
    let mut i: usize = 0;
    while i < nodes.len()
        invariant
            ctx.wf(),
            i <= nodes.len(),
            nodes_refused(s.env(*ctx), path@, nodes@.take(i as int), sp, depth as nat) is None,
            now == nodes_spaces(s.env(*ctx), path@, nodes@.take(i as int), sp, depth as nat),
        decreases nodes.len() - i,
    {
        proof {
            assert(nodes@.take(i + 1).drop_last() =~= nodes@.take(i as int));
        }
        match check_node(s, ctx, path, &nodes[i], now, depth) {
            Err(why) => {
                proof {
                    lemma_prefix_refused(s.env(*ctx), path@, nodes@, sp, i + 1, depth as nat);
                }
                return Err(why);
            },
            Ok(after) => {
                now = after;
            },
        }
        i += 1;
    }
    assert(nodes@.take(i as int) =~= nodes@);
    Ok(now)
}

/// What refuses a part of the nodes refuses the nodes.
proof fn lemma_prefix_refused(
    env: Env,
    path: Parts,
    nodes: Seq<Node>,
    sp: Spaces,
    n: int,
    depth: nat,
)
    requires
        0 <= n <= nodes.len(),
        nodes_refused(env, path, nodes.take(n), sp, depth) is Some,
    ensures
        nodes_refused(env, path, nodes, sp, depth) == nodes_refused(
            env,
            path,
            nodes.take(n),
            sp,
            depth,
        ),
    decreases nodes.len(),
{
    if n == nodes.len() {
        assert(nodes.take(n) =~= nodes);
    } else {
        assert(nodes.drop_last().take(n) =~= nodes.take(n));
        lemma_prefix_refused(env, path, nodes.drop_last(), sp, n, depth);
    }
}

proof fn lemma_prefix_else_ifs_refused(
    env: Env,
    path: Parts,
    ifs: Seq<(Ws, Expression, Vec<Node>)>,
    n: int,
    depth: nat,
)
    requires
        0 <= n <= ifs.len(),
        else_ifs_refused(env, path, ifs.take(n), depth) is Some,
    ensures
        else_ifs_refused(env, path, ifs, depth) == else_ifs_refused(env, path, ifs.take(n), depth),
    decreases ifs.len(),
{
    if n == ifs.len() {
        assert(ifs.take(n) =~= ifs);
    } else {
        assert(ifs.drop_last().take(n) =~= ifs.take(n));
        lemma_prefix_else_ifs_refused(env, path, ifs.drop_last(), n, depth);
    }
}

fn check_node(
    s: &Struct,
    ctx: &Context,
    path: &TemplatePath,
    n: &Node,
    sp: Spaces,
    depth: usize,
) -> (r: Result<Spaces, Refusal>)
    requires
        ctx.wf(),
    ensures
        r == match node_refused(s.env(*ctx), path@, *n, sp, depth as nat) {
            Some(why) => Err::<Spaces, Refusal>(why),
            None => Ok(node_spaces(s.env(*ctx), path@, *n, sp, depth as nat)),
        },
    decreases depth, *n, 0nat,
{
    match n {
        Node::Let(_) => Ok(Spaces { waits: false, skips: true }),
        Node::Safe(ws, _) => Ok(Spaces { waits: false, skips: ws.1 }),
        Node::Expr(ws, _) => Ok(Spaces { waits: false, skips: ws.1 }),
        Node::Lit(l, lit, r) => match check_text(sp, l.as_str(), lit.as_str(), r.as_str()) {
            Some(why) => Err(why),
            None => Ok(sp.after_text(l.as_str(), lit.as_str(), r.as_str())),
        },
        Node::Helper(h) => match check_helper(s, ctx, path, h, depth) {
            Some(why) => Err(why),
            None => Ok(Spaces { waits: false, skips: closing_tag(h).1 }),
        },
        Node::Partial(ws, name) => {
            let target = partial_target(&s.path, path, name);
            match ctx.get(&target) {
                None => Err(Refusal::TemplateNotFound),
                Some(nodes) => {
                    if depth == 0 {
                        return Err(Refusal::RecursivePartial);
                    }
                    let inside = Spaces { waits: false, skips: sp.skips };
                    match check_nodes(s, ctx, &target, nodes, inside, depth - 1) {
                        Err(why) => Err(why),
                        Ok(end) => Ok(Spaces { waits: end.waits, skips: ws.1 }),
                    }
                },
            }
        },
        Node::Comment(_) => Ok(Spaces { waits: false, skips: true }),
    }
}

/// The whitespace of the tag that closes the helper `h`.
fn closing_tag(h: &Helper) -> (r: Ws)
    ensures
        r == match *h {
            Helper::Each(ws, _, _) => ws.1,
            Helper::If(first, _, _) => first.0.1,
            Helper::With(ws, _, _) => ws.1,
            Helper::Unless(ws, _, _) => ws.1,
            Helper::Defined(ws, _, _, _) => ws.1,
        },
{
    match h {
        Helper::Each(ws, _, _) => ws.1,
        Helper::If(first, _, _) => first.0.1,
        Helper::With(ws, _, _) => ws.1,
        Helper::Unless(ws, _, _) => ws.1,
        Helper::Defined(ws, _, _, _) => ws.1,
    }
}

/// Why nodes after the tag with the whitespace `ws` are refused.
fn check_block(
    s: &Struct,
    ctx: &Context,
    path: &TemplatePath,
    ws: &Ws,
    nodes: &Vec<Node>,
    depth: usize,
) -> (r: Option<Refusal>)
    requires
        ctx.wf(),
    ensures
        r == nodes_refused(s.env(*ctx), path@, nodes@, Spaces::tag(*ws), depth as nat),
    decreases depth, *nodes, 1nat,
{
    match check_nodes(s, ctx, path, nodes, Spaces { waits: false, skips: ws.1 }, depth) {
        Err(why) => Some(why),
        Ok(_) => None,
    }
}

fn check_helper(
    s: &Struct,
    ctx: &Context,
    path: &TemplatePath,
    h: &Helper,
    depth: usize,
) -> (r: Option<Refusal>)
    requires
        ctx.wf(),
    ensures
        r == helper_refused(s.env(*ctx), path@, *h, depth as nat),
    decreases depth, *h, 0nat,
{
    match h {
        Helper::Each(ws, _, nodes) => check_block(s, ctx, path, &ws.0, nodes, depth),
        Helper::If(first, ifs, els) => {
            let r = check_block(s, ctx, path, &first.0.0, &first.2, depth);
            if r.is_some() {
                return r;
            }
            let r = check_else_ifs(s, ctx, path, ifs, depth);
            if r.is_some() {
                return r;
            }
            match els {
                Some(e) => check_block(s, ctx, path, &e.0, &e.1, depth),
                None => None,
            }
        },
        Helper::With(ws, _, nodes) => check_block(s, ctx, path, &ws.0, nodes, depth),
        Helper::Unless(ws, args, nodes) => {
            let r = check_unless(args.kind);
            if r.is_some() {
                return r;
            }
            check_block(s, ctx, path, &ws.0, nodes, depth)
        },
        Helper::Defined(_, _, _, _) => Some(Refusal::DefinedHelper),
    }
}

fn check_else_ifs(
    s: &Struct,
    ctx: &Context,
    path: &TemplatePath,
    ifs: &Vec<(Ws, Expression, Vec<Node>)>,
    depth: usize,
) -> (r: Option<Refusal>)
    requires
        ctx.wf(),
    ensures
        r == else_ifs_refused(s.env(*ctx), path@, ifs@, depth as nat),
    decreases depth, *ifs, 0nat,
{
    let mut i: usize = 0;
    while i < ifs.len()
        invariant
            ctx.wf(),
            i <= ifs.len(),
            else_ifs_refused(s.env(*ctx), path@, ifs@.take(i as int), depth as nat) is None,
        decreases ifs.len() - i,
    {
        proof {
            assert(ifs@.take(i + 1).drop_last() =~= ifs@.take(i as int));
        }
        let r = check_block(s, ctx, path, &ifs[i].0, &ifs[i].2, depth);
        if r.is_some() {
            proof {
                lemma_prefix_else_ifs_refused(s.env(*ctx), path@, ifs@, i + 1, depth as nat);
            }
            return r;
        }
        i += 1;
    }
    assert(ifs@.take(i as int) =~= ifs@);
    None
}

/// Whether code is generated for the template of `s`, and if not, why.
pub fn check(s: &Struct, ctx: &Context) -> (r: Option<Refusal>)
    requires
        ctx.wf(),
    ensures
        r == refused(s.env(*ctx)),
{
    match ctx.get(&s.path) {
        None => Some(Refusal::TemplateNotFound),
        Some(nodes) => {
            proof {
                ctx.lemma_len();
            }
            let start = Spaces { waits: false, skips: false };
            if let Err(why) = check_nodes(s, ctx, &s.path, nodes, start, ctx.entries.len()) {
                return Some(why);
            }
            if mime_type_str(extension_or_txt(&s.path)).is_none() {
                Some(Refusal::UnknownMime)
            } else {
                None
            }
        },
    }
}

} // verus!
