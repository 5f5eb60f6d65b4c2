//! What the generator writes, as a function of the template.
use vstd::prelude::*;

use crate::derive::EscapeMode;
use crate::expr::{counts, ExprKind, Piece};
use crate::loops::loops_count;
use crate::node::{Helper, Node, Ws};
use crate::path::{partial_path, Parts};
use crate::spaces::Spaces;
use crate::text::{decimal, line, pretty_debug_text};

verus! {

/// What does not change while a template is generated.
pub struct Env {
    /// The templates by their paths.
    pub templates: Map<Parts, Seq<Node>>,
    /// The path of the template that is generated.
    pub root: Parts,
    /// How expressions are escaped.
    pub escaping: EscapeMode,
}

/// Something that waits to be written.
pub enum Written {
    /// Text.
    Lit(Seq<char>),
    /// The code of an expression, and whether it needs no escaping.
    Code(Seq<char>, bool),
}

/// A block that names are looked up in, with the position of its scope.
pub enum Frame {
    /// The body of a loop.
    Each(nat),
    /// The body of a `with` block.
    With(nat),
}

/// The scopes, each with its names.
pub type Scopes = Seq<Seq<Seq<char>>>;

impl Frame {
    /// The position of the scope.
    pub open spec fn scope(self) -> nat {
        match self {
            Frame::Each(j) => j,
            Frame::With(j) => j,
        }
    }
}

/// The scope of the innermost loop.
pub open spec fn innermost_loop(on: Seq<Frame>) -> Option<nat>
    decreases on.len(),
{
    if on.len() == 0 {
        None
    } else {
        match on.last() {
            Frame::Each(j) => Some(j),
            Frame::With(_) => innermost_loop(on.drop_last()),
        }
    }
}

/// Whether a scope holds the name `ident`.
pub open spec fn bound(scopes: Scopes, ident: Seq<char>) -> bool {
    exists|i: int, j: int|
        0 <= i < scopes.len() && 0 <= j < scopes[i].len() && #[trigger] scopes[i][j] == ident
}

/// The code for the loop variable `ident` of a loop over `names[0]` that is counted by
/// `names[1]`, and whether it needs no escaping.
pub open spec fn loop_variable(names: Seq<Seq<char>>, ident: Seq<char>) -> Option<
    (Seq<char>, bool),
> {
    if ident == "index0"@ {
        Some((names[1], true))
    } else if ident == "index"@ {
        Some(("("@ + names[1] + " + 1)"@, true))
    } else if ident == "first"@ {
        Some(("("@ + names[1] + " == 0)"@, true))
    } else if ident == "last"@ {
        Some(("(("@ + names[0] + ").len() == ("@ + names[1] + " + 1))"@, true))
    } else if ident == "key"@ {
        Some((names[0], false))
    } else {
        None
    }
}

/// The field `ident` of `owner`.
pub open spec fn field(owner: Seq<char>, ident: Seq<char>) -> Seq<char> {
    owner + "."@ + ident
}

/// The code for the name `ident`, and whether it is a value that needs no escaping: `self` and
/// the names of the scopes stand for themselves, a loop has its variables, and any other name is
/// a field of what the innermost block is on.
pub open spec fn resolved(scopes: Scopes, on: Seq<Frame>, ident: Seq<char>) -> (Seq<char>, bool) {
    if ident == "self"@ {
        (scopes[0][0], false)
    } else if bound(scopes, ident) {
        (ident, false)
    } else if on.len() == 0 {
        (field(scopes[0][0], ident), false)
    } else {
        let owner = scopes[on.last().scope() as int][0];
        match innermost_loop(on) {
            Some(j) => match loop_variable(scopes[j as int], ident) {
                Some(code) => code,
                None => (field(owner, ident), false),
            },
            None => (field(owner, ident), false),
        }
    }
}

/// The code that writes the text that `literal` stands for.
pub open spec fn text_code(literal: Seq<char>) -> Seq<char> {
    "_fmt.write_str("@ + literal + ")?;"@
}

/// The line that writes the text `s`.
pub open spec fn text_line(s: Seq<char>) -> Seq<char> {
    line(text_code(pretty_debug_text(s)))
}

/// The line that writes the text `s`, if there is any.
pub open spec fn some_text_line(s: Seq<char>) -> Seq<char> {
    if s.len() > 0 {
        text_line(s)
    } else {
        Seq::empty()
    }
}

/// The code `code`, escaped where it has to be.
pub open spec fn escaped(code: Seq<char>, safe: bool, escaping: EscapeMode) -> Seq<char> {
    if !safe && escaping == EscapeMode::Html {
        "::wearte::MarkupAsStr::from(&"@ + code + ")"@
    } else {
        code
    }
}

/// The line that writes the value of `code`.
pub open spec fn code_line(code: Seq<char>, safe: bool, escaping: EscapeMode) -> Seq<char> {
    line("("@ + escaped(code, safe, escaping) + ").fmt(_fmt)?;"@)
}

/// The lines that write the text `before`, then `pending`: adjacent texts share a line.
pub open spec fn written_after(
    before: Seq<char>,
    pending: Seq<Written>,
    escaping: EscapeMode,
) -> Seq<char>
    decreases pending.len(),
{
    if pending.len() == 0 {
        some_text_line(before)
    } else {
        match pending[0] {
            Written::Lit(s) => written_after(before + s, pending.skip(1), escaping),
            Written::Code(code, safe) => some_text_line(before) + code_line(code, safe, escaping)
                + written_after(Seq::empty(), pending.skip(1), escaping),
        }
    }
}

/// Whether `pending` is text only.
pub open spec fn only_text(pending: Seq<Written>) -> bool {
    forall|i: int| 0 <= i < pending.len() ==> #[trigger] pending[i] is Lit
}

/// The texts of `pending` in one.
pub open spec fn joined(pending: Seq<Written>) -> Seq<char>
    decreases pending.len(),
{
    if pending.len() == 0 {
        Seq::empty()
    } else {
        match pending.last() {
            Written::Lit(s) => joined(pending.drop_last()) + s,
            Written::Code(_, _) => joined(pending.drop_last()),
        }
    }
}

/// The lines that write `pending`.
pub open spec fn written(pending: Seq<Written>, escaping: EscapeMode) -> Seq<char> {
    if pending.len() == 0 {
        Seq::empty()
    } else if only_text(pending) {
        text_line(joined(pending))
    } else {
        written_after(Seq::empty(), pending, escaping)
    }
}

/// The name of the item of the loop whose scope is at `id`.
pub open spec fn key_name(id: nat) -> Seq<char> {
    "_key_"@ + decimal(id)
}

/// The name of the counter of the loop whose scope is at `id`.
pub open spec fn index_name(id: nat) -> Seq<char> {
    "_index_"@ + decimal(id)
}

/// The names in the scope of the loop at `id`.
pub open spec fn loop_scope(id: nat, counted: bool) -> Seq<Seq<char>> {
    if counted {
        seq![key_name(id), index_name(id)]
    } else {
        seq![key_name(id)]
    }
}

/// The line that opens the loop at `id` over `code`.
pub open spec fn loop_head(id: nat, counted: bool, range: bool, code: Seq<char>) -> Seq<char> {
    if counted {
        "for ("@ + index_name(id) + ", "@ + key_name(id) + if range {
            ") in ("@ + code + ").enumerate() {"@
        } else {
            ") in (&"@ + code + ").into_iter().enumerate() {"@
        }
    } else {
        "for "@ + key_name(id) + if range {
            " in "@ + code + " {"@
        } else {
            " in (&"@ + code + ").into_iter() {"@
        }
    }
}

/// The state of the generator, with the code written so far.
#[verifier::ext_equal]
pub struct State {
    /// The code written so far.
    pub out: Seq<char>,
    /// What waits to be written.
    pub pending: Seq<Written>,
    /// Whitespace after the last text, which the next tag decides on.
    pub next_ws: Option<Seq<char>>,
    /// Whether the whitespace before the next text is dropped.
    pub skip_ws: bool,
    /// The scopes.
    pub scopes: Scopes,
    /// The open blocks that names are looked up in.
    pub on: Seq<Frame>,
    /// The template that the nodes come from.
    pub path: Parts,
    /// Whether the expression needs no escaping.
    pub wrapped: bool,
    /// The code of the expression so far.
    pub text: Seq<char>,
}

impl State {
    /// The scopes hold what names are looked up in.
    pub open spec fn scoped(self) -> bool {
        &&& self.scopes.len() > 0
        &&& self.scopes[0].len() > 0
        &&& forall|i: int|
            0 <= i < self.on.len() ==> (#[trigger] self.on[i]).scope() < self.scopes.len()
                && self.scopes[self.on[i].scope() as int].len() > 0
    }

    /// The innermost loop, if there is one, has a counter.
    pub open spec fn counted(self) -> bool {
        innermost_loop(self.on) matches Some(j) ==> j < self.scopes.len()
            && self.scopes[j as int].len() > 1
    }

    /// The scopes hold what the code for the name `ident` is made of.
    pub open spec fn reaches(self, ident: Seq<char>) -> bool {
        if ident == "self"@ {
            self.scopes.len() > 0 && self.scopes[0].len() > 0
        } else if bound(self.scopes, ident) {
            true
        } else if self.on.len() == 0 {
            self.scopes.len() > 0 && self.scopes[0].len() > 0
        } else {
            match innermost_loop(self.on) {
                Some(j) if counts(ident) => j < self.scopes.len() && self.scopes[j as int].len()
                    > 1,
                Some(j) if ident == "key"@ => j < self.scopes.len() && self.scopes[j as int].len()
                    > 0,
                _ => self.on.last().scope() < self.scopes.len()
                    && self.scopes[self.on.last().scope() as int].len() > 0,
            }
        }
    }

    /// The scopes hold what the code for the names in `pieces` is made of.
    pub open spec fn reaches_all(self, pieces: Seq<Piece>) -> bool
        decreases pieces.len(),
    {
        pieces.len() > 0 ==> {
            &&& self.reaches_all(pieces.drop_last())
            &&& pieces.last() matches Piece::Name(ident) ==> self.pieces(
                pieces.drop_last(),
            ).reaches(ident@)
        }
    }

    /// The same with `out` written before.
    pub open spec fn after(self, out: Seq<char>) -> State {
        State { out: out + self.out, ..self }
    }

    /// The line `s` is written.
    pub open spec fn line(self, s: Seq<char>) -> State {
        State { out: self.out + line(s), ..self }
    }

    /// A tag decides on the whitespace after the last text.
    pub open spec fn flush_ws(self, ws: Ws) -> State {
        State {
            pending: match self.next_ws {
                Some(w) if !ws.0 && w.len() > 0 => self.pending.push(Written::Lit(w)),
                _ => self.pending,
            },
            next_ws: None,
            ..self
        }
    }

    /// A tag decides on the whitespace before the next text.
    pub open spec fn prepare_ws(self, ws: Ws) -> State {
        State { skip_ws: ws.1, ..self }
    }

    /// A tag decides on the whitespace around it.
    pub open spec fn handle_ws(self, ws: Ws) -> State {
        self.flush_ws(ws).prepare_ws(ws)
    }

    /// The whitespace around a tag is dropped.
    pub open spec fn drop_ws(self) -> State {
        State { next_ws: None, skip_ws: true, ..self }
    }

    /// What is known of the whitespace around the next node.
    pub open spec fn spaces(self) -> Spaces {
        Spaces { waits: self.next_ws is Some, skips: self.skip_ws }
    }

    /// Text that is met now is written in its order: no whitespace waits, and whitespace alone,
    /// which has to wait, has no other whitespace after it.
    pub open spec fn in_order(self, lws: Seq<char>, lit: Seq<char>, rws: Seq<char>) -> bool {
        &&& self.next_ws is None
        &&& !(self.spaces().alone(lws, lit) && rws.len() > 0)
    }

    /// Text is met: leading whitespace is dropped if the tag before says so, and what may have to
    /// be dropped by the tag after it waits.
    pub open spec fn lit(self, lws: Seq<char>, lit: Seq<char>, rws: Seq<char>) -> State {
        let keeps = lws.len() > 0 && !self.skip_ws;
        let before = if keeps && lit.len() > 0 {
            seq![Written::Lit(lws)]
        } else {
            Seq::empty()
        };
        let text = if lit.len() > 0 {
            seq![Written::Lit(lit)]
        } else {
            Seq::empty()
        };
        State {
            pending: self.pending + before + text,
            next_ws: if rws.len() > 0 {
                Some(rws)
            } else if keeps && lit.len() == 0 {
                Some(lws)
            } else {
                self.next_ws
            },
            skip_ws: self.skip_ws && lws.len() == 0,
            ..self
        }
    }

    /// What waits is written.
    pub open spec fn flush(self, escaping: EscapeMode) -> State {
        State {
            out: self.out + written(self.pending, escaping),
            pending: Seq::empty(),
            ..self
        }
    }

    /// What waits is written, unless names are looked up in a block.
    pub open spec fn settle(self, escaping: EscapeMode) -> State {
        if self.on.len() == 0 {
            self.flush(escaping)
        } else {
            self
        }
    }

    /// The name `ident` is written to the expression.
    pub open spec fn name(self, ident: Seq<char>) -> State {
        let code = resolved(self.scopes, self.on, ident);
        State { text: self.text + code.0, wrapped: self.wrapped || code.1, ..self }
    }

    /// The name `ident` is bound in the innermost scope.
    pub open spec fn declare(self, ident: Seq<char>) -> State {
        if self.scopes.len() == 0 {
            self
        } else {
            State {
                scopes: self.scopes.drop_last().push(self.scopes.last().push(ident)),
                ..self
            }
        }
    }

    /// A piece of an expression is written.
    pub open spec fn piece(self, piece: Piece) -> State {
        match piece {
            Piece::Text(s) => State { text: self.text + s@, ..self },
            Piece::Name(ident) => self.name(ident@),
            Piece::Declare(ident) => self.declare(ident@),
            Piece::Wrap => State { wrapped: true, ..self },
        }
    }

    /// The pieces of an expression are written.
    pub open spec fn pieces(self, pieces: Seq<Piece>) -> State
        decreases pieces.len(),
    {
        if pieces.len() == 0 {
            self
        } else {
            self.pieces(pieces.drop_last()).piece(pieces.last())
        }
    }

    /// The code of the expression is taken.
    pub open spec fn taken(self) -> State {
        State { text: Seq::empty(), ..self }
    }

    /// The code of the expression, taken, waits to be written.
    pub open spec fn put(self, safe: bool) -> State {
        State { pending: self.pending.push(Written::Code(self.text, safe)), ..self.taken() }
    }

    /// A scope with `names` is opened.
    pub open spec fn open_scope(self, names: Seq<Seq<char>>) -> State {
        State { scopes: self.scopes.push(names), ..self }
    }

    /// The innermost scope is closed.
    pub open spec fn close_scope(self) -> State {
        State { scopes: self.scopes.drop_last(), ..self }
    }

    /// A block that names are looked up in is opened.
    pub open spec fn enter(self, frame: Frame, names: Seq<Seq<char>>) -> State {
        State { on: self.on.push(frame), ..self.open_scope(names) }
    }

    /// The innermost block that names are looked up in is closed.
    pub open spec fn leave(self) -> State {
        State { on: self.on.drop_last(), ..self.close_scope() }
    }
}

/// The loop over an expression is opened.
pub open spec fn open_each(
    env: Env,
    st: State,
    ws: Ws,
    kind: ExprKind,
    args: Seq<Piece>,
    counted: bool,
) -> State {
    let v = st.handle_ws(ws).flush(env.escaping).pieces(args);
    let id = v.scopes.len();
    v.line(loop_head(id, counted, kind == ExprKind::Range, v.text)).taken().enter(
        Frame::Each(id),
        loop_scope(id, counted),
    )
}

/// The `with` block on an expression is opened.
pub open spec fn open_with(st: State, ws: Ws, args: Seq<Piece>) -> State {
    let v = st.handle_ws(ws).pieces(args);
    v.taken().enter(Frame::With(v.scopes.len()), seq![v.text])
}

/// The `unless` block on an expression is opened.
pub open spec fn open_unless(env: Env, st: State, ws: Ws, args: Seq<Piece>) -> State {
    let v = st.handle_ws(ws).flush(env.escaping).pieces(args);
    v.line("if !("@ + v.text + ") {"@).taken().open_scope(Seq::empty())
}

/// A conditional block on an expression is opened, with `keyword` in front of its condition.
pub open spec fn open_if(
    env: Env,
    st: State,
    ws: Ws,
    keyword: Seq<char>,
    cond: Seq<Piece>,
) -> State {
    let v = st.handle_ws(ws).flush(env.escaping).open_scope(Seq::empty()).pieces(cond);
    v.line(keyword + v.text + " {"@).taken()
}

/// The block for what is left is opened.
pub open spec fn open_else(env: Env, st: State, ws: Ws) -> State {
    st.handle_ws(ws).flush(env.escaping).line("} else {"@).open_scope(Seq::empty())
}

/// The last block of a helper is closed.
pub open spec fn close_block(env: Env, st: State, ws: Ws) -> State {
    st.handle_ws(ws).flush(env.escaping)
}

/// The template at `target` is entered in place of a partial.
pub open spec fn open_partial(st: State, ws: Ws, target: Parts) -> State {
    State { path: target, ..st.flush_ws(ws).open_scope(Seq::empty()) }
}

/// The template of a partial is left for the one at `path`.
pub open spec fn close_partial(st: State, ws: Ws, path: Parts) -> State {
    State { path, ..st.close_scope().prepare_ws(ws) }
}

/// A statement is written.
pub open spec fn emit_let(env: Env, st: State, pieces: Seq<Piece>) -> State {
    let v = st.drop_ws().flush(env.escaping).pieces(pieces);
    v.line(v.text).taken()
}

/// An expression is written without escaping.
pub open spec fn emit_safe(st: State, ws: Ws, pieces: Seq<Piece>) -> State {
    st.pieces(pieces).handle_ws(ws).put(true)
}

/// An expression is written.
pub open spec fn emit_expr(st: State, ws: Ws, pieces: Seq<Piece>) -> State {
    let v = State { wrapped: false, ..st }.pieces(pieces);
    v.handle_ws(ws).put(v.wrapped)
}

/// The generator has gone through `nodes`, where partials nest no deeper than `depth`.
pub open spec fn emit_nodes(env: Env, nodes: Seq<Node>, st: State, depth: nat) -> State
    decreases depth, nodes, 0nat,
{
    if nodes.len() == 0 {
        st
    } else {
        emit_node(env, nodes.last(), emit_nodes(env, nodes.drop_last(), st, depth), depth)
    }
}

/// The generator has gone through the node `n`.
pub open spec fn emit_node(env: Env, n: Node, st: State, depth: nat) -> State
    decreases depth, n, 0nat,
{
    match n {
        Node::Let(stmt) => emit_let(env, st, stmt.pieces@),
        Node::Safe(ws, expr) => emit_safe(st, ws, expr.pieces@),
        Node::Expr(ws, expr) => emit_expr(st, ws, expr.pieces@),
        Node::Lit(l, lit, r) => st.lit(l@, lit@, r@),
        Node::Helper(h) => emit_helper(env, h, st, depth),
        Node::Partial(ws, name) => if depth == 0 {
            st
        } else {
            emit_partial(env, ws, name@, st, depth)
        },
        Node::Comment(_) => st.drop_ws(),
    }
}

/// The generator has gone through the template that the partial `name` stands for.
pub open spec fn emit_partial(env: Env, ws: Ws, name: Parts, st: State, depth: nat) -> State
    decreases depth - 1, env.templates[partial_path(env.root, st.path, name)], 1nat,
{
    if depth == 0 {
        st
    } else {
        let target = partial_path(env.root, st.path, name);
        let body = open_partial(st, ws, target);
        let done = emit_nodes(env, env.templates[target], body, (depth - 1) as nat);
        close_partial(done.settle(env.escaping), ws, st.path)
    }
}

/// The generator has gone through the helper `h`.
pub open spec fn emit_helper(env: Env, h: Helper, st: State, depth: nat) -> State
    decreases depth, h, 0nat,
{
    match h {
        Helper::Each(ws, args, nodes) => {
            let counted = loops_count(env, st.path, nodes@, depth);
            let body = open_each(env, st, ws.0, args.kind, args.pieces@, counted);
            let done = emit_nodes(env, nodes@, body, depth).settle(env.escaping);
            close_block(env, done, ws.1).leave().line("}"@)
        },
        Helper::If(first, ifs, els) => {
            let body = open_if(env, st, first.0.0, "if "@, first.1.pieces@);
            let then = emit_nodes(env, first.2@, body, depth).settle(env.escaping).close_scope();
            let more = emit_else_ifs(env, ifs@, then, depth);
            let done = match els {
                Some(e) => emit_nodes(env, e.1@, open_else(env, more, e.0), depth).settle(
                    env.escaping,
                ).close_scope(),
                None => more,
            };
            close_block(env, done, first.0.1).line("}"@)
        },
        Helper::With(ws, args, nodes) => {
            let body = open_with(st, ws.0, args.pieces@);
            emit_nodes(env, nodes@, body, depth).settle(env.escaping).leave().handle_ws(ws.1)
        },
        Helper::Unless(ws, args, nodes) => {
            let body = open_unless(env, st, ws.0, args.pieces@);
            let done = emit_nodes(env, nodes@, body, depth).settle(env.escaping).close_scope();
            close_block(env, done, ws.1).line("}"@)
        },
        Helper::Defined(_, _, _, _) => st,
    }
}

/// The generator has gone through the further conditions `ifs`.
pub open spec fn emit_else_ifs(
    env: Env,
    ifs: Seq<(Ws, crate::expr::Expression, Vec<Node>)>,
    st: State,
    depth: nat,
) -> State
    decreases depth, ifs, 0nat,
{
    if ifs.len() == 0 {
        st
    } else {
        let before = emit_else_ifs(env, ifs.drop_last(), st, depth);
        let one = ifs.last();
        let body = open_if(env, before, one.0, "} else if "@, one.1.pieces@);
        emit_nodes(env, one.2@, body, depth).settle(env.escaping).close_scope()
    }
}

} // verus!
