//! The generator: it goes through the nodes of a template and writes the code.
use vstd::prelude::*;
use vstd::utf8::encode_utf8;

use crate::buffer::Buffer;
use crate::check::{check, refused, spaces_at_start, Refusal};
use crate::code::{
    display_code, generated, implementations, responder_code, start, template_code,
    template_lines,
};
use crate::derive::{EscapeMode, Struct};
use crate::expr::{ExprKind, Expression, Piece, Statement};
use crate::laws::after::{lemma_nodes_after, lemma_pieces_after};
use crate::laws::follow::{follows, lemma_if_block_follows, lemma_nodes_follow, lemma_pieces};
use crate::laws::ready::{
    lemma_else_ifs_ready_first, lemma_nodes_ready, lemma_reaches_first, lemma_reaches_local,
    lemma_ready_after, lemma_ready_first, lemma_ready_within,
};
use crate::loops::{find_loop_var, loops_count};
use crate::mime::{extension_or_txt, lower, mime_extension, mime_type, mime_type_str};
use crate::model::{
    bound, code_line, emit_else_ifs, emit_expr, emit_helper, emit_let, emit_node, emit_nodes,
    emit_partial, emit_safe, escaped, field, innermost_loop, joined, loop_head, loop_scope,
    only_text, open_each, open_else, open_if, open_partial, open_unless, open_with,
    some_text_line, text_code, text_line, written, written_after, Env, Frame, State, Written,
};
use crate::node::{Context, Helper, Node, Ws};
use crate::partials::{nodes_within, partial_target};
use crate::path::{partial_path, Parts, TemplatePath};
use crate::ready::{else_ifs_ready, helper_ready, node_ready, nodes_ready};
use crate::text::{debug_string, decimal_string, line, pretty_debug_string, same_text, texts};

verus! {

/// A block that names are looked up in, with the position of its scope.
#[derive(Debug, PartialEq)]
pub enum On {
    /// The body of a loop.
    Each(usize),
    /// The body of a `with` block.
    With(usize),
}

impl View for On {
    type V = Frame;

    open spec fn view(&self) -> Frame {
        match *self {
            On::Each(j) => Frame::Each(j as nat),
            On::With(j) => Frame::With(j as nat),
        }
    }
}

/// Something that waits to be written.
pub enum Writable<'a> {
    /// Text.
    Lit(&'a str),
    /// The code of an expression, and whether it needs no escaping.
    Expr(String, bool),
}

impl<'a> View for Writable<'a> {
    type V = Written;

    open spec fn view(&self) -> Written {
        match *self {
            Writable::Lit(s) => Written::Lit(s@),
            Writable::Expr(code, safe) => Written::Code(code@, safe),
        }
    }
}

/// The state of the generation of one template.
pub struct Generator<'a> {
    /// The type that the code is generated for.
    pub s: &'a Struct,
    /// Whether the expression needs no escaping.
    pub wrapped: bool,
    /// The code of the expression so far.
    pub buf_t: String,
    /// The scopes, each with its names.
    pub scp: Vec<Vec<String>>,
    /// The open blocks that names are looked up in.
    pub on: Vec<On>,
    /// What waits to be written.
    pub buf_w: Vec<Writable<'a>>,
    /// Whitespace after the last text. It is written unless the next tag suppresses it.
    pub next_ws: Option<&'a str>,
    /// Whether the last tag suppresses the whitespace before the next text.
    pub skip_ws: bool,
    /// The templates.
    pub ctx: &'a Context,
    /// The template that the nodes come from.
    pub on_path: TemplatePath,
    /// The size of the code that writes the template.
    pub size_hint: usize,
    /// How deep partials nest at most from here on.
    pub depth: Ghost<nat>,
}

impl<'a> View for Generator<'a> {
    type V = State;

    open spec fn view(&self) -> State {
        State {
            out: Seq::empty(),
            pending: Seq::new(self.buf_w@.len(), |i: int| self.buf_w@[i]@),
            next_ws: match self.next_ws {
                Some(w) => Some(w@),
                None => None,
            },
            skip_ws: self.skip_ws,
            scopes: Seq::new(self.scp@.len(), |i: int| texts(self.scp@[i]@)),
            on: Seq::new(self.on@.len(), |i: int| self.on@[i]@),
            path: self.on_path@,
            wrapped: self.wrapped,
            text: self.buf_t@,
        }
    }
}

impl<'a> Generator<'a> {
    /// The state, with the code written to `buf` so far.
    pub open spec fn state(&self, buf: Buffer) -> State {
        State { out: buf@, ..self@ }
    }

    /// What does not change while the template is generated.
    pub open spec fn env(&self) -> Env {
        self.s.env(*self.ctx)
    }

    /// Nothing but the state differs.
    pub open spec fn same_job(&self, other: &Generator<'a>) -> bool {
        &&& self.s == other.s
        &&& self.ctx == other.ctx
        &&& self.size_hint == other.size_hint
        &&& self.depth == other.depth
    }

    /* Helper methods for dealing with whitespace nodes */

    /// Combines `flush_ws()` and `prepare_ws()` to handle both trailing whitespace from the
    /// preceding literal and leading whitespace from the succeeding literal.
    pub fn handle_ws(&mut self, ws: &Ws)
        ensures
            final(self)@ == old(self)@.handle_ws(*ws),
            final(self).same_job(old(self)),
    {
        self.flush_ws(ws);
        self.prepare_ws(ws);
    }

    /// If the previous literal left some trailing whitespace in `next_ws` and the tag does not
    /// suppress it, that whitespace is written. In either case, none is left.
    pub fn flush_ws(&mut self, ws: &Ws)
        ensures
            final(self)@ == old(self)@.flush_ws(*ws),
            final(self).same_job(old(self)),
    {
        if let Some(val) = self.next_ws {
            if !ws.0 && !val.is_empty() {
                self.buf_w.push(Writable::Lit(val));
            }
        }
        self.next_ws = None;
        assert(self@ =~= old(self)@.flush_ws(*ws));
    }

    /// Sets `skip_ws` to match the suffix whitespace suppressor from the given argument, to
    /// determine whether to suppress leading whitespace from the next literal.
    pub fn prepare_ws(&mut self, ws: &Ws)
        ensures
            final(self)@ == old(self)@.prepare_ws(*ws),
            final(self).same_job(old(self)),
    {
        self.skip_ws = ws.1;
        assert(self@ =~= old(self)@.prepare_ws(*ws));
    }

    /// Drops the whitespace on both sides.
    pub fn skip_ws(&mut self)
        ensures
            final(self)@ == old(self)@.drop_ws(),
            final(self).same_job(old(self)),
    {
        self.next_ws = None;
        self.skip_ws = true;
        assert(self@ =~= old(self)@.drop_ws());
    }

    /// Text, between its leading and its trailing whitespace. No whitespace may wait, and
    /// whitespace alone may have no other whitespace after it.
    pub fn visit_lit(&mut self, lws: &'a str, lit: &'a str, rws: &'a str)
        requires
            old(self)@.in_order(lws@, lit@, rws@),
        ensures
            final(self)@ == old(self)@.lit(lws@, lit@, rws@),
            final(self).same_job(old(self)),
    {
        if !lws.is_empty() {
            if self.skip_ws {
                self.skip_ws = false;
            } else if lit.is_empty() {
                self.next_ws = Some(lws);
            } else {
                self.buf_w.push(Writable::Lit(lws));
            }
        }
        if !lit.is_empty() {
            self.buf_w.push(Writable::Lit(lit));
        }
        if !rws.is_empty() {
            self.next_ws = Some(rws);
        }
        assert(self@.pending =~= old(self)@.lit(lws@, lit@, rws@).pending);
        assert(self@ =~= old(self)@.lit(lws@, lit@, rws@));
    }

    /// Takes the code of the expression.
    fn take_text(&mut self) -> (r: String)
        ensures
            r@ == old(self)@.text,
            final(self)@ == old(self)@.taken(),
            final(self).same_job(old(self)),
    {
        let mut text = String::new();
        core::mem::swap(&mut text, &mut self.buf_t);
        assert(self@ =~= old(self)@.taken());
        text
    }

    /// The position of the scope of the innermost loop.
    fn loop_scope_position(&self) -> (r: Option<usize>)
        ensures
            innermost_loop(self@.on) == match r {
                Some(j) => Some(j as nat),
                None => None,
            },
    {
        let mut i: usize = self.on.len();
        proof {
            assert(self@.on.take(i as int) =~= self@.on);
        }
        while i > 0
            invariant
                i <= self.on.len(),
                innermost_loop(self@.on.take(i as int)) == innermost_loop(self@.on),
            decreases i,
        {
            proof {
                assert(self@.on.take(i as int).drop_last() =~= self@.on.take(i - 1));
                assert(self@.on.take(i as int).last() == self.on@[i - 1]@);
            }
            if let On::Each(j) = &self.on[i - 1] {
                return Some(*j);
            }
            i -= 1;
        }
        None
    }

    /// Whether a scope holds the name `ident`.
    fn is_bound(&self, ident: &str) -> (r: bool)
        ensures
            r == bound(self@.scopes, ident@),
    {
        let mut i: usize = 0;
        while i < self.scp.len()
            invariant
                i <= self.scp.len(),
                forall|k: int, j: int|
                    0 <= k < i && 0 <= j < self@.scopes[k].len() ==> #[trigger] self@.scopes[k][j]
                        != ident@,
            decreases self.scp.len() - i,
        {
            let scope = &self.scp[i];
            let mut j: usize = 0;
            while j < scope.len()
                invariant
                    i < self.scp.len(),
                    scope@ == self.scp@[i as int]@,
                    j <= scope.len(),
                    forall|l: int| 0 <= l < j ==> #[trigger] self@.scopes[i as int][l] != ident@,
                decreases scope.len() - j,
            {
                if same_text(scope[j].as_str(), ident) {
                    assert(self@.scopes[i as int][j as int] == ident@);
                    return true;
                }
                assert(self@.scopes[i as int][j as int] != ident@);
                j += 1;
            }
            i += 1;
        }
        false
    }

    /// Writes the field `ident` of what the scope at `j` is on.
    fn write_field(&mut self, j: usize, ident: &str)
        requires
            j < old(self)@.scopes.len(),
            old(self)@.scopes[j as int].len() > 0,
        ensures
            final(self)@ == (State {
                text: old(self)@.text + field(old(self)@.scopes[j as int][0], ident@),
                ..old(self)@
            }),
            final(self).same_job(old(self)),
    {
        self.buf_t.append(self.scp[j][0].as_str());
        self.buf_t.append(".");
        self.buf_t.append(ident);
        assert(self@ =~= State {
            text: old(self)@.text + field(old(self)@.scopes[j as int][0], ident@),
            ..old(self)@
        });
    }

    /// Writes the code for a path of one identifier.
    pub fn write_single_path(&mut self, ident: &str)
        requires
            old(self)@.reaches(ident@),
        ensures
            final(self)@ == old(self)@.name(ident@),
            final(self).same_job(old(self)),
    {
        let ghost st = self@;
        if same_text(ident, "self") {
            self.buf_t.append(self.scp[0][0].as_str());
            assert(self@ =~= st.name(ident@));
            return;
        }
        if self.is_bound(ident) {
            self.buf_t.append(ident);
            assert(self@ =~= st.name(ident@));
            return;
        }
        if self.on.len() == 0 {
            self.write_field(0, ident);
            assert(self@ =~= st.name(ident@));
            return;
        }
        if let Some(j) = self.loop_scope_position() {
            if same_text(ident, "index0") {
                let names = &self.scp[j];
                self.buf_t.append(names[1].as_str());
                self.wrapped = true;
                assert(self@ =~= st.name(ident@));
                return;
            }
            if same_text(ident, "index") {
                let names = &self.scp[j];
                self.buf_t.append("(");
                self.buf_t.append(names[1].as_str());
                self.buf_t.append(" + 1)");
                self.wrapped = true;
                assert(self@ =~= st.name(ident@));
                return;
            }
            if same_text(ident, "first") {
                let names = &self.scp[j];
                self.buf_t.append("(");
                self.buf_t.append(names[1].as_str());
                self.buf_t.append(" == 0)");
                self.wrapped = true;
                assert(self@ =~= st.name(ident@));
                return;
            }
            if same_text(ident, "last") {
                let names = &self.scp[j];
                self.buf_t.append("((");
                self.buf_t.append(names[0].as_str());
                self.buf_t.append(").len() == (");
                self.buf_t.append(names[1].as_str());
                self.buf_t.append(" + 1))");
                self.wrapped = true;
                assert(self@ =~= st.name(ident@));
                return;
            }
            if same_text(ident, "key") {
                let names = &self.scp[j];
                self.buf_t.append(names[0].as_str());
                assert(self@ =~= st.name(ident@));
                return;
            }
        }
        let j = match &self.on[self.on.len() - 1] {
            On::Each(j) => *j,
            On::With(j) => *j,
        };
        proof {
            assert(st.on[st.on.len() - 1].scope() == j);
        }
        self.write_field(j, ident);
        assert(self@ =~= st.name(ident@));
    }
}

impl<'a> Generator<'a> {
    /// Writes an expression.
    pub fn visit_expr(&mut self, expr: &Expression)
        requires
            old(self)@.reaches_all(expr.pieces@),
        ensures
            final(self)@ == old(self)@.pieces(expr.pieces@),
            final(self).same_job(old(self)),
    {
        self.visit_pieces(&expr.pieces);
    }

    /// Writes a statement.
    pub fn visit_stmt(&mut self, stmt: &Statement)
        requires
            old(self)@.reaches_all(stmt.pieces@),
        ensures
            final(self)@ == old(self)@.pieces(stmt.pieces@),
            final(self).same_job(old(self)),
    {
        self.visit_pieces(&stmt.pieces);
    }

    fn visit_pieces(&mut self, pieces: &Vec<Piece>)
        requires
            old(self)@.reaches_all(pieces@),
        ensures
            final(self)@ == old(self)@.pieces(pieces@),
            final(self).same_job(old(self)),
    {
        let ghost st = self@;
        let mut i: usize = 0;
        while i < pieces.len()
            invariant
                st == old(self)@,
                st.reaches_all(pieces@),
                i <= pieces.len(),
                self@ == st.pieces(pieces@.take(i as int)),
                self.same_job(old(self)),
            decreases pieces.len() - i,
        {
            proof {
                assert(pieces@.take(i + 1).drop_last() =~= pieces@.take(i as int));
                assert(pieces@.take(i + 1).last() == pieces@[i as int]);
                lemma_reaches_first(st, pieces@, i + 1);
            }
            let ghost before = self@;
            match &pieces[i] {
                Piece::Text(s) => {
                    self.buf_t.append(s.as_str());
                },
                Piece::Name(ident) => {
                    self.write_single_path(ident.as_str());
                },
                Piece::Declare(ident) => {
                    self.declare(ident.as_str());
                },
                Piece::Wrap => {
                    self.wrapped = true;
                },
            }
            assert(self@ =~= before.piece(pieces@[i as int]));
            i += 1;
        }
        assert(pieces@.take(i as int) =~= pieces@);
    }

    /// Binds the name `ident` in the innermost scope.
    fn declare(&mut self, ident: &str)
        ensures
            final(self)@ == old(self)@.declare(ident@),
            final(self).same_job(old(self)),
    {
        if let Some(scope) = self.scp.pop() {
            let mut scope = scope;
            let ghost names = texts(scope@);
            scope.push(ident.to_owned());
            assert(texts(scope@) =~= names.push(ident@));
            self.scp.push(scope);
            assert(self@.scopes =~= old(self)@.declare(ident@).scopes);
        }
        assert(self@ =~= old(self)@.declare(ident@));
    }

    /// Opens a scope without names.
    fn open_scope(&mut self)
        ensures
            final(self)@ == old(self)@.open_scope(Seq::empty()),
            final(self).same_job(old(self)),
    {
        let names: Vec<String> = Vec::new();
        assert(texts(names@) =~= Seq::<Seq<char>>::empty());
        self.scp.push(names);
        assert(self@.scopes =~= old(self)@.scopes.push(Seq::empty()));
        assert(self@ =~= old(self)@.open_scope(Seq::empty()));
    }

    /// Closes the innermost scope.
    fn close_scope(&mut self)
        requires
            old(self)@.scopes.len() > 0,
        ensures
            final(self)@ == old(self)@.close_scope(),
            final(self).same_job(old(self)),
    {
        self.scp.pop();
        assert(self@.scopes =~= old(self)@.scopes.drop_last());
        assert(self@ =~= old(self)@.close_scope());
    }

    /// Opens a block that names are looked up in.
    fn enter(&mut self, on: On, names: Vec<String>)
        ensures
            final(self)@ == old(self)@.enter(on@, texts(names@)),
            final(self).same_job(old(self)),
    {
        let ghost scope = texts(names@);
        let ghost frame = on@;
        self.on.push(on);
        self.scp.push(names);
        assert(self@.scopes =~= old(self)@.scopes.push(scope));
        assert(self@.on =~= old(self)@.on.push(frame));
        assert(self@ =~= old(self)@.enter(frame, scope));
    }

    /// Closes the innermost block that names are looked up in.
    fn leave(&mut self)
        requires
            old(self)@.scopes.len() > 0,
            old(self)@.on.len() > 0,
        ensures
            final(self)@ == old(self)@.leave(),
            final(self).same_job(old(self)),
    {
        self.scp.pop();
        self.on.pop();
        assert(self@.scopes =~= old(self)@.scopes.drop_last());
        assert(self@.on =~= old(self)@.on.drop_last());
        assert(self@ =~= old(self)@.leave());
    }

    /// Whether only text waits to be written.
    fn only_text(&self) -> (r: bool)
        ensures
            r == only_text(self@.pending),
    {
        let mut i: usize = 0;
        while i < self.buf_w.len()
            invariant
                i <= self.buf_w.len(),
                forall|j: int| 0 <= j < i ==> #[trigger] self@.pending[j] is Lit,
            decreases self.buf_w.len() - i,
        {
            if let Writable::Expr(_, _) = &self.buf_w[i] {
                assert(!(self@.pending[i as int] is Lit));
                return false;
            }
            assert(self@.pending[i as int] is Lit);
            i += 1;
        }
        true
    }

    /// Writes what waits, and empties it.
    pub fn write_buf_writable(&mut self, buf: &mut Buffer)
        ensures
            final(self).state(*final(buf)) == old(self).state(*old(buf)).flush(
                old(self).s.escaping,
            ),
            final(self).same_job(old(self)),
    {
        if self.buf_w.is_empty() {
            assert(self.state(*buf) =~= old(self).state(*old(buf)).flush(self.s.escaping));
            return;
        }
        let all_text = self.only_text();
        let ghost pending = self@.pending;
        let mut items: Vec<Writable<'a>> = Vec::new();
        core::mem::swap(&mut items, &mut self.buf_w);
        proof {
            assert(self@ =~= State { pending: Seq::empty(), ..old(self)@ });
        }
        if all_text {
            write_text_line(buf, joined_text(&items).as_str());
            proof {
                assert(Seq::new(items@.len(), |i: int| items@[i]@) =~= pending);
            }
        } else {
            write_items(buf, &items, self.s.escaping);
            proof {
                assert(Seq::new(items@.len(), |i: int| items@[i]@) =~= pending);
            }
        }
        assert(self.state(*buf) =~= old(self).state(*old(buf)).flush(self.s.escaping));
    }
}

impl<'a> Generator<'a> {
    /// The nodes can be gone through from the state `st`.
    pub open spec fn fits(&self, nodes: Seq<Node>, st: State) -> bool {
        &&& self.ctx.wf()
        &&& nodes_ready(self.env(), nodes, st, self.depth@)
    }

    /// The node can be gone through from the state `st`.
    pub open spec fn fits_node(&self, n: Node, st: State) -> bool {
        &&& self.ctx.wf()
        &&& node_ready(self.env(), n, st, self.depth@)
    }

    /// The helper can be gone through from the state `st`.
    pub open spec fn fits_helper(&self, h: Helper, st: State) -> bool {
        &&& self.ctx.wf()
        &&& helper_ready(self.env(), h, st, self.depth@)
    }

    /// The template that the partial `name` stands for can be gone through from the state `st`.
    pub open spec fn fits_partial(&self, ws: Ws, name: Parts, st: State) -> bool {
        let target = partial_path(self.env().root, st.path, name);
        &&& self.ctx.wf()
        &&& self.env().templates.dom().contains(target)
        &&& self.depth@ > 0
        &&& nodes_ready(
            self.env(),
            self.env().templates[target],
            open_partial(st, ws, target),
            (self.depth@ - 1) as nat,
        )
    }

    /// Goes through nodes.
    pub fn handle(&mut self, nodes: &'a Vec<Node>, buf: &mut Buffer)
        requires
            old(self).fits(nodes@, old(self).state(*old(buf))),
        ensures
            final(self).state(*final(buf)) == emit_nodes(
                old(self).env(),
                nodes@,
                old(self).state(*old(buf)),
                old(self).depth@,
            ).settle(old(self).s.escaping),
            final(self).same_job(old(self)),
        decreases 2 * old(self).depth@, *nodes, 0nat,
    {
        let ghost env = self.env();
        let ghost st = self.state(*buf);
        let ghost depth = self.depth@;
        let mut i: usize = 0;
        while i < nodes.len()
            invariant
                i <= nodes.len(),
                env == old(self).env(),
                st == old(self).state(*old(buf)),
                depth == old(self).depth@,
                self.same_job(old(self)),
                self.ctx.wf(),
                nodes_ready(env, nodes@, st, depth),
                self.state(*buf) == emit_nodes(env, nodes@.take(i as int), st, depth),
            decreases nodes.len() - i,
        {
            proof {
                assert(nodes@.take(i + 1).drop_last() =~= nodes@.take(i as int));
                assert(nodes@.take(i + 1).last() == nodes@[i as int]);
                lemma_ready_first(env, nodes@, st, depth, i + 1);
            }
            self.visit_node(&nodes[i], buf);
            i += 1;
        }
        assert(nodes@.take(i as int) =~= nodes@);
        if self.on.is_empty() {
            self.write_buf_writable(buf);
        }
    }

    fn visit_node(&mut self, n: &'a Node, buf: &mut Buffer)
        requires
            old(self).fits_node(*n, old(self).state(*old(buf))),
        ensures
            final(self).state(*final(buf)) == emit_node(
                old(self).env(),
                *n,
                old(self).state(*old(buf)),
                old(self).depth@,
            ),
            final(self).same_job(old(self)),
        decreases 2 * old(self).depth@, *n, 0nat,
    {
        match n {
            Node::Let(stmt) => self.visit_let(buf, stmt),
            Node::Safe(ws, expr) => self.visit_safe(ws, expr, Ghost(*buf)),
            Node::Expr(ws, expr) => self.visit_value(ws, expr, Ghost(*buf)),
            Node::Lit(l, lit, r) => {
                self.visit_lit(l.as_str(), lit.as_str(), r.as_str());
            },
            Node::Helper(h) => self.visit_helper(buf, h),
            Node::Partial(ws, name) => self.visit_partial(buf, ws, name),
            Node::Comment(_) => self.skip_ws(),
        }
    }

    /// Writes a statement as a line.
    fn visit_let(&mut self, buf: &mut Buffer, stmt: &Statement)
        requires
            old(self).state(*old(buf)).reaches_all(stmt.pieces@),
        ensures
            final(self).state(*final(buf)) == emit_let(
                old(self).env(),
                old(self).state(*old(buf)),
                stmt.pieces@,
            ),
            final(self).same_job(old(self)),
    {
        let ghost st = self.state(*buf);
        self.skip_ws();
        self.write_buf_writable(buf);
        proof {
            lemma_visit(self, *buf, st, stmt.pieces@);
        }
        self.visit_stmt(stmt);
        let code = self.take_text();
        buf.writeln(code.as_str());
    }

    /// Has an expression written without escaping.
    fn visit_safe(&mut self, ws: &Ws, expr: &Expression, Ghost(buf): Ghost<Buffer>)
        requires
            old(self).state(buf).reaches_all(expr.pieces@),
        ensures
            final(self).state(buf) == emit_safe(old(self).state(buf), *ws, expr.pieces@),
            final(self).same_job(old(self)),
    {
        proof {
            lemma_visit(self, buf, self.state(buf), expr.pieces@);
        }
        self.visit_expr(expr);
        self.handle_ws(ws);
        self.put(true);
    }

    /// Has an expression written.
    fn visit_value(&mut self, ws: &Ws, expr: &Expression, Ghost(buf): Ghost<Buffer>)
        requires
            old(self).state(buf).reaches_all(expr.pieces@),
        ensures
            final(self).state(buf) == emit_expr(old(self).state(buf), *ws, expr.pieces@),
            final(self).same_job(old(self)),
    {
        self.wrapped = false;
        proof {
            assert(self@ =~= State { wrapped: false, ..old(self)@ });
            lemma_visit(self, buf, old(self).state(buf), expr.pieces@);
        }
        self.visit_expr(expr);
        self.handle_ws(ws);
        self.put(self.wrapped);
    }

    /// Has the code of the expression written.
    fn put(&mut self, safe: bool)
        ensures
            final(self)@ == old(self)@.put(safe),
            final(self).same_job(old(self)),
    {
        let code = self.take_text();
        self.buf_w.push(Writable::Expr(code, safe));
        assert(self@.pending =~= old(self)@.put(safe).pending);
        assert(self@ =~= old(self)@.put(safe));
    }
}

/// Writing an expression does not touch the code written so far, and what its names stand for is
/// within reach if it was in the state `st`, with the same scopes and open blocks.
proof fn lemma_visit(g: &Generator, buf: Buffer, st: State, pieces: Seq<Piece>)
    requires
        st.reaches_all(pieces),
        st.scopes == g@.scopes,
        st.on == g@.on,
        st.text == g@.text,
    ensures
        g.state(buf).pieces(pieces) == (State { out: buf@, ..g@.pieces(pieces) }),
        g@.reaches_all(pieces),
{
    assert(g@.after(buf@) =~= g.state(buf));
    lemma_reaches_local(st, g@, pieces);
    lemma_pieces_after(g@, buf@, pieces);
    lemma_pieces(g@, pieces);
    assert(g@.pieces(pieces).after(buf@) =~= State { out: buf@, ..g@.pieces(pieces) });
}

/// The texts among `items` in one.
fn joined_text(items: &Vec<Writable>) -> (r: String)
    ensures
        r@ == joined(Seq::new(items@.len(), |i: int| items@[i]@)),
{
    let ghost pending = Seq::new(items@.len(), |i: int| items@[i]@);
    let mut text = String::new();
    let mut i: usize = 0;
    while i < items.len()
        invariant
            i <= items.len(),
            pending == Seq::new(items@.len(), |i: int| items@[i]@),
            text@ == joined(pending.take(i as int)),
        decreases items.len() - i,
    {
        proof {
            assert(pending.take(i + 1).drop_last() =~= pending.take(i as int));
            assert(pending.take(i + 1).last() == items@[i as int]@);
        }
        if let Writable::Lit(s) = &items[i] {
            text.append(s);
        }
        i += 1;
    }
    assert(pending.take(i as int) =~= pending);
    text
}

/// Writes the line that writes the text that `literal` stands for.
pub fn write_literal_line(buf: &mut Buffer, literal: &str)
    ensures
        final(buf)@ == old(buf)@ + line(text_code(literal@)),
{
    let mut code = "_fmt.write_str(".to_owned();
    code.append(literal);
    code.append(")?;");
    buf.writeln(code.as_str());
}

/// Writes the line that writes the text `s`.
fn write_text_line(buf: &mut Buffer, s: &str)
    ensures
        final(buf)@ == old(buf)@ + text_line(s@),
{
    write_literal_line(buf, pretty_debug_string(s).as_str());
}

/// Writes the line that writes the value of `code`.
fn write_code_line(buf: &mut Buffer, code: &str, safe: bool, escaping: EscapeMode)
    ensures
        final(buf)@ == old(buf)@ + code_line(code@, safe, escaping),
{
    let mut value = "(".to_owned();
    if !safe && escaping == EscapeMode::Html {
        value.append("::wearte::MarkupAsStr::from(&");
        value.append(code);
        value.append(")");
    } else {
        value.append(code);
    }
    proof {
        assert(value@ =~= "("@ + escaped(code@, safe, escaping));
    }
    value.append(").fmt(_fmt)?;");
    buf.writeln(value.as_str());
}

/// Writes the lines that write `items`.
fn write_items(buf: &mut Buffer, items: &Vec<Writable>, escaping: EscapeMode)
    ensures
        final(buf)@ == old(buf)@ + written_after(
            Seq::empty(),
            Seq::new(items@.len(), |i: int| items@[i]@),
            escaping,
        ),
{
    let ghost pending = Seq::new(items@.len(), |i: int| items@[i]@);
    let mut text = String::new();
    let mut i: usize = 0;
    proof {
        assert(pending.skip(0) =~= pending);
    }
    while i < items.len()
        invariant
            i <= items.len(),
            pending == Seq::new(items@.len(), |i: int| items@[i]@),
            old(buf)@ + written_after(Seq::empty(), pending, escaping) == buf@ + written_after(
                text@,
                pending.skip(i as int),
                escaping,
            ),
        decreases items.len() - i,
    {
        proof {
            assert(pending.skip(i as int)[0] == items@[i as int]@);
            assert(pending.skip(i as int).skip(1) =~= pending.skip(i + 1));
        }
        let ghost before = buf@;
        match &items[i] {
            Writable::Lit(s) => {
                text.append(s);
            },
            Writable::Expr(code, safe) => {
                let ghost lits = text@;
                if !text.as_str().is_empty() {
                    write_text_line(buf, text.as_str());
                    text = String::new();
                }
                proof {
                    assert(buf@ =~= before + some_text_line(lits));
                    assert(text@ =~= Seq::<char>::empty());
                }
                write_code_line(buf, code.as_str(), *safe, escaping);
                proof {
                    let rest = written_after(Seq::empty(), pending.skip(i + 1), escaping);
                    assert(before + (some_text_line(lits) + code_line(code@, *safe, escaping)
                        + rest) =~= buf@ + rest);
                }
            },
        }
        i += 1;
    }
    let ghost before = buf@;
    if !text.as_str().is_empty() {
        write_text_line(buf, text.as_str());
    }
    proof {
        assert(buf@ =~= before + some_text_line(text@));
    }
}

impl<'a> Generator<'a> {
    /// Goes through a helper.
    pub fn visit_helper(&mut self, buf: &mut Buffer, h: &'a Helper)
        requires
            old(self).fits_helper(*h, old(self).state(*old(buf))),
        ensures
            final(self).state(*final(buf)) == emit_helper(
                old(self).env(),
                *h,
                old(self).state(*old(buf)),
                old(self).depth@,
            ),
            final(self).same_job(old(self)),
        decreases 2 * old(self).depth@, *h, 1nat,
    {
        match h {
            Helper::Each(ws, e, b) => self.visit_each(buf, ws, e, b),
            Helper::If(ifs, elsif, els) => self.visit_if(buf, ifs, elsif, els),
            Helper::With(ws, e, b) => self.visit_with(buf, ws, e, b),
            Helper::Unless(ws, e, b) => self.visit_unless(buf, ws, e, b),
            Helper::Defined(_, _, _, _) => {},
        }
    }

    /// Goes through an `unless` block.
    pub fn visit_unless(
        &mut self,
        buf: &mut Buffer,
        ws: &'a (Ws, Ws),
        args: &'a Expression,
        nodes: &'a Vec<Node>,
    )
        requires
            old(self).fits_helper(
                Helper::Unless(*ws, *args, *nodes),
                old(self).state(*old(buf)),
            ),
        ensures
            final(self).state(*final(buf)) == emit_helper(
                old(self).env(),
                Helper::Unless(*ws, *args, *nodes),
                old(self).state(*old(buf)),
                old(self).depth@,
            ),
            final(self).same_job(old(self)),
        decreases 2 * old(self).depth@, Helper::Unless(*ws, *args, *nodes), 0nat,
    {
        let ghost env = self.env();
        let ghost st = self.state(*buf);
        self.handle_ws(&ws.0);
        self.write_buf_writable(buf);
        proof {
            lemma_visit(self, *buf, st, args.pieces@);
            lemma_pieces(self.state(*buf), args.pieces@);
        }
        self.visit_expr(args);
        let mut code = "if !(".to_owned();
        code.append(self.take_text().as_str());
        code.append(") {");
        buf.writeln(code.as_str());
        self.open_scope();
        let ghost body = self.state(*buf);
        proof {
            assert(body =~= open_unless(env, st, ws.0, args.pieces@));
            lemma_nodes_follow(env, nodes@, body, self.depth@);
        }
        self.handle(nodes, buf);
        self.close_scope();
        self.handle_ws(&ws.1);
        self.write_buf_writable(buf);
        buf.writeln("}");
    }

    /// Goes through a `with` block.
    pub fn visit_with(
        &mut self,
        buf: &mut Buffer,
        ws: &'a (Ws, Ws),
        args: &'a Expression,
        nodes: &'a Vec<Node>,
    )
        requires
            old(self).fits_helper(
                Helper::With(*ws, *args, *nodes),
                old(self).state(*old(buf)),
            ),
        ensures
            final(self).state(*final(buf)) == emit_helper(
                old(self).env(),
                Helper::With(*ws, *args, *nodes),
                old(self).state(*old(buf)),
                old(self).depth@,
            ),
            final(self).same_job(old(self)),
        decreases 2 * old(self).depth@, Helper::With(*ws, *args, *nodes), 0nat,
    {
        let ghost env = self.env();
        let ghost st = self.state(*buf);
        self.handle_ws(&ws.0);
        proof {
            lemma_visit(self, *buf, st, args.pieces@);
            lemma_pieces(self.state(*buf), args.pieces@);
        }
        self.visit_expr(args);
        let ghost v = self.state(*buf);
        let id = self.scp.len();
        let mut names: Vec<String> = Vec::new();
        names.push(self.take_text());
        proof {
            assert(texts(names@) =~= seq![v.text]);
        }
        self.enter(On::With(id), names);
        let ghost body = self.state(*buf);
        proof {
            assert(body =~= open_with(st, ws.0, args.pieces@));
            lemma_nodes_follow(env, nodes@, body, self.depth@);
        }
        self.handle(nodes, buf);
        self.leave();
        self.handle_ws(&ws.1);
    }

    /// Opens a loop with the body `nodes`.
    fn open_each(&mut self, buf: &mut Buffer, ws: &Ws, args: &Expression, nodes: &Vec<Node>)
        requires
            old(self).ctx.wf(),
            nodes_within(old(self).env(), old(self)@.path, nodes@, old(self).depth@),
            old(self).state(*old(buf)).reaches_all(args.pieces@),
        ensures
            final(self).state(*final(buf)) == open_each(
                old(self).env(),
                old(self).state(*old(buf)),
                *ws,
                args.kind,
                args.pieces@,
                loops_count(old(self).env(), old(self)@.path, nodes@, old(self).depth@),
            ),
            final(self).same_job(old(self)),
    {
        let ghost st = self.state(*buf);
        self.handle_ws(ws);
        self.write_buf_writable(buf);
        let loop_var = find_loop_var(self.s, self.ctx, &self.on_path, nodes, Ghost(self.depth@));
        proof {
            lemma_visit(self, *buf, st, args.pieces@);
            lemma_pieces(self.state(*buf), args.pieces@);
        }
        self.visit_expr(args);
        let id = self.scp.len();
        let range = args.kind == ExprKind::Range;
        let code = self.take_text();
        buf.writeln(loop_line(id, loop_var, range, code.as_str()).as_str());
        let names = loop_names(id, loop_var);
        self.enter(On::Each(id), names);
    }

    /// Goes through a loop.
    pub fn visit_each(
        &mut self,
        buf: &mut Buffer,
        ws: &'a (Ws, Ws),
        args: &'a Expression,
        nodes: &'a Vec<Node>,
    )
        requires
            old(self).fits_helper(
                Helper::Each(*ws, *args, *nodes),
                old(self).state(*old(buf)),
            ),
        ensures
            final(self).state(*final(buf)) == emit_helper(
                old(self).env(),
                Helper::Each(*ws, *args, *nodes),
                old(self).state(*old(buf)),
                old(self).depth@,
            ),
            final(self).same_job(old(self)),
        decreases 2 * old(self).depth@, Helper::Each(*ws, *args, *nodes), 0nat,
    {
        let ghost st = self.state(*buf);
        proof {
            let counted = loops_count(self.env(), st.path, nodes@, self.depth@);
            let body = open_each(self.env(), st, ws.0, args.kind, args.pieces@, counted);
            lemma_pieces(st.handle_ws(ws.0).flush(self.s.escaping), args.pieces@);
            lemma_ready_within(self.env(), nodes@, body, self.depth@);
        }
        self.open_each(buf, &ws.0, args, nodes);
        proof {
            lemma_nodes_follow(self.env(), nodes@, self.state(*buf), self.depth@);
        }
        self.handle(nodes, buf);
        self.handle_ws(&ws.1);
        self.write_buf_writable(buf);
        self.leave();
        buf.writeln("}");
    }

    /// Opens a conditional block, with `keyword` in front of its condition.
    fn open_if(&mut self, buf: &mut Buffer, ws: &Ws, keyword: &str, cond: &Expression)
        requires
            old(self).state(*old(buf)).open_scope(Seq::empty()).reaches_all(cond.pieces@),
        ensures
            final(self).state(*final(buf)) == open_if(
                old(self).env(),
                old(self).state(*old(buf)),
                *ws,
                keyword@,
                cond.pieces@,
            ),
            final(self).same_job(old(self)),
            final(self)@.scopes.len() == old(self)@.scopes.len() + 1,
    {
        let ghost env = self.env();
        let ghost st = self.state(*buf);
        self.handle_ws(ws);
        self.write_buf_writable(buf);
        self.open_scope();
        let ghost opened = self.state(*buf);
        proof {
            assert(opened =~= st.handle_ws(*ws).flush(env.escaping).open_scope(Seq::empty()));
            lemma_visit(self, *buf, st.open_scope(Seq::empty()), cond.pieces@);
            lemma_pieces(opened, cond.pieces@);
        }
        self.visit_expr(cond);
        let mut code = keyword.to_owned();
        code.append(self.take_text().as_str());
        code.append(" {");
        buf.writeln(code.as_str());
    }

    /// Goes through a conditional block, with `keyword` in front of its condition.
    fn visit_if_block(
        &mut self,
        buf: &mut Buffer,
        ws: &Ws,
        keyword: &str,
        cond: &Expression,
        nodes: &'a Vec<Node>,
    )
        requires
            old(self).fits(
                nodes@,
                open_if(
                    old(self).env(),
                    old(self).state(*old(buf)),
                    *ws,
                    keyword@,
                    cond.pieces@,
                ),
            ),
            old(self).state(*old(buf)).open_scope(Seq::empty()).reaches_all(cond.pieces@),
        ensures
            final(self).state(*final(buf)) == emit_nodes(
                old(self).env(),
                nodes@,
                open_if(
                    old(self).env(),
                    old(self).state(*old(buf)),
                    *ws,
                    keyword@,
                    cond.pieces@,
                ),
                old(self).depth@,
            ).settle(old(self).s.escaping).close_scope(),
            final(self).same_job(old(self)),
            follows(old(self).state(*old(buf)), final(self).state(*final(buf))),
        decreases 2 * old(self).depth@, *nodes, 1nat,
    {
        let ghost env = self.env();
        let ghost st = self.state(*buf);
        let ghost depth = self.depth@;
        self.open_if(buf, ws, keyword, cond);
        proof {
            lemma_nodes_follow(env, nodes@, self.state(*buf), depth);
        }
        self.handle(nodes, buf);
        self.close_scope();
        proof {
            lemma_if_block_follows(env, st, *ws, keyword@, cond.pieces@, nodes@, depth);
        }
    }

    /// Goes through the block for what is left.
    fn visit_else(&mut self, buf: &mut Buffer, ws: &Ws, nodes: &'a Vec<Node>)
        requires
            old(self).fits(nodes@, open_else(old(self).env(), old(self).state(*old(buf)), *ws)),
        ensures
            final(self).state(*final(buf)) == emit_nodes(
                old(self).env(),
                nodes@,
                open_else(old(self).env(), old(self).state(*old(buf)), *ws),
                old(self).depth@,
            ).settle(old(self).s.escaping).close_scope(),
            final(self).same_job(old(self)),
        decreases 2 * old(self).depth@, *nodes, 1nat,
    {
        self.handle_ws(ws);
        self.write_buf_writable(buf);
        buf.writeln("} else {");
        self.open_scope();
        proof {
            lemma_nodes_follow(self.env(), nodes@, self.state(*buf), self.depth@);
        }
        self.handle(nodes, buf);
        self.close_scope();
    }

    /// Goes through a conditional.
    pub fn visit_if(
        &mut self,
        buf: &mut Buffer,
        first: &'a ((Ws, Ws), Expression, Vec<Node>),
        ifs: &'a Vec<(Ws, Expression, Vec<Node>)>,
        els: &'a Option<(Ws, Vec<Node>)>,
    )
        requires
            old(self).fits_helper(
                Helper::If(*first, *ifs, *els),
                old(self).state(*old(buf)),
            ),
        ensures
            final(self).state(*final(buf)) == emit_helper(
                old(self).env(),
                Helper::If(*first, *ifs, *els),
                old(self).state(*old(buf)),
                old(self).depth@,
            ),
            final(self).same_job(old(self)),
        decreases 2 * old(self).depth@, Helper::If(*first, *ifs, *els), 0nat,
    {
        self.visit_if_block(buf, &first.0.0, "if ", &first.1, &first.2);
        self.visit_else_ifs(buf, ifs);
        if let Some(e) = els {
            self.visit_else(buf, &e.0, &e.1);
        }
        self.handle_ws(&first.0.1);
        self.write_buf_writable(buf);
        buf.writeln("}");
    }

    /// Goes through further conditions.
    fn visit_else_ifs(&mut self, buf: &mut Buffer, ifs: &'a Vec<(Ws, Expression, Vec<Node>)>)
        requires
            old(self).ctx.wf(),
            else_ifs_ready(
                old(self).env(),
                ifs@,
                old(self).state(*old(buf)),
                old(self).depth@,
            ),
        ensures
            final(self).state(*final(buf)) == emit_else_ifs(
                old(self).env(),
                ifs@,
                old(self).state(*old(buf)),
                old(self).depth@,
            ),
            final(self).same_job(old(self)),
        decreases 2 * old(self).depth@, *ifs, 0nat,
    {
        let ghost env = self.env();
        let ghost st = self.state(*buf);
        let ghost depth = self.depth@;
        let mut i: usize = 0;
        while i < ifs.len()
            invariant
                i <= ifs.len(),
                env == old(self).env(),
                st == old(self).state(*old(buf)),
                depth == old(self).depth@,
                self.same_job(old(self)),
                self.ctx.wf(),
                else_ifs_ready(env, ifs@, st, depth),
                self.state(*buf) == emit_else_ifs(env, ifs@.take(i as int), st, depth),
            decreases ifs.len() - i,
        {
            proof {
                assert(ifs@.take(i + 1).drop_last() =~= ifs@.take(i as int));
                assert(ifs@.take(i + 1).last() == ifs@[i as int]);
                lemma_else_ifs_ready_first(env, ifs@, st, depth, i + 1);
            }
            let one = &ifs[i];
            self.visit_if_block(buf, &one.0, "} else if ", &one.1, &one.2);
            i += 1;
        }
        assert(ifs@.take(i as int) =~= ifs@);
    }

    /// Goes through the template that a partial stands for.
    pub fn visit_partial(&mut self, buf: &mut Buffer, ws: &Ws, path: &TemplatePath)
        requires
            old(self).fits_partial(*ws, path@, old(self).state(*old(buf))),
        ensures
            final(self).state(*final(buf)) == emit_partial(
                old(self).env(),
                *ws,
                path@,
                old(self).state(*old(buf)),
                old(self).depth@,
            ),
            final(self).same_job(old(self)),
        decreases 2 * old(self).depth@ - 1, *ws, 0nat,
    {
        let ghost env = self.env();
        let ghost st = self.state(*buf);
        let ghost depth = self.depth@;
        let ctx = self.ctx;
        let target = partial_target(&self.s.path, &self.on_path, path);
        if let Some(nodes) = ctx.get(&target) {
            let ghost goal = target@;
            let mut from = target;
            core::mem::swap(&mut from, &mut self.on_path);
            self.flush_ws(ws);
            self.open_scope();
            self.depth = Ghost((depth - 1) as nat);
            let ghost body = self.state(*buf);
            proof {
                assert(body =~= open_partial(st, *ws, goal));
                lemma_nodes_follow(env, nodes@, body, self.depth@);
            }
            self.handle(nodes, buf);
            self.close_scope();
            self.prepare_ws(ws);
            self.depth = Ghost(depth);
            self.on_path = from;
            assert(self.state(*buf) =~= emit_partial(env, *ws, path@, st, depth));
        }
    }
}

impl<'a> Generator<'a> {
    /// A generator for the template of `s`.
    pub fn new(s: &'a Struct, ctx: &'a Context) -> (r: Generator<'a>)
        ensures
            r@ == start(s.env(*ctx)),
            r.s == s,
            r.ctx == ctx,
            r.size_hint == 0,
            r.depth@ == ctx@.dom().len(),
    {
        let mut scope: Vec<String> = Vec::new();
        scope.push("self".to_owned());
        proof {
            assert(texts(scope@) =~= seq!["self"@]);
        }
        let mut scp: Vec<Vec<String>> = Vec::new();
        scp.push(scope);
        let r = Generator {
            s,
            ctx,
            buf_t: String::new(),
            buf_w: Vec::new(),
            next_ws: None,
            on: Vec::new(),
            on_path: s.path.copy(),
            scp,
            skip_ws: false,
            wrapped: true,
            size_hint: 0,
            depth: Ghost(ctx@.dom().len()),
        };
        assert(r@.scopes =~= seq![seq!["self"@]]);
        assert(r@ =~= start(s.env(*ctx)));
        r
    }

    /// Generates the relevant implementations; that of `Responder` only where `actix_web` asks
    /// for it.
    pub fn build(&mut self, actix_web: bool) -> (r: String)
        requires
            old(self).env().templates.dom().contains(old(self)@.path),
            old(self).fits(old(self).env().templates[old(self)@.path], old(self)@),
            mime_type(mime_extension(old(self).env().root)) is Some,
        ensures
            r@ == implementations(
                old(self).env(),
                old(self).s.heading(),
                old(self).body(old(self).env().templates[old(self)@.path]).out,
                actix_web,
            ),
            final(self)@ == (State {
                out: Seq::empty(),
                ..old(self).body(old(self).env().templates[old(self)@.path])
            }),
            final(self).s == old(self).s,
            final(self).ctx == old(self).ctx,
            final(self).depth == old(self).depth,
            final(self).size_hint == encode_utf8(
                old(self).body(old(self).env().templates[old(self)@.path]).out,
            ).len(),
    {
        let mut buf = Buffer::new();
        let ctx = self.ctx;
        if let Some(nodes) = ctx.get(&self.on_path) {
            self.impl_display(nodes, &mut buf);
        }
        self.impl_template(&mut buf);
        if actix_web {
            self.responder(&mut buf);
        }
        assert(buf@ =~= implementations(
            old(self).env(),
            old(self).s.heading(),
            old(self).body(old(self).env().templates[old(self)@.path]).out,
            actix_web,
        ));
        buf.buf
    }

    /// The media type of the template. Whether its extension is in upper or lower case does not
    /// matter.
    pub fn get_mime(&self) -> (r: &'static str)
        requires
            mime_type(mime_extension(self.s.path@)) is Some,
        ensures
            mime_type(mime_extension(self.s.path@)) == Some(r@),
            mime_type(lower(mime_extension(self.s.path@))) == Some(r@),
    {
        match mime_type_str(extension_or_txt(&self.s.path)) {
            Some(mime) => mime,
            None => "",
        }
    }

    /// Implements `Template` for the given context struct.
    pub fn impl_template(&mut self, buf: &mut Buffer)
        requires
            mime_type(mime_extension(old(self).s.path@)) is Some,
        ensures
            *final(self) == *old(self),
            final(buf)@ == old(buf)@ + template_code(
                old(self).s.heading(),
                mime_type(mime_extension(old(self).s.path@)).unwrap(),
                old(self).size_hint as nat,
            ),
    {
        self.write_template(buf, debug_string(self.get_mime()).as_str());
    }

    /// Implements `Template` for the given context struct, with the media type that `literal`
    /// stands for.
    pub fn write_template(&self, buf: &mut Buffer, literal: &str)
        ensures
            final(buf)@ == old(buf)@ + template_lines(
                self.s.heading(),
                literal@,
                self.size_hint as nat,
            ),
    {
        buf.writeln(self.s.implement_head("::wearte::Template").as_str());
        buf.writeln("fn mime() -> &'static str {");
        buf.writeln(literal);
        buf.writeln("}");
        buf.writeln("fn size_hint() -> usize {");
        buf.writeln(decimal_string(self.size_hint).as_str());
        buf.writeln("}");
        buf.writeln("}");
        assert(buf@ =~= old(buf)@ + template_lines(
            self.s.heading(),
            literal@,
            self.size_hint as nat,
        ));
    }

    /// The state after `nodes`, with the code that writes them.
    pub open spec fn body(&self, nodes: Seq<Node>) -> State {
        emit_nodes(self.env(), nodes, self@, self.depth@).settle(self.s.escaping)
    }

    /// Implements `Display` for the given context struct. The size of the code that writes the
    /// template is kept as the size hint.
    pub fn impl_display(&mut self, nodes: &'a Vec<Node>, buf: &mut Buffer)
        requires
            old(self).fits(nodes@, old(self)@),
        ensures
            final(buf)@ == old(buf)@ + display_code(
                old(self).s.heading(),
                old(self).body(nodes@).out,
            ),
            final(self)@ == (State { out: Seq::empty(), ..old(self).body(nodes@) }),
            final(self).s == old(self).s,
            final(self).ctx == old(self).ctx,
            final(self).depth == old(self).depth,
            final(self).size_hint == encode_utf8(old(self).body(nodes@).out).len(),
    {
        buf.writeln(self.s.implement_head("::std::fmt::Display").as_str());
        buf.writeln("fn fmt(&self, _fmt: &mut ::std::fmt::Formatter) -> ::std::fmt::Result {");
        let last = buf.buf.as_str().as_bytes().len();
        let ghost before = buf@;
        let ghost body = self.body(nodes@);
        proof {
            lemma_nodes_after(self.env(), nodes@, self@, self.depth@, before);
            lemma_ready_after(self.env(), nodes@, self@, self.depth@, before);
            assert(self.state(*buf) =~= self@.after(before));
            assert(emit_nodes(self.env(), nodes@, self@, self.depth@).after(before).settle(
                self.s.escaping,
            ) =~= body.after(before));
        }
        self.handle(nodes, buf);
        proof {
            assert(self.state(*buf) == body.after(before));
            assert(self@ =~= State { out: Seq::empty(), ..body });
            assert(buf@ =~= before + body.out);
            lemma_encode_concat(before, body.out);
        }
        self.size_hint = buf.buf.as_str().as_bytes().len() - last;
        buf.writeln("Ok(())");
        buf.writeln("}");
        buf.writeln("}");
        assert(buf@ =~= old(buf)@ + display_code(self.s.heading(), body.out));
    }

    /// Implements Actix-web's `Responder`.
    pub fn responder(&mut self, buf: &mut Buffer)
        ensures
            *final(self) == *old(self),
            final(buf)@ == old(buf)@ + responder_code(old(self).s.heading()),
    {
        buf.writeln(self.s.implement_head("::wearte::actix_web::Responder").as_str());
        buf.writeln("type Item = ::wearte::actix_web::HttpResponse;");
        buf.writeln("type Error = ::wearte::actix_web::Error;");
        buf.writeln(
            "fn respond_to<S>(self, _req: &::wearte::actix_web::HttpRequest<S>) -> ::std::result::Result<Self::Item, Self::Error> {",
        );
        buf.writeln(
            "self.call()
                .map(|s| Self::Item::Ok().content_type(Self::mime()).body(s))
                .map_err(|_| ::wearte::actix_web::ErrorInternalServerError(\"Template parsing error\"))",
        );
        buf.writeln("}");
        buf.writeln("}");
        assert(buf@ =~= old(buf)@ + responder_code(self.s.heading()));
    }
}

/// Generates the code for the template of `s`.
pub fn generate(s: &Struct, ctx: &Context, actix_web: bool) -> (r: String)
    requires
        ctx.wf(),
        refused(s.env(*ctx)) is None,
    ensures
        r@ == generated(s.env(*ctx), s.heading(), actix_web),
{
    let mut generator = Generator::new(s, ctx);
    proof {
        let env = s.env(*ctx);
        assert(start(env).spaces() == spaces_at_start());
        lemma_nodes_ready(env, env.templates[env.root], start(env), env.templates.dom().len());
    }
    generator.build(actix_web)
}

/// Generates the code for the template of `s`, or says why there is none.
pub fn try_generate(s: &Struct, ctx: &Context, actix_web: bool) -> (r: Result<String, Refusal>)
    requires
        ctx.wf(),
    ensures
        match refused(s.env(*ctx)) {
            Some(why) => r == Err::<String, Refusal>(why),
            None => r matches Ok(code) && code@ == generated(s.env(*ctx), s.heading(), actix_web),
        },
{
    match check(s, ctx) {
        Some(why) => Err(why),
        None => Ok(generate(s, ctx, actix_web)),
    }
}

/// Text is encoded character by character.
proof fn lemma_encode_concat(a: Seq<char>, b: Seq<char>)
    ensures
        encode_utf8(a + b) == encode_utf8(a) + encode_utf8(b),
    decreases a.len(),
{
    if a.len() == 0 {
        assert(a + b =~= b);
        assert(encode_utf8(a) =~= Seq::<u8>::empty());
    } else {
        assert((a + b).drop_first() =~= a.drop_first() + b);
        lemma_encode_concat(a.drop_first(), b);
        assert((a + b)[0] == a[0]);
        assert(encode_utf8(a + b) =~= encode_utf8(a) + encode_utf8(b));
    }
}

/// The names in the scope of the loop at `id`.
fn loop_names(id: usize, counted: bool) -> (r: Vec<String>)
    ensures
        texts(r@) == loop_scope(id as nat, counted),
{
    let mut names: Vec<String> = Vec::new();
    let mut key = "_key_".to_owned();
    key.append(decimal_string(id).as_str());
    names.push(key);
    if counted {
        let mut index = "_index_".to_owned();
        index.append(decimal_string(id).as_str());
        names.push(index);
    }
    assert(texts(names@) =~= loop_scope(id as nat, counted));
    names
}

/// The line that opens the loop at `id` over `code`.
fn loop_line(id: usize, counted: bool, range: bool, code: &str) -> (r: String)
    ensures
        r@ == loop_head(id as nat, counted, range, code@),
{
    let number = decimal_string(id);
    let mut r = "for ".to_owned();
    if counted {
        r = "for (".to_owned();
        r.append("_index_");
        r.append(number.as_str());
        r.append(", ");
        r.append("_key_");
        r.append(number.as_str());
        if range {
            r.append(") in (");
            r.append(code);
            r.append(").enumerate() {");
        } else {
            r.append(") in (&");
            r.append(code);
            r.append(").into_iter().enumerate() {");
        }
    } else {
        r.append("_key_");
        r.append(number.as_str());
        if range {
            r.append(" in ");
            r.append(code);
            r.append(" {");
        } else {
            r.append(" in (&");
            r.append(code);
            r.append(").into_iter() {");
        }
    }
    assert(r@ =~= loop_head(id as nat, counted, range, code@));
    r
}

} // verus!
