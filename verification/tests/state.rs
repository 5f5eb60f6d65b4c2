use wearte_derive::buffer::Buffer;
use wearte_derive::derive::{EscapeMode, Struct};
use wearte_derive::expr::{ExprKind, Expression, Piece};
use wearte_derive::generator::{write_literal_line, Generator, On, Writable};
use wearte_derive::node::{Context, Helper, Node, Ws};
use wearte_derive::path::TemplatePath;

fn page() -> Struct {
    Struct {
        path: TemplatePath::parse("index.html"),
        escaping: EscapeMode::Html,
        generics: "impl".to_string(),
        target: "Page".to_string(),
    }
}

fn strings(names: Vec<&str>) -> Vec<String> {
    names.iter().map(|n| n.to_string()).collect()
}

fn value(ident: &str) -> Node {
    Node::Safe(
        Ws(false, false),
        Expression { kind: ExprKind::Path, pieces: vec![Piece::Name(ident.to_string())] },
    )
}

fn lit(l: &str, s: &str, r: &str) -> Node {
    Node::Lit(l.to_string(), s.to_string(), r.to_string())
}

fn tag(before: bool, after: bool) -> Node {
    Node::Safe(
        Ws(before, after),
        Expression { kind: ExprKind::Path, pieces: vec![Piece::Text("x".to_string())] },
    )
}

fn written(nodes: Vec<Node>) -> String {
    let s = page();
    let ctx = Context::new();
    let mut buf = Buffer::new();
    Generator::new(&s, &ctx).handle(&nodes, &mut buf);
    buf.buf
}

fn pending(g: &Generator) -> Vec<String> {
    g.buf_w
        .iter()
        .map(|w| match w {
            Writable::Lit(s) => format!("lit {}", s),
            Writable::Expr(s, safe) => format!("expr {} {}", s, safe),
        })
        .collect()
}

fn resolve(scp: Vec<Vec<&str>>, on: Vec<On>, ident: &str) -> (String, bool) {
    let s = page();
    let ctx = Context::new();
    let mut g = Generator::new(&s, &ctx);
    g.scp = scp.into_iter().map(strings).collect();
    g.on = on;
    g.wrapped = false;
    g.write_single_path(ident);
    (g.buf_t, g.wrapped)
}

#[test]
fn new_generator() {
    let s = page();
    let ctx = Context::new();
    let g = Generator::new(&s, &ctx);
    assert_eq!(g.scp, vec![strings(vec!["self"])]);
    assert!(g.on.is_empty());
    assert!(g.buf_w.is_empty());
    assert_eq!(g.buf_t, "");
    assert_eq!(g.next_ws, None);
    assert!(!g.skip_ws);
    assert!(g.wrapped);
    assert_eq!(g.size_hint, 0);
    assert!(g.on_path.same(&s.path));
}

#[test]
fn text_between_tags() {
    let s = page();
    let ctx = Context::new();
    let mut g = Generator::new(&s, &ctx);
    g.visit_lit(" ", "a", "\n");
    assert_eq!(pending(&g), vec!["lit  ", "lit a"]);
    assert_eq!(g.next_ws, Some("\n"));
    g.flush_ws(&Ws(false, true));
    assert_eq!(pending(&g), vec!["lit  ", "lit a", "lit \n"]);
    assert_eq!(g.next_ws, None);
    assert!(!g.skip_ws);
    g.prepare_ws(&Ws(false, true));
    assert!(g.skip_ws);
    g.visit_lit("", "b", "");
    assert!(g.skip_ws);
    g.visit_lit(" ", "c", "");
    assert!(!g.skip_ws);
    assert_eq!(pending(&g), vec!["lit  ", "lit a", "lit \n", "lit b", "lit c"]);
}

#[test]
fn whitespace_alone_waits_for_the_next_tag() {
    let s = page();
    let ctx = Context::new();
    let mut g = Generator::new(&s, &ctx);
    g.visit_lit(" ", "", "");
    assert_eq!(g.next_ws, Some(" "));
    assert!(g.buf_w.is_empty());
    g.handle_ws(&Ws(true, false));
    assert_eq!(g.next_ws, None);
    assert!(g.buf_w.is_empty());
    g.visit_lit(" ", "", "");
    g.handle_ws(&Ws(false, false));
    assert_eq!(pending(&g), vec!["lit  "]);
    g.visit_lit(" ", "", "");
    g.skip_ws();
    assert_eq!(g.next_ws, None);
    assert!(g.skip_ws);
    g.visit_lit(" ", "", "");
    assert_eq!(g.next_ws, None);
    assert!(!g.skip_ws);
}

#[test]
fn whitespace_is_kept_without_suppression() {
    assert_eq!(
        written(vec![lit("", "a", " "), tag(false, false), lit("\n", "b", "")]),
        "_fmt.write_str(\"a \")?;\n(x).fmt(_fmt)?;\n_fmt.write_str(\"\\nb\")?;\n"
    );
}

#[test]
fn whitespace_before_a_tag_is_suppressed() {
    let with = written(vec![lit("", "a", " "), tag(true, false), lit(" ", "b", "")]);
    assert_eq!(with, "_fmt.write_str(\"a\")?;\n(x).fmt(_fmt)?;\n_fmt.write_str(\" b\")?;\n");
    assert_eq!(with, written(vec![lit("", "a", ""), tag(true, false), lit(" ", "b", "")]));
}

#[test]
fn whitespace_after_a_tag_is_suppressed() {
    let with = written(vec![lit("", "a", " "), tag(false, true), lit(" ", "b", "")]);
    assert_eq!(with, "_fmt.write_str(\"a \")?;\n(x).fmt(_fmt)?;\n_fmt.write_str(\"b\")?;\n");
    assert_eq!(with, written(vec![lit("", "a", " "), tag(false, false), lit("", "b", "")]));
}

#[test]
fn whitespace_at_the_end_is_dropped() {
    assert_eq!(written(vec![lit("", "a", "\n")]), "_fmt.write_str(\"a\")?;\n");
}

#[test]
fn comments_take_the_whitespace_around_them() {
    let comment = Node::Comment("c".to_string());
    assert_eq!(
        written(vec![lit("", "a", " "), comment, lit(" ", "b", "")]),
        "_fmt.write_str(\"ab\")?;\n"
    );
}

#[test]
fn whitespace_of_block_tags() {
    let block = |open: Ws, close: Ws| {
        let args = Expression { kind: ExprKind::Path, pieces: vec![Piece::Text("c".to_string())] };
        Node::Helper(Helper::If(((open, close), args, vec![lit(" ", "b", " ")]), vec![], None))
    };
    assert_eq!(
        written(vec![
            lit("", "a", " "),
            block(Ws(false, false), Ws(false, false)),
            lit(" ", "d", ""),
        ]),
        "_fmt.write_str(\"a \")?;\nif c {\n_fmt.write_str(\" b\")?;\n\
         _fmt.write_str(\" \")?;\n}\n_fmt.write_str(\" d\")?;\n"
    );
    assert_eq!(
        written(vec![lit("", "a", " "), block(Ws(true, true), Ws(true, true)), lit(" ", "d", "")]),
        "_fmt.write_str(\"a\")?;\nif c {\n_fmt.write_str(\"b\")?;\n}\n_fmt.write_str(\"d\")?;\n"
    );
}

#[test]
fn nodes_in_turn() {
    let block = || {
        let args = Expression { kind: ExprKind::Path, pieces: vec![Piece::Name("a".to_string())] };
        let ws = (Ws(false, false), Ws(false, true));
        Node::Helper(Helper::Each(ws, args, vec![lit(" ", "b", " "), value("key")]))
    };
    let s = page();
    let ctx = Context::new();
    let first = vec![block(), block()];
    let second = vec![block(), lit(" ", "c", "")];
    let all = vec![block(), block(), block(), lit(" ", "c", "")];
    let mut g = Generator::new(&s, &ctx);
    let mut buf = Buffer::new();
    g.handle(&first, &mut buf);
    g.handle(&second, &mut buf);
    assert_eq!(buf.buf, written(all));
}

#[test]
fn names_outside_of_blocks() {
    assert_eq!(resolve(vec![vec!["self"]], vec![], "self"), ("self".to_string(), false));
    assert_eq!(resolve(vec![vec!["self"]], vec![], "a"), ("self.a".to_string(), false));
    assert_eq!(resolve(vec![vec!["self"]], vec![], "index"), ("self.index".to_string(), false));
    assert_eq!(resolve(vec![vec!["self", "a"]], vec![], "a"), ("a".to_string(), false));
}

#[test]
fn names_in_a_loop() {
    let scp = || vec![vec!["self"], vec!["_key_1", "_index_1"]];
    let on = || vec![On::Each(1)];
    let code = |ident: &str| resolve(scp(), on(), ident);
    assert_eq!(code("index0"), ("_index_1".to_string(), true));
    assert_eq!(code("index"), ("(_index_1 + 1)".to_string(), true));
    assert_eq!(code("first"), ("(_index_1 == 0)".to_string(), true));
    assert_eq!(code("last"), ("((_key_1).len() == (_index_1 + 1))".to_string(), true));
    assert_eq!(code("key"), ("_key_1".to_string(), false));
    assert_eq!(code("a"), ("_key_1.a".to_string(), false));
    assert_eq!(code("self"), ("self".to_string(), false));
    assert_eq!(code("_key_1"), ("_key_1".to_string(), false));
}

#[test]
fn names_that_need_no_frame() {
    let on = || vec![On::Each(7), On::With(9)];
    assert_eq!(resolve(vec![vec!["self"]], on(), "self"), ("self".to_string(), false));
    assert_eq!(resolve(vec![vec!["index"]], on(), "index"), ("index".to_string(), false));
    let scp = vec![vec!["self"], vec!["_key_1"]];
    let on = vec![On::Each(1), On::With(9)];
    assert_eq!(resolve(scp, on, "key"), ("_key_1".to_string(), false));
}

#[test]
fn bound_words_need_no_counter() {
    let s = page();
    let ctx = Context::new();
    let mut g = Generator::new(&s, &ctx);
    g.scp = vec![strings(vec!["self", "index"]), strings(vec!["_key_1"])];
    g.on = vec![On::Each(1)];
    let mut buf = Buffer::new();
    let nodes = vec![value("index"), value("key")];
    g.handle(&nodes, &mut buf);
    assert_eq!(pending(&g), vec!["expr index true", "expr _key_1 true"]);
}

#[test]
fn literals_are_written_as_they_are() {
    let s = page();
    let ctx = Context::new();
    let mut g = Generator::new(&s, &ctx);
    let mut buf = Buffer::new();
    write_literal_line(&mut buf, "LITERAL");
    assert_eq!(buf.buf, "_fmt.write_str(LITERAL)?;\n");
    g.size_hint = 7;
    let mut buf = Buffer::new();
    g.write_template(&mut buf, "LITERAL");
    assert_eq!(
        buf.buf,
        "impl ::wearte::Template for Page {\n\
         fn mime() -> &'static str {\nLITERAL\n}\n\
         fn size_hint() -> usize {\n7\n}\n}\n"
    );
}

#[test]
fn names_in_nested_blocks() {
    let scp = || vec![vec!["self"], vec!["_key_1", "_index_1"], vec!["_key_1.b"]];
    let inner = |ident: &str| resolve(scp(), vec![On::Each(1), On::With(2)], ident);
    assert_eq!(inner("a"), ("_key_1.b.a".to_string(), false));
    assert_eq!(inner("index"), ("(_index_1 + 1)".to_string(), true));
    assert_eq!(inner("key"), ("_key_1".to_string(), false));
    let outer = resolve(vec![vec!["self"], vec!["self.b"]], vec![On::With(1)], "index");
    assert_eq!(outer, ("self.b.index".to_string(), false));
}

#[test]
fn pending_is_written_and_emptied() {
    let s = page();
    let ctx = Context::new();
    let mut g = Generator::new(&s, &ctx);
    let mut buf = Buffer::new();
    g.write_buf_writable(&mut buf);
    assert_eq!(buf.buf, "");
    g.buf_w = vec![
        Writable::Lit("a"),
        Writable::Lit("b"),
        Writable::Expr("x".to_string(), true),
        Writable::Expr("y".to_string(), false),
        Writable::Lit("c"),
    ];
    g.write_buf_writable(&mut buf);
    assert!(g.buf_w.is_empty());
    assert_eq!(
        buf.buf,
        "_fmt.write_str(\"ab\")?;\n(x).fmt(_fmt)?;\n\
         (::wearte::MarkupAsStr::from(&y)).fmt(_fmt)?;\n_fmt.write_str(\"c\")?;\n"
    );
}
