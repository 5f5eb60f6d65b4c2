use wearte_derive::check::{check, Refusal};
use wearte_derive::derive::{EscapeMode, Struct};
use wearte_derive::expr::{ExprKind, Expression, Piece, Statement};
use wearte_derive::generator::{generate, try_generate, Generator};
use wearte_derive::node::{Context, Helper, Node, Ws};
use wearte_derive::path::TemplatePath;

const W: Ws = Ws(false, false);

fn name(ident: &str) -> Expression {
    Expression { kind: ExprKind::Path, pieces: vec![Piece::Name(ident.to_string())] }
}

fn code(kind: ExprKind, text: &str) -> Expression {
    Expression { kind, pieces: vec![Piece::Text(text.to_string())] }
}

fn value(ident: &str) -> Node {
    Node::Expr(W, name(ident))
}

fn text(s: &str) -> Node {
    Node::Lit(String::new(), s.to_string(), String::new())
}

fn bind(ident: &str, from: &str) -> Node {
    Node::Let(Statement {
        pieces: vec![
            Piece::Text("let ".to_string()),
            Piece::Declare(ident.to_string()),
            Piece::Text(format!("{} = ", ident)),
            Piece::Name(from.to_string()),
            Piece::Text(";".to_string()),
        ],
    })
}

fn each(args: Expression, nodes: Vec<Node>) -> Node {
    Node::Helper(Helper::Each((W, W), args, nodes))
}

fn partial(name: &str) -> Node {
    Node::Partial(W, TemplatePath::parse(name))
}

fn page(path: &str, escaping: EscapeMode) -> Struct {
    Struct {
        path: TemplatePath::parse(path),
        escaping,
        generics: "impl".to_string(),
        target: "Page".to_string(),
    }
}

fn site(templates: Vec<(&str, Vec<Node>)>) -> Context {
    let mut ctx = Context::new();
    for (path, nodes) in templates {
        ctx.insert(TemplatePath::parse(path), nodes);
    }
    ctx
}

fn body_of(s: &Struct, ctx: &Context) -> String {
    let all = try_generate(s, ctx, false).unwrap();
    let start = "impl ::std::fmt::Display for Page {\n\
                 fn fmt(&self, _fmt: &mut ::std::fmt::Formatter) -> ::std::fmt::Result {\n";
    assert!(all.starts_with(start));
    let rest = &all[start.len()..];
    let end = rest.find("Ok(())\n}\n}\nimpl ::wearte::Template for Page {\n").unwrap();
    rest[..end].to_string()
}

fn body(nodes: Vec<Node>) -> String {
    body_of(&page("index.html", EscapeMode::Html), &site(vec![("index.html", nodes)]))
}

fn refusal(nodes: Vec<Node>) -> Refusal {
    let s = page("index.html", EscapeMode::Html);
    try_generate(&s, &site(vec![("index.html", nodes)]), false).unwrap_err()
}

#[test]
fn whole_code() {
    let s = page("views/index.html", EscapeMode::Html);
    let nodes = vec![
        Node::Lit(String::new(), "Hello,".to_string(), " ".to_string()),
        value("name"),
    ];
    let ctx = site(vec![("views/index.html", nodes)]);
    assert_eq!(
        generate(&s, &ctx, false),
        "impl ::std::fmt::Display for Page {\n\
         fn fmt(&self, _fmt: &mut ::std::fmt::Formatter) -> ::std::fmt::Result {\n\
         _fmt.write_str(\"Hello, \")?;\n\
         (::wearte::MarkupAsStr::from(&self.name)).fmt(_fmt)?;\n\
         Ok(())\n\
         }\n\
         }\n\
         impl ::wearte::Template for Page {\n\
         fn mime() -> &'static str {\n\
         \"text/html\"\n\
         }\n\
         fn size_hint() -> usize {\n\
         82\n\
         }\n\
         }\n"
    );
}

#[test]
fn empty_template() {
    let s = page("a.txt", EscapeMode::Plain);
    let ctx = site(vec![("a.txt", vec![])]);
    assert_eq!(
        try_generate(&s, &ctx, false),
        Ok("impl ::std::fmt::Display for Page {\n\
            fn fmt(&self, _fmt: &mut ::std::fmt::Formatter) -> ::std::fmt::Result {\n\
            Ok(())\n}\n}\n\
            impl ::wearte::Template for Page {\n\
            fn mime() -> &'static str {\n\"text/plain\"\n}\n\
            fn size_hint() -> usize {\n0\n}\n}\n"
            .to_string())
    );
}

#[test]
fn responder_is_added_on_demand() {
    let s = page("a.html", EscapeMode::Html);
    let ctx = site(vec![("a.html", vec![text("x")])]);
    let without = generate(&s, &ctx, false);
    let with = generate(&s, &ctx, true);
    assert!(with.starts_with(&without));
    assert_eq!(
        &with[without.len()..],
        "impl ::wearte::actix_web::Responder for Page {\n\
         type Item = ::wearte::actix_web::HttpResponse;\n\
         type Error = ::wearte::actix_web::Error;\n\
         fn respond_to<S>(self, _req: &::wearte::actix_web::HttpRequest<S>) \
         -> ::std::result::Result<Self::Item, Self::Error> {\n\
         self.call()\n                \
         .map(|s| Self::Item::Ok().content_type(Self::mime()).body(s))\n                \
         .map_err(|_| ::wearte::actix_web::ErrorInternalServerError(\"Template parsing error\"))\n\
         }\n\
         }\n"
    );
}

#[test]
fn size_hint_counts_bytes() {
    let s = page("a.html", EscapeMode::Html);
    let ctx = site(vec![("a.html", vec![text("é")])]);
    let all = generate(&s, &ctx, false);
    assert!(all.contains("_fmt.write_str(\"é\")?;\n"));
    assert!(all.contains("fn size_hint() -> usize {\n23\n}\n"));
}

#[test]
fn generic_types_keep_their_parameters() {
    let s = Struct {
        path: TemplatePath::parse("a.html"),
        escaping: EscapeMode::Html,
        generics: "impl<'a, T>".to_string(),
        target: "Page<'a, T> where T: Copy".to_string(),
    };
    assert_eq!(
        s.implement_head("::wearte::Template"),
        "impl<'a, T> ::wearte::Template for Page<'a, T> where T: Copy {"
    );
}

#[test]
fn text_is_quoted() {
    assert_eq!(
        body(vec![text("say \"hi\"\n\t\\")]),
        "_fmt.write_str(\"say \\\"hi\\\"\\n\\t\\\\\")?;\n"
    );
}

#[test]
fn adjacent_texts_share_a_line() {
    let two = body(vec![text("a"), text("b"), value("x"), text("c"), text("d")]);
    let one = body(vec![text("ab"), value("x"), text("cd")]);
    assert_eq!(two, one);
    assert_eq!(
        two,
        "_fmt.write_str(\"ab\")?;\n\
         (::wearte::MarkupAsStr::from(&self.x)).fmt(_fmt)?;\n\
         _fmt.write_str(\"cd\")?;\n"
    );
}

#[test]
fn no_empty_text_is_written() {
    assert_eq!(body(vec![text(""), text("")]), "");
    assert_eq!(
        body(vec![text(""), Node::Safe(W, name("x")), text("")]),
        "(self.x).fmt(_fmt)?;\n"
    );
}

#[test]
fn safe_expressions_are_not_escaped() {
    assert_eq!(body(vec![Node::Safe(W, name("x"))]), "(self.x).fmt(_fmt)?;\n");
}

#[test]
fn plain_mode_does_not_escape() {
    let s = page("a.txt", EscapeMode::Plain);
    let ctx = site(vec![("a.txt", vec![value("x"), Node::Safe(W, name("y"))])]);
    assert_eq!(body_of(&s, &ctx), "(self.x).fmt(_fmt)?;\n(self.y).fmt(_fmt)?;\n");
}

#[test]
fn wrapped_expressions_are_not_escaped() {
    let args = Expression {
        kind: ExprKind::Lit,
        pieces: vec![Piece::Wrap, Piece::Text("1".to_string())],
    };
    assert_eq!(
        body(vec![Node::Expr(W, args), value("x")]),
        "(1).fmt(_fmt)?;\n(::wearte::MarkupAsStr::from(&self.x)).fmt(_fmt)?;\n"
    );
}

#[test]
fn loop_over_values() {
    assert_eq!(
        body(vec![each(name("items"), vec![value("key"), text("-"), value("title")])]),
        "for _key_1 in (&self.items).into_iter() {\n\
         (::wearte::MarkupAsStr::from(&_key_1)).fmt(_fmt)?;\n\
         _fmt.write_str(\"-\")?;\n\
         (::wearte::MarkupAsStr::from(&_key_1.title)).fmt(_fmt)?;\n\
         }\n"
    );
}

#[test]
fn loop_with_a_counter() {
    assert_eq!(
        body(vec![each(
            name("items"),
            vec![value("index0"), value("index"), value("first"), value("last")]
        )]),
        "for (_index_1, _key_1) in (&self.items).into_iter().enumerate() {\n\
         (_index_1).fmt(_fmt)?;\n\
         ((_index_1 + 1)).fmt(_fmt)?;\n\
         ((_index_1 == 0)).fmt(_fmt)?;\n\
         (((_key_1).len() == (_index_1 + 1))).fmt(_fmt)?;\n\
         }\n"
    );
}

#[test]
fn loop_over_a_range() {
    assert_eq!(
        body(vec![each(code(ExprKind::Range, "0..3"), vec![text("x")])]),
        "for _key_1 in 0..3 {\n_fmt.write_str(\"x\")?;\n}\n"
    );
    assert_eq!(
        body(vec![each(code(ExprKind::Range, "0..3"), vec![value("index")])]),
        "for (_index_1, _key_1) in (0..3).enumerate() {\n((_index_1 + 1)).fmt(_fmt)?;\n}\n"
    );
}

#[test]
fn nested_loops_have_names_of_their_own() {
    assert_eq!(
        body(vec![each(name("rows"), vec![each(name("cells"), vec![value("index")])])]),
        "for _key_1 in (&self.rows).into_iter() {\n\
         for (_index_2, _key_2) in (&_key_1.cells).into_iter().enumerate() {\n\
         ((_index_2 + 1)).fmt(_fmt)?;\n\
         }\n\
         }\n"
    );
}

#[test]
fn argument_of_an_inner_loop_may_name_the_outer_counter() {
    assert_eq!(
        body(vec![each(name("rows"), vec![each(name("index0"), vec![value("key")])])]),
        "for (_index_1, _key_1) in (&self.rows).into_iter().enumerate() {\n\
         for _key_2 in (&_index_1).into_iter() {\n\
         (::wearte::MarkupAsStr::from(&_key_2)).fmt(_fmt)?;\n\
         }\n\
         }\n"
    );
}

#[test]
fn counter_is_found_in_inner_blocks() {
    let first = || name("first");
    let in_if = Node::Helper(Helper::If(((W, W), first(), vec![text("a")]), vec![], None));
    let in_else_if = Node::Helper(Helper::If(
        ((W, W), name("a"), vec![]),
        vec![(W, first(), vec![])],
        None,
    ));
    let in_else = Node::Helper(Helper::If(
        ((W, W), name("a"), vec![]),
        vec![],
        Some((W, vec![value("last")])),
    ));
    let in_with = Node::Helper(Helper::With((W, W), name("a"), vec![value("index")]));
    let in_unless = Node::Helper(Helper::Unless((W, W), first(), vec![]));
    let in_let = bind("n", "index");
    for n in vec![in_if, in_else_if, in_else, in_with, in_unless, in_let] {
        let code = body(vec![each(name("items"), vec![n])]);
        assert!(code.starts_with("for (_index_1, _key_1) in "));
    }
}

#[test]
fn if_else_if_else() {
    let h = Helper::If(
        ((W, W), name("a"), vec![text("A")]),
        vec![(W, name("b"), vec![text("B")]), (W, name("c"), vec![])],
        Some((W, vec![text("D")])),
    );
    assert_eq!(
        body(vec![text("<"), Node::Helper(h), text(">")]),
        "_fmt.write_str(\"<\")?;\n\
         if self.a {\n\
         _fmt.write_str(\"A\")?;\n\
         } else if self.b {\n\
         _fmt.write_str(\"B\")?;\n\
         } else if self.c {\n\
         } else {\n\
         _fmt.write_str(\"D\")?;\n\
         }\n\
         _fmt.write_str(\">\")?;\n"
    );
}

#[test]
fn if_inside_of_a_loop() {
    let h = Helper::If(
        ((W, W), name("a"), vec![text("A")]),
        vec![(W, name("b"), vec![text("B")])],
        Some((W, vec![text("C")])),
    );
    assert_eq!(
        body(vec![each(name("items"), vec![text("<"), Node::Helper(h), text(">")])]),
        "for _key_1 in (&self.items).into_iter() {\n\
         _fmt.write_str(\"<\")?;\n\
         if _key_1.a {\n\
         _fmt.write_str(\"A\")?;\n\
         } else if _key_1.b {\n\
         _fmt.write_str(\"B\")?;\n\
         } else {\n\
         _fmt.write_str(\"C\")?;\n\
         }\n\
         _fmt.write_str(\">\")?;\n\
         }\n"
    );
}

#[test]
fn unless_negates() {
    let h = Helper::Unless((W, W), name("a"), vec![text("A")]);
    assert_eq!(
        body(vec![Node::Helper(h)]),
        "if !(self.a) {\n_fmt.write_str(\"A\")?;\n}\n"
    );
}

#[test]
fn unless_is_if_apart_from_its_first_line() {
    let inner = || vec![text("A"), each(name("b"), vec![value("index")]), value("c")];
    let unless = Helper::Unless((W, W), name("a"), inner());
    let plain = Helper::If(((W, W), name("a"), inner()), vec![], None);
    let unless = body(vec![text("<"), Node::Helper(unless), text(">")]);
    let plain = body(vec![text("<"), Node::Helper(plain), text(">")]);
    assert_eq!(unless.replace("if !(self.a) {", "if self.a {"), plain);
    assert_ne!(unless, plain);
}

#[test]
fn loops_inside_have_greater_numbers() {
    let s = page("i.html", EscapeMode::Html);
    let inner = Helper::With((W, W), name("b"), vec![partial("p")]);
    let middle = Helper::If(((W, W), name("a"), vec![Node::Helper(inner)]), vec![], None);
    let ctx = site(vec![
        ("i.html", vec![each(name("x"), vec![Node::Helper(middle), each(name("y"), vec![])])]),
        ("p.html", vec![each(name("z"), vec![])]),
    ]);
    assert_eq!(
        body_of(&s, &ctx),
        "for _key_1 in (&self.x).into_iter() {\n\
         if _key_1.a {\n\
         for _key_5 in (&_key_1.b.z).into_iter() {\n\
         }\n\
         }\n\
         for _key_2 in (&_key_1.y).into_iter() {\n\
         }\n\
         }\n"
    );
}

#[test]
fn with_changes_the_owner() {
    let h = Helper::With((W, W), name("user"), vec![value("name"), value("index"), value("self")]);
    assert_eq!(
        body(vec![Node::Helper(h), value("name")]),
        "(::wearte::MarkupAsStr::from(&self.user.name)).fmt(_fmt)?;\n\
         (::wearte::MarkupAsStr::from(&self.user.index)).fmt(_fmt)?;\n\
         (::wearte::MarkupAsStr::from(&self)).fmt(_fmt)?;\n\
         (::wearte::MarkupAsStr::from(&self.name)).fmt(_fmt)?;\n"
    );
}

#[test]
fn with_inside_of_a_loop_keeps_the_loop_variables() {
    let h = Helper::With((W, W), name("user"), vec![value("index"), value("name"), value("key")]);
    assert_eq!(
        body(vec![each(name("items"), vec![Node::Helper(h), value("name")])]),
        "for (_index_1, _key_1) in (&self.items).into_iter().enumerate() {\n\
         ((_index_1 + 1)).fmt(_fmt)?;\n\
         (::wearte::MarkupAsStr::from(&_key_1.user.name)).fmt(_fmt)?;\n\
         (::wearte::MarkupAsStr::from(&_key_1)).fmt(_fmt)?;\n\
         (::wearte::MarkupAsStr::from(&_key_1.name)).fmt(_fmt)?;\n\
         }\n"
    );
}

#[test]
fn let_binds_for_what_follows() {
    assert_eq!(
        body(vec![value("x"), bind("x", "y"), value("x"), value("y")]),
        "(::wearte::MarkupAsStr::from(&self.x)).fmt(_fmt)?;\n\
         let x = self.y;\n\
         (::wearte::MarkupAsStr::from(&x)).fmt(_fmt)?;\n\
         (::wearte::MarkupAsStr::from(&self.y)).fmt(_fmt)?;\n"
    );
}

#[test]
fn names_end_with_their_block() {
    let inner = || vec![bind("x", "y"), Node::Safe(W, name("x"))];
    let blocks = vec![
        Node::Helper(Helper::If(((W, W), name("a"), inner()), vec![], None)),
        Node::Helper(Helper::If(
            ((W, W), name("a"), vec![]),
            vec![(W, name("b"), inner())],
            None,
        )),
        Node::Helper(Helper::If(((W, W), name("a"), vec![]), vec![], Some((W, inner())))),
        Node::Helper(Helper::Unless((W, W), name("a"), inner())),
        Node::Helper(Helper::With((W, W), name("a"), inner())),
        each(name("a"), inner()),
    ];
    for block in blocks {
        let code = body(vec![block, Node::Safe(W, name("x"))]);
        assert!(code.contains("(x).fmt(_fmt)?;\n"));
        assert!(code.ends_with("(self.x).fmt(_fmt)?;\n"));
    }
}

#[test]
fn names_bound_in_a_condition_end_with_the_block() {
    let cond = Expression {
        kind: ExprKind::Other,
        pieces: vec![
            Piece::Text("let Some(x) = ".to_string()),
            Piece::Name("y".to_string()),
            Piece::Declare("x".to_string()),
        ],
    };
    let h = Helper::If(((W, W), cond, vec![Node::Safe(W, name("x"))]), vec![], None);
    assert_eq!(
        body(vec![Node::Helper(h), Node::Safe(W, name("x"))]),
        "if let Some(x) = self.y {\n(x).fmt(_fmt)?;\n}\n(self.x).fmt(_fmt)?;\n"
    );
}

#[test]
fn bound_names_hide_loop_variables() {
    assert_eq!(
        body(vec![each(name("a"), vec![bind("index", "b"), Node::Safe(W, name("index"))])]),
        "for (_index_1, _key_1) in (&self.a).into_iter().enumerate() {\n\
         let index = _key_1.b;\n\
         (index).fmt(_fmt)?;\n\
         }\n"
    );
}

#[test]
fn partials_take_the_place_of_their_template() {
    let s = page("dir/index.html", EscapeMode::Html);
    let ctx = site(vec![
        ("dir/index.html", vec![text("<"), partial("sub/a"), text(">")]),
        ("dir/sub/a.html", vec![text("a"), partial("b.txt")]),
        ("dir/sub/b.txt", vec![value("x"), partial("/c")]),
        ("/c.html", vec![text("c"), partial("../d")]),
        ("/../d.html", vec![text("d")]),
    ]);
    assert_eq!(
        body_of(&s, &ctx),
        "_fmt.write_str(\"<a\")?;\n\
         (::wearte::MarkupAsStr::from(&self.x)).fmt(_fmt)?;\n\
         _fmt.write_str(\"cd\")?;\n\
         _fmt.write_str(\">\")?;\n"
    );
}

#[test]
fn partials_do_not_leak_names() {
    let s = page("i.html", EscapeMode::Html);
    let part = || partial("p");
    let ctx = site(vec![
        ("i.html", vec![bind("z", "y"), part(), Node::Safe(W, name("x"))]),
        ("p.html", vec![bind("x", "z")]),
    ]);
    assert_eq!(
        body_of(&s, &ctx),
        "let z = self.y;\nlet x = z;\n(self.x).fmt(_fmt)?;\n"
    );
}

#[test]
fn partials_in_a_loop_are_on_the_item() {
    let s = page("i.html", EscapeMode::Html);
    let part = || partial("p");
    let ctx = site(vec![
        ("i.html", vec![each(name("items"), vec![part()])]),
        ("p.html", vec![Node::Safe(W, name("x")), value("index0")]),
    ]);
    assert_eq!(
        body_of(&s, &ctx),
        "for (_index_1, _key_1) in (&self.items).into_iter().enumerate() {\n\
         (_key_1.x).fmt(_fmt)?;\n\
         (_index_1).fmt(_fmt)?;\n\
         }\n"
    );
}

#[test]
fn unused_templates_change_nothing() {
    let s = page("i.html", EscapeMode::Html);
    let used = || ("i.html", vec![each(name("a"), vec![value("index")]), text("x")]);
    let alone = site(vec![used()]);
    let among = site(vec![
        ("a.html", vec![partial("a")]),
        used(),
        ("b.html", vec![text("b")]),
    ]);
    assert_eq!(generate(&s, &alone, true), generate(&s, &among, true));
}

#[test]
fn refuses_missing_templates() {
    let s = page("i.html", EscapeMode::Html);
    let none = site(vec![("j.html", vec![])]);
    assert_eq!(check(&s, &none), Some(Refusal::TemplateNotFound));
    assert_eq!(try_generate(&s, &none, false), Err(Refusal::TemplateNotFound));
    assert_eq!(
        refusal(vec![partial("gone")]),
        Refusal::TemplateNotFound
    );
    assert_eq!(Refusal::TemplateNotFound.message(), "template not found");
}

#[test]
fn refuses_recursive_partials() {
    let part = |p: &str| partial(p);
    assert_eq!(refusal(vec![part("index")]), Refusal::RecursivePartial);
    let s = page("a.html", EscapeMode::Html);
    let cycle = site(vec![
        ("a.html", vec![part("b")]),
        ("b.html", vec![each(name("x"), vec![part("c")])]),
        ("c.html", vec![part("b")]),
    ]);
    assert_eq!(try_generate(&s, &cycle, false), Err(Refusal::RecursivePartial));
    assert_eq!(Refusal::RecursivePartial.message(), "recursive partial");
}

#[test]
fn accepts_partials_that_only_repeat() {
    let part = |p: &str| partial(p);
    let s = page("a.html", EscapeMode::Html);
    let ctx = site(vec![
        ("a.html", vec![part("b"), part("b"), part("c")]),
        ("b.html", vec![part("c")]),
        ("c.html", vec![text("c")]),
    ]);
    assert_eq!(
        body_of(&s, &ctx),
        "_fmt.write_str(\"c\")?;\n_fmt.write_str(\"c\")?;\n_fmt.write_str(\"c\")?;\n"
    );
}

#[test]
fn refuses_some_arguments_of_unless() {
    let unless = |kind| vec![Node::Helper(Helper::Unless((W, W), code(kind, "e"), vec![]))];
    assert_eq!(refusal(unless(ExprKind::Not)), Refusal::NegatedUnless);
    assert_eq!(refusal(unless(ExprKind::Range)), Refusal::UnlessArgument);
    assert_eq!(refusal(unless(ExprKind::Other)), Refusal::UnlessArgument);
    assert_eq!(
        Refusal::NegatedUnless.message(),
        "Unary negate operator in unless helper, use if helper instead"
    );
    assert_eq!(Refusal::UnlessArgument.message(), "unless helper not accept some arguments");
    for kind in vec![
        ExprKind::Binary,
        ExprKind::Call,
        ExprKind::MethodCall,
        ExprKind::Index,
        ExprKind::Field,
        ExprKind::Path,
        ExprKind::Paren,
        ExprKind::Macro,
        ExprKind::Lit,
        ExprKind::Try,
        ExprKind::Unary,
    ] {
        assert_eq!(body(unless(kind)), "if !(e) {\n}\n");
    }
}

#[test]
fn refuses_helpers_that_are_not_built_in() {
    let h = Helper::Defined((W, W), name("f"), name("x"), vec![]);
    assert_eq!(refusal(vec![text("a"), Node::Helper(h)]), Refusal::DefinedHelper);
    assert_eq!(Refusal::DefinedHelper.message(), "not implemented");
}

#[test]
fn refuses_unknown_media_types() {
    let s = page("a.nosuchext", EscapeMode::Html);
    let ctx = site(vec![("a.nosuchext", vec![])]);
    assert_eq!(try_generate(&s, &ctx, false), Err(Refusal::UnknownMime));
    let s = page("a.", EscapeMode::Html);
    let ctx = site(vec![("a.", vec![])]);
    assert_eq!(try_generate(&s, &ctx, false), Err(Refusal::UnknownMime));
    assert_eq!(Refusal::UnknownMime.message(), "valid mime ext");
}

#[test]
fn refuses_text_while_whitespace_waits() {
    let lit = |l: &str, s: &str, r: &str| {
        Node::Lit(l.to_string(), s.to_string(), r.to_string())
    };
    assert_eq!(
        refusal(vec![lit("", "a", " "), lit("", "b", "")]),
        Refusal::WaitingWhitespace
    );
    let s = page("i.html", EscapeMode::Html);
    let ends = |r: &str, last: Node| {
        let ctx = site(vec![
            ("i.html", vec![partial("p"), last]),
            ("p.html", vec![partial("q")]),
            ("q.html", vec![lit("", "q", r)]),
        ]);
        try_generate(&s, &ctx, false)
    };
    assert_eq!(ends("\n", text("a")), Err(Refusal::WaitingWhitespace));
    assert!(ends("", text("a")).is_ok());
    assert!(ends("\n", value("a")).is_ok());
    assert_eq!(
        Refusal::WaitingWhitespace.message(),
        "assertion failed: self.next_ws.is_none()"
    );
}

#[test]
fn refuses_whitespace_that_is_split() {
    let split = || Node::Lit(" ".to_string(), String::new(), "\n".to_string());
    assert_eq!(refusal(vec![split()]), Refusal::SplitWhitespace);
    assert_eq!(body(vec![Node::Comment(String::new()), split()]), "");
    assert_eq!(
        body(vec![Node::Safe(Ws(false, true), name("x")), split(), Node::Safe(W, name("y"))]),
        "(self.x).fmt(_fmt)?;\n_fmt.write_str(\"\\n\")?;\n(self.y).fmt(_fmt)?;\n"
    );
    assert_eq!(Refusal::SplitWhitespace.message(), "assertion failed: rws.is_empty()");
}

#[test]
fn blocks_decide_on_whitespace() {
    let lit = || Node::Lit(" ".to_string(), "a".to_string(), " ".to_string());
    let two = || vec![lit(), lit()];
    let blocks = vec![
        each(name("x"), two()),
        Node::Helper(Helper::If(((W, W), name("x"), two()), vec![], None)),
        Node::Helper(Helper::If(
            ((W, W), name("x"), vec![]),
            vec![(W, name("y"), two())],
            None,
        )),
        Node::Helper(Helper::If(((W, W), name("x"), vec![]), vec![], Some((W, two())))),
        Node::Helper(Helper::With((W, W), name("x"), two())),
        Node::Helper(Helper::Unless((W, W), name("x"), two())),
    ];
    for block in blocks {
        assert_eq!(refusal(vec![block]), Refusal::WaitingWhitespace);
    }
    let blocks = vec![
        each(name("x"), vec![lit()]),
        Node::Helper(Helper::If(
            ((W, W), name("x"), vec![lit()]),
            vec![(W, name("y"), vec![lit()])],
            Some((W, vec![lit()])),
        )),
        Node::Helper(Helper::With((W, W), name("x"), vec![lit()])),
        Node::Helper(Helper::Unless((W, W), name("x"), vec![lit()])),
    ];
    for block in blocks {
        assert!(!body(vec![lit(), block, lit()]).is_empty());
    }
}

#[test]
fn first_refusal_counts() {
    let gone = partial("gone");
    let defined = Node::Helper(Helper::Defined((W, W), name("f"), name("x"), vec![]));
    let not = Node::Helper(Helper::Unless((W, W), code(ExprKind::Not, "!e"), vec![defined]));
    assert_eq!(refusal(vec![not, gone]), Refusal::NegatedUnless);
    let s = page("a.nosuchext", EscapeMode::Html);
    let ctx = site(vec![("a.nosuchext", vec![partial("b")])]);
    assert_eq!(try_generate(&s, &ctx, false), Err(Refusal::TemplateNotFound));
}

#[test]
fn media_types() {
    let ctx = Context::new();
    for (path, mime) in vec![
        ("a.html", "text/html"),
        ("a.HtML", "text/html"),
        ("a.css", "text/css"),
        ("a.tar.json", "application/json"),
        ("a", "text/plain"),
        (".html", "text/plain"),
    ] {
        let s = page(path, EscapeMode::Html);
        assert_eq!(Generator::new(&s, &ctx).get_mime(), mime);
    }
}

#[test]
fn generator_ends_where_it_began() {
    let s = page("i.html", EscapeMode::Html);
    let part = || partial("d/p");
    let with = Helper::With((W, W), name("a"), vec![part(), text("b")]);
    let ctx = site(vec![
        ("i.html", vec![each(name("a"), vec![Node::Helper(with)]), text("c")]),
        ("d/p.html", vec![bind("x", "y"), text("p")]),
    ]);
    let mut g = Generator::new(&s, &ctx);
    let code = g.build(false);
    assert_eq!(code, generate(&s, &ctx, false));
    assert!(g.buf_w.is_empty());
    assert!(g.on.is_empty());
    assert_eq!(g.buf_t, "");
    assert!(g.on_path.same(&s.path));
    assert_eq!(g.scp, vec![vec!["self".to_string()]]);
    assert_eq!(g.size_hint, body_of(&s, &ctx).len());
}
