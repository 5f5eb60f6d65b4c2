use wearte_derive::buffer::Buffer;
use wearte_derive::check::{check_text, check_unless, Refusal};
use wearte_derive::expr::{ExprKind, Expression, Piece};
use wearte_derive::loops::needs_counter;
use wearte_derive::mime::extension_or_txt;
use wearte_derive::node::{Context, Node};
use wearte_derive::partials::partial_target;
use wearte_derive::path::{append_extension, Component, TemplatePath};
use wearte_derive::spaces::Spaces;
use wearte_derive::text::{decimal_string, same_text};

fn shown(path: &TemplatePath) -> Vec<String> {
    path.parts
        .iter()
        .map(|c| match c {
            Component::Prefix(s, _) => s.clone(),
            Component::RootDir => "/".to_string(),
            Component::CurDir => ".".to_string(),
            Component::ParentDir => "..".to_string(),
            Component::Normal(s) => s.clone(),
        })
        .collect()
}

fn parts(path: &str) -> Vec<String> {
    shown(&TemplatePath::parse(path))
}

fn with_extension(owner: &str, path: &str) -> Vec<String> {
    shown(&append_extension(&TemplatePath::parse(owner), &TemplatePath::parse(path)))
}

fn drive(verbatim: bool, rest: Vec<Component>) -> TemplatePath {
    let mut parts = vec![Component::Prefix("C:".to_string(), verbatim)];
    parts.extend(rest);
    TemplatePath { parts }
}

fn file(s: &str) -> Component {
    Component::Normal(s.to_string())
}

fn pushed(mut p: TemplatePath, q: Vec<Component>) -> Vec<Component> {
    p.push(TemplatePath { parts: q });
    p.parts
}

fn kind(code: &str) -> ExprKind {
    let e: syn::Expr = syn::parse_str(code).unwrap();
    Expression::new(&e, vec![]).kind
}

#[test]
fn decimal_numbers() {
    assert_eq!(decimal_string(0), "0");
    assert_eq!(decimal_string(7), "7");
    assert_eq!(decimal_string(10), "10");
    assert_eq!(decimal_string(1203456789), "1203456789");
    assert_eq!(decimal_string(usize::MAX), format!("{}", usize::MAX));
}

#[test]
fn decimal_numbers_are_distinct() {
    let all: Vec<String> = (0..200).map(decimal_string).collect();
    for (i, a) in all.iter().enumerate() {
        for (j, b) in all.iter().enumerate() {
            assert_eq!(a == b, i == j);
        }
    }
}

#[test]
fn texts_are_compared() {
    assert!(same_text("", ""));
    assert!(same_text("aé", "aé"));
    assert!(!same_text("a", "ab"));
    assert!(!same_text("a", "A"));
}

#[test]
fn buffer_appends_lines() {
    let mut buf = Buffer::new();
    assert_eq!(buf.buf, "");
    buf.writeln("a {");
    buf.writeln("");
    buf.writeln("}");
    assert_eq!(buf.buf, "a {\n\n}\n");
}

#[test]
fn paths_are_parsed() {
    assert_eq!(parts(""), Vec::<String>::new());
    assert_eq!(parts("a"), vec!["a"]);
    assert_eq!(parts("a/b.html"), vec!["a", "b.html"]);
    assert_eq!(parts("/"), vec!["/"]);
    assert_eq!(parts("/a//b/./c/"), vec!["/", "a", "b", "c"]);
    assert_eq!(parts("./a/."), vec![".", "a"]);
    assert_eq!(parts("../a/.."), vec!["..", "a", ".."]);
    assert_eq!(parts("ä/ö"), vec!["ä", "ö"]);
}

#[test]
fn paths_have_components() {
    assert_eq!(
        TemplatePath::parse("/../a/b").parts,
        vec![Component::RootDir, Component::ParentDir, file("a"), file("b")]
    );
    assert_eq!(TemplatePath::parse("./a").parts, vec![Component::CurDir, file("a")]);
}

#[test]
fn backslashes_are_read_as_the_platform_does() {
    for p in vec!["a\\b", "a\\..\\b/c", "C:\\a", "c:a", "\\\\s\\t\\a", "//s/t/a"] {
        let std: Vec<String> = std::path::Path::new(p)
            .components()
            .map(|c| match c {
                std::path::Component::Prefix(p) => format!("{:?}", p.kind()),
                std::path::Component::RootDir => "/".to_string(),
                c => c.as_os_str().to_str().unwrap().to_string(),
            })
            .collect();
        assert_eq!(parts(p), std);
    }
}

#[test]
fn paths_with_a_prefix() {
    let root = || Component::RootDir;
    let path = || drive(false, vec![root(), file("a")]);
    assert_eq!(
        pushed(path(), vec![file("b")]),
        drive(false, vec![root(), file("a"), file("b")]).parts
    );
    assert_eq!(
        pushed(path(), vec![root(), file("b")]),
        drive(false, vec![root(), file("b")]).parts
    );
    let other = || vec![Component::Prefix("D:".to_string(), false), file("b")];
    assert_eq!(pushed(path(), other()), other());
    assert_eq!(pushed(path(), vec![]), path().parts);
    assert_eq!(
        pushed(drive(false, vec![]), vec![Component::CurDir, file("b")]),
        drive(false, vec![Component::CurDir, file("b")]).parts
    );
    let mut p = drive(false, vec![root()]);
    p.pop();
    assert_eq!(p.parts, drive(false, vec![root()]).parts);
    let mut p = drive(false, vec![]);
    p.pop();
    assert_eq!(p.parts, drive(false, vec![]).parts);
    assert_eq!(p.extension(), None);
}

#[test]
fn verbatim_paths_are_resolved() {
    let root = || Component::RootDir;
    let path = || drive(true, vec![root(), file("a")]);
    let up = || Component::ParentDir;
    assert_eq!(
        pushed(path(), vec![Component::CurDir, up(), up(), file("b")]),
        drive(true, vec![root(), file("b")]).parts
    );
    assert_eq!(
        pushed(path(), vec![root(), file("c")]),
        drive(true, vec![root(), file("c")]).parts
    );
}

#[test]
fn components_are_compared() {
    let prefix = |v| Component::Prefix("C:".to_string(), v);
    let all = || {
        vec![
            prefix(false),
            prefix(true),
            Component::RootDir,
            Component::CurDir,
            Component::ParentDir,
            file("C:"),
            file("a"),
        ]
    };
    for (i, a) in all().iter().enumerate() {
        assert_eq!(a.copy(), *a);
        for (j, b) in all().iter().enumerate() {
            assert_eq!(a.same(b), i == j);
        }
    }
}

#[test]
fn paths_agree_with_the_standard_library() {
    for p in vec!["", "a", "a/b.html", "/", "/a//b/./c/", "./a/.", "../a/..", "//a", "a/.b"] {
        let std: Vec<String> = std::path::Path::new(p)
            .components()
            .map(|c| c.as_os_str().to_str().unwrap().to_string())
            .collect();
        assert_eq!(parts(p), std);
        let ext = std::path::Path::new(p).extension().map(|e| e.to_str().unwrap());
        assert_eq!(TemplatePath::parse(p).extension(), ext);
        let mut mine = TemplatePath::parse(p);
        let mut theirs = std::path::PathBuf::from(p);
        mine.pop();
        theirs.pop();
        for q in vec!["", "x", "/x", "./x", "../x"] {
            let mut joined = mine.copy();
            joined.push(TemplatePath::parse(q));
            let pushed = theirs.join(q);
            let expected: Vec<String> = pushed
                .components()
                .map(|c| c.as_os_str().to_str().unwrap().to_string())
                .collect();
            assert_eq!(shown(&joined), expected);
        }
    }
}

#[test]
fn paths_are_compared() {
    let a = TemplatePath::parse("a/b");
    assert!(a.same(&TemplatePath::parse("a//b/")));
    assert!(a.same(&a.copy()));
    assert!(!a.same(&TemplatePath::parse("a")));
    assert!(!a.same(&TemplatePath::parse("a/c")));
    assert!(!a.same(&TemplatePath::parse("/a/b")));
}

#[test]
fn parent_paths() {
    for (path, parent) in vec![("a/b", "a"), ("a", ""), ("", ""), ("/", "/"), ("/a", "/")] {
        let mut p = TemplatePath::parse(path);
        p.pop();
        assert!(p.same(&TemplatePath::parse(parent)));
    }
}

#[test]
fn extensions() {
    let ext = |p: &str| TemplatePath::parse(p).extension().map(|e| e.to_string());
    assert_eq!(ext("a/b.html"), Some("html".to_string()));
    assert_eq!(ext("a.tar.gz"), Some("gz".to_string()));
    assert_eq!(ext("a."), Some(String::new()));
    assert_eq!(ext(".hidden"), None);
    assert_eq!(ext(".hidden.txt"), Some("txt".to_string()));
    assert_eq!(ext("a.b/c"), None);
    assert_eq!(ext("a/.."), None);
    assert_eq!(ext(""), None);
    assert_eq!(extension_or_txt(&TemplatePath::parse("a.html")), "html");
    assert_eq!(extension_or_txt(&TemplatePath::parse("a")), "txt");
}

#[test]
fn extension_of_the_owner_is_added() {
    assert_eq!(with_extension("x/y.html", "part"), vec!["part.html"]);
    assert_eq!(with_extension("x/y.html", "a/part"), vec!["a", "part.html"]);
    assert_eq!(with_extension("x/y.html", "part.txt"), vec!["part.txt"]);
    assert_eq!(with_extension("x/y.html", ".part"), vec![".part.html"]);
    assert_eq!(with_extension("x/y.html", ".."), vec![".."]);
    assert_eq!(with_extension("x/y", "part"), vec!["part"]);
    assert_eq!(with_extension("y.", "part"), vec!["part"]);
}

#[test]
fn partials_are_relative_to_their_template() {
    let root = TemplatePath::parse("site/index.html");
    let on = TemplatePath::parse("site/sub/page.txt");
    let target = |name: &str| shown(&partial_target(&root, &on, &TemplatePath::parse(name)));
    assert_eq!(target("part"), vec!["site", "sub", "part.html"]);
    assert_eq!(target("../part"), vec!["site", "sub", "..", "part.html"]);
    assert_eq!(target("./part"), vec!["site", "sub", "part.html"]);
    assert_eq!(target("/part.css"), vec!["/", "part.css"]);
}

#[test]
fn context_holds_templates() {
    let a = TemplatePath::parse("a");
    let b = TemplatePath::parse("b");
    let mut ctx = Context::new();
    assert!(ctx.get(&a).is_none());
    ctx.insert(a.copy(), vec![Node::Comment("1".to_string())]);
    ctx.insert(b.copy(), vec![]);
    assert_eq!(ctx.get(&a).unwrap().len(), 1);
    assert_eq!(ctx.get(&b).unwrap().len(), 0);
    ctx.insert(a.copy(), vec![]);
    assert_eq!(ctx.get(&a).unwrap().len(), 0);
    assert_eq!(ctx.entries.len(), 2);
}

#[test]
fn forms_of_expressions() {
    assert_eq!(kind("a + b"), ExprKind::Binary);
    assert_eq!(kind("f(a)"), ExprKind::Call);
    assert_eq!(kind("a.f()"), ExprKind::MethodCall);
    assert_eq!(kind("a[0]"), ExprKind::Index);
    assert_eq!(kind("a.b"), ExprKind::Field);
    assert_eq!(kind("a::b"), ExprKind::Path);
    assert_eq!(kind("(a)"), ExprKind::Paren);
    assert_eq!(kind("m!(a)"), ExprKind::Macro);
    assert_eq!(kind("\"a\""), ExprKind::Lit);
    assert_eq!(kind("a?"), ExprKind::Try);
    assert_eq!(kind("!a"), ExprKind::Not);
    assert_eq!(kind("-a"), ExprKind::Unary);
    assert_eq!(kind("*a"), ExprKind::Unary);
    assert_eq!(kind("a..b"), ExprKind::Range);
    assert_eq!(kind("..=b"), ExprKind::Range);
    assert_eq!(kind("[a, b]"), ExprKind::Other);
    assert_eq!(kind("&a"), ExprKind::Other);
}

#[test]
fn expressions_keep_their_pieces() {
    let e: syn::Expr = syn::parse_str("a").unwrap();
    let pieces = Expression::new(&e, vec![Piece::Name("a".to_string()), Piece::Wrap]).pieces;
    assert_eq!(pieces.len(), 2);
    assert!(matches!(&pieces[0], Piece::Name(n) if n == "a"));
    assert!(matches!(&pieces[1], Piece::Wrap));
}

#[test]
fn unless_arguments() {
    assert_eq!(check_unless(kind("!a")), Some(Refusal::NegatedUnless));
    assert_eq!(check_unless(kind("a..b")), Some(Refusal::UnlessArgument));
    assert_eq!(check_unless(kind("|a| a")), Some(Refusal::UnlessArgument));
    assert_eq!(check_unless(kind("-a")), None);
    assert_eq!(check_unless(kind("a == b")), None);
}

#[test]
fn counted_variables() {
    for ident in vec!["index0", "index", "first", "last"] {
        assert!(needs_counter(ident));
    }
    for ident in vec!["key", "self", "indexes", ""] {
        assert!(!needs_counter(ident));
    }
}

#[test]
fn text_is_checked() {
    let sp = |waits, skips| Spaces { waits, skips };
    assert_eq!(check_text(sp(false, false), " ", "a", " "), None);
    assert_eq!(check_text(sp(false, false), " ", "", ""), None);
    assert_eq!(check_text(sp(false, false), "", "", " "), None);
    assert_eq!(check_text(sp(false, true), " ", "", " "), None);
    assert_eq!(check_text(sp(true, false), "", "", ""), Some(Refusal::WaitingWhitespace));
    assert_eq!(check_text(sp(true, true), "", "a", ""), Some(Refusal::WaitingWhitespace));
    assert_eq!(check_text(sp(false, false), " ", "", "\n"), Some(Refusal::SplitWhitespace));
}

#[test]
fn whitespace_after_text() {
    let sp = |waits, skips| Spaces { waits, skips };
    assert_eq!(sp(false, false).after_text("", "a", ""), sp(false, false));
    assert_eq!(sp(false, false).after_text(" ", "a", " "), sp(true, false));
    assert_eq!(sp(false, false).after_text(" ", "", ""), sp(true, false));
    assert_eq!(sp(false, true).after_text(" ", "", ""), sp(false, false));
    assert_eq!(sp(false, true).after_text("", "a", ""), sp(false, true));
}
