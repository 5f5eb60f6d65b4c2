//! The lines that are written.
use vstd::prelude::*;
use vstd::utf8::encode_utf8;

use crate::check::{refused, spaces_at_start};
use crate::code::{
    display_code, finish, generated, opening, responder_code, start, template_code, Heading,
};
use crate::derive::EscapeMode;
use crate::laws::follow::lemma_nodes_follow;
use crate::laws::more::lemma_nodes_same;
use crate::laws::recursion::lemma_nodes_accepted_within;
use crate::laws::texts::{lemma_written, no_empty_text};
use crate::mime::{lower, mime_extension, mime_type};
use crate::model::{
    code_line, emit_nodes, loop_head, some_text_line, written, written_after, Env, Frame, Written,
};
use crate::path::{extension, Parts};
use crate::text::{debug_text, decimal, pretty_debug_text};

verus! {

/// The number that the digits `s` stand for.
pub open spec fn number(s: Seq<char>) -> nat
    decreases s.len(),
{
    if s.len() == 0 {
        0
    } else {
        (10 * number(s.drop_last()) + (s.last() as int - '0' as int)) as nat
    }
}

/// The notation of a number is made of digits, stands for the number, and starts with a zero for
/// zero alone.
pub proof fn lemma_decimal(n: nat)
    ensures
        decimal(n).len() > 0,
        forall|i: int| 0 <= i < decimal(n).len() ==> '0' <= #[trigger] decimal(n)[i] <= '9',
        number(decimal(n)) == n,
        decimal(n)[0] == '0' <==> n == 0,
    decreases n,
{
    reveal_strlit("0");
    reveal_strlit("1");
    reveal_strlit("2");
    reveal_strlit("3");
    reveal_strlit("4");
    reveal_strlit("5");
    reveal_strlit("6");
    reveal_strlit("7");
    reveal_strlit("8");
    reveal_strlit("9");
    let d = decimal(n);
    if n < 10 {
        assert(d.len() == 1);
        assert(d[0] as int == '0' as int + n);
        assert(number(d.drop_last()) == 0);
    } else {
        let before = decimal(n / 10);
        lemma_decimal(n / 10);
        assert(d.drop_last() =~= before);
        assert(d.last() as int == '0' as int + n % 10);
        assert(d[0] == before[0]);
        assert forall|i: int| 0 <= i < d.len() implies '0' <= #[trigger] d[i] <= '9' by {
            if i < before.len() {
                assert(d[i] == before[i]);
            }
        }
    }
}

/// A loop goes over the items of a range itself, and over those of anything else by reference;
/// with a counter, the items come with their numbers.
pub proof fn lemma_loop_head(id: nat, code: Seq<char>)
    ensures
        loop_head(id, false, false, code) == "for _key_"@ + decimal(id) + " in (&"@ + code
            + ").into_iter() {"@,
        loop_head(id, true, false, code) == "for (_index_"@ + decimal(id) + ", _key_"@ + decimal(
            id,
        ) + ") in (&"@ + code + ").into_iter().enumerate() {"@,
        loop_head(id, false, true, code) == "for _key_"@ + decimal(id) + " in "@ + code + " {"@,
        loop_head(id, true, true, code) == "for (_index_"@ + decimal(id) + ", _key_"@ + decimal(
            id,
        ) + ") in ("@ + code + ").enumerate() {"@,
{
    reveal_strlit("for ");
    reveal_strlit("for (");
    reveal_strlit("_key_");
    reveal_strlit("_index_");
    reveal_strlit(", ");
    reveal_strlit("for _key_");
    reveal_strlit("for (_index_");
    reveal_strlit(", _key_");
    assert("for _key_"@ =~= "for "@ + "_key_"@);
    assert("for (_index_"@ =~= "for ("@ + "_index_"@);
    assert(", _key_"@ =~= ", "@ + "_key_"@);
    let n = decimal(id);
    assert(loop_head(id, false, false, code) =~= "for "@ + "_key_"@ + n + " in (&"@ + code
        + ").into_iter() {"@);
    assert(loop_head(id, false, true, code) =~= "for "@ + "_key_"@ + n + " in "@ + code + " {"@);
    assert(loop_head(id, true, false, code) =~= "for ("@ + "_index_"@ + n + (", "@ + "_key_"@) + n
        + ") in (&"@ + code + ").into_iter().enumerate() {"@);
    assert(loop_head(id, true, true, code) =~= "for ("@ + "_index_"@ + n + (", "@ + "_key_"@) + n
        + ") in ("@ + code + ").enumerate() {"@);
}

/// The line for a text writes its literal.
pub proof fn lemma_text_line(s: Seq<char>, escaping: EscapeMode)
    requires
        s.len() > 0,
    ensures
        written(seq![Written::Lit(s)], escaping) == "_fmt.write_str("@ + pretty_debug_text(s)
            + ")?;"@ + "\n"@,
{
    let one = seq![Written::Lit(s)];
    assert(no_empty_text(one));
    lemma_written(one, escaping);
    assert(one.skip(1) =~= Seq::empty());
    assert(Seq::<char>::empty() + s =~= s);
    assert(written_after(s, Seq::empty(), escaping) == some_text_line(s));
}

/// The line for an expression writes its value, escaped where expressions are escaped and it does
/// not need none.
pub proof fn lemma_code_line(code: Seq<char>, safe: bool, escaping: EscapeMode)
    ensures
        escaping == EscapeMode::Plain || safe ==> written(
            seq![Written::Code(code, safe)],
            escaping,
        ) == "("@ + code + ").fmt(_fmt)?;"@ + "\n"@,
        escaping == EscapeMode::Html && !safe ==> written(
            seq![Written::Code(code, safe)],
            escaping,
        ) == "("@ + ("::wearte::MarkupAsStr::from(&"@ + code + ")"@) + ").fmt(_fmt)?;"@ + "\n"@,
{
    let one = seq![Written::Code(code, safe)];
    assert(!(one[0] is Lit));
    assert(one.skip(1) =~= Seq::empty());
    assert(written_after(Seq::empty(), Seq::empty(), escaping) == Seq::<char>::empty());
    assert(written(one, escaping) =~= code_line(code, safe, escaping));
}

proof fn lemma_around(
    before: Seq<char>,
    a: Seq<Written>,
    code: Seq<char>,
    safe: bool,
    b: Seq<Written>,
    escaping: EscapeMode,
)
    ensures
        written_after(before, a + seq![Written::Code(code, safe)] + b, escaping) == written_after(
            before,
            a,
            escaping,
        ) + code_line(code, safe, escaping) + written_after(Seq::empty(), b, escaping),
    decreases a.len(),
{
    let all = a + seq![Written::Code(code, safe)] + b;
    if a.len() == 0 {
        assert(all.skip(1) =~= b);
        assert(all[0] == Written::Code(code, safe));
    } else {
        let rest = a.skip(1);
        assert(all.skip(1) =~= rest + seq![Written::Code(code, safe)] + b);
        assert(all[0] == a[0]);
        match a[0] {
            Written::Lit(s) => {
                lemma_around(before + s, rest, code, safe, b, escaping);
            },
            Written::Code(c, f) => {
                lemma_around(Seq::empty(), rest, code, safe, b, escaping);
                let head = some_text_line(before) + code_line(c, f, escaping);
                assert(head + (written_after(Seq::empty(), rest, escaping) + code_line(
                    code,
                    safe,
                    escaping,
                ) + written_after(Seq::empty(), b, escaping)) =~= head + written_after(
                    Seq::empty(),
                    rest,
                    escaping,
                ) + code_line(code, safe, escaping) + written_after(Seq::empty(), b, escaping));
            },
        }
    }
}

/// What waits before an expression is written before it, and what waits behind it after it.
pub proof fn lemma_written_around(
    a: Seq<Written>,
    code: Seq<char>,
    safe: bool,
    b: Seq<Written>,
    escaping: EscapeMode,
)
    requires
        no_empty_text(a),
        no_empty_text(b),
    ensures
        written(Seq::empty(), escaping).len() == 0,
        written(a + seq![Written::Code(code, safe)] + b, escaping) == written(a, escaping)
            + written(seq![Written::Code(code, safe)], escaping) + written(b, escaping),
{
    let one = seq![Written::Code(code, safe)];
    let all = a + one + b;
    assert forall|i: int| 0 <= i < all.len() implies (#[trigger] all[i] matches Written::Lit(s)
        ==> s.len() > 0) by {
        if i < a.len() {
            assert(all[i] == a[i]);
        } else if i > a.len() {
            assert(all[i] == b[i - a.len() - 1]);
        }
    }
    assert(no_empty_text(all));
    lemma_written(all, escaping);
    lemma_written(a, escaping);
    lemma_written(b, escaping);
    lemma_around(Seq::empty(), a, code, safe, b, escaping);
    assert(!(one[0] is Lit));
    assert(one.skip(1) =~= Seq::empty());
    assert(written_after(Seq::empty(), Seq::empty(), escaping) == Seq::<char>::empty());
    assert(written(one, escaping) =~= code_line(code, safe, escaping));
}

/// The generation of a template starts with nothing written and nothing waiting, outside of all
/// blocks, in the template and with `self` as the only name.
pub proof fn lemma_start(env: Env)
    ensures
        start(env).out == Seq::<char>::empty(),
        start(env).pending == Seq::<Written>::empty(),
        start(env).next_ws is None,
        !start(env).skip_ws,
        start(env).scopes == seq![seq!["self"@]],
        start(env).on == Seq::<Frame>::empty(),
        start(env).path == env.root,
        start(env).text == Seq::<char>::empty(),
{
}

/// The code that writes a template is what all of its nodes have written, however deep partials
/// may nest as long as the template is accepted.
pub proof fn lemma_finish(env: Env, depth: nat)
    requires
        refused(env) is None,
        depth >= env.templates.dom().len(),
    ensures
        ({
            let end = emit_nodes(env, env.templates[env.root], start(env), depth);
            &&& end.on.len() == 0
            &&& finish(env).out == end.out + written(end.pending, env.escaping)
        }),
{
    let d = env.templates.dom().len();
    let nodes = env.templates[env.root];
    lemma_nodes_accepted_within(
        env,
        env.root,
        nodes,
        spaces_at_start(),
        d,
    );
    lemma_nodes_same(env, env, nodes, start(env), d, depth);
    lemma_nodes_follow(env, nodes, start(env), depth);
}

/// The media type of a template is that of its extension, or of text if it has none.
pub proof fn lemma_mime_extension(path: Parts)
    ensures
        extension(path) matches Some(e) ==> mime_extension(path) == e,
        extension(path) is None ==> mime_extension(path) == "txt"@,
{
}

/// The letters from `A` to `Z` are turned into those from `a` to `z`, and nothing else changes.
pub proof fn lemma_lower(s: Seq<char>, i: int)
    requires
        0 <= i < s.len(),
    ensures
        lower(s).len() == s.len(),
        'A' <= s[i] <= 'Z' ==> lower(s)[i] as int == s[i] as int + 32,
        !('A' <= s[i] <= 'Z') ==> lower(s)[i] == s[i],
        lower(lower(s)) == lower(s),
{
    assert(lower(lower(s)) =~= lower(s));
}

/// The implementation of the trait `t` is opened by a line with the generic parameters before and
/// the type behind it.
pub open spec fn opens(h: Heading, t: Seq<char>) -> Seq<char> {
    h.generics + " "@ + t + " for "@ + h.target + " {\n"@
}

/// The generated code implements `Display` with the code that writes the template, `Template`
/// with the media type of the template and the size in bytes of the code that writes it, and, if
/// and only if it is asked for, `Responder`, in this order.
pub proof fn lemma_generated(env: Env, h: Heading, actix_web: bool)
    ensures
        ({
            let body = finish(env).out;
            let mime = mime_type(mime_extension(env.root)).unwrap();
            let display = opens(h, "::std::fmt::Display"@)
                + "fn fmt(&self, _fmt: &mut ::std::fmt::Formatter) -> ::std::fmt::Result {\n"@
                + body + "Ok(())\n}\n}\n"@;
            let template = opens(h, "::wearte::Template"@) + "fn mime() -> &'static str {\n"@
                + debug_text(mime) + "\n}\nfn size_hint() -> usize {\n"@ + decimal(
                encode_utf8(body).len(),
            ) + "\n}\n}\n"@;
            let responder = opens(h, "::wearte::actix_web::Responder"@)
                + "type Item = ::wearte::actix_web::HttpResponse;"@ + "\n"@
                + "type Error = ::wearte::actix_web::Error;"@ + "\n"@
                + "fn respond_to<S>(self, _req: &::wearte::actix_web::HttpRequest<S>) -> ::std::result::Result<Self::Item, Self::Error> {"@
                + "\n"@
                + "self.call()
                .map(|s| Self::Item::Ok().content_type(Self::mime()).body(s))
                .map_err(|_| ::wearte::actix_web::ErrorInternalServerError(\"Template parsing error\"))"@
                + "\n"@ + "}"@ + "\n"@ + "}"@ + "\n"@;
            &&& !actix_web ==> generated(env, h, actix_web) == display + template
            &&& actix_web ==> generated(env, h, actix_web) == display + template + responder
        }),
{
    lemma_display_text();
    lemma_template_text();
    lemma_opens(h, "::std::fmt::Display"@);
    lemma_opens(h, "::wearte::Template"@);
    lemma_opens(h, "::wearte::actix_web::Responder"@);
    let body = finish(env).out;
    let mime = mime_type(mime_extension(env.root)).unwrap();
    let size = encode_utf8(body).len();
    assert(display_code(h, body) =~= opens(h, "::std::fmt::Display"@)
        + "fn fmt(&self, _fmt: &mut ::std::fmt::Formatter) -> ::std::fmt::Result {\n"@ + body
        + "Ok(())\n}\n}\n"@);
    assert(template_code(h, mime, size) =~= opens(h, "::wearte::Template"@)
        + "fn mime() -> &'static str {\n"@ + debug_text(mime)
        + "\n}\nfn size_hint() -> usize {\n"@ + decimal(size) + "\n}\n}\n"@);
    assert(responder_code(h) =~= opens(h, "::wearte::actix_web::Responder"@)
        + "type Item = ::wearte::actix_web::HttpResponse;"@ + "\n"@
                + "type Error = ::wearte::actix_web::Error;"@ + "\n"@
                + "fn respond_to<S>(self, _req: &::wearte::actix_web::HttpRequest<S>) -> ::std::result::Result<Self::Item, Self::Error> {"@
                + "\n"@
                + "self.call()
                .map(|s| Self::Item::Ok().content_type(Self::mime()).body(s))
                .map_err(|_| ::wearte::actix_web::ErrorInternalServerError(\"Template parsing error\"))"@
                + "\n"@ + "}"@ + "\n"@ + "}"@ + "\n"@);
    if !actix_web {
        let all = display_code(h, body) + template_code(h, mime, size);
        assert(generated(env, h, actix_web) =~= all);
    }
}

proof fn lemma_opens(h: Heading, t: Seq<char>)
    ensures
        opening(h, t) == opens(h, t),
{
    reveal_strlit(" {");
    reveal_strlit("\n");
    reveal_strlit(" {\n");
    assert(" {\n"@ =~= " {"@ + "\n"@);
    assert(opening(h, t) =~= opens(h, t));
}

proof fn lemma_display_text()
    ensures
        "fn fmt(&self, _fmt: &mut ::std::fmt::Formatter) -> ::std::fmt::Result {"@ + "\n"@
            == "fn fmt(&self, _fmt: &mut ::std::fmt::Formatter) -> ::std::fmt::Result {\n"@,
        "Ok(())"@ + "\n"@ + ("}"@ + "\n"@) + ("}"@ + "\n"@) == "Ok(())\n}\n}\n"@,
{
    reveal_strlit("fn fmt(&self, _fmt: &mut ::std::fmt::Formatter) -> ::std::fmt::Result {");
    reveal_strlit("fn fmt(&self, _fmt: &mut ::std::fmt::Formatter) -> ::std::fmt::Result {\n");
    reveal_strlit("\n");
    reveal_strlit("}");
    reveal_strlit("Ok(())");
    reveal_strlit("Ok(())\n}\n}\n");
    assert("fn fmt(&self, _fmt: &mut ::std::fmt::Formatter) -> ::std::fmt::Result {"@ + "\n"@
        =~= "fn fmt(&self, _fmt: &mut ::std::fmt::Formatter) -> ::std::fmt::Result {\n"@);
    assert("Ok(())"@ + "\n"@ + ("}"@ + "\n"@) + ("}"@ + "\n"@) =~= "Ok(())\n}\n}\n"@);
}

proof fn lemma_template_text()
    ensures
        "fn mime() -> &'static str {"@ + "\n"@ == "fn mime() -> &'static str {\n"@,
        "\n"@ + ("}"@ + "\n"@) + ("fn size_hint() -> usize {"@ + "\n"@)
            == "\n}\nfn size_hint() -> usize {\n"@,
        "\n"@ + ("}"@ + "\n"@) + ("}"@ + "\n"@) == "\n}\n}\n"@,
{
    reveal_strlit("fn mime() -> &'static str {");
    reveal_strlit("fn mime() -> &'static str {\n");
    reveal_strlit("fn size_hint() -> usize {");
    reveal_strlit("\n}\nfn size_hint() -> usize {\n");
    reveal_strlit("\n}\n}\n");
    reveal_strlit("\n");
    reveal_strlit("}");
    assert("fn mime() -> &'static str {"@ + "\n"@ =~= "fn mime() -> &'static str {\n"@);
    assert("\n"@ + ("}"@ + "\n"@) + ("fn size_hint() -> usize {"@ + "\n"@)
        =~= "\n}\nfn size_hint() -> usize {\n"@);
    assert("\n"@ + ("}"@ + "\n"@) + ("}"@ + "\n"@) =~= "\n}\n}\n"@);
}

} // verus!
