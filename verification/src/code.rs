//! The implementations that are generated for a template.
use vstd::prelude::*;
use vstd::utf8::encode_utf8;

use crate::derive::head;
use crate::mime::{mime_extension, mime_type};
use crate::model::{emit_nodes, Env, State};
use crate::text::{debug_text, decimal, line};

verus! {

/// The type that code is generated for: what stands before and after the trait in the line that
/// opens an implementation.
pub struct Heading {
    /// `impl` and the generic parameters.
    pub generics: Seq<char>,
    /// The type.
    pub target: Seq<char>,
}

/// The line that opens the implementation of the trait `t`.
pub open spec fn opening(h: Heading, t: Seq<char>) -> Seq<char> {
    line(head(h.generics, t, h.target))
}

/// The state in which the generation of a template starts.
pub open spec fn start(env: Env) -> State {
    State {
        out: Seq::empty(),
        pending: Seq::empty(),
        next_ws: None,
        skip_ws: false,
        scopes: seq![seq!["self"@]],
        on: Seq::empty(),
        path: env.root,
        wrapped: true,
        text: Seq::empty(),
    }
}

/// The state in which the generation of a template ends, with the code that writes it.
pub open spec fn finish(env: Env) -> State {
    emit_nodes(env, env.templates[env.root], start(env), env.templates.dom().len()).settle(
        env.escaping,
    )
}

/// The lines that open the implementation of `Display`.
pub open spec fn display_opening(h: Heading) -> Seq<char> {
    opening(h, "::std::fmt::Display"@) + line(
        "fn fmt(&self, _fmt: &mut ::std::fmt::Formatter) -> ::std::fmt::Result {"@,
    )
}

/// The implementation of `Display` around the code `body`.
pub open spec fn display_code(h: Heading, body: Seq<char>) -> Seq<char> {
    display_opening(h) + body + line("Ok(())"@) + line("}"@) + line("}"@)
}

/// The implementation of `Template` for a template with the media type that `literal` stands for.
pub open spec fn template_lines(h: Heading, literal: Seq<char>, size_hint: nat) -> Seq<char> {
    opening(h, "::wearte::Template"@) + line("fn mime() -> &'static str {"@) + line(literal)
        + line("}"@) + line("fn size_hint() -> usize {"@) + line(decimal(size_hint)) + line("}"@)
        + line("}"@)
}

/// The implementation of `Template` for a template with the media type `mime`.
pub open spec fn template_code(h: Heading, mime: Seq<char>, size_hint: nat) -> Seq<char> {
    template_lines(h, debug_text(mime), size_hint)
}

/// The implementation of `Responder`.
pub open spec fn responder_code(h: Heading) -> Seq<char> {
    opening(h, "::wearte::actix_web::Responder"@) + line(
        "type Item = ::wearte::actix_web::HttpResponse;"@,
    ) + line("type Error = ::wearte::actix_web::Error;"@) + line(
        "fn respond_to<S>(self, _req: &::wearte::actix_web::HttpRequest<S>) -> ::std::result::Result<Self::Item, Self::Error> {"@,
    ) + line(
        "self.call()
                .map(|s| Self::Item::Ok().content_type(Self::mime()).body(s))
                .map_err(|_| ::wearte::actix_web::ErrorInternalServerError(\"Template parsing error\"))"@,
    ) + line("}"@) + line("}"@)
}

/// The implementations around the code `body` that writes the template; that of `Responder` only
/// where it is asked for.
pub open spec fn implementations(
    env: Env,
    h: Heading,
    body: Seq<char>,
    actix_web: bool,
) -> Seq<char> {
    let responder = if actix_web {
        responder_code(h)
    } else {
        Seq::empty()
    };
    display_code(h, body) + template_code(
        h,
        mime_type(mime_extension(env.root)).unwrap(),
        encode_utf8(body).len(),
    ) + responder
}

/// The code that is generated for a template.
pub open spec fn generated(env: Env, h: Heading, actix_web: bool) -> Seq<char> {
    implementations(env, h, finish(env).out, actix_web)
}

} // verus!
