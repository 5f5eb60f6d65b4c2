# wearte_derive

The code generator of a template engine, verified with Verus. Given the parsed nodes of a
template, it writes Rust code: an implementation of `Display` that writes the template, one of
`Template` with its media type and a size hint, and, on demand, one of Actix-web's `Responder`.

- `src/model.rs` says what the code for a template is: each node takes the generator from one
  state to the next.
- `src/generator.rs` is the generator. `try_generate` answers for every template; `generate` is
  for those that are accepted.
- `src/check.rs` says which templates are refused, and why; `src/ready.rs` says what the generator
  can go through.
- `src/laws/` holds what is proved of everything that is generated: blocks are closed, names end
  with their blocks, text is met in order, whitespace is suppressed where a tag says so, a template that is part of itself is refused and only such a one is refused for that, and
  templates that are not used change nothing.
- `app/` turns the syntax trees of `syn` into the values that the library works on.
