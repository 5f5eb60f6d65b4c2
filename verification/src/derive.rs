//! The type that the code is generated for.
use vstd::prelude::*;

use crate::code::Heading;
use crate::model::Env;
use crate::node::Context;
use crate::path::TemplatePath;

verus! {

/// What is done to the expressions that are written.
#[derive(Clone, Copy, Debug, PartialEq, Eq, Structural)]
pub enum EscapeMode {
    /// They are escaped for HTML.
    Html,
    /// They are written as they are.
    Plain,
}

/// The type that a template is generated for.
pub struct Struct {
    /// The path of its template.
    pub path: TemplatePath,
    /// How its expressions are escaped.
    pub escaping: EscapeMode,
    /// `impl` and the generic parameters.
    pub generics: String,
    /// The name of the type, with its generic arguments and its `where` clause.
    pub target: String,
}

/// The line that opens the implementation of the trait `t`.
pub open spec fn head(generics: Seq<char>, t: Seq<char>, target: Seq<char>) -> Seq<char> {
    generics + " "@ + t + " for "@ + target + " {"@
}

impl Struct {
    /// What does not change while the template is generated.
    pub open spec fn env(&self, ctx: Context) -> Env {
        Env { templates: ctx@, root: self.path@, escaping: self.escaping }
    }

    /// What stands before and after the trait in the line that opens an implementation.
    pub open spec fn heading(&self) -> Heading {
        Heading { generics: self.generics@, target: self.target@ }
    }

    /// The line that opens the implementation of the trait `t`.
    pub fn implement_head(&self, t: &str) -> (r: String)
        ensures
            r@ == head(self.generics@, t@, self.target@),
    {
        let mut r = self.generics.clone();
        r.append(" ");
        r.append(t);
        r.append(" for ");
        r.append(self.target.as_str());
        r.append(" {");
        r
    }
}

} // verus!
