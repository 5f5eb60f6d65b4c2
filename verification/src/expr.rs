//! Expressions and statements of a template.
use vstd::prelude::*;

verus! {

/// A Rust expression as `syn` parses it.
#[verifier::external_type_specification]
#[verifier::external_body]
pub struct ExSynExpr(syn::Expr);

/// The form of an expression, as far as the generator tells forms apart.
#[derive(Clone, Copy, Debug, PartialEq, Eq, Structural)]
pub enum ExprKind {
    /// `a + b`
    Binary,
    /// `f(a)`
    Call,
    /// `a.f(b)`
    MethodCall,
    /// `a[b]`
    Index,
    /// `a.b`
    Field,
    /// `a`, `a::b`
    Path,
    /// `(a)`
    Paren,
    /// `m!(a)`
    Macro,
    /// `1`, `"a"`
    Lit,
    /// `a?`
    Try,
    /// `!a`
    Not,
    /// `-a`, `*a`
    Unary,
    /// `a..b`
    Range,
    /// Any other form.
    Other,
}

/// The form of the expression `e`.
pub uninterp spec fn kind_of(e: syn::Expr) -> ExprKind;

/// Tells the variants of `syn::Expr` apart, and those of `syn::UnOp` in a unary expression. The
/// contract only says that the form belongs to the expression: the expression itself is opaque,
/// so which variant has which form is left unsaid.
#[verifier::external_body]
fn expr_kind(e: &syn::Expr) -> (r: ExprKind)
    ensures
        r == kind_of(*e),
{
    match e {
        syn::Expr::Binary(..) => ExprKind::Binary,
        syn::Expr::Call(..) => ExprKind::Call,
        syn::Expr::MethodCall(..) => ExprKind::MethodCall,
        syn::Expr::Index(..) => ExprKind::Index,
        syn::Expr::Field(..) => ExprKind::Field,
        syn::Expr::Path(..) => ExprKind::Path,
        syn::Expr::Paren(..) => ExprKind::Paren,
        syn::Expr::Macro(..) => ExprKind::Macro,
        syn::Expr::Lit(..) => ExprKind::Lit,
        syn::Expr::Try(..) => ExprKind::Try,
        syn::Expr::Range(..) => ExprKind::Range,
        syn::Expr::Unary(u) => match u.op { syn::UnOp::Not(..) => ExprKind::Not, _ => ExprKind::Unary },
        _ => ExprKind::Other,
    }
}

/// A piece of an expression or a statement, in the order in which it is written.
pub enum Piece {
    /// Code that is copied.
    Text(String),
    /// A path of one identifier, which is looked up in the scopes.
    Name(String),
    /// An identifier that is bound from here on in the innermost scope.
    Declare(String),
    /// What the expression gives needs no escaping.
    Wrap,
}

/// An expression.
pub struct Expression {
    /// Its form.
    pub kind: ExprKind,
    /// Its code.
    pub pieces: Vec<Piece>,
}

impl Expression {
    /// The expression `syntax`, which is written as `pieces`.
    pub fn new(syntax: &syn::Expr, pieces: Vec<Piece>) -> (r: Expression)
        ensures
            r.kind == kind_of(*syntax),
            r.pieces == pieces,
    {
        Expression { kind: expr_kind(syntax), pieces }
    }
}

/// A statement.
pub struct Statement {
    /// Its code.
    pub pieces: Vec<Piece>,
}

/// Whether `ident` is a variable of a loop that its counter is needed for.
pub open spec fn counts(ident: Seq<char>) -> bool {
    ident == "index0"@ || ident == "index"@ || ident == "first"@ || ident == "last"@
}

/// Whether a name in `pieces` is a variable that the counter of a loop is needed for.
pub open spec fn uses_counter(pieces: Seq<Piece>) -> bool {
    exists|i: int|
        0 <= i < pieces.len() && (#[trigger] pieces[i] matches Piece::Name(ident) && counts(
            ident@,
        ))
}

} // verus!
