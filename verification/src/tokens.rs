use vstd::prelude::*;

verus! {

/// `proc_macro2::Span`, the source location of a token: carried through,
/// never looked into.
#[verifier::external_type_specification]
#[verifier::external_body]
pub struct ExSpan(proc_macro2::Span);

/// Delimiter of a group; `Invisible` is the delimiter that the compiler
/// calls `None`, which leaves no mark in source text.
#[derive(Clone, Copy, PartialEq, Eq, Structural, Debug)]
pub enum Delimiter {
    Parenthesis,
    Brace,
    Bracket,
    Invisible,
}

/// Whether a punctuation character is immediately followed by another one.
#[derive(Clone, Copy, PartialEq, Eq, Structural, Debug)]
pub enum Spacing {
    Alone,
    Joint,
}

/// An identifier or keyword, with its text as written (`r#` included).
#[derive(Debug)]
pub struct Ident {
    pub name: String,
    pub span: proc_macro2::Span,
}

/// A punctuation character.
#[derive(Debug)]
pub struct Punct {
    pub ch: char,
    pub spacing: Spacing,
    pub span: proc_macro2::Span,
}

/// A literal, with its text as written.
#[derive(Debug)]
pub struct Literal {
    pub text: String,
    pub span: proc_macro2::Span,
}

/// A delimited token stream.
#[derive(Debug)]
pub struct Group {
    pub delimiter: Delimiter,
    pub stream: TokenStream,
    pub span: proc_macro2::Span,
}

/// A single token or a group.
#[derive(Debug)]
pub enum TokenTree {
    Group(Group),
    Ident(Ident),
    Punct(Punct),
    Literal(Literal),
}

/// A sequence of token trees.
#[derive(Debug)]
pub struct TokenStream {
    pub trees: Vec<TokenTree>,
}

/// The value of a token tree: what the contracts speak of.
pub enum Tree {
    Group { delimiter: Delimiter, stream: Seq<Tree>, span: proc_macro2::Span },
    Ident { name: Seq<char>, span: proc_macro2::Span },
    Punct { ch: char, spacing: Spacing, span: proc_macro2::Span },
    Literal { text: Seq<char>, span: proc_macro2::Span },
}

/// The value of a token tree.
pub open spec fn tree_view(t: TokenTree) -> Tree
    decreases t,
{
    match t {
        TokenTree::Group(g) => Tree::Group {
            delimiter: g.delimiter,
            stream: trees_view(g.stream.trees@),
            span: g.span,
        },
        TokenTree::Ident(i) => Tree::Ident { name: i.name@, span: i.span },
        TokenTree::Punct(p) => Tree::Punct { ch: p.ch, spacing: p.spacing, span: p.span },
        TokenTree::Literal(l) => Tree::Literal { text: l.text@, span: l.span },
    }
}

/// The values of a sequence of token trees.
pub open spec fn trees_view(s: Seq<TokenTree>) -> Seq<Tree>
    decreases s,
{
    Seq::new(s.len(), |i: int| if 0 <= i < s.len() { tree_view(s[i]) } else { arbitrary() })
}

impl View for TokenTree {
    type V = Tree;

    open spec fn view(&self) -> Tree {
        tree_view(*self)
    }
}

impl View for TokenStream {
    type V = Seq<Tree>;

    open spec fn view(&self) -> Seq<Tree> {
        trees_view(self.trees@)
    }
}

/// `proc_macro2::Span::call_site()`: the span of the macro invocation being
/// expanded, which resolves as if written in place of that invocation. What
/// span comes back depends on the invocation, so nothing is stated of it.
#[verifier::external_body]
pub(crate) fn call_site() -> proc_macro2::Span {
    proc_macro2::Span::call_site()
}

} // verus!
