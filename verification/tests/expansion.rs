use proc_macro2::{Delimiter as PDelimiter, Spacing as PSpacing, Span};
use quip::{
    expand, expand_at, parse_quip, parse_quip_spanned, quip, quip_spanned, Delimiter, Group, Ident,
    Literal, Punct, Spacing, TokenStream, TokenTree,
};

fn convert(stream: proc_macro2::TokenStream) -> TokenStream {
    let trees = stream
        .into_iter()
        .map(|tree| match tree {
            proc_macro2::TokenTree::Group(g) => TokenTree::Group(Group {
                delimiter: match g.delimiter() {
                    PDelimiter::Parenthesis => Delimiter::Parenthesis,
                    PDelimiter::Brace => Delimiter::Brace,
                    PDelimiter::Bracket => Delimiter::Bracket,
                    PDelimiter::None => Delimiter::Invisible,
                },
                stream: convert(g.stream()),
                span: g.span(),
            }),
            proc_macro2::TokenTree::Ident(i) => TokenTree::Ident(Ident {
                name: i.to_string(),
                span: i.span(),
            }),
            proc_macro2::TokenTree::Punct(p) => TokenTree::Punct(Punct {
                ch: p.as_char(),
                spacing: match p.spacing() {
                    PSpacing::Alone => Spacing::Alone,
                    PSpacing::Joint => Spacing::Joint,
                },
                span: p.span(),
            }),
            proc_macro2::TokenTree::Literal(l) => TokenTree::Literal(Literal {
                text: l.to_string(),
                span: l.span(),
            }),
        })
        .collect();
    TokenStream { trees }
}

/// Tokens of Rust source text.
fn tokens(source: &str) -> TokenStream {
    convert(source.parse().expect("valid tokens"))
}

/// Compares two token streams as the compiler would read them: delimiters,
/// names, characters, spacing and literal text; spans are not compared.
fn same(a: &TokenStream, b: &TokenStream) -> bool {
    a.trees.len() == b.trees.len()
        && a.trees.iter().zip(b.trees.iter()).all(|pair| match pair {
            (TokenTree::Group(x), TokenTree::Group(y)) => {
                x.delimiter == y.delimiter && same(&x.stream, &y.stream)
            }
            (TokenTree::Ident(x), TokenTree::Ident(y)) => x.name == y.name,
            (TokenTree::Punct(x), TokenTree::Punct(y)) => x.ch == y.ch && x.spacing == y.spacing,
            (TokenTree::Literal(x), TokenTree::Literal(y)) => x.text == y.text,
            _ => false,
        })
}

fn assert_stream_eq(a: &TokenStream, b: &TokenStream) {
    assert!(same(a, b), "token streams differ:\n{:?}\n{:?}", a, b);
}


// Without expression interpolations the expansion hands the input to
// `quote!` unchanged, so it expands to the same tokens each time.
#[test]
fn no_expression_interpolations() {
    let source = "impl Shape for Triangle { const SIDES: usize = 3; }";
    let output = quip(tokens(source));
    let expected = quip(tokens(source));

    assert_stream_eq(&output, &expected);
    assert_stream_eq(
        &output,
        &tokens(
            "match () { () => { ::quote::quote! { impl Shape for Triangle { const SIDES: usize = 3; } } } }",
        ),
    );
}

// One expression interpolation: `shape` is bound and interpolated.
#[test]
fn single_expression_interpolation() {
    let output = quip(tokens("impl Shape for #{shape} { const SIDES: usize = 3; }"));

    let expected = tokens(
        "match (&shape,) { (__interpolation0,) => { ::quote::quote! { impl Shape for # __interpolation0 { const SIDES: usize = 3; } } } }",
    );

    assert_stream_eq(&output, &expected);
}

// Several expression interpolations are bound in order.
#[test]
fn multiple_expression_interpolations() {
    let output = quip(tokens("impl Shape for #{shape} { const SIDES: usize = #{sides}; }"));

    let expected = tokens(
        "match (&shape, &sides,) { (__interpolation0, __interpolation1,) => { ::quote::quote! { impl Shape for # __interpolation0 { const SIDES: usize = # __interpolation1; } } } }",
    );

    assert_stream_eq(&output, &expected);
}

// A temporary in the interpolated expression is borrowed in the `match`
// scrutinee, which keeps it alive for the whole expansion.
#[test]
fn expression_interpolation_contains_temporary_value() {
    let output = quip(tokens("#{[&String::new()][0]}"));
    let expected = tokens(
        "match (&[&String::new()][0],) { (__interpolation0,) => { ::quote::quote! { # __interpolation0 } } }",
    );

    assert_stream_eq(&output, &expected);
}

#[test]
fn variable() {
    for (source, inner) in [
        ("#{x}", "# __interpolation0"),
        ("<#{x}>", "<# __interpolation0 >"),
        ("(#{x})", "(# __interpolation0)"),
        ("[#{x}]", "[# __interpolation0]"),
        ("{#{x}}", "{# __interpolation0}"),
    ] {
        let expected = format!(
            "match (&x,) {{ (__interpolation0,) => {{ ::quote::quote! {{ {} }} }} }}",
            inner
        );
        assert_stream_eq(&quip(tokens(source)), &tokens(&expected));
    }
}

#[test]
fn variable_repetition() {
    for (source, inner) in [
        ("#(#{xy})*", "#(# __interpolation0)*"),
        ("#(#{xy},)*", "#(# __interpolation0,)*"),
        ("#(#{xy}),*", "#(# __interpolation0),*"),
    ] {
        let expected = format!(
            "match (&xy,) {{ (__interpolation0,) => {{ ::quote::quote! {{ {} }} }} }}",
            inner
        );
        assert_stream_eq(&quip(tokens(source)), &tokens(&expected));
    }
}

#[test]
fn expression() {
    for (source, inner) in [
        ("#{tx.0}", "# __interpolation0"),
        ("<#{tx.0}>", "<# __interpolation0 >"),
        ("(#{tx.0})", "(# __interpolation0)"),
        ("[#{tx.0}]", "[# __interpolation0]"),
        ("{#{tx.0}}", "{# __interpolation0}"),
    ] {
        let expected = format!(
            "match (&tx.0,) {{ (__interpolation0,) => {{ ::quote::quote! {{ {} }} }} }}",
            inner
        );
        assert_stream_eq(&quip(tokens(source)), &tokens(&expected));
    }
}

#[test]
fn expression_repetition() {
    for (source, inner) in [
        ("#(#{txy.0})*", "#(# __interpolation0)*"),
        ("#(#{txy.0},)*", "#(# __interpolation0,)*"),
        ("#(#{txy.0}),*", "#(# __interpolation0),*"),
    ] {
        let expected = format!(
            "match (&txy.0,) {{ (__interpolation0,) => {{ ::quote::quote! {{ {} }} }} }}",
            inner
        );
        assert_stream_eq(&quip(tokens(source)), &tokens(&expected));
    }
}

#[test]
fn requires_lifetime_extension() {
    let output = quip(tokens("#{[&String::new()][0]}"));
    assert_stream_eq(
        &output,
        &tokens(
            "match (&[&String::new()][0],) { (__interpolation0,) => { ::quote::quote! { # __interpolation0 } } }",
        ),
    );
}

#[test]
fn sanity_quip() {
    let output = quip(tokens("<'a, B: Into<String>, const C: usize>"));
    assert_stream_eq(
        &output,
        &tokens("match () { () => { ::quote::quote! { <'a, B: Into<String>, const C: usize> } } }"),
    );
}

#[test]
fn sanity_quip_spanned() {
    let output = quip_spanned(tokens("span=> <'a, B: Into<String>, const C: usize>"));
    assert_stream_eq(
        &output,
        &tokens(
            "match () { () => { ::quote::quote_spanned! { span=> <'a, B: Into<String>, const C: usize> } } }",
        ),
    );
}

#[test]
fn sanity_parse_quip() {
    let output = parse_quip(tokens("<'a, B: Into<String>, const C: usize>"));
    assert_stream_eq(
        &output,
        &tokens("match () { () => { ::syn::parse_quote! { <'a, B: Into<String>, const C: usize> } } }"),
    );
}

#[test]
fn sanity_parse_quip_spanned() {
    let output = parse_quip_spanned(tokens("span=> <'a, B: Into<String>, const C: usize>"));
    assert_stream_eq(
        &output,
        &tokens(
            "match () { () => { ::syn::parse_quote_spanned! { span=> <'a, B: Into<String>, const C: usize> } } }",
        ),
    );
}

const SMOKE: &str = "if length + additional > #{capacity} { return Err(#{error}); }";
const SMOKE_INNER: &str = "if length + additional > # __interpolation0 { return Err(# __interpolation1); }";

fn smoke_expansion(path: &str, prefix: &str) -> TokenStream {
    tokens(&format!(
        "match (&capacity, &error,) {{ (__interpolation0, __interpolation1,) => {{ {} {{ {}{} }} }} }}",
        path, prefix, SMOKE_INNER
    ))
}

#[test]
fn smoke_quip() {
    let output = quip(tokens(SMOKE));
    assert_stream_eq(&output, &smoke_expansion("::quote::quote!", ""));
}

#[test]
fn smoke_quip_spanned() {
    let output = quip_spanned(tokens(&format!("span => {}", SMOKE)));
    assert_stream_eq(&output, &smoke_expansion("::quote::quote_spanned!", "span => "));
}

#[test]
fn smoke_parse_quip() {
    let output = parse_quip(tokens(SMOKE));
    assert_stream_eq(&output, &smoke_expansion("::syn::parse_quote!", ""));
}

#[test]
fn smoke_parse_quip_spanned() {
    let output = parse_quip_spanned(tokens(&format!("span => {}", SMOKE)));
    assert_stream_eq(&output, &smoke_expansion("::syn::parse_quote_spanned!", "span => "));
}

#[test]
fn lookalike() {
    let output = quip(tokens(r##"r#""#{x}"##));
    assert_stream_eq(&output, &tokens(r###"match () { () => { ::quote::quote! { r#""#{x} } } }"###));
}

#[test]
fn empty() {
    let output = quip(tokens("#{}"));
    assert_stream_eq(&output, &tokens("match () { () => { ::quote::quote! { #{} } } }"));
}

// The expansion shown in the documentation.
#[test]
fn documented_expansion() {
    let output = expand(tokens("::quote::quote!"), tokens("impl MyTrait for #{item.name} {}"));
    assert_stream_eq(
        &output,
        &tokens(
            "match (&item.name,) { (__interpolation0,) => { ::quote::quote! { impl MyTrait for # __interpolation0 {} } } }",
        ),
    );
}

#[test]
fn expand_with_any_path_and_site() {
    let site = Span::call_site();
    let output = expand_at(tokens("my::mac!"), tokens("a #{b} c"), site);
    assert_stream_eq(
        &output,
        &tokens("match (&b,) { (__interpolation0,) => { my::mac! { a # __interpolation0 c } } }"),
    );
}

#[test]
fn added_tokens_have_the_documented_spacing() {
    let output = quip(tokens("#{x}"));
    // match ( & x , ) { ( __interpolation0 , ) = > { : : quote : : quote ! { # __interpolation0 } } }
    let arm = match &output.trees[2] {
        TokenTree::Group(g) => &g.stream,
        other => panic!("expected the match arms, got {:?}", other),
    };
    match (&arm.trees[1], &arm.trees[2]) {
        (TokenTree::Punct(eq), TokenTree::Punct(gt)) => {
            assert_eq!((eq.ch, eq.spacing), ('=', Spacing::Joint));
            assert_eq!((gt.ch, gt.spacing), ('>', Spacing::Alone));
        }
        other => panic!("expected `=>`, got {:?}", other),
    }
}

#[test]
fn two_expansions_agree_apart_from_spans() {
    let source = "impl #{t} for #{u} { fn f() -> #{r} { #{body} } }";
    let first = quip(tokens(source));
    let second = quip(tokens(source));
    assert_stream_eq(&first, &second);
    let elsewhere = expand_at(tokens("::quote::quote!"), tokens(source), Span::mixed_site());
    assert_stream_eq(&first, &elsewhere);
}

#[test]
fn hand_written_variable_reaches_the_caller() {
    let output = quip(tokens("#__interpolation0 #{b}"));
    assert_stream_eq(
        &output,
        &tokens(
            "match (&b,) { (___interpolation0,) => { ::quote::quote! { #__interpolation0 # ___interpolation0 } } }",
        ),
    );
}
