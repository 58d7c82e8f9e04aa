use proc_macro2::{Delimiter as PDelimiter, Spacing as PSpacing, Span};
use quip::{
    walk, replace, replace_at, var_name_string, Delimiter, Group, Ident, Literal, Punct, Spacing,
    TokenStream, TokenTree,
};

fn convert(stream: proc_macro2::TokenStream) -> TokenStream {
    let trees = stream
        .into_iter()
        .map(|tree| match tree {
            proc_macro2::TokenTree::Group(g) => TokenTree::Group(Group {
                delimiter: match g.delimiter() {
                    PDelimiter::Parenthesis => Delimiter::Parenthesis,
                    PDelimiter::Brace => Delimiter::Brace,
                    PDelimiter::Bracket => Delimiter::Bracket,
                    PDelimiter::None => Delimiter::Invisible,
                },
                stream: convert(g.stream()),
                span: g.span(),
            }),
            proc_macro2::TokenTree::Ident(i) => TokenTree::Ident(Ident {
                name: i.to_string(),
                span: i.span(),
            }),
            proc_macro2::TokenTree::Punct(p) => TokenTree::Punct(Punct {
                ch: p.as_char(),
                spacing: match p.spacing() {
                    PSpacing::Alone => Spacing::Alone,
                    PSpacing::Joint => Spacing::Joint,
                },
                span: p.span(),
            }),
            proc_macro2::TokenTree::Literal(l) => TokenTree::Literal(Literal {
                text: l.to_string(),
                span: l.span(),
            }),
        })
        .collect();
    TokenStream { trees }
}

/// Tokens of Rust source text.
fn tokens(source: &str) -> TokenStream {
    convert(source.parse().expect("valid tokens"))
}

/// Compares two token streams as the compiler would read them: delimiters,
/// names, characters, spacing and literal text; spans are not compared.
fn same(a: &TokenStream, b: &TokenStream) -> bool {
    a.trees.len() == b.trees.len()
        && a.trees.iter().zip(b.trees.iter()).all(|pair| match pair {
            (TokenTree::Group(x), TokenTree::Group(y)) => {
                x.delimiter == y.delimiter && same(&x.stream, &y.stream)
            }
            (TokenTree::Ident(x), TokenTree::Ident(y)) => x.name == y.name,
            (TokenTree::Punct(x), TokenTree::Punct(y)) => x.ch == y.ch && x.spacing == y.spacing,
            (TokenTree::Literal(x), TokenTree::Literal(y)) => x.text == y.text,
            _ => false,
        })
}

fn assert_stream_eq(a: &TokenStream, b: &TokenStream) {
    assert!(same(a, b), "token streams differ:\n{:?}\n{:?}", a, b);
}

fn pound() -> TokenTree {
    TokenTree::Punct(Punct { ch: '#', spacing: Spacing::Alone, span: Span::call_site() })
}

// The expressions are captured exactly as written, whatever they hold.
#[test]
fn extracts_expression_verbatim() {
    let input = tokens(r#"#{ [] () for x ? << 0i16 "" }"#);

    let replaced = replace(input);

    assert_eq!(replaced.variables.len(), 1);
    assert_eq!(replaced.expressions.len(), 1);
    let variable = Ident {
        name: replaced.variables[0].name.clone(),
        span: replaced.variables[0].span,
    };
    let expression = &replaced.expressions[0];

    let expected = TokenStream { trees: vec![pound(), TokenTree::Ident(variable)] };

    assert_stream_eq(expression, &tokens(r#"[] () for x ? << 0i16 """#));
    assert_stream_eq(&replaced.output, &expected);
}

// Expression interpolations are replaced with variable interpolations.
#[test]
fn replaces_expression_interpolations() {
    let input = tokens("let #{x} = 0; impl #{y} for #{z} {}");

    let replaced = replace(input);

    assert_eq!(replaced.variables.len(), 3);
    assert_eq!(replaced.expressions.len(), 3);
    let names: Vec<String> = replaced.variables.iter().map(|v| v.name.clone()).collect();

    let expected = tokens(&format!(
        "let # {} = 0; impl # {} for # {} {{}}",
        names[0], names[1], names[2]
    ));

    assert_stream_eq(&replaced.expressions[0], &tokens("x"));
    assert_stream_eq(&replaced.expressions[1], &tokens("y"));
    assert_stream_eq(&replaced.expressions[2], &tokens("z"));
    assert_stream_eq(&replaced.output, &expected);
}

// Expression interpolations are replaced within token tree groups too.
#[test]
fn replaces_expression_interpolations_in_groups() {
    let input = tokens("let Some(#{x}) = #{y} else { return Err([#{z}]); };");

    let replaced = replace(input);

    assert_eq!(replaced.variables.len(), 3);
    assert_eq!(replaced.expressions.len(), 3);
    let names: Vec<String> = replaced.variables.iter().map(|v| v.name.clone()).collect();

    let expected = tokens(&format!(
        "let Some(# {}) = # {} else {{ return Err([# {}]); }};",
        names[0], names[1], names[2]
    ));

    assert_stream_eq(&replaced.expressions[0], &tokens("x"));
    assert_stream_eq(&replaced.expressions[1], &tokens("y"));
    assert_stream_eq(&replaced.expressions[2], &tokens("z"));
    assert_stream_eq(&replaced.output, &expected);
}

// Lookalikes are left alone: an empty interpolation, a `#` that belongs to a
// raw string literal, and `#{x}` inside a string literal.
#[test]
fn skips_invalid_expression_interpolations() {
    let source = r####"
        // The interpolation contains an empty token stream.
        #{}
        // `#` is not a punctuation token, it belongs to the raw string
        // literal.
        r#""#{x}
        // `#` is not a punctuation token and `{x}` is not a braced group.
        // They're all part of a string literal.
        "#{x}"
    "####;
    let input = tokens(source);

    let replaced = replace(tokens(source));

    assert!(replaced.variables.is_empty());
    assert!(replaced.expressions.is_empty());

    let expected = input;

    assert_stream_eq(&replaced.output, &expected);
}

// Variable interpolations are left to the underlying macro.
#[test]
fn skips_variable_interpolations() {
    let source = "impl Shape for #shape { const SIDES: usize = #sides; }";
    let input = tokens(source);

    let replaced = replace(tokens(source));

    assert!(replaced.variables.is_empty());
    assert!(replaced.expressions.is_empty());

    let expected = input;

    assert_stream_eq(&replaced.output, &expected);
}

#[test]
fn variables_are_numbered_in_scan_order() {
    let site = Span::call_site();
    let replaced = replace_at(tokens("( #{a} [ #{b} ] ) #{c}"), site);

    let names: Vec<&str> = replaced.variables.iter().map(|v| v.name.as_str()).collect();
    assert_eq!(names, vec!["__interpolation0", "__interpolation1", "__interpolation2"]);
    assert_stream_eq(&replaced.expressions[0], &tokens("a"));
    assert_stream_eq(&replaced.expressions[1], &tokens("b"));
    assert_stream_eq(&replaced.expressions[2], &tokens("c"));
    assert_stream_eq(
        &replaced.output,
        &tokens("( # __interpolation0 [ # __interpolation1 ] ) # __interpolation2"),
    );
}

#[test]
fn nested_interpolation_stays_inside_the_expression() {
    let replaced = replace(tokens("#{ f(#{y}) }"));

    assert_eq!(replaced.expressions.len(), 1);
    assert_stream_eq(&replaced.expressions[0], &tokens("f(#{y})"));
    assert_stream_eq(&replaced.output, &tokens("# __interpolation0"));
}

#[test]
fn pound_before_pound_is_kept() {
    let replaced = replace(tokens("# #{x} #[attr] #(#xs)*"));

    assert_eq!(replaced.expressions.len(), 1);
    assert_stream_eq(&replaced.expressions[0], &tokens("x"));
    assert_stream_eq(&replaced.output, &tokens("# # __interpolation0 #[attr] #(#xs)*"));
}

#[test]
fn rewritten_output_has_no_interpolation_left() {
    let source = "let #{x} = ( #{ y } , { #{z} } );";
    let first = replace(tokens(source));
    assert_eq!(first.expressions.len(), 3);

    let second = replace(replace(tokens(source)).output);
    assert!(second.expressions.is_empty());
    assert!(second.variables.is_empty());
    assert_stream_eq(&second.output, &first.output);
}

#[test]
fn empty_input() {
    let replaced = replace(TokenStream { trees: Vec::new() });
    assert!(replaced.variables.is_empty());
    assert!(replaced.expressions.is_empty());
    assert!(replaced.output.trees.is_empty());
}

#[test]
fn group_spans_and_delimiters_are_kept() {
    let replaced = replace(tokens("{ [ ( #{x} ) ] }"));
    match &replaced.output.trees[0] {
        TokenTree::Group(g) => assert_eq!(g.delimiter, Delimiter::Brace),
        other => panic!("expected a group, got {:?}", other),
    }
    assert_stream_eq(&replaced.output, &tokens("{ [ ( # __interpolation0 ) ] }"));
}

#[test]
fn variable_names() {
    assert_eq!(var_name_string(0, 0), "__interpolation0");
    assert_eq!(var_name_string(0, 7), "__interpolation7");
    assert_eq!(var_name_string(0, 10), "__interpolation10");
    assert_eq!(var_name_string(0, 1234567), "__interpolation1234567");
    assert_eq!(var_name_string(0, usize::MAX), format!("__interpolation{}", usize::MAX));
    assert_eq!(var_name_string(3, 42), "_____interpolation42");
}

#[test]
fn many_interpolations_get_distinct_names() {
    let source: String = (0..25).map(|i| format!("#{{e{}}} ", i)).collect();
    let replaced = replace(tokens(&source));
    assert_eq!(replaced.variables.len(), 25);
    for (k, v) in replaced.variables.iter().enumerate() {
        assert_eq!(v.name, format!("__interpolation{}", k));
        assert_stream_eq(&replaced.expressions[k], &tokens(&format!("e{}", k)));
    }
}

/// Puts each expression back where its variable stands, scanning as the
/// rewrite does.
fn fill(stream: &TokenStream, expressions: &[TokenStream], next: &mut usize) -> TokenStream {
    let mut trees = Vec::new();
    let mut i = 0;
    while i < stream.trees.len() {
        let is_variable = matches!(&stream.trees[i], TokenTree::Punct(p) if p.ch == '#')
            && matches!(stream.trees.get(i + 1),
                Some(TokenTree::Ident(v)) if v.name == format!("__interpolation{}", *next));
        if is_variable {
            trees.push(pound());
            let stream = tokens(&format!("{{ {} }}", render(&expressions[*next])));
            trees.extend(stream.trees);
            *next += 1;
            i += 2;
        } else {
            trees.push(match &stream.trees[i] {
                TokenTree::Group(g) => TokenTree::Group(Group {
                    delimiter: g.delimiter,
                    stream: fill(&g.stream, expressions, next),
                    span: g.span,
                }),
                TokenTree::Ident(v) => TokenTree::Ident(Ident { name: v.name.clone(), span: v.span }),
                TokenTree::Punct(p) => TokenTree::Punct(Punct { ch: p.ch, spacing: p.spacing, span: p.span }),
                TokenTree::Literal(l) => {
                    TokenTree::Literal(Literal { text: l.text.clone(), span: l.span })
                }
            });
            i += 1;
        }
    }
    TokenStream { trees }
}

fn render(stream: &TokenStream) -> String {
    stream
        .trees
        .iter()
        .map(|tree| match tree {
            TokenTree::Group(g) => {
                let (open, close) = match g.delimiter {
                    Delimiter::Parenthesis => ("(", ")"),
                    Delimiter::Brace => ("{", "}"),
                    Delimiter::Bracket => ("[", "]"),
                    Delimiter::Invisible => ("", ""),
                };
                format!("{}{}{} ", open, render(&g.stream), close)
            }
            TokenTree::Ident(v) => format!("{} ", v.name),
            TokenTree::Punct(p) => match p.spacing {
                Spacing::Joint => p.ch.to_string(),
                Spacing::Alone => format!("{} ", p.ch),
            },
            TokenTree::Literal(l) => format!("{} ", l.text),
        })
        .collect()
}

#[test]
fn filling_expressions_back_gives_the_input() {
    let source = "fn #{name}(x: #{ty}) -> [u8; #{ N + 1 }] { (#{body}, { #{ a.b() } }) }";
    let replaced = replace(tokens(source));
    assert_eq!(replaced.expressions.len(), 5);

    let mut next = 0;
    let filled = fill(&replaced.output, &replaced.expressions, &mut next);
    assert_eq!(next, 5);
    assert_stream_eq(&filled, &tokens(source));
}

#[test]
fn hand_written_variable_is_not_captured() {
    // The input interpolates the caller's `__interpolation0` by hand; the
    // binding of its expression interpolation gets a name it cannot capture.
    let replaced = replace(tokens("# __interpolation0 #{x}"));
    assert_eq!(replaced.variables[0].name, "___interpolation0");
    assert_stream_eq(&replaced.output, &tokens("# __interpolation0 # ___interpolation0"));
}

#[test]
fn fresh_names_look_inside_groups_expressions_and_raw_identifiers() {
    assert_eq!(replace(tokens("{ [ ___interpolation7 ] } #{x}")).variables[0].name, "____interpolation0");
    assert_eq!(replace(tokens("#{ __interpolation_tmp } #{y}")).variables[1].name, "___interpolation1");
    assert_eq!(replace(tokens("r#__interpolation3 #{z}")).variables[0].name, "___interpolation0");
    // Names that only look alike keep the plain form.
    assert_eq!(replace(tokens("_interpolation __interp _x __ #{w}")).variables[0].name, "__interpolation0");
}

#[test]
fn rewriting_a_concatenation_rewrites_each_part() {
    let whole = replace(tokens("let #{x} = [#{y}]; f(#{z})"));
    let first = replace(tokens("let #{x} = [#{y}];"));
    let second = replace(tokens("f(#{z})"));

    assert_eq!(whole.expressions.len(), 3);
    assert_stream_eq(&whole.expressions[2], &tokens("z"));
    let mut joined: Vec<TokenTree> = first.output.trees;
    joined.extend(second.output.trees);
    // In the whole, the second part is numbered after the expressions of the
    // first; rewritten alone, it is numbered from zero.
    assert_stream_eq(
        &whole.output,
        &tokens("let # __interpolation0 = [# __interpolation1]; f(# __interpolation2)"),
    );
    assert_stream_eq(
        &TokenStream { trees: joined },
        &tokens("let # __interpolation0 = [# __interpolation1]; f(# __interpolation0)"),
    );
}

#[test]
fn interpolation_across_a_join_is_one_interpolation() {
    let whole = replace(tokens("a # {x}"));
    assert_eq!(whole.expressions.len(), 1);
    let left = replace(tokens("a #"));
    let right = replace(tokens("{x}"));
    assert!(left.expressions.is_empty() && right.expressions.is_empty());
}

#[test]
fn walking_twice_changes_nothing() {
    let site = Span::call_site();
    let mut variables = Vec::new();
    let mut expressions = Vec::new();
    let once = walk(tokens("a #{x} (b #{y})"), 0, &mut variables, &mut expressions, site);
    assert_eq!(expressions.len(), 2);
    let mut again_variables = Vec::new();
    let mut again_expressions = Vec::new();
    let twice = walk(once, 0, &mut again_variables, &mut again_expressions, site);
    assert!(again_expressions.is_empty() && again_variables.is_empty());
    assert_stream_eq(&twice, &tokens("a # __interpolation0 (b # __interpolation1)"));
}
