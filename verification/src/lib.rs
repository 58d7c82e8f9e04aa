//! Expression interpolation for quasi-quoting macros.
//!
//! Each macro scans its input for expression interpolations `#{...}`,
//! binds every interpolated expression to a fresh variable with a `match`,
//! and hands the input, with each `#{...}` turned into an interpolation of
//! its variable, to the underlying macro:
//!
//! - `quote::quote!` for [`quip`]
//! - `quote::quote_spanned!` for [`quip_spanned`]
//! - `syn::parse_quote!` for [`parse_quip`]
//! - `syn::parse_quote_spanned!` for [`parse_quip_spanned`]
//!
//! The variables are named `__interpolation0`, `__interpolation1`, ... When
//! the input itself uses an identifier of the form `__interpolation...`
//! (with any number of leading underscores), the variables get one
//! underscore more than any such identifier, so an interpolation written by
//! hand, such as `#__interpolation0`, still reaches the caller's variable.
//!
//! Token streams are modelled by [`TokenStream`]; its value is a sequence of
//! [`Tree`]s, over which the contracts are stated.

mod expand;
mod interpolate;
mod naming;
mod roundtrip;
mod tokens;

use vstd::prelude::*;

use crate::expand::{expansion, macro_path, macro_path_tokens};
use crate::tokens::call_site;

pub use crate::expand::{
    expand, expand_at, group, ident, law_expansion_binds_in_order, law_expansion_span_independent, law_expansion_without_interpolation,
    law_patterns_in_order, law_scrutinee_borrows_in_order,
    match_keyword, patterns, punct, scrutinee,
};
pub use crate::interpolate::{
    bound_in_order, group_stream, interpolation_count, interpolation_ident,
    law_one_expression_per_interpolation, law_variables_fresh, mentions, depth_needed, tree_depth, law_rewritten_has_no_interpolation,
    law_unchanged_without_interpolation, law_rewrite_concat, law_rewrite_idempotent,
    interpolation_across, lemma_rewrite_head, lemma_rewrite_len, replace, replace_at,
    replaced_from, rewrite, starts_with_interpolation, streams_view, walk, Replaced,
};
pub use crate::naming::{
    decimal, decimal_value, ident_depth, interpolation_word, leading_underscores, lemma_var_name_depth,
    name_depth, underscores, unraw, digit_char, digit_value, lemma_decimal_value, law_variable_names_distinct,
    name_prefix, var_name, var_name_string,
};
pub use crate::roundtrip::{
    fill, law_fill_undoes_rewrite, law_rewrite_span_independent, names_in_tree, respan, respan_tree, starts_with_variable, tree_span,
};
pub use crate::tokens::{
    tree_view, trees_view, Delimiter, Group, Ident, Literal, Punct, Spacing, TokenStream, TokenTree,
    Tree,
};

verus! {

/// The path `::quote::quote!`.
pub open spec fn quote_path(site: proc_macro2::Span) -> Seq<Tree> {
    macro_path("quote"@, "quote"@, site)
}

/// The path `::quote::quote_spanned!`.
pub open spec fn quote_spanned_path(site: proc_macro2::Span) -> Seq<Tree> {
    macro_path("quote"@, "quote_spanned"@, site)
}

/// The path `::syn::parse_quote!`.
pub open spec fn parse_quote_path(site: proc_macro2::Span) -> Seq<Tree> {
    macro_path("syn"@, "parse_quote"@, site)
}

/// The path `::syn::parse_quote_spanned!`.
pub open spec fn parse_quote_spanned_path(site: proc_macro2::Span) -> Seq<Tree> {
    macro_path("syn"@, "parse_quote_spanned"@, site)
}

/// Adds expression interpolation to `quote::quote!`.
pub fn quip(input: TokenStream) -> (out: TokenStream)
    ensures
        exists|site: proc_macro2::Span| out@ == expansion(quote_path(site), input@, site),
{
    let ghost tokens = input@;
    let site = call_site();
    let path = macro_path_tokens("quote", "quote", site);
    let out = expand_at(path, input, site);
    assert(out@ == expansion(quote_path(site), tokens, site));
    out
}

/// Adds expression interpolation to `quote::quote_spanned!`.
pub fn quip_spanned(input: TokenStream) -> (out: TokenStream)
    ensures
        exists|site: proc_macro2::Span| out@ == expansion(quote_spanned_path(site), input@, site),
{
    let ghost tokens = input@;
    let site = call_site();
    let path = macro_path_tokens("quote", "quote_spanned", site);
    let out = expand_at(path, input, site);
    assert(out@ == expansion(quote_spanned_path(site), tokens, site));
    out
}

/// Adds expression interpolation to `syn::parse_quote!`.
pub fn parse_quip(input: TokenStream) -> (out: TokenStream)
    ensures
        exists|site: proc_macro2::Span| out@ == expansion(parse_quote_path(site), input@, site),
{
    let ghost tokens = input@;
    let site = call_site();
    let path = macro_path_tokens("syn", "parse_quote", site);
    let out = expand_at(path, input, site);
    assert(out@ == expansion(parse_quote_path(site), tokens, site));
    out
}

/// Adds expression interpolation to `syn::parse_quote_spanned!`.
pub fn parse_quip_spanned(input: TokenStream) -> (out: TokenStream)
    ensures
        exists|site: proc_macro2::Span| out@ == expansion(
            parse_quote_spanned_path(site),
            input@,
            site,
        ),
{
    let ghost tokens = input@;
    let site = call_site();
    let path = macro_path_tokens("syn", "parse_quote_spanned", site);
    let out = expand_at(path, input, site);
    assert(out@ == expansion(parse_quote_spanned_path(site), tokens, site));
    out
}

} // verus!
