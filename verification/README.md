# quip

Expression interpolation `#{...}` for the quasi-quoting macros `quote!`,
`quote_spanned!`, `parse_quote!` and `parse_quote_spanned!`, with its logic
verified by Verus.

- `src/tokens.rs`: a model of token streams (`TokenStream`, `TokenTree`, ...)
  and its value `Tree`, over which contracts are stated.
- `src/interpolate.rs`: `replace`, which turns each `#{e}` into `#v` for a
  fresh variable `v` and collects the expressions, and the laws of the
  rewriting.
- `src/roundtrip.rs`: putting the expressions back gives the input back, up
  to spans (those of the braces around the expressions are dropped); also
  that the expansion does not depend on the span chosen.
- `src/naming.rs`: the variable names `__interpolation{k}`, with more
  leading underscores when the input uses names of that form, so that they
  are fresh; their distinctness.
- `src/expand.rs`: `expand`, which binds the variables with a `match` and
  hands the rewritten input to the underlying macro.
- `src/lib.rs`: the four macros, over the model.
- `app/lib.rs`: conversion between `proc_macro2` token streams and the model,
  and the macros over `proc_macro2` token streams.
