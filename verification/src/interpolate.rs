use vstd::prelude::*;

use crate::naming::{ident_depth, lemma_var_name_depth, name_depth, unraw, var_name, var_name_string};
use crate::tokens::{call_site, Delimiter, Group, Ident, Punct, Spacing, TokenStream, TokenTree, Tree, tree_view, trees_view};

verus! {

/// `s` begins with an expression interpolation: a `#` followed by a brace
/// group that holds at least one token.
pub open spec fn starts_with_interpolation(s: Seq<Tree>) -> bool {
    &&& s.len() >= 2
    &&& s[0] matches Tree::Punct { ch, .. } && ch == '#'
    &&& s[1] matches Tree::Group { delimiter, stream, .. } && delimiter == Delimiter::Brace
        && stream.len() > 0
}

/// The tokens inside a group (empty for any other token).
pub open spec fn group_stream(t: Tree) -> Seq<Tree> {
    match t {
        Tree::Group { stream, .. } => stream,
        _ => Seq::empty(),
    }
}

/// The identifier that stands for the `k`-th interpolated expression.
pub open spec fn interpolation_ident(depth: nat, k: nat, site: proc_macro2::Span) -> Tree {
    Tree::Ident { name: var_name(depth, k), span: site }
}

/// Rewrites every expression interpolation `#{e}` of `s`, in the order in
/// which a left-to-right scan meets them, into `#` followed by the variable
/// that will be bound to `e` (`var_name(depth, k)`, spanned at `site`);
/// numbering starts at `first`. Groups are
/// rewritten in place, keeping their delimiter and span; the tokens of an
/// interpolated expression are taken verbatim and not rewritten.
/// Returns the rewritten tokens and the interpolated expressions in order.
pub open spec fn rewrite(s: Seq<Tree>, depth: nat, first: nat, site: proc_macro2::Span) -> (Seq<Tree>, Seq<Seq<Tree>>)
    decreases s,
{
    if s.len() == 0 {
        (Seq::empty(), Seq::empty())
    } else if starts_with_interpolation(s) {
        let rest = rewrite(s.skip(2), depth, first + 1, site);
        (seq![s[0], interpolation_ident(depth, first, site)] + rest.0, seq![group_stream(s[1])] + rest.1)
    } else {
        match s[0] {
            Tree::Group { delimiter, stream, span } => {
                let inner = rewrite(stream, depth, first, site);
                let rest = rewrite(s.drop_first(), depth, first + inner.1.len(), site);
                (
                    seq![Tree::Group { delimiter, stream: inner.0, span }] + rest.0,
                    inner.1 + rest.1,
                )
            },
            _ => {
                let rest = rewrite(s.drop_first(), depth, first, site);
                (seq![s[0]] + rest.0, rest.1)
            },
        }
    }
}

/// The values of a sequence of token streams.
pub open spec fn streams_view(v: Seq<TokenStream>) -> Seq<Seq<Tree>> {
    Seq::new(v.len(), |i: int| v[i]@)
}

/// `variables[k]` is the identifier bound to `expressions[k]` for every `k`.
pub open spec fn bound_in_order(
    variables: Seq<Ident>,
    expressions: Seq<TokenStream>,
    depth: nat,
    site: proc_macro2::Span,
) -> bool {
    &&& variables.len() == expressions.len()
    &&& forall|k: int| 0 <= k < variables.len() ==>
        #[trigger] variables[k].name@ == var_name(depth, k as nat) && variables[k].span == site
}

fn is_pound(t: &TokenTree) -> (b: bool)
    ensures
        b <==> (t@ matches Tree::Punct { ch, .. } && ch == '#'),
{
    match t {
        TokenTree::Punct(p) => p.ch == '#',
        _ => false,
    }
}

fn is_braced_nonempty(t: &TokenTree) -> (b: bool)
    ensures
        b <==> (t@ matches Tree::Group { delimiter, stream, .. } && delimiter == Delimiter::Brace
            && stream.len() > 0),
{
    match t {
        TokenTree::Group(g) => g.delimiter == Delimiter::Brace && g.stream.trees.len() > 0,
        _ => false,
    }
}

/// Rewrites the expression interpolations of `input` (see `rewrite`), pushing
/// each interpolated expression onto `expressions` and the identifier that
/// binds it onto `variables`.
pub fn walk(
    input: TokenStream,
    depth: usize,
    variables: &mut Vec<Ident>,
    expressions: &mut Vec<TokenStream>,
    site: proc_macro2::Span,
) -> (output: TokenStream)
    requires
        bound_in_order(old(variables)@, old(expressions)@, depth as nat, site),
    ensures
        output@ == rewrite(input@, depth as nat, old(expressions)@.len(), site).0,
        streams_view(final(expressions)@) == streams_view(old(expressions)@) + rewrite(
            input@, depth as nat,
            old(expressions)@.len(),
            site,
        ).1,
        bound_in_order(final(variables)@, final(expressions)@, depth as nat, site),
    decreases input,
{
    let ghost start: nat = expressions@.len();
    let ghost whole = input@;
    let ghost trees0 = input.trees@;
    let ghost exprs0 = streams_view(expressions@);
    let mut trees = input.trees;
    let n = trees.len();
    let mut out: Vec<TokenTree> = Vec::new();
    let mut i: usize = 0;
    assert(whole.skip(0) =~= whole);
    assert(streams_view(expressions@).skip(start as int) =~= Seq::<Seq<Tree>>::empty());
    while i < n
        invariant
            n == trees@.len() == trees0.len(),
            whole == trees_view(trees0),
            trees0 == input.trees@,
            i <= n,
            forall|k: int| i <= k < n ==> trees@[k] == trees0[k],
            bound_in_order(variables@, expressions@, depth as nat, site),
            start <= expressions@.len(),
            exprs0 == streams_view(expressions@).take(start as int),
            trees_view(out@) + rewrite(whole.skip(i as int), depth as nat, expressions@.len(), site).0
                == rewrite(whole, depth as nat, start, site).0,
            streams_view(expressions@).skip(start as int) + rewrite(
                whole.skip(i as int), depth as nat,
                expressions@.len(),
                site,
            ).1 == rewrite(whole, depth as nat, start, site).1,
        decreases n - i,
    {
        let ghost first: nat = expressions@.len();
        let ghost rest_in = whole.skip(i as int);
        assert(rest_in[0] == tree_view(trees0[i as int]));
        // Take the token out of `trees`, leaving a stand-in that is never read.
        let mut tree = TokenTree::Punct(Punct { ch: '#', spacing: Spacing::Alone, span: site });
        std::mem::swap(&mut tree, &mut trees[i]);
        if is_pound(&tree) && i + 1 < n && is_braced_nonempty(&trees[i + 1]) {
            assert(rest_in[1] == tree_view(trees0[i + 1]));
            assert(starts_with_interpolation(rest_in));
            let mut next = TokenTree::Punct(Punct { ch: '#', spacing: Spacing::Alone, span: site });
            std::mem::swap(&mut next, &mut trees[i + 1]);
            match next {
                TokenTree::Group(group) => {
                    let name = var_name_string(depth, expressions.len());
                    let var = Ident { name: name.clone(), span: site };
                    let ghost out0 = out@;
                    let ghost ex0 = expressions@;
                    variables.push(Ident { name, span: site });
                    expressions.push(group.stream);
                    out.push(tree);
                    out.push(TokenTree::Ident(var));
                    proof {
                        assert(rest_in.skip(2) =~= whole.skip(i + 2));
                        assert(trees_view(out@) =~= trees_view(out0) + seq![
                            rest_in[0],
                            interpolation_ident(depth as nat, first, site),
                        ]);
                        assert(streams_view(expressions@) =~= streams_view(ex0).push(
                            group_stream(rest_in[1]),
                        ));
                        assert(streams_view(expressions@).skip(start as int) =~= streams_view(
                            ex0,
                        ).skip(start as int).push(group_stream(rest_in[1])));
                        assert(streams_view(expressions@).take(start as int) =~= streams_view(
                            ex0,
                        ).take(start as int));
                    }
                },
                _ => {
                    proof {
                        assert(false);
                    }
                },
            }
            i = i + 2;
        } else {
            assert(!starts_with_interpolation(rest_in));
            let ghost out0 = out@;
            let ghost ex0 = expressions@;
            match tree {
                TokenTree::Group(group) => {
                    let Group { delimiter, stream, span } = group;
                    assert(decreases_to!(input => stream));
                    let inner = walk(stream, depth, variables, expressions, site);
                    out.push(TokenTree::Group(Group { delimiter, stream: inner, span }));
                    proof {
                        assert(rest_in.drop_first() =~= whole.skip(i + 1));
                        assert(streams_view(expressions@).skip(start as int) =~= streams_view(
                            ex0,
                        ).skip(start as int) + rewrite(group_stream(rest_in[0]), depth as nat, first, site).1);
                        assert(streams_view(expressions@).take(start as int) =~= streams_view(
                            ex0,
                        ).take(start as int));
                    }
                },
                other => {
                    out.push(other);
                    proof {
                        assert(rest_in.drop_first() =~= whole.skip(i + 1));
                        assert(trees_view(out@) =~= trees_view(out0).push(rest_in[0]));
                    }
                },
            }
            i = i + 1;
        }
    }
    proof {
        assert(whole.skip(n as int) =~= Seq::<Tree>::empty());
        let sv = streams_view(expressions@);
        assert(sv =~= sv.take(start as int) + sv.skip(start as int));
        assert(trees_view(out@) =~= rewrite(whole, depth as nat, start, site).0);
    }
    TokenStream { trees: out }
}

/// What `replace` returns: the interpolated expressions in order, the
/// variables bound to them, and the input with each expression
/// interpolation turned into an interpolation of its variable.
#[derive(Debug)]
pub struct Replaced {
    pub variables: Vec<Ident>,
    pub expressions: Vec<TokenStream>,
    pub output: TokenStream,
}

/// The depth of a token's names: that of an identifier's name (raw marker
/// ignored), the greatest depth within a group, zero otherwise.
pub open spec fn tree_depth(t: Tree) -> nat
    decreases t,
{
    match t {
        Tree::Ident { name, .. } => name_depth(unraw(name)),
        Tree::Group { stream, .. } => depth_needed(stream),
        _ => 0,
    }
}

/// The least depth of variable names that no identifier of `s`, at any
/// nesting, can be mistaken for: the greatest depth of its names.
pub open spec fn depth_needed(s: Seq<Tree>) -> nat
    decreases s,
{
    if s.len() == 0 {
        0
    } else {
        let d = tree_depth(s.last());
        let e = depth_needed(s.drop_last());
        if d > e { d } else { e }
    }
}

/// `s` has, at some nesting, an identifier that names the variable `x`
/// (written as `x` or as `r#x`).
pub open spec fn mentions(s: Seq<Tree>, x: Seq<char>) -> bool
    decreases s,
{
    if s.len() == 0 {
        false
    } else {
        mentions(s.drop_last(), x) || match s.last() {
            Tree::Ident { name, .. } => unraw(name) == x,
            Tree::Group { stream, .. } => mentions(stream, x),
            _ => false,
        }
    }
}

proof fn lemma_mentions_depth(s: Seq<Tree>, x: Seq<char>)
    requires
        mentions(s, x),
    ensures
        name_depth(x) <= depth_needed(s),
    decreases s,
{
    assert(tree_depth(s.last()) <= depth_needed(s));
    assert(depth_needed(s.drop_last()) <= depth_needed(s));
    if mentions(s.drop_last(), x) {
        lemma_mentions_depth(s.drop_last(), x);
    } else {
        match s.last() {
            Tree::Group { stream, .. } => {
                lemma_mentions_depth(stream, x);
                assert(tree_depth(s.last()) == depth_needed(stream));
            },
            Tree::Ident { name, .. } => {
                assert(tree_depth(s.last()) == name_depth(unraw(name)));
            },
            _ => {},
        }
    }
}

/// The variables that bind the interpolated expressions are fresh: no
/// identifier of the input, at any nesting and inside interpolated
/// expressions too, names one of them. So an interpolation written by hand,
/// such as `#__interpolation0`, still reaches the caller's variable.
pub proof fn law_variables_fresh(s: Seq<Tree>, k: nat)
    ensures
        !mentions(s, var_name(depth_needed(s), k)),
{
    lemma_var_name_depth(depth_needed(s), k);
    if mentions(s, var_name(depth_needed(s), k)) {
        lemma_mentions_depth(s, var_name(depth_needed(s), k));
    }
}

/// The depth of the variable names for `s` (see `depth_needed`).
fn needed_depth(s: &TokenStream) -> (d: usize)
    ensures
        d == depth_needed(s@),
    decreases s,
{
    let n = s.trees.len();
    let mut d: usize = 0;
    let mut i: usize = 0;
    assert(s@.take(0) =~= Seq::<Tree>::empty());
    while i < n
        invariant
            n == s.trees@.len() == s@.len(),
            i <= n,
            d == depth_needed(s@.take(i as int)),
        decreases n - i,
    {
        let e: usize = match &s.trees[i] {
            TokenTree::Ident(id) => ident_depth(&id.name),
            TokenTree::Group(g) => {
                assert(decreases_to!(s => g.stream));
                needed_depth(&g.stream)
            },
            _ => 0,
        };
        assert(e == tree_depth(s@[i as int]));
        assert(s@.take(i + 1).drop_last() =~= s@.take(i as int));
        assert(s@.take(i + 1).last() == s@[i as int]);
        if e > d {
            d = e;
        }
        i = i + 1;
    }
    assert(s@.take(n as int) =~= s@);
    d
}

/// `r` is what rewriting `input` gives when fresh identifiers carry `site`.
pub open spec fn replaced_from(r: Replaced, input: Seq<Tree>, site: proc_macro2::Span) -> bool {
    &&& r.output@ == rewrite(input, depth_needed(input), 0, site).0
    &&& streams_view(r.expressions@) == rewrite(input, depth_needed(input), 0, site).1
    &&& bound_in_order(r.variables@, r.expressions@, depth_needed(input), site)
    &&& forall|k: int| 0 <= k < r.variables@.len() ==> !mentions(input, #[trigger] r.variables@[k].name@)
}

/// Replaces each expression interpolation `#{e}` of `input` with `#v`, where
/// `v` is the variable `var_name(depth_needed(input@), k)`, spanned at `site`,
/// `k` counting the interpolations met so far. The variables are fresh
/// (see `law_variables_fresh`).
pub fn replace_at(input: TokenStream, site: proc_macro2::Span) -> (r: Replaced)
    ensures
        replaced_from(r, input@, site),
{
    let depth = needed_depth(&input);
    let mut variables: Vec<Ident> = Vec::new();
    let mut expressions: Vec<TokenStream> = Vec::new();
    assert(streams_view(expressions@) =~= Seq::<Seq<Tree>>::empty());
    let output = walk(input, depth, &mut variables, &mut expressions, site);
    assert(streams_view(expressions@) =~= rewrite(input@, depth as nat, 0, site).1);
    assert forall|k: int| 0 <= k < variables@.len() implies !mentions(
        input@,
        #[trigger] variables@[k].name@,
    ) by {
        law_variables_fresh(input@, k as nat);
    }
    Replaced { variables, expressions, output }
}

/// `replace_at` with the fresh variables spanned at the macro's call site.
pub fn replace(input: TokenStream) -> (r: Replaced)
    ensures
        exists|site: proc_macro2::Span| replaced_from(r, input@, site),
{
    let site = call_site();
    replace_at(input, site)
}

/// The number of expression interpolations in `s`, counted as `rewrite`
/// meets them.
pub open spec fn interpolation_count(s: Seq<Tree>) -> nat
    decreases s,
{
    if s.len() == 0 {
        0
    } else if starts_with_interpolation(s) {
        1 + interpolation_count(s.skip(2))
    } else {
        match s[0] {
            Tree::Group { stream, .. } => interpolation_count(stream) + interpolation_count(
                s.drop_first(),
            ),
            _ => interpolation_count(s.drop_first()),
        }
    }
}

/// Rewriting keeps the number of tokens.
pub proof fn lemma_rewrite_len(s: Seq<Tree>, depth: nat, first: nat, site: proc_macro2::Span)
    ensures
        rewrite(s, depth, first, site).0.len() == s.len(),
    decreases s,
{
    if s.len() == 0 {
    } else if starts_with_interpolation(s) {
        lemma_rewrite_len(s.skip(2), depth, first + 1, site);
    } else {
        match s[0] {
            Tree::Group { stream, .. } => {
                let inner = rewrite(stream, depth, first, site);
                lemma_rewrite_len(s.drop_first(), depth, first + inner.1.len(), site);
            },
            _ => {
                lemma_rewrite_len(s.drop_first(), depth, first, site);
            },
        }
    }
}

/// The first rewritten token is the first token, except that the contents of
/// a group are rewritten (keeping their number).
pub proof fn lemma_rewrite_head(s: Seq<Tree>, depth: nat, first: nat, site: proc_macro2::Span)
    requires
        s.len() > 0,
    ensures
        match s[0] {
            Tree::Group { delimiter, stream, span } => rewrite(s, depth, first, site).0[0] matches Tree::Group {
                delimiter: d,
                stream: st,
                span: sp,
            } && d == delimiter && sp == span && st.len() == stream.len(),
            _ => rewrite(s, depth, first, site).0[0] == s[0],
        },
{
    if !starts_with_interpolation(s) {
        if let Tree::Group { stream, .. } = s[0] {
            lemma_rewrite_len(stream, depth, first, site);
        }
    }
}

/// Every expression interpolation of `s` yields exactly one expression.
pub proof fn law_one_expression_per_interpolation(s: Seq<Tree>, depth: nat, first: nat, site: proc_macro2::Span)
    ensures
        rewrite(s, depth, first, site).1.len() == interpolation_count(s),
    decreases s,
{
    if s.len() == 0 {
    } else if starts_with_interpolation(s) {
        law_one_expression_per_interpolation(s.skip(2), depth, first + 1, site);
    } else {
        match s[0] {
            Tree::Group { stream, .. } => {
                law_one_expression_per_interpolation(stream, depth, first, site);
                let inner = rewrite(stream, depth, first, site);
                law_one_expression_per_interpolation(s.drop_first(), depth, first + inner.1.len(), site);
            },
            _ => {
                law_one_expression_per_interpolation(s.drop_first(), depth, first, site);
            },
        }
    }
}

/// Tokens without expression interpolations pass through unchanged, and no
/// expression is taken from them.
pub proof fn law_unchanged_without_interpolation(s: Seq<Tree>, depth: nat, first: nat, site: proc_macro2::Span)
    requires
        interpolation_count(s) == 0,
    ensures
        rewrite(s, depth, first, site).0 == s,
        rewrite(s, depth, first, site).1 == Seq::<Seq<Tree>>::empty(),
    decreases s,
{
    if s.len() == 0 {
    } else if starts_with_interpolation(s) {
    } else {
        match s[0] {
            Tree::Group { delimiter, stream, span } => {
                law_unchanged_without_interpolation(stream, depth, first, site);
                law_unchanged_without_interpolation(s.drop_first(), depth, first, site);
                assert(seq![Tree::Group { delimiter, stream, span }] + s.drop_first() =~= s);
            },
            _ => {
                law_unchanged_without_interpolation(s.drop_first(), depth, first, site);
                assert(seq![s[0]] + s.drop_first() =~= s);
            },
        }
    }
}

/// No expression interpolation is left after rewriting: the underlying
/// macro sees only variable interpolations.
pub proof fn law_rewritten_has_no_interpolation(s: Seq<Tree>, depth: nat, first: nat, site: proc_macro2::Span)
    ensures
        interpolation_count(rewrite(s, depth, first, site).0) == 0,
    decreases s,
{
    let out = rewrite(s, depth, first, site).0;
    if s.len() == 0 {
    } else if starts_with_interpolation(s) {
        let rest = rewrite(s.skip(2), depth, first + 1, site).0;
        law_rewritten_has_no_interpolation(s.skip(2), depth, first + 1, site);
        assert(out.drop_first() =~= seq![interpolation_ident(depth, first, site)] + rest);
        assert(out.drop_first().drop_first() =~= rest);
        assert(!starts_with_interpolation(out.drop_first()));
        assert(interpolation_count(out.drop_first()) == interpolation_count(rest));
        assert(!starts_with_interpolation(out));
        assert(interpolation_count(out) == interpolation_count(out.drop_first()));
    } else {
        match s[0] {
            Tree::Group { stream, .. } => {
                let inner = rewrite(stream, depth, first, site);
                law_rewritten_has_no_interpolation(stream, depth, first, site);
                law_rewritten_has_no_interpolation(s.drop_first(), depth, first + inner.1.len(), site);
                assert(out.drop_first() =~= rewrite(s.drop_first(), depth, first + inner.1.len(), site).0);
                assert(out[0] == Tree::Group { delimiter: s[0]->delimiter, stream: inner.0, span: s[0]->Group_span });
                assert(!starts_with_interpolation(out));
            },
            _ => {
                let rest = rewrite(s.drop_first(), depth, first, site).0;
                law_rewritten_has_no_interpolation(s.drop_first(), depth, first, site);
                assert(out.drop_first() =~= rest);
                lemma_rewrite_len(s.drop_first(), depth, first, site);
                if s.len() >= 2 {
                    lemma_rewrite_head(s.drop_first(), depth, first, site);
                    assert(out[1] == rest[0]);
                    assert(s.drop_first()[0] == s[1]);
                }
                assert(!starts_with_interpolation(out));
                assert(interpolation_count(out) == interpolation_count(out.drop_first()));
            },
        }
    }
}

/// Rewriting twice is rewriting once: the second pass finds no expression
/// interpolation, takes no expression, and returns its input unchanged,
/// whatever numbering and span it uses.
pub proof fn law_rewrite_idempotent(
    s: Seq<Tree>,
    depth: nat,
    first: nat,
    site: proc_macro2::Span,
    depth_again: nat,
    again: nat,
    site_again: proc_macro2::Span,
)
    ensures
        rewrite(rewrite(s, depth, first, site).0, depth_again, again, site_again).0 == rewrite(s, depth, first, site).0,
        rewrite(rewrite(s, depth, first, site).0, depth_again, again, site_again).1 == Seq::<Seq<Tree>>::empty(),
{
    law_rewritten_has_no_interpolation(s, depth, first, site);
    law_unchanged_without_interpolation(rewrite(s, depth, first, site).0, depth_again, again, site_again);
}

/// `a` ends with a `#` and `b` begins with a brace group holding tokens, so
/// that `a + b` has an expression interpolation across the join.
pub open spec fn interpolation_across(a: Seq<Tree>, b: Seq<Tree>) -> bool {
    &&& a.len() > 0
    &&& b.len() > 0
    &&& a.last() matches Tree::Punct { ch, .. } && ch == '#'
    &&& b[0] matches Tree::Group { delimiter, stream, .. } && delimiter == Delimiter::Brace
        && stream.len() > 0
}

/// Rewriting a concatenation rewrites each part, the numbering of the
/// second part continuing after the expressions of the first, unless an
/// expression interpolation spans the join.
pub proof fn law_rewrite_concat(
    a: Seq<Tree>,
    b: Seq<Tree>,
    depth: nat,
    first: nat,
    site: proc_macro2::Span,
)
    requires
        !interpolation_across(a, b),
    ensures
        rewrite(a + b, depth, first, site).0 == rewrite(a, depth, first, site).0 + rewrite(
            b, depth,
            first + rewrite(a, depth, first, site).1.len(),
            site,
        ).0,
        rewrite(a + b, depth, first, site).1 == rewrite(a, depth, first, site).1 + rewrite(
            b, depth,
            first + rewrite(a, depth, first, site).1.len(),
            site,
        ).1,
    decreases a,
{
    let s = a + b;
    let ra = rewrite(a, depth, first, site);
    let rb = rewrite(b, depth, first + ra.1.len(), site);
    if a.len() == 0 {
        assert(s =~= b);
        assert(ra.0 + rb.0 =~= rb.0);
        assert(ra.1 + rb.1 =~= rb.1);
    } else {
        if a.len() == 1 {
            assert(!starts_with_interpolation(a));
            if s.len() >= 2 {
                assert(s[1] == b[0]);
                assert(a.last() == s[0]);
            }
            assert(!starts_with_interpolation(s));
        } else {
            assert(s[0] == a[0] && s[1] == a[1]);
            assert(starts_with_interpolation(s) == starts_with_interpolation(a));
        }
        if starts_with_interpolation(a) {
            let t = a.skip(2);
            assert(s.skip(2) =~= t + b);
            if t.len() > 0 {
                assert(t.last() == a.last());
            }
            law_rewrite_concat(t, b, depth, first + 1, site);
            let rt = rewrite(t, depth, first + 1, site);
            assert(ra.1 == seq![group_stream(a[1])] + rt.1);
            assert(s[1] == a[1] && s[0] == a[0]);
            assert(rewrite(s, depth, first, site).0 =~= ra.0 + rb.0);
            assert(rewrite(s, depth, first, site).1 =~= ra.1 + rb.1);
        } else {
            let t = a.drop_first();
            assert(s.drop_first() =~= t + b);
            assert(s[0] == a[0]);
            if t.len() > 0 {
                assert(t.last() == a.last());
            }
            match a[0] {
                Tree::Group { stream, .. } => {
                    let ri = rewrite(stream, depth, first, site);
                    law_rewrite_concat(t, b, depth, first + ri.1.len(), site);
                    let rt = rewrite(t, depth, first + ri.1.len(), site);
                    assert(ra.1 == ri.1 + rt.1);
                    assert(first + ri.1.len() + rt.1.len() == first + ra.1.len());
                    assert(rewrite(s, depth, first, site).0 =~= ra.0 + rb.0);
                    assert(rewrite(s, depth, first, site).1 =~= ra.1 + rb.1);
                },
                _ => {
                    law_rewrite_concat(t, b, depth, first, site);
                    assert(rewrite(s, depth, first, site).0 =~= ra.0 + rb.0);
                    assert(rewrite(s, depth, first, site).1 =~= ra.1 + rb.1);
                },
            }
        }
    }
}

} // verus!
