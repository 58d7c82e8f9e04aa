use vstd::prelude::*;

use crate::interpolate::{
    depth_needed,    interpolation_ident, replace_at, rewrite, streams_view, Replaced,
};
use crate::roundtrip::{law_rewrite_span_independent, lemma_respan_concat, lemma_respan_one, respan};
use crate::tokens::{call_site, Delimiter, Group, Ident, Punct, Spacing, TokenStream, TokenTree, Tree, trees_view};

verus! {

/// A punctuation token spanned at `site`.
pub open spec fn punct(ch: char, spacing: Spacing, site: proc_macro2::Span) -> Tree {
    Tree::Punct { ch, spacing, span: site }
}

/// An identifier spanned at `site`.
pub open spec fn ident(name: Seq<char>, site: proc_macro2::Span) -> Tree {
    Tree::Ident { name, span: site }
}

/// A group spanned at `site`.
pub open spec fn group(delimiter: Delimiter, stream: Seq<Tree>, site: proc_macro2::Span) -> Tree {
    Tree::Group { delimiter, stream, span: site }
}

/// The keyword `match`.
pub open spec fn match_keyword() -> Seq<char> {
    seq!['m', 'a', 't', 'c', 'h']
}

/// `&e0, &e1, ...,` : a reference to each expression, each followed by a comma.
pub open spec fn scrutinee(exprs: Seq<Seq<Tree>>, site: proc_macro2::Span) -> Seq<Tree>
    decreases exprs.len(),
{
    if exprs.len() == 0 {
        Seq::empty()
    } else {
        scrutinee(exprs.drop_last(), site) + seq![punct('&', Spacing::Alone, site)] + exprs.last()
            + seq![punct(',', Spacing::Alone, site)]
    }
}

/// `v0, v1, ...,` : the first `n` interpolation variables, each followed by a comma.
pub open spec fn patterns(depth: nat, n: nat, site: proc_macro2::Span) -> Seq<Tree>
    decreases n,
{
    if n == 0 {
        Seq::empty()
    } else {
        patterns(depth, (n - 1) as nat, site) + seq![
            interpolation_ident(depth, (n - 1) as nat, site),
            punct(',', Spacing::Alone, site),
        ]
    }
}

/// The expansion of a quip macro over `input`, for the underlying macro at
/// `path`:
/// `match (&e0, &e1, ...,) { (v0, v1, ...,) => { path { output } } }`
/// where `output` is `input` with its expression interpolations rewritten
/// and `e0, e1, ...` are the interpolated expressions.
pub open spec fn expansion(path: Seq<Tree>, input: Seq<Tree>, site: proc_macro2::Span) -> Seq<Tree> {
    let depth = depth_needed(input);
    let (output, exprs) = rewrite(input, depth, 0, site);
    seq![
        ident(match_keyword(), site),
        group(Delimiter::Parenthesis, scrutinee(exprs, site), site),
        group(
            Delimiter::Brace,
            seq![
                group(Delimiter::Parenthesis, patterns(depth, exprs.len(), site), site),
                punct('=', Spacing::Joint, site),
                punct('>', Spacing::Alone, site),
                group(Delimiter::Brace, path + seq![group(Delimiter::Brace, output, site)], site),
            ],
            site,
        ),
    ]
}

/// The path `::krate::name!` of a macro.
pub open spec fn macro_path(krate: Seq<char>, name: Seq<char>, site: proc_macro2::Span) -> Seq<Tree> {
    seq![
        punct(':', Spacing::Joint, site),
        punct(':', Spacing::Alone, site),
        ident(krate, site),
        punct(':', Spacing::Joint, site),
        punct(':', Spacing::Alone, site),
        ident(name, site),
        punct('!', Spacing::Alone, site),
    ]
}

fn punct_tree(ch: char, spacing: Spacing, site: proc_macro2::Span) -> (t: TokenTree)
    ensures
        t@ == punct(ch, spacing, site),
{
    TokenTree::Punct(Punct { ch, spacing, span: site })
}

fn ident_tree(name: &str, site: proc_macro2::Span) -> (t: TokenTree)
    ensures
        t@ == ident(name@, site),
{
    TokenTree::Ident(Ident { name: name.to_owned(), span: site })
}

fn group_tree(delimiter: Delimiter, trees: Vec<TokenTree>, site: proc_macro2::Span) -> (t: TokenTree)
    ensures
        t@ == group(delimiter, trees_view(trees@), site),
{
    TokenTree::Group(Group { delimiter, stream: TokenStream { trees }, span: site })
}

proof fn lemma_trees_view_push(s: Seq<TokenTree>, t: TokenTree)
    ensures
        trees_view(s.push(t)) == trees_view(s).push(t@),
{
    assert(trees_view(s.push(t)) =~= trees_view(s).push(t@));
}

proof fn lemma_trees_view_add(s: Seq<TokenTree>, u: Seq<TokenTree>)
    ensures
        trees_view(s + u) == trees_view(s) + trees_view(u),
{
    assert(trees_view(s + u) =~= trees_view(s) + trees_view(u));
}

/// The tokens of `::krate::name!`.
pub(crate) fn macro_path_tokens(krate: &str, name: &str, site: proc_macro2::Span) -> (p: TokenStream)
    ensures
        p@ == macro_path(krate@, name@, site),
{
    let mut trees: Vec<TokenTree> = Vec::new();
    trees.push(punct_tree(':', Spacing::Joint, site));
    trees.push(punct_tree(':', Spacing::Alone, site));
    trees.push(ident_tree(krate, site));
    trees.push(punct_tree(':', Spacing::Joint, site));
    trees.push(punct_tree(':', Spacing::Alone, site));
    trees.push(ident_tree(name, site));
    trees.push(punct_tree('!', Spacing::Alone, site));
    let p = TokenStream { trees };
    assert(p@ =~= macro_path(krate@, name@, site));
    p
}

/// Builds `&e0, &e1, ...,` from the interpolated expressions.
fn scrutinee_tokens(expressions: Vec<TokenStream>, site: proc_macro2::Span) -> (trees: Vec<TokenTree>)
    ensures
        trees_view(trees@) == scrutinee(streams_view(expressions@), site),
{
    let ghost exprs = streams_view(expressions@);
    let mut expressions = expressions;
    let n = expressions.len();
    let mut trees: Vec<TokenTree> = Vec::new();
    let mut i: usize = 0;
    assert(exprs.take(0) =~= Seq::<Seq<Tree>>::empty());
    while i < n
        invariant
            n == expressions@.len() == exprs.len(),
            i <= n,
            forall|k: int| i <= k < n ==> #[trigger] expressions@[k]@ == exprs[k],
            trees_view(trees@) == scrutinee(exprs.take(i as int), site),
        decreases n - i,
    {
        let ghost ei = expressions@[i as int];
        assert(ei@ == exprs[i as int]);
        let mut e = TokenStream { trees: Vec::new() };
        std::mem::swap(&mut e, &mut expressions[i]);
        assert(e == ei);
        let ghost before = trees@;
        let amp = punct_tree('&', Spacing::Alone, site);
        trees.push(amp);
        let ghost with_amp = trees@;
        let mut inner = e.trees;
        let ghost inner_seq = inner@;
        trees.append(&mut inner);
        let ghost with_inner = trees@;
        let comma = punct_tree(',', Spacing::Alone, site);
        trees.push(comma);
        proof {
            lemma_trees_view_push(before, amp);
            lemma_trees_view_add(with_amp, inner_seq);
            lemma_trees_view_push(with_inner, comma);
            assert(trees_view(inner_seq) == exprs[i as int]);
            assert(exprs.take(i + 1).last() == exprs[i as int]);
            assert(exprs.take(i + 1).drop_last() =~= exprs.take(i as int));
            assert(trees_view(trees@) =~= scrutinee(exprs.take(i + 1), site));
        }
        i = i + 1;
    }
    assert(exprs.take(n as int) =~= exprs);
    trees
}

/// Builds `v0, v1, ...,` from the interpolation variables.
fn pattern_tokens(variables: Vec<Ident>, Ghost(depth): Ghost<nat>, site: proc_macro2::Span) -> (trees: Vec<TokenTree>)
    requires
        forall|k: int| 0 <= k < variables@.len() ==>
            #[trigger] variables@[k].name@ == crate::naming::var_name(depth, k as nat)
            && variables@[k].span == site,
    ensures
        trees_view(trees@) == patterns(depth, variables@.len(), site),
{
    let ghost vars = variables@;
    let mut variables = variables;
    let n = variables.len();
    let mut trees: Vec<TokenTree> = Vec::new();
    let mut i: usize = 0;
    while i < n
        invariant
            n == variables@.len() == vars.len(),
            i <= n,
            forall|k: int| i <= k < n ==> #[trigger] variables@[k] == vars[k],
            forall|k: int| 0 <= k < vars.len() ==>
                #[trigger] vars[k].name@ == crate::naming::var_name(depth, k as nat) && vars[k].span == site,
            trees_view(trees@) == patterns(depth, i as nat, site),
        decreases n - i,
    {
        let mut v = Ident { name: String::new(), span: site };
        std::mem::swap(&mut v, &mut variables[i]);
        let ghost before = trees@;
        let var = TokenTree::Ident(v);
        trees.push(var);
        let ghost with_var = trees@;
        let comma = punct_tree(',', Spacing::Alone, site);
        trees.push(comma);
        proof {
            lemma_trees_view_push(before, var);
            lemma_trees_view_push(with_var, comma);
            assert(var@ == interpolation_ident(depth, i as nat, site));
            assert(trees_view(trees@) =~= patterns(depth, (i + 1) as nat, site));
        }
        i = i + 1;
    }
    trees
}

/// Expands a quip macro: binds each interpolated expression of `input` to
/// its variable with a `match`, and hands the rewritten input to the
/// underlying macro at `path`. Every token it adds is spanned at `site`.
pub fn expand_at(path: TokenStream, input: TokenStream, site: proc_macro2::Span) -> (out: TokenStream)
    ensures
        out@ == expansion(path@, input@, site),
{
    let ghost depth = depth_needed(input@);
    let ghost rewritten = rewrite(input@, depth, 0, site);
    let Replaced { variables, expressions, output } = replace_at(input, site);
    let ghost count = expressions@.len();
    assert(streams_view(expressions@) == rewritten.1);
    assert(output@ == rewritten.0);
    assert(variables@.len() == count);
    let scrutinee_trees = scrutinee_tokens(expressions, site);
    let pattern_trees = pattern_tokens(variables, Ghost(depth), site);

    let mut body: Vec<TokenTree> = path.trees;
    let ghost path_trees = body@;
    let inner = TokenTree::Group(Group { delimiter: Delimiter::Brace, stream: output, span: site });
    body.push(inner);

    let mut arm: Vec<TokenTree> = Vec::new();
    let pats = group_tree(Delimiter::Parenthesis, pattern_trees, site);
    arm.push(pats);
    let eq = punct_tree('=', Spacing::Joint, site);
    arm.push(eq);
    let gt = punct_tree('>', Spacing::Alone, site);
    arm.push(gt);
    let ghost body_trees = body@;
    let body_group = group_tree(Delimiter::Brace, body, site);
    arm.push(body_group);

    let mut trees: Vec<TokenTree> = Vec::new();
    let kw = ident_tree("match", site);
    trees.push(kw);
    let scr = group_tree(Delimiter::Parenthesis, scrutinee_trees, site);
    trees.push(scr);
    let ghost arm_trees = arm@;
    let arms = group_tree(Delimiter::Brace, arm, site);
    trees.push(arms);
    proof {
        reveal_strlit("match");
        assert("match"@ =~= match_keyword());
        lemma_trees_view_push(path_trees, inner);
        assert(trees_view(body_trees) =~= path@ + seq![group(Delimiter::Brace, rewritten.0, site)]);
        assert(trees_view(arm_trees) =~= seq![pats@, eq@, gt@, body_group@]);
        assert(trees_view(trees@) =~= seq![kw@, scr@, arms@]);
        assert(count == rewritten.1.len());
        assert(body_group@ == group(Delimiter::Brace, path@ + seq![group(Delimiter::Brace, rewritten.0, site)], site));
        assert(pats@ == group(Delimiter::Parenthesis, patterns(depth, rewritten.1.len(), site), site));
        assert(scr@ == group(Delimiter::Parenthesis, scrutinee(rewritten.1, site), site));
        assert(kw@ == ident(match_keyword(), site));
    }
    TokenStream { trees }
}

/// `expand_at` with every added token spanned at the macro's call site.
pub fn expand(path: TokenStream, input: TokenStream) -> (out: TokenStream)
    ensures
        exists|site: proc_macro2::Span| out@ == expansion(path@, input@, site),
{
    let site = call_site();
    expand_at(path, input, site)
}

proof fn lemma_scrutinee_flatten(exprs: Seq<Seq<Tree>>, site: proc_macro2::Span, m: Seq<Seq<Tree>>)
    requires
        m.len() == exprs.len(),
        forall|k: int| 0 <= k < m.len() ==> #[trigger] m[k] == seq![
            Tree::Punct { ch: '&', spacing: Spacing::Alone, span: site },
        ] + exprs[k] + seq![Tree::Punct { ch: ',', spacing: Spacing::Alone, span: site }],
    ensures
        scrutinee(exprs, site) == m.flatten(),
    decreases exprs.len(),
{
    m.lemma_flatten_and_flatten_alt_are_equivalent();
    if exprs.len() > 0 {
        let d = m.drop_last();
        assert forall|k: int| 0 <= k < d.len() implies #[trigger] d[k] == seq![
            Tree::Punct { ch: '&', spacing: Spacing::Alone, span: site },
        ] + exprs.drop_last()[k] + seq![Tree::Punct { ch: ',', spacing: Spacing::Alone, span: site }] by {
            assert(d[k] == m[k]);
        }
        lemma_scrutinee_flatten(exprs.drop_last(), site, d);
        d.lemma_flatten_and_flatten_alt_are_equivalent();
        assert(m.last() == m[m.len() - 1]);
        assert(scrutinee(exprs, site) =~= d.flatten() + m.last());
    }
}

proof fn lemma_patterns_flatten(depth: nat, n: nat, site: proc_macro2::Span, m: Seq<Seq<Tree>>)
    requires
        m.len() == n,
        forall|k: int| 0 <= k < m.len() ==> #[trigger] m[k] == seq![
            Tree::Ident { name: crate::naming::var_name(depth, k as nat), span: site },
            Tree::Punct { ch: ',', spacing: Spacing::Alone, span: site },
        ],
    ensures
        patterns(depth, n, site) == m.flatten(),
    decreases n,
{
    m.lemma_flatten_and_flatten_alt_are_equivalent();
    if n > 0 {
        let d = m.drop_last();
        assert forall|k: int| 0 <= k < d.len() implies #[trigger] d[k] == seq![
            Tree::Ident { name: crate::naming::var_name(depth, k as nat), span: site },
            Tree::Punct { ch: ',', spacing: Spacing::Alone, span: site },
        ] by {
            assert(d[k] == m[k]);
        }
        lemma_patterns_flatten(depth, (n - 1) as nat, site, d);
        d.lemma_flatten_and_flatten_alt_are_equivalent();
        assert(m.last() == m[n - 1]);
        assert(patterns(depth, n, site) =~= d.flatten() + m.last());
    }
}

/// What the expansion is, written with token values alone:
/// `match (&e0, &e1, ...,) { (v0, v1, ...,) => { path { output } } }`.
/// The scrutinee is a parenthesized tuple that borrows each interpolated
/// expression, in the order in which `rewrite` takes them: entry `k` is `&`,
/// then expression `k`, then `,`. The pattern is a parenthesized tuple of
/// the variables in the same order: entry `k` is variable `k`, then `,`. So
/// variable `k` is bound to a borrow of expression `k`. The arm's body is
/// the underlying macro at `path` applied to the rewritten input. Every
/// token added is spanned at `site`.
pub proof fn law_expansion_binds_in_order(path: Seq<Tree>, input: Seq<Tree>, site: proc_macro2::Span)
    ensures
        expansion(path, input, site) == seq![
            Tree::Ident { name: seq!['m', 'a', 't', 'c', 'h'], span: site },
            Tree::Group {
                delimiter: Delimiter::Parenthesis,
                stream: rewrite(input, depth_needed(input), 0, site).1.map_values(
                    |e: Seq<Tree>|
                        seq![Tree::Punct { ch: '&', spacing: Spacing::Alone, span: site }] + e
                            + seq![Tree::Punct { ch: ',', spacing: Spacing::Alone, span: site }],
                ).flatten(),
                span: site,
            },
            Tree::Group {
                delimiter: Delimiter::Brace,
                stream: seq![
                    Tree::Group {
                        delimiter: Delimiter::Parenthesis,
                        stream: Seq::new(
                            rewrite(input, depth_needed(input), 0, site).1.len(),
                            |k: int|
                                seq![
                                    Tree::Ident {
                                        name: crate::naming::var_name(depth_needed(input), k as nat),
                                        span: site,
                                    },
                                    Tree::Punct { ch: ',', spacing: Spacing::Alone, span: site },
                                ],
                        ).flatten(),
                        span: site,
                    },
                    Tree::Punct { ch: '=', spacing: Spacing::Joint, span: site },
                    Tree::Punct { ch: '>', spacing: Spacing::Alone, span: site },
                    Tree::Group {
                        delimiter: Delimiter::Brace,
                        stream: path + seq![
                            Tree::Group {
                                delimiter: Delimiter::Brace,
                                stream: rewrite(input, depth_needed(input), 0, site).0,
                                span: site,
                            },
                        ],
                        span: site,
                    },
                ],
                span: site,
            },
        ],
{
    let depth = depth_needed(input);
    let ex = rewrite(input, depth, 0, site).1;
    let scr = ex.map_values(
        |e: Seq<Tree>|
            seq![Tree::Punct { ch: '&', spacing: Spacing::Alone, span: site }] + e
                + seq![Tree::Punct { ch: ',', spacing: Spacing::Alone, span: site }],
    );
    lemma_scrutinee_flatten(ex, site, scr);
    let pats = Seq::new(
        ex.len(),
        |k: int|
            seq![
                Tree::Ident { name: crate::naming::var_name(depth, k as nat), span: site },
                Tree::Punct { ch: ',', spacing: Spacing::Alone, span: site },
            ],
    );
    lemma_patterns_flatten(depth, ex.len(), site, pats);
}

/// Without expression interpolations the expansion binds nothing and hands
/// the input unchanged to the underlying macro:
/// `match () { () => { path { input } } }`.
pub proof fn law_expansion_without_interpolation(
    path: Seq<Tree>,
    input: Seq<Tree>,
    site: proc_macro2::Span,
)
    requires
        crate::interpolate::interpolation_count(input) == 0,
    ensures
        expansion(path, input, site) == seq![
            ident(match_keyword(), site),
            group(Delimiter::Parenthesis, Seq::empty(), site),
            group(
                Delimiter::Brace,
                seq![
                    group(Delimiter::Parenthesis, Seq::empty(), site),
                    punct('=', Spacing::Joint, site),
                    punct('>', Spacing::Alone, site),
                    group(Delimiter::Brace, path + seq![group(Delimiter::Brace, input, site)], site),
                ],
                site,
            ),
        ],
{
    crate::interpolate::law_unchanged_without_interpolation(input, depth_needed(input), 0, site);
    assert(scrutinee(Seq::<Seq<Tree>>::empty(), site) =~= Seq::<Tree>::empty());
    assert(patterns(depth_needed(input), 0, site) =~= Seq::<Tree>::empty());
}

/// The `k`-th pattern of the match arm is the variable of the `k`-th
/// interpolation, each followed by a comma.
pub proof fn law_patterns_in_order(depth: nat, n: nat, site: proc_macro2::Span)
    ensures
        patterns(depth, n, site).len() == 2 * n,
        forall|k: int| 0 <= k < n ==> #[trigger] patterns(depth, n, site)[2 * k] == (Tree::Ident {
            name: crate::naming::var_name(depth, k as nat),
            span: site,
        }) && patterns(depth, n, site)[2 * k + 1] == (Tree::Punct {
            ch: ',',
            spacing: Spacing::Alone,
            span: site,
        }),
    decreases n,
{
    if n > 0 {
        law_patterns_in_order(depth, (n - 1) as nat, site);
        let p = patterns(depth, n, site);
        let q = patterns(depth, (n - 1) as nat, site);
        assert forall|k: int| 0 <= k < n implies #[trigger] p[2 * k] == interpolation_ident(depth, 
            k as nat,
            site,
        ) && p[2 * k + 1] == punct(',', Spacing::Alone, site) by {
            if k < n - 1 {
                assert(p[2 * k] == q[2 * k]);
                assert(p[2 * k + 1] == q[2 * k + 1]);
            }
        }
    }
}

/// The scrutinee borrows each expression in order: entry `k` is `&`, then
/// expression `k`, then `,`, and there is nothing else.
pub proof fn law_scrutinee_borrows_in_order(exprs: Seq<Seq<Tree>>, site: proc_macro2::Span)
    ensures
        scrutinee(exprs, site) == exprs.map_values(
            |e: Seq<Tree>|
                seq![Tree::Punct { ch: '&', spacing: Spacing::Alone, span: site }] + e
                    + seq![Tree::Punct { ch: ',', spacing: Spacing::Alone, span: site }],
        ).flatten(),
{
    let m = exprs.map_values(
        |e: Seq<Tree>|
            seq![Tree::Punct { ch: '&', spacing: Spacing::Alone, span: site }] + e
                + seq![Tree::Punct { ch: ',', spacing: Spacing::Alone, span: site }],
    );
    lemma_scrutinee_flatten(exprs, site, m);
}

proof fn lemma_scrutinee_span_independent(
    exprs: Seq<Seq<Tree>>,
    site1: proc_macro2::Span,
    site2: proc_macro2::Span,
    sp: proc_macro2::Span,
)
    ensures
        respan(scrutinee(exprs, site1), sp) == respan(scrutinee(exprs, site2), sp),
    decreases exprs.len(),
{
    if exprs.len() > 0 {
        lemma_scrutinee_span_independent(exprs.drop_last(), site1, site2, sp);
        let a1 = scrutinee(exprs.drop_last(), site1) + seq![punct('&', Spacing::Alone, site1)];
        let a2 = scrutinee(exprs.drop_last(), site2) + seq![punct('&', Spacing::Alone, site2)];
        let b1 = a1 + exprs.last();
        let b2 = a2 + exprs.last();
        lemma_respan_concat(scrutinee(exprs.drop_last(), site1), seq![punct('&', Spacing::Alone, site1)], sp);
        lemma_respan_concat(scrutinee(exprs.drop_last(), site2), seq![punct('&', Spacing::Alone, site2)], sp);
        lemma_respan_one(punct('&', Spacing::Alone, site1), sp);
        lemma_respan_one(punct('&', Spacing::Alone, site2), sp);
        lemma_respan_concat(a1, exprs.last(), sp);
        lemma_respan_concat(a2, exprs.last(), sp);
        lemma_respan_concat(b1, seq![punct(',', Spacing::Alone, site1)], sp);
        lemma_respan_concat(b2, seq![punct(',', Spacing::Alone, site2)], sp);
        lemma_respan_one(punct(',', Spacing::Alone, site1), sp);
        lemma_respan_one(punct(',', Spacing::Alone, site2), sp);
    }
}

proof fn lemma_patterns_span_independent(
    depth: nat,
    n: nat,
    site1: proc_macro2::Span,
    site2: proc_macro2::Span,
    sp: proc_macro2::Span,
)
    ensures
        respan(patterns(depth, n, site1), sp) == respan(patterns(depth, n, site2), sp),
    decreases n,
{
    if n > 0 {
        let m = (n - 1) as nat;
        lemma_patterns_span_independent(depth, m, site1, site2, sp);
        let t1 = seq![interpolation_ident(depth, m, site1), punct(',', Spacing::Alone, site1)];
        let t2 = seq![interpolation_ident(depth, m, site2), punct(',', Spacing::Alone, site2)];
        lemma_respan_concat(patterns(depth, m, site1), t1, sp);
        lemma_respan_concat(patterns(depth, m, site2), t2, sp);
        assert(respan(t1, sp) =~= respan(t2, sp));
    }
}

/// Two expansions of the same path and input agree apart from spans: the
/// span that a call of `expand` chooses changes no token, delimiter,
/// spacing or name, and the numbering of the variables starts afresh.
pub proof fn law_expansion_span_independent(
    path: Seq<Tree>,
    input: Seq<Tree>,
    site1: proc_macro2::Span,
    site2: proc_macro2::Span,
    sp: proc_macro2::Span,
)
    ensures
        respan(expansion(path, input, site1), sp) == respan(expansion(path, input, site2), sp),
{
    let depth = depth_needed(input);
    law_rewrite_span_independent(input, depth, 0, site1, site2, sp);
    let (o1, ex) = rewrite(input, depth, 0, site1);
    let o2 = rewrite(input, depth, 0, site2).0;
    lemma_scrutinee_span_independent(ex, site1, site2, sp);
    lemma_patterns_span_independent(depth, ex.len(), site1, site2, sp);
    lemma_respan_concat(path, seq![group(Delimiter::Brace, o1, site1)], sp);
    lemma_respan_concat(path, seq![group(Delimiter::Brace, o2, site2)], sp);
    lemma_respan_one(group(Delimiter::Brace, o1, site1), sp);
    lemma_respan_one(group(Delimiter::Brace, o2, site2), sp);
    let arm1 = seq![
        group(Delimiter::Parenthesis, patterns(depth, ex.len(), site1), site1),
        punct('=', Spacing::Joint, site1),
        punct('>', Spacing::Alone, site1),
        group(Delimiter::Brace, path + seq![group(Delimiter::Brace, o1, site1)], site1),
    ];
    let arm2 = seq![
        group(Delimiter::Parenthesis, patterns(depth, ex.len(), site2), site2),
        punct('=', Spacing::Joint, site2),
        punct('>', Spacing::Alone, site2),
        group(Delimiter::Brace, path + seq![group(Delimiter::Brace, o2, site2)], site2),
    ];
    assert(respan(arm1, sp) =~= respan(arm2, sp));
    assert(respan(expansion(path, input, site1), sp) =~= respan(expansion(path, input, site2), sp));
}

} // verus!
