use vstd::prelude::*;

use crate::interpolate::{
    depth_needed, law_variables_fresh, mentions,
    interpolation_count, law_one_expression_per_interpolation, lemma_rewrite_head, lemma_rewrite_len,
    rewrite, starts_with_interpolation,
};
use crate::naming::{lemma_var_name_depth, unraw, var_name};
use crate::tokens::{Delimiter, Tree};

verus! {

/// The span of a token.
pub open spec fn tree_span(t: Tree) -> proc_macro2::Span {
    match t {
        Tree::Group { span, .. } => span,
        Tree::Ident { span, .. } => span,
        Tree::Punct { span, .. } => span,
        Tree::Literal { span, .. } => span,
    }
}

/// The token with every span in it set to `sp`.
pub open spec fn respan_tree(t: Tree, sp: proc_macro2::Span) -> Tree
    decreases t,
{
    match t {
        Tree::Group { delimiter, stream, .. } => Tree::Group {
            delimiter,
            stream: respan(stream, sp),
            span: sp,
        },
        Tree::Ident { name, .. } => Tree::Ident { name, span: sp },
        Tree::Punct { ch, spacing, .. } => Tree::Punct { ch, spacing, span: sp },
        Tree::Literal { text, .. } => Tree::Literal { text, span: sp },
    }
}

/// The tokens with every span in them set to `sp`: two token sequences
/// with equal `respan` differ at most in their spans.
pub open spec fn respan(s: Seq<Tree>, sp: proc_macro2::Span) -> Seq<Tree>
    decreases s,
{
    Seq::new(s.len(), |i: int| if 0 <= i < s.len() { respan_tree(s[i], sp) } else { arbitrary() })
}

/// `s` begins with `#` followed by the variable of the `k`-th interpolation.
pub open spec fn starts_with_variable(s: Seq<Tree>, depth: nat, k: nat) -> bool {
    &&& s.len() >= 2
    &&& s[0] matches Tree::Punct { ch, .. } && ch == '#'
    &&& s[1] matches Tree::Ident { name, .. } && name == var_name(depth, k)
}

/// Puts interpolated expressions back: scanning `s` as `rewrite` does, each
/// `#` followed by the variable of the next interpolation `k` becomes `#`
/// followed by a brace group holding `exprs[k]`, spanned as the variable.
/// Returns the tokens and the number of the next interpolation.
pub open spec fn fill(s: Seq<Tree>, exprs: Seq<Seq<Tree>>, depth: nat, k: nat) -> (Seq<Tree>, nat)
    decreases s,
{
    if s.len() == 0 {
        (Seq::empty(), k)
    } else if starts_with_variable(s, depth, k) {
        let rest = fill(s.skip(2), exprs, depth, k + 1);
        (
            seq![
                s[0],
                Tree::Group { delimiter: Delimiter::Brace, stream: exprs[k as int], span: tree_span(s[1]) },
            ] + rest.0,
            rest.1,
        )
    } else {
        match s[0] {
            Tree::Group { delimiter, stream, span } => {
                let inner = fill(stream, exprs, depth, k);
                let rest = fill(s.drop_first(), exprs, depth, inner.1);
                (seq![Tree::Group { delimiter, stream: inner.0, span }] + rest.0, rest.1)
            },
            _ => {
                let rest = fill(s.drop_first(), exprs, depth, k);
                (seq![s[0]] + rest.0, rest.1)
            },
        }
    }
}

/// `t` names the variable `x`, or holds an identifier that does.
pub open spec fn names_in_tree(t: Tree, x: Seq<char>) -> bool {
    match t {
        Tree::Ident { name, .. } => unraw(name) == x,
        Tree::Group { stream, .. } => mentions(stream, x),
        _ => false,
    }
}

proof fn lemma_mentions_iff(s: Seq<Tree>, x: Seq<char>)
    ensures
        mentions(s, x) <==> exists|i: int| 0 <= i < s.len() && names_in_tree(#[trigger] s[i], x),
    decreases s.len(),
{
    if s.len() > 0 {
        lemma_mentions_iff(s.drop_last(), x);
        if mentions(s, x) {
            if mentions(s.drop_last(), x) {
                let i = choose|i: int| 0 <= i < s.drop_last().len() && names_in_tree(
                    #[trigger] s.drop_last()[i],
                    x,
                );
                assert(names_in_tree(s[i], x));
            } else {
                assert(names_in_tree(s[s.len() - 1], x));
            }
        } else {
            assert forall|i: int| 0 <= i < s.len() implies !names_in_tree(#[trigger] s[i], x) by {
                if i < s.len() - 1 {
                    assert(s[i] == s.drop_last()[i]);
                }
            }
        }
    }
}

/// An identifier at position `i` names `x`.
proof fn lemma_mentions_at(s: Seq<Tree>, i: int, x: Seq<char>)
    requires
        0 <= i < s.len(),
        s[i] matches Tree::Ident { name, .. } && name == x,
        unraw(x) == x,
    ensures
        mentions(s, x),
{
    lemma_mentions_iff(s, x);
    assert(names_in_tree(s[i], x));
}

/// What the part `s.skip(m)` names, `s` names.
proof fn lemma_mentions_part(s: Seq<Tree>, t: Seq<Tree>, m: int)
    requires
        0 <= m <= s.len(),
        t == s.skip(m),
    ensures
        forall|x: Seq<char>| mentions(t, x) ==> mentions(s, x),
{
    assert forall|x: Seq<char>| mentions(t, x) implies mentions(s, x) by {
        lemma_mentions_iff(t, x);
        lemma_mentions_iff(s, x);
        let i = choose|i: int| 0 <= i < t.len() && names_in_tree(#[trigger] t[i], x);
        assert(s[m + i] == t[i]);
    }
}

/// What the stream of the first token, a group, names, `s` names.
proof fn lemma_mentions_in_group(s: Seq<Tree>, stream: Seq<Tree>)
    requires
        s.len() > 0,
        s[0] matches Tree::Group { stream: st, .. } && st == stream,
    ensures
        forall|x: Seq<char>| mentions(stream, x) ==> mentions(s, x),
{
    assert forall|x: Seq<char>| mentions(stream, x) implies mentions(s, x) by {
        lemma_mentions_iff(s, x);
        assert(names_in_tree(s[0], x));
    }
}

pub(crate) proof fn lemma_respan_concat(a: Seq<Tree>, b: Seq<Tree>, sp: proc_macro2::Span)
    ensures
        respan(a + b, sp) == respan(a, sp) + respan(b, sp),
{
    assert(respan(a + b, sp) =~= respan(a, sp) + respan(b, sp));
}

pub(crate) proof fn lemma_respan_one(t: Tree, sp: proc_macro2::Span)
    ensures
        respan(seq![t], sp) == seq![respan_tree(t, sp)],
{
    assert(respan(seq![t], sp) =~= seq![respan_tree(t, sp)]);
}

proof fn lemma_fill_rewrite(
    s: Seq<Tree>,
    exprs: Seq<Seq<Tree>>,
    depth: nat,
    first: nat,
    site: proc_macro2::Span,
    sp: proc_macro2::Span,
)
    requires
        forall|k: nat| !mentions(s, #[trigger] var_name(depth, k)),
        first + rewrite(s, depth, first, site).1.len() <= exprs.len(),
        forall|j: int| 0 <= j < rewrite(s, depth, first, site).1.len() ==>
            exprs[first + j] == #[trigger] rewrite(s, depth, first, site).1[j],
    ensures
        respan(fill(rewrite(s, depth, first, site).0, exprs, depth, first).0, sp) == respan(s, sp),
        fill(rewrite(s, depth, first, site).0, exprs, depth, first).1 == first + interpolation_count(s),
    decreases s,
{
    let out = rewrite(s, depth, first, site).0;
    let ex = rewrite(s, depth, first, site).1;
    law_one_expression_per_interpolation(s, depth, first, site);
    if s.len() == 0 {
        assert(respan(s, sp) =~= Seq::<Tree>::empty());
        assert(respan(Seq::<Tree>::empty(), sp) =~= Seq::<Tree>::empty());
    } else if starts_with_interpolation(s) {
        let t = s.skip(2);
        let rt = rewrite(t, depth, first + 1, site);
        assert forall|j: int| 0 <= j < rt.1.len() implies exprs[(first + 1) + j]
            == #[trigger] rt.1[j] by {
            assert(ex[j + 1] == rt.1[j]);
        }
        lemma_mentions_part(s, t, 2);
        lemma_fill_rewrite(t, exprs, depth, first + 1, site, sp);
        assert(starts_with_variable(out, depth, first));
        assert(out.skip(2) =~= rt.0);
        assert(ex[0] == exprs[first as int]);
        let f = fill(out, exprs, depth, first);
        let ft = fill(rt.0, exprs, depth, first + 1);
        let g = Tree::Group {
            delimiter: Delimiter::Brace,
            stream: exprs[first as int],
            span: tree_span(out[1]),
        };
        assert(f.0 == seq![out[0], g] + ft.0);
        assert(seq![out[0], g] =~= seq![out[0]] + seq![g]);
        assert(s =~= seq![s[0]] + seq![s[1]] + t);
        lemma_respan_concat(seq![out[0], g], ft.0, sp);
        lemma_respan_concat(seq![out[0]], seq![g], sp);
        lemma_respan_concat(seq![s[0]] + seq![s[1]], t, sp);
        lemma_respan_concat(seq![s[0]], seq![s[1]], sp);
        lemma_respan_one(out[0], sp);
        lemma_respan_one(g, sp);
        lemma_respan_one(s[0], sp);
        lemma_respan_one(s[1], sp);
        assert(respan_tree(g, sp) == respan_tree(s[1], sp));
    } else {
        match s[0] {
            Tree::Group { delimiter, stream, span } => {
                let ri = rewrite(stream, depth, first, site);
                law_one_expression_per_interpolation(stream, depth, first, site);
                let next = first + ri.1.len();
                let rr = rewrite(s.drop_first(), depth, next, site);
                assert(ex == ri.1 + rr.1);
                assert forall|j: int| 0 <= j < ri.1.len() implies exprs[first + j]
                    == #[trigger] ri.1[j] by {
                    assert(ex[j] == ri.1[j]);
                }
                assert forall|j: int| 0 <= j < rr.1.len() implies exprs[next + j]
                    == #[trigger] rr.1[j] by {
                    assert(ex[ri.1.len() + j] == rr.1[j]);
                }
                lemma_mentions_part(s, s.drop_first(), 1);
                lemma_mentions_in_group(s, stream);
                lemma_fill_rewrite(stream, exprs, depth, first, site, sp);
                lemma_fill_rewrite(s.drop_first(), exprs, depth, next, site, sp);
                assert(out.drop_first() =~= rr.0);
                assert(!starts_with_variable(out, depth, first));
                let fi = fill(ri.0, exprs, depth, first);
                let fr = fill(rr.0, exprs, depth, fi.1);
                let g = Tree::Group { delimiter, stream: fi.0, span };
                assert(fill(out, exprs, depth, first).0 == seq![g] + fr.0);
                assert(s =~= seq![s[0]] + s.drop_first());
                lemma_respan_concat(seq![g], fr.0, sp);
                lemma_respan_concat(seq![s[0]], s.drop_first(), sp);
                lemma_respan_one(g, sp);
                lemma_respan_one(s[0], sp);
            },
            _ => {
                let rr = rewrite(s.drop_first(), depth, first, site);
                lemma_mentions_part(s, s.drop_first(), 1);
                lemma_fill_rewrite(s.drop_first(), exprs, depth, first, site, sp);
                assert(out.drop_first() =~= rr.0);
                lemma_rewrite_len(s.drop_first(), depth, first, site);
                if s.len() >= 2 {
                    lemma_rewrite_head(s.drop_first(), depth, first, site);
                    assert(out[1] == rr.0[0]);
                    assert(s.drop_first()[0] == s[1]);
                    if starts_with_variable(s, depth, first) {
                        lemma_var_name_depth(depth, first);
                        lemma_mentions_at(s, 1, var_name(depth, first));
                    }
                }
                assert(!starts_with_variable(out, depth, first));
                let fr = fill(rr.0, exprs, depth, first);
                assert(fill(out, exprs, depth, first).0 == seq![s[0]] + fr.0);
                assert(s =~= seq![s[0]] + s.drop_first());
                lemma_respan_concat(seq![s[0]], fr.0, sp);
                lemma_respan_concat(seq![s[0]], s.drop_first(), sp);
            },
        }
    }
}

/// Putting each interpolated expression back where its variable stands
/// gives the input back up to spans: the two are equal once every span in
/// them is set to the same `sp` (see `respan`). Spans are left out of the
/// comparison because `rewrite` drops those of the braces that held the
/// expressions, and `fill` cannot know them. The variables are those that
/// `replace` chooses for the input, which no identifier of the input names.
pub proof fn law_fill_undoes_rewrite(s: Seq<Tree>, site: proc_macro2::Span, sp: proc_macro2::Span)
    ensures
        respan(
            fill(
                rewrite(s, depth_needed(s), 0, site).0,
                rewrite(s, depth_needed(s), 0, site).1,
                depth_needed(s),
                0,
            ).0,
            sp,
        ) == respan(s, sp),
{
    assert forall|k: nat| !mentions(s, #[trigger] var_name(depth_needed(s), k)) by {
        law_variables_fresh(s, k);
    }
    lemma_fill_rewrite(s, rewrite(s, depth_needed(s), 0, site).1, depth_needed(s), 0, site, sp);
}

/// The span given to the variables does not change which expressions are
/// taken, nor the rewritten tokens apart from their spans.
pub proof fn law_rewrite_span_independent(
    s: Seq<Tree>,
    depth: nat,
    first: nat,
    site1: proc_macro2::Span,
    site2: proc_macro2::Span,
    sp: proc_macro2::Span,
)
    ensures
        rewrite(s, depth, first, site1).1 == rewrite(s, depth, first, site2).1,
        respan(rewrite(s, depth, first, site1).0, sp) == respan(rewrite(s, depth, first, site2).0, sp),
    decreases s,
{
    let o1 = rewrite(s, depth, first, site1).0;
    let o2 = rewrite(s, depth, first, site2).0;
    if s.len() == 0 {
    } else if starts_with_interpolation(s) {
        law_rewrite_span_independent(s.skip(2), depth, first + 1, site1, site2, sp);
        let r1 = rewrite(s.skip(2), depth, first + 1, site1).0;
        let r2 = rewrite(s.skip(2), depth, first + 1, site2).0;
        let h1 = seq![s[0], Tree::Ident { name: var_name(depth, first), span: site1 }];
        let h2 = seq![s[0], Tree::Ident { name: var_name(depth, first), span: site2 }];
        lemma_respan_concat(h1, r1, sp);
        lemma_respan_concat(h2, r2, sp);
        assert(respan(h1, sp) =~= respan(h2, sp));
    } else {
        match s[0] {
            Tree::Group { delimiter, stream, span } => {
                law_rewrite_span_independent(stream, depth, first, site1, site2, sp);
                let n = rewrite(stream, depth, first, site1).1.len();
                law_rewrite_span_independent(s.drop_first(), depth, first + n, site1, site2, sp);
                let g1 = Tree::Group { delimiter, stream: rewrite(stream, depth, first, site1).0, span };
                let g2 = Tree::Group { delimiter, stream: rewrite(stream, depth, first, site2).0, span };
                let r1 = rewrite(s.drop_first(), depth, first + n, site1).0;
                let r2 = rewrite(s.drop_first(), depth, first + n, site2).0;
                lemma_respan_concat(seq![g1], r1, sp);
                lemma_respan_concat(seq![g2], r2, sp);
                lemma_respan_one(g1, sp);
                lemma_respan_one(g2, sp);
            },
            _ => {
                law_rewrite_span_independent(s.drop_first(), depth, first, site1, site2, sp);
                let r1 = rewrite(s.drop_first(), depth, first, site1).0;
                let r2 = rewrite(s.drop_first(), depth, first, site2).0;
                lemma_respan_concat(seq![s[0]], r1, sp);
                lemma_respan_concat(seq![s[0]], r2, sp);
            },
        }
    }
}

} // verus!
