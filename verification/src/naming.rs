use vstd::prelude::*;
use vstd::string::{StrSliceExecFns, StringExecFns};

verus! {

/// The character of the decimal digit `d`.
pub open spec fn digit_char(d: int) -> char
    recommends
        0 <= d < 10,
{
    (d + 48) as char
}

/// The numeric value of a decimal digit character.
pub open spec fn digit_value(c: char) -> int {
    (c as int) - 48
}

/// The decimal representation of `n`, without leading zeros.
pub open spec fn decimal(n: nat) -> Seq<char>
    decreases n,
{
    if n < 10 {
        seq![digit_char(n as int)]
    } else {
        decimal(n / 10).push(digit_char((n % 10) as int))
    }
}

/// The number written by a sequence of decimal digits.
pub open spec fn decimal_value(s: Seq<char>) -> int
    decreases s.len(),
{
    if s.len() == 0 {
        0
    } else {
        decimal_value(s.drop_last()) * 10 + digit_value(s.last())
    }
}

/// The prefix shared by all names that bind interpolated expressions.
pub open spec fn name_prefix() -> Seq<char> {
    seq!['_', '_', 'i', 'n', 't', 'e', 'r', 'p', 'o', 'l', 'a', 't', 'i', 'o', 'n']
}

/// `n` underscores.
pub open spec fn underscores(n: nat) -> Seq<char> {
    Seq::new(n, |i: int| '_')
}

/// The name of the variable that binds the `k`-th interpolated expression:
/// `__interpolation{k}` preceded by `depth` more underscores. The depth is
/// chosen so that no identifier of the macro's input has this form (see
/// `name_depth`); for an input that uses no identifier of the form
/// `__interpolation...` it is zero.
pub open spec fn var_name(depth: nat, k: nat) -> Seq<char> {
    underscores(depth) + name_prefix() + decimal(k)
}

/// `interpolation`: the prefix without its underscores.
pub open spec fn interpolation_word() -> Seq<char> {
    name_prefix().skip(2)
}

/// The number of underscores that `x` begins with.
pub open spec fn leading_underscores(x: Seq<char>) -> nat
    decreases x.len(),
{
    if x.len() > 0 && x[0] == '_' {
        1 + leading_underscores(x.drop_first())
    } else {
        0
    }
}

/// An identifier's name without its raw marker `r#`: `r#x` and `x` name the
/// same variable.
pub open spec fn unraw(x: Seq<char>) -> Seq<char> {
    if x.len() >= 2 && x[0] == 'r' && x[1] == '#' {
        x.skip(2)
    } else {
        x
    }
}

/// For a name of the form `_..._interpolation...` with `n >= 2` leading
/// underscores, `n - 1`: the least depth whose variable names differ from
/// it. Zero for any other name.
pub open spec fn name_depth(x: Seq<char>) -> nat {
    let n = leading_underscores(x);
    if n >= 2 && n + interpolation_word().len() <= x.len() && x.subrange(
        n as int,
        (n + interpolation_word().len()) as int,
    ) == interpolation_word() {
        (n - 1) as nat
    } else {
        0
    }
}

proof fn lemma_leading_underscores(x: Seq<char>, m: nat)
    requires
        m <= x.len(),
        forall|j: int| 0 <= j < m ==> x[j] == '_',
        m == x.len() || x[m as int] != '_',
    ensures
        leading_underscores(x) == m,
    decreases m,
{
    if m > 0 {
        lemma_leading_underscores(x.drop_first(), (m - 1) as nat);
    }
}

/// The variables of depth `depth` have depth `depth + 1` as names: a name
/// of depth at most `depth` is never one of them.
pub proof fn lemma_var_name_depth(depth: nat, k: nat)
    ensures
        name_depth(var_name(depth, k)) == depth + 1,
        unraw(var_name(depth, k)) == var_name(depth, k),
{
    let x = var_name(depth, k);
    let d = depth as int;
    assert forall|j: int| 0 <= j < d + 2 implies x[j] == '_' by {
        if j < d {
            assert(x[j] == underscores(depth)[j]);
        }
    }
    assert(x[d + 2] == 'i');
    lemma_leading_underscores(x, (depth + 2) as nat);
    assert(x.subrange(d + 2, d + 2 + 13) =~= interpolation_word());
    if depth == 0 {
        assert(x[0] == '_');
    } else {
        assert(x[0] == '_');
    }
}

/// Reading back the decimal representation of `n` gives `n`.
pub proof fn lemma_decimal_value(n: nat)
    ensures
        decimal_value(decimal(n)) == n,
        decimal(n).len() > 0,
    decreases n,
{
    if n >= 10 {
        lemma_decimal_value(n / 10);
        let s = decimal(n);
        assert(s.drop_last() =~= decimal(n / 10));
        assert(n == (n / 10) * 10 + n % 10);
        assert(digit_value(digit_char((n % 10) as int)) == n % 10);
        assert(s.last() == digit_char((n % 10) as int));
        assert(decimal_value(s) == decimal_value(decimal(n / 10)) * 10 + (n % 10));
    } else {
        assert(digit_value(digit_char(n as int)) == n);
        assert(decimal(n).drop_last() =~= Seq::<char>::empty());
        assert(decimal_value(Seq::<char>::empty()) == 0);
    }
}

/// Distinct interpolations are bound to distinct names.
pub proof fn law_variable_names_distinct(depth: nat, j: nat, k: nat)
    ensures
        var_name(depth, j) == var_name(depth, k) <==> j == k,
{
    if var_name(depth, j) == var_name(depth, k) {
        let p = depth + name_prefix().len() as int;
        assert(var_name(depth, j).skip(p) =~= decimal(j));
        assert(var_name(depth, k).skip(p) =~= decimal(k));
        lemma_decimal_value(j);
        lemma_decimal_value(k);
    }
}

/// Appends `c` to `s` (`String::push`).
#[verifier::external_body]
fn push_char(s: &mut String, c: char)
    ensures
        final(s)@ == old(s)@.push(c),
{
    s.push(c)
}

fn push_decimal(s: &mut String, n: usize)
    ensures
        final(s)@ == old(s)@ + decimal(n as nat),
    decreases n,
{
    if n >= 10 {
        push_decimal(s, n / 10);
    }
    let d: u8 = (n % 10) as u8;
    let c: char = (48u8 + d) as char;
    assert(c == digit_char(d as int));
    push_char(s, c);
    assert(old(s)@ + decimal(n as nat) =~= s@);
}

/// The name `__interpolation{k}` preceded by `depth` more underscores.
pub fn var_name_string(depth: usize, k: usize) -> (s: String)
    ensures
        s@ == var_name(depth as nat, k as nat),
{
    let mut s = String::new();
    let mut i: usize = 0;
    while i < depth
        invariant
            i <= depth,
            s@ == underscores(i as nat),
        decreases depth - i,
    {
        push_char(&mut s, '_');
        assert(s@ =~= underscores((i + 1) as nat));
        i = i + 1;
    }
    let prefix = "__interpolation";
    proof {
        reveal_strlit("__interpolation");
    }
    assert(prefix@ =~= name_prefix());
    s.append(prefix);
    push_decimal(&mut s, k);
    assert(s@ =~= var_name(depth as nat, k as nat));
    s
}

/// The depth of an identifier's name (see `name_depth`), its raw marker
/// ignored.
pub fn ident_depth(name: &String) -> (d: usize)
    ensures
        d == name_depth(unraw(name@)),
{
    let s = name.as_str();
    let n = s.unicode_len();
    let mut start: usize = 0;
    if n >= 2 && s.get_char(0) == 'r' && s.get_char(1) == '#' {
        start = 2;
    }
    let ghost x = unraw(name@);
    assert(x =~= name@.skip(start as int));
    assert(interpolation_word().len() == 13);
    let mut i: usize = start;
    while i < n && s.get_char(i) == '_'
        invariant
            start <= i <= n == name@.len(),
            s@ == name@,
            x == name@.skip(start as int),
            forall|j: int| start <= j < i ==> name@[j] == '_',
        decreases n - i,
    {
        i = i + 1;
    }
    let lead = i - start;
    proof {
        lemma_leading_underscores(x, lead as nat);
    }
    if lead < 2 {
        return 0;
    }
    let word = "interpolation";
    proof {
        reveal_strlit("interpolation");
        assert(word@ =~= interpolation_word());
    }
    if n - i < 13 {
        assert(x.len() == n - start);
        assert(leading_underscores(x) == lead);
        assert(!(lead + interpolation_word().len() <= x.len()));
        return 0;
    }
    let mut j: usize = 0;
    while j < 13
        invariant
            j <= 13,
            i + 13 <= n == name@.len(),
            s@ == name@,
            word@ == interpolation_word(),
            x == unraw(name@),
            x == name@.skip(start as int),
            i == start + lead,
            leading_underscores(x) == lead,
            lead >= 2,
            forall|m: int| 0 <= m < j ==> name@[i + m] == interpolation_word()[m],
        decreases 13 - j,
    {
        let c = s.get_char(i + j);
        let w = word.get_char(j);
        assert(x[lead + j] == name@[i + j]);
        if c != w {
            assert(x.subrange(lead as int, lead + 13)[j as int] == c);
            assert(w == interpolation_word()[j as int]);
            assert(x.subrange(lead as int, lead + 13) != interpolation_word());
            return 0;
        }
        j = j + 1;
    }
    assert forall|m: int| 0 <= m < 13 implies x.subrange(lead as int, lead + 13)[m]
        == interpolation_word()[m] by {
        assert(x[lead + m] == name@[i + m]);
    }
    assert(x.subrange(lead as int, lead + 13) =~= interpolation_word());
    lead - 1
}

} // verus!
