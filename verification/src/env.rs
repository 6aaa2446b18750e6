//! The environment handed to the commands the shell runs.

use vstd::prelude::*;
use crate::text::{chars_equal, chars_of};

verus! {

/// Whether a variable of this name is passed on to commands: only `TERM`,
/// `TZ`, `LANG` and `PATH` are.
pub open spec fn is_passed_name(name: Seq<char>) -> bool {
    ||| name == "TERM"@
    ||| name == "TZ"@
    ||| name == "LANG"@
    ||| name == "PATH"@
}

/// A name is passed on exactly when it is, as a whole, one of `TERM`, `TZ`,
/// `LANG` and `PATH`; so no passed name is longer than four characters.
pub proof fn law_passed_names(name: Seq<char>)
    ensures
        is_passed_name(name) <==> (name == seq!['T', 'E', 'R', 'M'] || name == seq!['T', 'Z']
            || name == seq!['L', 'A', 'N', 'G'] || name == seq!['P', 'A', 'T', 'H']),
        is_passed_name(name) ==> 2 <= name.len() <= 4,
{
    reveal_strlit("TERM");
    reveal_strlit("TZ");
    reveal_strlit("LANG");
    reveal_strlit("PATH");
    assert("TERM"@ =~= seq!['T', 'E', 'R', 'M']);
    assert("TZ"@ =~= seq!['T', 'Z']);
    assert("LANG"@ =~= seq!['L', 'A', 'N', 'G']);
    assert("PATH"@ =~= seq!['P', 'A', 'T', 'H']);
}

/// The variables kept are exactly the input's variables whose names are
/// passed on: each kept variable occurs in the input with a passed name, each
/// input variable with a passed name is kept, and no more are kept than given.
pub proof fn law_passed_vars(vars: Seq<(Seq<char>, Seq<char>)>)
    ensures
        passed_vars(vars).len() <= vars.len(),
        forall|i: int| 0 <= i < passed_vars(vars).len() ==> vars.contains(#[trigger] passed_vars(vars)[i])
            && is_passed_name(passed_vars(vars)[i].0),
        forall|i: int| 0 <= i < vars.len() && is_passed_name(#[trigger] vars[i].0) ==> passed_vars(vars).contains(vars[i]),
{
    broadcast use vstd::seq_lib::group_filter_ensures;
    let pred = |var: (Seq<char>, Seq<char>)| is_passed_name(var.0);
    assert forall|i: int| 0 <= i < passed_vars(vars).len() implies vars.contains(#[trigger] passed_vars(vars)[i])
        && is_passed_name(passed_vars(vars)[i].0) by {
        let e = passed_vars(vars)[i];
        assert(vars.filter(pred).contains(e));
        vars.lemma_filter_contains_rev(pred, e);
        vars.lemma_filter_pred(pred, i);
    }
    assert forall|i: int| 0 <= i < vars.len() && is_passed_name(#[trigger] vars[i].0) implies passed_vars(vars).contains(vars[i]) by {
        vars.lemma_filter_contains(pred, i);
    }
}

/// Filtering keeps the order of the variables: filtering two lists one
/// after the other gives the two filtered lists one after the other, and a
/// single variable is kept exactly when its name is passed on.
pub proof fn law_passed_vars_in_order(
    a: Seq<(Seq<char>, Seq<char>)>,
    b: Seq<(Seq<char>, Seq<char>)>,
    var: (Seq<char>, Seq<char>),
)
    ensures
        passed_vars(a + b) == passed_vars(a) + passed_vars(b),
        passed_vars(seq![var]) == if is_passed_name(var.0) {
            seq![var]
        } else {
            Seq::<(Seq<char>, Seq<char>)>::empty()
        },
{
    let pred = |v: (Seq<char>, Seq<char>)| is_passed_name(v.0);
    Seq::filter_distributes_over_add(a, b, pred);
    reveal(Seq::filter);
    let none = Seq::<(Seq<char>, Seq<char>)>::empty();
    assert(seq![var].drop_last() =~= none);
    assert(seq![var].last() == var);
    assert(none.filter(pred) == none);
    assert(none.push(var) =~= seq![var]);
    assert(seq![var].filter(pred) == if pred(var) { none.push(var) } else { none });
}

/// Whether the variable `name` is passed on to commands.
pub fn is_passed_env_var(name: &str) -> (b: bool)
    ensures
        b == is_passed_name(name@),
{
    let n = chars_of(name);
    let term = chars_of("TERM");
    let tz = chars_of("TZ");
    let lang = chars_of("LANG");
    let path = chars_of("PATH");
    chars_equal(&n, &term) || chars_equal(&n, &tz) || chars_equal(&n, &lang) || chars_equal(
        &n,
        &path,
    )
}

/// The variables, as name and value, that are passed on to commands, in
/// their original order.
pub open spec fn passed_vars(vars: Seq<(Seq<char>, Seq<char>)>) -> Seq<(Seq<char>, Seq<char>)> {
    vars.filter(|var: (Seq<char>, Seq<char>)| is_passed_name(var.0))
}

/// Keeps the variables that are passed on to commands, in their order.
pub fn filter_env(vars: &Vec<(String, String)>) -> (kept: Vec<(String, String)>)
    ensures
        kept.deep_view() == passed_vars(vars.deep_view()),
{
    let mut kept: Vec<(String, String)> = Vec::new();
    let mut i: usize = 0;
    proof {
        reveal(Seq::filter);
        assert(vars.deep_view().take(0) =~= Seq::<(Seq<char>, Seq<char>)>::empty());
    }
    while i < vars.len()
        invariant
            i <= vars@.len(),
            kept.deep_view() == passed_vars(vars.deep_view().take(i as int)),
        decreases vars@.len() - i,
    {
        let name = &vars[i].0;
        let value = &vars[i].1;
        let ghost before = kept.deep_view();
        let ghost var = vars.deep_view()[i as int];
        proof {
            reveal(Seq::filter);
            assert(vars.deep_view().take(i + 1).drop_last() =~= vars.deep_view().take(i as int));
            assert(var == (name@, value@));
        }
        if is_passed_env_var(name.as_str()) {
            kept.push((name.clone(), value.clone()));
            assert(kept.deep_view() =~= before.push(var));
        }
        i = i + 1;
    }
    assert(vars.deep_view().take(i as int) =~= vars.deep_view());
    kept
}

} // verus!
