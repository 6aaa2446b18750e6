//! Normalisation of command lines and their division into pipeline stages
//! and arguments.

use vstd::prelude::*;
use crate::text::{
    is_white_space, law_trim_end_idempotent, law_trim_end_removes_trailing_white_space,
    chars_equal, chars_of, contains_char, split_on, split_spec, starts_with_chars,
    join_spec, law_split_join, string_from_prefix, trim_end_spec, trimmed_end_len, utf8_len,
};

verus! {

/// `s` without its leading space characters (only U+0020 counts here).
pub open spec fn drop_leading_spaces(s: Seq<char>) -> Seq<char>
    decreases s.len(),
{
    if s.len() > 0 && s[0] == ' ' {
        drop_leading_spaces(s.drop_first())
    } else {
        s
    }
}

/// `s` with every run of consecutive spaces shortened to a single space.
pub open spec fn collapse_spaces(s: Seq<char>) -> Seq<char>
    decreases s.len(),
{
    if s.len() == 0 {
        s
    } else if s.len() >= 2 && s.last() == ' ' && s[s.len() - 2] == ' ' {
        collapse_spaces(s.drop_last())
    } else {
        collapse_spaces(s.drop_last()).push(s.last())
    }
}

/// The normal form of a command line: leading spaces dropped, runs of
/// spaces collapsed to one space and trailing white space removed.
pub open spec fn normalized(s: Seq<char>) -> Seq<char> {
    trim_end_spec(collapse_spaces(drop_leading_spaces(s)))
}

/// The normalisation of the older shell: like [`normalized`], except that a
/// line holding fewer than two UTF-8 bytes after its leading spaces becomes
/// the empty line.
pub open spec fn normalized_short_emptied(s: Seq<char>) -> Seq<char> {
    if utf8_len(drop_leading_spaces(s)) < 2 {
        Seq::<char>::empty()
    } else {
        normalized(s)
    }
}

/// `s` with its space characters left out.
pub open spec fn without_spaces(s: Seq<char>) -> Seq<char> {
    s.filter(|c: char| c != ' ')
}

/// A UTF-8 encoding is shorter than two bytes exactly when the text is empty
/// or is one ASCII character.
pub proof fn lemma_utf8_len_below_two(s: Seq<char>)
    ensures
        utf8_len(s) < 2 <==> (s.len() == 0 || (s.len() == 1 && (s[0] as u32) < 0x80)),
{
    broadcast use vstd::utf8::char_is_scalar;
    reveal_with_fuel(vstd::utf8::encode_utf8, 2);
    if s.len() > 0 {
        let c = s[0] as u32;
        assert(vstd::utf8::encode_scalar(c).len() >= 1);
        assert(vstd::utf8::encode_scalar(c).len() == 1 <==> c < 0x80);
        if s.len() >= 2 {
            assert(vstd::utf8::encode_utf8(s.drop_first()).len() >= 1);
        } else {
            assert(s.drop_first() =~= Seq::<char>::empty());
        }
    }
}

/// No space follows another space in `s`.
pub open spec fn no_double_space(s: Seq<char>) -> bool {
    forall|i: int, j: int| 0 <= i && j == i + 1 && j < s.len() ==> !(#[trigger] s[i] == ' ' && #[trigger] s[j] == ' ')
}

/// A command line in normal form: it does not begin with a space, does not
/// end in white space and holds no two spaces in a row.
pub open spec fn is_normal_form(s: Seq<char>) -> bool {
    &&& s.len() > 0 ==> s[0] != ' ' && !is_white_space(s.last())
    &&& no_double_space(s)
}

proof fn lemma_drop_leading_spaces(s: Seq<char>)
    ensures
        drop_leading_spaces(s).len() > 0 ==> drop_leading_spaces(s)[0] != ' ',
    decreases s.len(),
{
    if s.len() > 0 && s[0] == ' ' {
        lemma_drop_leading_spaces(s.drop_first());
    }
}

proof fn lemma_collapse_ends(s: Seq<char>)
    ensures
        s.len() > 0 ==> collapse_spaces(s).len() > 0 && collapse_spaces(s)[0] == s[0]
            && collapse_spaces(s).last() == s.last(),
    decreases s.len(),
{
    if s.len() > 0 {
        lemma_collapse_ends(s.drop_last());
        if s.len() == 1 {
            assert(collapse_spaces(s.drop_last()) =~= Seq::<char>::empty());
        }
    }
}

proof fn lemma_collapse_no_double(s: Seq<char>)
    ensures
        no_double_space(collapse_spaces(s)),
    decreases s.len(),
{
    if s.len() > 0 {
        let prev = s.drop_last();
        lemma_collapse_no_double(prev);
        lemma_collapse_ends(prev);
        if !(s.len() >= 2 && s.last() == ' ' && s[s.len() - 2] == ' ') {
            let c = collapse_spaces(prev);
            let d = c.push(s.last());
            assert forall|i: int, j: int| 0 <= i && j == i + 1 && j < d.len() implies !(#[trigger] d[i] == ' ' && #[trigger] d[j] == ' ') by {
                if j < c.len() {
                    assert(d[i] == c[i] && d[j] == c[j]);
                } else {
                    assert(prev.len() > 0);
                    assert(d[i] == c.last());
                }
            }
        }
    }
}

proof fn lemma_collapse_identity(s: Seq<char>)
    requires
        no_double_space(s),
    ensures
        collapse_spaces(s) == s,
    decreases s.len(),
{
    if s.len() > 0 {
        let prev = s.drop_last();
        assert(no_double_space(prev)) by {
            assert forall|i: int, j: int| 0 <= i && j == i + 1 && j < prev.len() implies !(#[trigger] prev[i] == ' ' && #[trigger] prev[j] == ' ') by {
                assert(prev[i] == s[i] && prev[j] == s[j]);
            }
        }
        lemma_collapse_identity(prev);
        if s.len() >= 2 {
            assert(!(s[s.len() - 2] == ' ' && s[s.len() - 1] == ' '));
        }
        assert(prev.push(s.last()) =~= s);
    }
}

/// Every normalised command line is in normal form.
pub proof fn law_normalized_is_normal_form(s: Seq<char>)
    ensures
        is_normal_form(normalized(s)),
{
    let body = drop_leading_spaces(s);
    lemma_drop_leading_spaces(s);
    let c = collapse_spaces(body);
    lemma_collapse_ends(body);
    lemma_collapse_no_double(body);
    law_trim_end_removes_trailing_white_space(c);
    let r = trim_end_spec(c);
    assert(r.len() > 0 ==> r[0] == c[0]);
    assert forall|i: int, j: int| 0 <= i && j == i + 1 && j < r.len() implies !(#[trigger] r[i] == ' ' && #[trigger] r[j] == ' ') by {
        assert(r[i] == c[i] && r[j] == c[j]);
    }
}

/// A command line is left unchanged by normalisation exactly when it is in
/// normal form.
pub proof fn law_normalized_fixed_points(t: Seq<char>)
    ensures
        normalized(t) == t <==> is_normal_form(t),
{
    law_normalized_is_normal_form(t);
    if is_normal_form(t) {
        assert(drop_leading_spaces(t) == t);
        lemma_collapse_identity(t);
        law_trim_end_removes_trailing_white_space(t);
        assert(trim_end_spec(t) == t);
    }
}

/// Normalising a normalised command line changes nothing.
pub proof fn law_normalize_idempotent(s: Seq<char>)
    ensures
        normalized(normalized(s)) == normalized(s),
{
    law_normalized_is_normal_form(s);
    law_normalized_fixed_points(normalized(s));
}

proof fn lemma_filter_push(s: Seq<char>, c: char)
    ensures
        without_spaces(s.push(c)) == if c != ' ' {
            without_spaces(s).push(c)
        } else {
            without_spaces(s)
        },
{
    reveal(Seq::filter);
    assert(s.push(c).drop_last() =~= s);
}

proof fn lemma_without_spaces_collapse(s: Seq<char>)
    ensures
        without_spaces(collapse_spaces(s)) == without_spaces(s),
    decreases s.len(),
{
    if s.len() > 0 {
        let prev = s.drop_last();
        lemma_without_spaces_collapse(prev);
        lemma_filter_push(prev, s.last());
        lemma_filter_push(collapse_spaces(prev), s.last());
        assert(prev.push(s.last()) =~= s);
    }
}

proof fn lemma_without_spaces_trim_collapse(s: Seq<char>)
    ensures
        without_spaces(trim_end_spec(collapse_spaces(s))) == without_spaces(trim_end_spec(s)),
    decreases s.len(),
{
    if s.len() > 0 {
        let prev = s.drop_last();
        let c = s.last();
        lemma_without_spaces_trim_collapse(prev);
        if is_white_space(c) {
            if s.len() >= 2 && c == ' ' && s[s.len() - 2] == ' ' {
            } else {
                let cp = collapse_spaces(prev).push(c);
                assert(cp.drop_last() =~= collapse_spaces(prev));
                assert(trim_end_spec(cp) == trim_end_spec(collapse_spaces(prev)));
            }
        } else {
            assert(c != ' ');
            lemma_without_spaces_collapse(prev);
            lemma_filter_push(collapse_spaces(prev), c);
            lemma_filter_push(prev, c);
            assert(prev.push(c) =~= s);
            let cp = collapse_spaces(prev).push(c);
            assert(cp.last() == c);
        }
    }
}

proof fn lemma_all_spaces_vanish(s: Seq<char>)
    requires
        forall|i: int| 0 <= i < s.len() ==> s[i] == ' ',
    ensures
        without_spaces(s) == Seq::<char>::empty(),
    decreases s.len(),
{
    if s.len() > 0 {
        lemma_all_spaces_vanish(s.drop_last());
        lemma_filter_push(s.drop_last(), s.last());
        assert(s.drop_last().push(s.last()) =~= s);
    }
}

proof fn lemma_drop_leading_is_skip(s: Seq<char>) -> (k: int)
    ensures
        0 <= k <= s.len(),
        drop_leading_spaces(s) == s.skip(k),
        forall|i: int| 0 <= i < k ==> s[i] == ' ',
    decreases s.len(),
{
    if s.len() > 0 && s[0] == ' ' {
        let k0 = lemma_drop_leading_is_skip(s.drop_first());
        assert(s.drop_first().skip(k0) =~= s.skip(k0 + 1));
        assert forall|i: int| 0 <= i < k0 + 1 implies s[i] == ' ' by {
            if i > 0 {
                assert(s[i] == s.drop_first()[i - 1]);
            }
        }
        k0 + 1
    } else {
        assert(s.skip(0) =~= s);
        0
    }
}

proof fn lemma_without_spaces_trim_skip(s: Seq<char>, k: int)
    requires
        0 <= k <= s.len(),
        forall|i: int| 0 <= i < k ==> s[i] == ' ',
    ensures
        without_spaces(trim_end_spec(s.skip(k))) == without_spaces(trim_end_spec(s)),
    decreases s.len(),
{
    if s.len() == k {
        assert(s.skip(k) =~= Seq::<char>::empty());
        law_trim_end_removes_trailing_white_space(s);
        let t = trim_end_spec(s);
        lemma_all_spaces_vanish(t);
        lemma_all_spaces_vanish(Seq::<char>::empty());
    } else if is_white_space(s.last()) {
        assert(s.skip(k).drop_last() =~= s.drop_last().skip(k));
        lemma_without_spaces_trim_skip(s.drop_last(), k);
    } else {
        assert(s.skip(k).last() == s.last());
        assert(s =~= s.take(k) + s.skip(k));
        lemma_all_spaces_vanish(s.take(k));
        reveal(Seq::filter);
        Seq::filter_distributes_over_add(s.take(k), s.skip(k), |c: char| c != ' ');
    }
}

/// Normalisation removes spaces and trailing white space and nothing else:
/// leaving out the spaces, the normalised line and the line without its
/// trailing white space hold the same characters in the same order.
pub proof fn law_normalized_keeps_non_spaces(s: Seq<char>)
    ensures
        without_spaces(normalized(s)) == without_spaces(trim_end_spec(s)),
{
    let body = drop_leading_spaces(s);
    lemma_without_spaces_trim_collapse(body);
    let k = lemma_drop_leading_is_skip(s);
    lemma_without_spaces_trim_skip(s, k);
}

proof fn lemma_drop_leading_push(s: Seq<char>, c: char)
    ensures
        drop_leading_spaces(s.push(c)) == if drop_leading_spaces(s).len() == 0 && c == ' ' {
            Seq::<char>::empty()
        } else {
            drop_leading_spaces(s).push(c)
        },
    decreases s.len(),
{
    if s.len() == 0 {
        let one = s.push(c);
        assert(one.drop_first() =~= Seq::<char>::empty());
        assert(drop_leading_spaces(Seq::<char>::empty()) == Seq::<char>::empty());
        assert(drop_leading_spaces(s) == s);
        assert(s.push(c) =~= seq![c]);
    } else if s[0] == ' ' {
        assert(s.push(c).drop_first() =~= s.drop_first().push(c));
        lemma_drop_leading_push(s.drop_first(), c);
    } else {
        assert(s.push(c)[0] == s[0]);
    }
}

proof fn lemma_drop_leading_insert_space(s: Seq<char>, i: int) -> (j: int)
    requires
        0 <= i < s.len(),
        s[i] == ' ',
    ensures
        (j == -1 && drop_leading_spaces(s.insert(i, ' ')) == drop_leading_spaces(s)) || (0 <= j
            < drop_leading_spaces(s).len() && drop_leading_spaces(s)[j] == ' '
            && drop_leading_spaces(s.insert(i, ' ')) == drop_leading_spaces(s).insert(j, ' ')),
    decreases s.len(),
{
    let ins = s.insert(i, ' ');
    if s[0] == ' ' {
        if i == 0 {
            assert(ins.drop_first() =~= s);
            -1
        } else {
            assert(ins.drop_first() =~= s.drop_first().insert(i - 1, ' '));
            assert(s.drop_first()[i - 1] == s[i]);
            lemma_drop_leading_insert_space(s.drop_first(), i - 1)
        }
    } else {
        assert(ins[0] == s[0]);
        i
    }
}

proof fn lemma_collapse_insert_space(x: Seq<char>, j: int)
    requires
        0 <= j < x.len(),
        x[j] == ' ',
    ensures
        collapse_spaces(x.insert(j, ' ')) == collapse_spaces(x),
    decreases x.len(),
{
    let n = x.len();
    let ins = x.insert(j, ' ');
    if j == n - 1 {
        assert(ins.drop_last() =~= x);
    } else {
        assert(ins.drop_last() =~= x.drop_last().insert(j, ' '));
        assert(ins.last() == x.last());
        assert(ins[ins.len() - 2] == x[n - 2]);
        assert(x.drop_last()[j] == x[j]);
        lemma_collapse_insert_space(x.drop_last(), j);
    }
}

/// Adding a space in front of a line does not change its normal form.
pub proof fn law_normalized_leading_space(s: Seq<char>)
    ensures
        normalized(seq![' '] + s) == normalized(s),
{
    assert((seq![' '] + s).drop_first() =~= s);
}

/// Adding white space at the end of a line does not change its normal form.
pub proof fn law_normalized_trailing_white_space(s: Seq<char>, w: char)
    requires
        is_white_space(w),
    ensures
        normalized(s.push(w)) == normalized(s),
{
    lemma_drop_leading_push(s, w);
    let d = drop_leading_spaces(s);
    if d.len() == 0 && w == ' ' {
        assert(d =~= Seq::<char>::empty());
    } else if d.len() == 0 {
        let one = d.push(w);
        assert(one.drop_last() =~= d);
        assert(collapse_spaces(d) =~= d);
        assert(collapse_spaces(one) =~= collapse_spaces(d).push(w));
        assert(collapse_spaces(one).drop_last() =~= collapse_spaces(d));
    } else {
        let dw = d.push(w);
        assert(dw.drop_last() =~= d);
        let c = collapse_spaces(d);
        if !(dw.len() >= 2 && w == ' ' && dw[dw.len() - 2] == ' ') {
            assert(c.push(w).drop_last() =~= c);
        }
    }
}

/// Removing the trailing white space of a line does not change its normal
/// form.
pub proof fn law_normalized_ignores_trailing_white_space(s: Seq<char>)
    ensures
        normalized(trim_end_spec(s)) == normalized(s),
    decreases s.len(),
{
    if s.len() > 0 && is_white_space(s.last()) {
        law_normalized_ignores_trailing_white_space(s.drop_last());
        law_normalized_trailing_white_space(s.drop_last(), s.last());
        assert(s.drop_last().push(s.last()) =~= s);
    }
}

/// Doubling a space of a line does not change its normal form.
pub proof fn law_normalized_double_space(s: Seq<char>, i: int)
    requires
        0 <= i < s.len(),
        s[i] == ' ',
    ensures
        normalized(s.insert(i, ' ')) == normalized(s),
{
    let j = lemma_drop_leading_insert_space(s, i);
    if j != -1 {
        lemma_collapse_insert_space(drop_leading_spaces(s), j);
    }
}

/// The number of leading space characters of `v`.
fn leading_spaces(v: &Vec<char>) -> (start: usize)
    ensures
        start <= v@.len(),
        v@.skip(start as int) == drop_leading_spaces(v@),
{
    let mut start: usize = 0;
    assert(v@.skip(0) =~= v@);
    while start < v.len() && v[start] == ' '
        invariant
            start <= v@.len(),
            drop_leading_spaces(v@.skip(start as int)) == drop_leading_spaces(v@),
        decreases v@.len() - start,
    {
        assert(v@.skip(start as int).drop_first() =~= v@.skip(start + 1));
        start = start + 1;
    }
    start
}

/// Removes the extra spaces of a command line: leading spaces are dropped,
/// runs of spaces become one space and trailing white space is removed.
pub fn remove_extra_space(s: &str) -> (r: String)
    ensures
        r@ == normalized(s@),
        is_normal_form(r@),
{
    proof {
        law_normalized_is_normal_form(s@);
    }
    let v = chars_of(s);
    let start = leading_spaces(&v);
    let ghost body = v@.skip(start as int);
    if start == v.len() {
        assert(body =~= Seq::<char>::empty());
        assert(collapse_spaces(body) =~= Seq::<char>::empty());
        return String::new();
    }
    let mut out: Vec<char> = Vec::new();
    let mut i: usize = start;
    assert(body.take(0) =~= Seq::<char>::empty());
    while i < v.len()
        invariant
            start <= i <= v@.len(),
            body == v@.skip(start as int),
            out@ == collapse_spaces(body.take(i - start)),
        decreases v@.len() - i,
    {
        let c = v[i];
        assert(body.take(i + 1 - start).drop_last() =~= body.take(i - start));
        if c == ' ' && i > start && v[i - 1] == ' ' {
        } else {
            out.push(c);
        }
        i = i + 1;
    }
    assert(body.take(v@.len() - start) =~= body);
    let n = trimmed_end_len(&out);
    string_from_prefix(&out, n)
}

/// The older shell's normalisation: as [`remove_extra_space`], except that a
/// line holding fewer than two UTF-8 bytes after its leading spaces gives the
/// empty string.
pub fn split_command_with_espace(s: &str) -> (r: String)
    ensures
        r@ == normalized_short_emptied(s@),
        is_normal_form(r@),
{
    proof {
        law_short_emptied(s@);
    }
    let v = chars_of(s);
    let start = leading_spaces(&v);
    proof {
        lemma_utf8_len_below_two(v@.skip(start as int));
    }
    let remaining = v.len() - start;
    if remaining == 0 || (remaining == 1 && (v[start] as u32) < 0x80) {
        return String::new();
    }
    remove_extra_space(s)
}

/// The arguments of a command: its pieces between single spaces.
pub fn command_args(command: &str) -> (args: Vec<String>)
    ensures
        args.deep_view() == split_spec(command@, ' '),
{
    split_on(command, ' ')
}

/// The arguments of each stage of a pipeline: the command is cut at every
/// `|`, each piece is normalised and then cut at every space.
pub open spec fn stages_spec(command: Seq<char>) -> Seq<Seq<Seq<char>>> {
    split_spec(command, '|').map_values(|piece: Seq<char>| split_spec(normalized(piece), ' '))
}

/// Divides a pipeline into its stages, each given as its list of arguments.
pub fn pipeline_stages(command: &str) -> (stages: Vec<Vec<String>>)
    ensures
        stages.deep_view() == stages_spec(command@),
{
    let pieces = split_on(command, '|');
    let mut stages: Vec<Vec<String>> = Vec::new();
    let mut i: usize = 0;
    while i < pieces.len()
        invariant
            i <= pieces@.len(),
            pieces.deep_view() == split_spec(command@, '|'),
            stages.deep_view() == stages_spec(command@).take(i as int),
        decreases pieces@.len() - i,
    {
        let stage = remove_extra_space(pieces[i].as_str());
        let args = split_on(stage.as_str(), ' ');
        let ghost before = stages.deep_view();
        let ghost args_view = args.deep_view();
        stages.push(args);
        assert(pieces.deep_view()[i as int] == pieces@[i as int]@);
        assert(stages.deep_view() =~= before.push(args_view));
        assert(stages_spec(command@)[i as int] == args_view);
        assert(stages.deep_view() =~= stages_spec(command@).take(i + 1));
        i = i + 1;
    }
    assert(stages_spec(command@).take(i as int) =~= stages_spec(command@));
    stages
}

/// A pipeline has one stage more than its command has `|` characters; no
/// argument of any stage holds a space or a `|`; and the arguments of each
/// stage, joined with single spaces, give back that stage's normalised text.
pub proof fn law_pipeline_stages(command: Seq<char>)
    ensures
        stages_spec(command).len() == command.filter(|c: char| c == '|').len() + 1,
        forall|i: int| 0 <= i < stages_spec(command).len() ==> join_spec(#[trigger] stages_spec(command)[i], ' ')
            == normalized(split_spec(command, '|')[i]),
        forall|i: int, j: int| 0 <= i < stages_spec(command).len() && 0 <= j < stages_spec(command)[i].len()
            ==> !(#[trigger] stages_spec(command)[i][j]).contains(' '),
{
    law_split_join(command, '|');
    assert forall|i: int| 0 <= i < stages_spec(command).len() implies join_spec(#[trigger] stages_spec(command)[i], ' ')
        == normalized(split_spec(command, '|')[i]) by {
        law_split_join(normalized(split_spec(command, '|')[i]), ' ');
    }
    assert forall|i: int, j: int| 0 <= i < stages_spec(command).len() && 0 <= j < stages_spec(command)[i].len()
        implies !(#[trigger] stages_spec(command)[i][j]).contains(' ') by {
        law_split_join(normalized(split_spec(command, '|')[i]), ' ');
        assert(stages_spec(command)[i] == split_spec(normalized(split_spec(command, '|')[i]), ' '));
    }
}

/// The older shell's normalisation gives a line in normal form; it agrees
/// with [`normalized`] whenever at least two UTF-8 bytes follow the leading
/// spaces, and gives the empty line otherwise.
pub proof fn law_short_emptied(s: Seq<char>)
    ensures
        is_normal_form(normalized_short_emptied(s)),
        utf8_len(drop_leading_spaces(s)) >= 2 ==> normalized_short_emptied(s) == normalized(s),
        utf8_len(drop_leading_spaces(s)) < 2 ==> normalized_short_emptied(s).len() == 0,
        normalized_short_emptied(s).len() == 0 || normalized_short_emptied(s) == normalized(s),
{
    law_normalized_is_normal_form(s);
}

/// What the shell does with one line that was read.
pub enum Action {
    /// Leave the shell.
    Exit,
    /// Print the job listing.
    ListJobs,
    /// Run the normalised command; in the background when it begins with
    /// `start`, as a pipeline when it holds a `|`.
    Run { command: String, background: bool, piped: bool },
}

/// Whether a normalised command is run in the background.
pub open spec fn is_background(command: Seq<char>) -> bool {
    "start"@.len() <= command.len() && command.take("start"@.len() as int) == "start"@
}

/// A command runs in the background exactly when its first five characters
/// are `s`, `t`, `a`, `r`, `t`.
pub proof fn law_background_is_start_prefix(command: Seq<char>)
    ensures
        is_background(command) <==> (command.len() >= 5 && command[0] == 's' && command[1] == 't'
            && command[2] == 'a' && command[3] == 'r' && command[4] == 't'),
{
    reveal_strlit("start");
    if command.len() >= 5 && command[0] == 's' && command[1] == 't' && command[2] == 'a'
        && command[3] == 'r' && command[4] == 't' {
        assert(command.take(5) =~= "start"@);
    }
    if is_background(command) {
        assert(command.take(5)[0] == 's');
        assert(command.take(5)[1] == 't');
        assert(command.take(5)[2] == 'a');
        assert(command.take(5)[3] == 'r');
        assert(command.take(5)[4] == 't');
    }
}

/// The action for a line that was read: decided on the line without its
/// trailing white space.
pub open spec fn action_spec(line: Seq<char>, action: Action) -> bool {
    let t = trim_end_spec(line);
    if t == "exit"@ {
        action is Exit
    } else if t == "jobs"@ {
        action is ListJobs
    } else {
        &&& action is Run
        &&& action->command@ == normalized(t)
        &&& action->background == is_background(normalized(t))
        &&& action->piped == normalized(t).contains('|')
    }
}

/// What an action decided on a line means: `exit` and `jobs` (after trailing
/// white space) are recognised as whole words; any other line runs its
/// command in normal form, keeping every character of the line but spaces
/// and trailing white space, in the background exactly when it begins with
/// `start`, piped exactly when it holds a `|`.
pub proof fn law_classify_decision(line: Seq<char>, action: Action)
    requires
        action_spec(line, action),
    ensures
        action is Exit <==> trim_end_spec(line) == seq!['e', 'x', 'i', 't'],
        action is ListJobs <==> trim_end_spec(line) == seq!['j', 'o', 'b', 's'],
        action is Run ==> action->command@ == normalized(line),
        action is Run ==> is_normal_form(action->command@),
        action is Run ==> without_spaces(action->command@) == without_spaces(trim_end_spec(line)),
        action is Run ==> (action->background <==> (action->command@.len() >= 5
            && action->command@[0] == 's' && action->command@[1] == 't' && action->command@[2] == 'a'
            && action->command@[3] == 'r' && action->command@[4] == 't')),
        action is Run ==> (action->piped <==> exists|i: int| 0 <= i < action->command@.len()
            && #[trigger] action->command@[i] == '|'),
{
    reveal_strlit("exit");
    reveal_strlit("jobs");
    let t = trim_end_spec(line);
    assert("exit"@ =~= seq!['e', 'x', 'i', 't']);
    assert("jobs"@ =~= seq!['j', 'o', 'b', 's']);
    if action is Run {
        law_normalized_is_normal_form(t);
        law_normalized_keeps_non_spaces(t);
        law_trim_end_idempotent(line);
        law_normalized_ignores_trailing_white_space(line);
        law_background_is_start_prefix(action->command@);
    }
}

/// Decides what to do with one line of input.
pub fn classify_input(line: &str) -> (action: Action)
    ensures
        action_spec(line@, action),
{
    let v = chars_of(line);
    let n = trimmed_end_len(&v);
    let trimmed = string_from_prefix(&v, n);
    let t = chars_of(trimmed.as_str());
    let exit_word = chars_of("exit");
    let jobs_word = chars_of("jobs");
    if chars_equal(&t, &exit_word) {
        return Action::Exit;
    }
    if chars_equal(&t, &jobs_word) {
        return Action::ListJobs;
    }
    let command = remove_extra_space(trimmed.as_str());
    let c = chars_of(command.as_str());
    let start_word = chars_of("start");
    let background = starts_with_chars(&c, &start_word);
    let piped = contains_char(&c, '|');
    Action::Run { command, background, piped }
}

} // verus!
