//! Character-level definitions and helpers shared by the command and job
//! modules: Unicode white space, trailing-white-space trimming, splitting on
//! a separator, and building strings from characters.

use vstd::prelude::*;

verus! {

broadcast use vstd::string::group_string_axioms;

/// The Unicode `White_Space` property: the characters that `char::is_whitespace`
/// accepts and that `str::trim_end` removes.
pub open spec fn is_white_space(c: char) -> bool {
    let u = c as u32;
    ||| 0x09 <= u <= 0x0d
    ||| u == 0x20
    ||| u == 0x85
    ||| u == 0xa0
    ||| u == 0x1680
    ||| 0x2000 <= u <= 0x200a
    ||| u == 0x2028
    ||| u == 0x2029
    ||| u == 0x202f
    ||| u == 0x205f
    ||| u == 0x3000
}

/// `s` with every trailing white-space character removed.
pub open spec fn trim_end_spec(s: Seq<char>) -> Seq<char>
    decreases s.len(),
{
    if s.len() > 0 && is_white_space(s.last()) {
        trim_end_spec(s.drop_last())
    } else {
        s
    }
}

/// Number of bytes of the UTF-8 encoding of `s`.
pub open spec fn utf8_len(s: Seq<char>) -> nat {
    vstd::utf8::encode_utf8(s).len()
}

/// The pieces of `s` between occurrences of `sep`, as `str::split` with a
/// single-character pattern yields them (empty pieces included).
pub open spec fn split_spec(s: Seq<char>, sep: char) -> Seq<Seq<char>>
    decreases s.len(),
{
    if s.len() == 0 {
        seq![Seq::<char>::empty()]
    } else {
        let pieces = split_spec(s.drop_last(), sep);
        if s.last() == sep {
            pieces.push(Seq::<char>::empty())
        } else {
            pieces.update(pieces.len() - 1, pieces.last().push(s.last()))
        }
    }
}

/// The pieces joined back together with `sep` between consecutive pieces.
pub open spec fn join_spec(pieces: Seq<Seq<char>>, sep: char) -> Seq<char>
    decreases pieces.len(),
{
    if pieces.len() == 0 {
        Seq::<char>::empty()
    } else if pieces.len() == 1 {
        pieces[0]
    } else {
        join_spec(pieces.drop_last(), sep).push(sep) + pieces.last()
    }
}

/// What `trim_end_spec` keeps is a prefix of its argument that does not end
/// in white space, and every character it drops is white space.
pub proof fn law_trim_end_removes_trailing_white_space(s: Seq<char>)
    ensures
        trim_end_spec(s).len() <= s.len(),
        trim_end_spec(s) == s.take(trim_end_spec(s).len() as int),
        trim_end_spec(s).len() > 0 ==> !is_white_space(trim_end_spec(s).last()),
        forall|i: int| trim_end_spec(s).len() <= i < s.len() ==> is_white_space(#[trigger] s[i]),
    decreases s.len(),
{
    if s.len() > 0 && is_white_space(s.last()) {
        law_trim_end_removes_trailing_white_space(s.drop_last());
        let t = trim_end_spec(s.drop_last());
        assert(s.drop_last().take(t.len() as int) =~= s.take(t.len() as int));
        assert forall|i: int| t.len() <= i < s.len() implies is_white_space(#[trigger] s[i]) by {
            if i < s.len() - 1 {
                assert(s[i] == s.drop_last()[i]);
            }
        }
    } else {
        assert(s.take(s.len() as int) =~= s);
    }
}

/// Trimming trailing white space twice gives what trimming once gives.
pub proof fn law_trim_end_idempotent(s: Seq<char>)
    ensures
        trim_end_spec(trim_end_spec(s)) == trim_end_spec(s),
{
    law_trim_end_removes_trailing_white_space(s);
}

/// Splitting on a separator and joining the pieces back with it gives the
/// text that was split; no piece holds the separator; there is one piece
/// more than there are separators in the text.
pub proof fn law_split_join(s: Seq<char>, sep: char)
    ensures
        join_spec(split_spec(s, sep), sep) == s,
        forall|i: int| 0 <= i < split_spec(s, sep).len() ==> !(#[trigger] split_spec(s, sep)[i]).contains(sep),
        split_spec(s, sep).len() == s.filter(|c: char| c == sep).len() + 1,
    decreases s.len(),
{
    reveal(Seq::filter);
    if s.len() == 0 {
        assert(s.filter(|c: char| c == sep) =~= Seq::<char>::empty());
    } else {
        let prev = s.drop_last();
        law_split_join(prev, sep);
        let pieces = split_spec(prev, sep);
        let c = s.last();
        assert(pieces.len() >= 1);
        if c == sep {
            let now = pieces.push(Seq::<char>::empty());
            assert(now.drop_last() =~= pieces);
            assert(join_spec(now, sep) =~= join_spec(pieces, sep).push(sep) + Seq::<char>::empty());
            assert(join_spec(now, sep) =~= s);
            assert forall|i: int| 0 <= i < now.len() implies !(#[trigger] now[i]).contains(sep) by {
                if i < pieces.len() {
                    assert(now[i] == pieces[i]);
                }
            }
        } else {
            let last = pieces.last().push(c);
            let now = pieces.update(pieces.len() - 1, last);
            if pieces.len() == 1 {
                assert(join_spec(pieces, sep) == pieces[0]);
                assert(join_spec(now, sep) == now[0]);
                assert(join_spec(now, sep) =~= s);
            } else {
                assert(now.drop_last() =~= pieces.drop_last());
                assert(join_spec(now, sep) == join_spec(pieces.drop_last(), sep).push(sep) + last);
                assert(join_spec(pieces, sep) == join_spec(pieces.drop_last(), sep).push(sep) + pieces.last());
                assert(join_spec(now, sep) =~= join_spec(pieces, sep).push(c));
                assert(join_spec(now, sep) =~= s);
            }
            assert forall|i: int| 0 <= i < now.len() implies !(#[trigger] now[i]).contains(sep) by {
                if i < pieces.len() - 1 {
                    assert(now[i] == pieces[i]);
                } else {
                    assert(!pieces.last().contains(sep));
                    assert forall|j: int| 0 <= j < last.len() implies last[j] != sep by {
                        if j < pieces.last().len() {
                            assert(last[j] == pieces.last()[j]);
                        }
                    }
                }
            }
        }
    }
}

/// Whether `c` has the Unicode `White_Space` property.
pub fn is_white_space_char(c: char) -> (b: bool)
    ensures
        b == is_white_space(c),
{
    let u = c as u32;
    (0x09 <= u && u <= 0x0d) || u == 0x20 || u == 0x85 || u == 0xa0 || u == 0x1680 || (0x2000
        <= u && u <= 0x200a) || u == 0x2028 || u == 0x2029 || u == 0x202f || u == 0x205f || u
        == 0x3000
}

/// Copies the characters of `s` into a vector.
pub fn chars_of(s: &str) -> (v: Vec<char>)
    ensures
        v@ == s@,
{
    let mut v: Vec<char> = Vec::new();
    for c in it: s.chars()
        invariant
            it.seq() == s@,
            v@ == it.seq().take(it.index()),
    {
        v.push(c);
    }
    v
}

/// Appends one character to a string (`String::push`).
#[verifier::external_body]
pub(crate) fn push_char(s: &mut String, c: char)
    ensures
        final(s)@ == old(s)@.push(c),
{
    s.push(c);
}

/// Builds a string from the first `n` characters of `v`.
pub fn string_from_prefix(v: &Vec<char>, n: usize) -> (s: String)
    requires
        n <= v@.len(),
    ensures
        s@ == v@.take(n as int),
{
    let mut s = String::new();
    let mut i: usize = 0;
    while i < n
        invariant
            n <= v@.len(),
            i <= n,
            s@ == v@.take(i as int),
        decreases n - i,
    {
        push_char(&mut s, v[i]);
        i = i + 1;
        assert(s@ =~= v@.take(i as int));
    }
    s
}

/// Builds a string holding exactly the characters of `v`.
pub fn string_from_chars(v: &Vec<char>) -> (s: String)
    ensures
        s@ == v@,
{
    let s = string_from_prefix(v, v.len());
    assert(v@.take(v@.len() as int) =~= v@);
    s
}

/// Length of `v` once its trailing white space is removed.
pub fn trimmed_end_len(v: &Vec<char>) -> (n: usize)
    ensures
        n <= v@.len(),
        v@.take(n as int) == trim_end_spec(v@),
{
    let mut n = v.len();
    assert(v@.take(n as int) =~= v@);
    while n > 0 && is_white_space_char(v[n - 1])
        invariant
            n <= v@.len(),
            trim_end_spec(v@.take(n as int)) == trim_end_spec(v@),
        decreases n,
    {
        assert(v@.take(n as int).drop_last() =~= v@.take(n - 1));
        n = n - 1;
    }
    n
}

/// Splits `s` on every occurrence of `sep`, as `str::split` with a
/// single-character pattern does.
pub fn split_on(s: &str, sep: char) -> (pieces: Vec<String>)
    ensures
        pieces.deep_view() == split_spec(s@, sep),
{
    let v = chars_of(s);
    let mut pieces: Vec<String> = Vec::new();
    let mut cur: Vec<char> = Vec::new();
    let mut i: usize = 0;
    assert(v@.take(0) =~= Seq::<char>::empty());
    assert(pieces.deep_view().push(cur@) =~= split_spec(v@.take(0), sep));
    while i < v.len()
        invariant
            i <= v@.len(),
            v@ == s@,
            pieces.deep_view().push(cur@) == split_spec(v@.take(i as int), sep),
        decreases v@.len() - i,
    {
        let c = v[i];
        let ghost before = pieces.deep_view();
        assert(v@.take(i + 1).drop_last() =~= v@.take(i as int));
        if c == sep {
            let piece = string_from_chars(&cur);
            pieces.push(piece);
            cur = Vec::new();
            assert(pieces.deep_view() =~= before.push(piece@));
            assert(pieces.deep_view().push(cur@) =~= split_spec(v@.take(i + 1), sep));
        } else {
            cur.push(c);
            assert(pieces.deep_view().push(cur@) =~= split_spec(v@.take(i + 1), sep));
        }
        i = i + 1;
    }
    let last = string_from_chars(&cur);
    let ghost before = pieces.deep_view();
    pieces.push(last);
    assert(pieces.deep_view() =~= before.push(last@));
    assert(v@.take(v@.len() as int) =~= v@);
    pieces
}

/// Whether `p` is a prefix of `s`.
pub fn starts_with_chars(s: &Vec<char>, p: &Vec<char>) -> (b: bool)
    ensures
        b == (p@.len() <= s@.len() && s@.take(p@.len() as int) == p@),
{
    if p.len() > s.len() {
        return false;
    }
    let mut i: usize = 0;
    while i < p.len()
        invariant
            p@.len() <= s@.len(),
            i <= p@.len(),
            s@.take(i as int) == p@.take(i as int),
        decreases p@.len() - i,
    {
        if s[i] != p[i] {
            assert(s@.take(p@.len() as int)[i as int] != p@[i as int]);
            return false;
        }
        assert(s@.take(i + 1) =~= s@.take(i as int).push(s@[i as int]));
        assert(p@.take(i + 1) =~= p@.take(i as int).push(p@[i as int]));
        i = i + 1;
    }
    assert(p@.take(p@.len() as int) =~= p@);
    true
}

/// Whether `a` and `b` hold the same characters.
pub fn chars_equal(a: &Vec<char>, b: &Vec<char>) -> (r: bool)
    ensures
        r == (a@ == b@),
{
    if a.len() != b.len() {
        return false;
    }
    let r = starts_with_chars(a, b);
    assert(a@.take(b@.len() as int) =~= a@);
    r
}

/// Whether `c` occurs in `s`.
pub fn contains_char(s: &Vec<char>, c: char) -> (b: bool)
    ensures
        b == s@.contains(c),
{
    let mut i: usize = 0;
    while i < s.len()
        invariant
            i <= s@.len(),
            forall|j: int| 0 <= j < i ==> s@[j] != c,
        decreases s@.len() - i,
    {
        if s[i] == c {
            assert(s@[i as int] == c);
            return true;
        }
        i = i + 1;
    }
    false
}

} // verus!
