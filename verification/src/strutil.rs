//! Small verified helpers for working with strings as character sequences.

use vstd::prelude::*;

verus! {

/// Relies on `String::push`: appends the character to the end of the string.
#[verifier::external_body]
pub fn push_char(s: &mut String, c: char)
    ensures
        final(s)@ == old(s)@.push(c),
{
    s.push(c);
}

/// Relies on `str`'s `PartialEq`: two string slices are equal exactly when
/// their character sequences are.
#[verifier::external_body]
pub fn str_eq(a: &str, b: &str) -> (r: bool)
    ensures
        r == (a@ == b@),
{
    a == b
}

/// The characters of a string, as a vector.
pub fn chars_of(s: &str) -> (r: Vec<char>)
    ensures
        r@ == s@,
{
    let n = s.unicode_len();
    let mut r: Vec<char> = Vec::new();
    let mut i: usize = 0;
    while i < n
        invariant
            n == s@.len(),
            i <= n,
            r@ == s@.subrange(0, i as int),
        decreases n - i,
    {
        r.push(s.get_char(i));
        assert(r@ =~= s@.subrange(0, i + 1 as int));
        i = i + 1;
    }
    assert(r@ =~= s@);
    r
}

/// Whether two optional strings hold the same characters (or are both
/// absent).
pub fn ostr_eq(a: &Option<String>, b: &Option<String>) -> (r: bool)
    ensures
        r == (crate::types::ostr_view(*a) == crate::types::ostr_view(*b)),
{
    match (a, b) {
        (Option::None, Option::None) => true,
        (Option::Some(x), Option::Some(y)) => str_eq(x.as_str(), y.as_str()),
        _ => false,
    }
}

/// The models of a sequence of strings.
pub open spec fn strs_view(ss: Seq<String>) -> Seq<Seq<char>> {
    ss.map_values(|s: String| s@)
}

/// Whether the character counts as uppercase.  The exact set is the one
/// `char::is_uppercase` decides; only its ASCII behaviour is pinned down.
pub uninterp spec fn uppercase_char(c: char) -> bool;

/// Relies on `char::is_uppercase`: true exactly for characters with the
/// Unicode `Uppercase` property; in particular true for `'A'..='Z'` and
/// false for `'a'..='z'`.
#[verifier::external_body]
pub fn char_is_uppercase(c: char) -> (r: bool)
    ensures
        r == uppercase_char(c),
        'A' <= c && c <= 'Z' ==> r,
        'a' <= c && c <= 'z' ==> !r,
        c == '_' ==> !r,
{
    c.is_uppercase()
}

/// The character with `'A'..='Z'` mapped to the corresponding lowercase
/// letter and everything else unchanged.
pub open spec fn lower_char(c: char) -> char {
    if 'A' <= c && c <= 'Z' {
        (((c as u8) + 32) as char)
    } else {
        c
    }
}

/// ASCII lowercasing of one character.
pub fn to_lower_char(c: char) -> (r: char)
    ensures
        r == lower_char(c),
{
    if c >= 'A' && c <= 'Z' {
        ((c as u8) + 32) as char
    } else {
        c
    }
}

/// The sequence with every character ASCII-lowercased.
pub open spec fn lower_seq(s: Seq<char>) -> Seq<char> {
    s.map_values(|c: char| lower_char(c))
}

/// ASCII lowercasing of a whole string.
pub fn to_lower(s: &str) -> (r: String)
    ensures
        r@ == lower_seq(s@),
{
    let v = chars_of(s);
    let mut w: Vec<char> = Vec::new();
    let mut i: usize = 0;
    while i < v.len()
        invariant
            i <= v@.len(),
            v@ == s@,
            w@ == lower_seq(s@).subrange(0, i as int),
        decreases v@.len() - i,
    {
        w.push(to_lower_char(v[i]));
        assert(w@ =~= lower_seq(s@).subrange(0, i + 1 as int));
        i = i + 1;
    }
    assert(w@ =~= lower_seq(s@));
    string_of(&w)
}

/// The characters of `v` from `a` (inclusive) to `b` (exclusive), as a string.
pub fn seg(v: &Vec<char>, a: usize, b: usize) -> (r: String)
    requires
        a <= b <= v@.len(),
    ensures
        r@ == v@.subrange(a as int, b as int),
{
    let mut r = String::new();
    let mut i: usize = a;
    while i < b
        invariant
            a <= i <= b <= v@.len(),
            r@ == v@.subrange(a as int, i as int),
        decreases b - i,
    {
        push_char(&mut r, v[i]);
        assert(r@ =~= v@.subrange(a as int, i + 1 as int));
        i = i + 1;
    }
    r
}

/// A string holding exactly the given characters.
pub fn string_of(v: &Vec<char>) -> (r: String)
    ensures
        r@ == v@,
{
    let mut r = String::new();
    let mut i: usize = 0;
    while i < v.len()
        invariant
            i <= v@.len(),
            r@ == v@.subrange(0, i as int),
        decreases v@.len() - i,
    {
        push_char(&mut r, v[i]);
        assert(r@ =~= v@.subrange(0, i + 1 as int));
        i = i + 1;
    }
    assert(r@ =~= v@);
    r
}


// ------------------------------------------------------------------
// Rewriting text.

/// The string with every (leftmost, non-overlapping) occurrence of `pat`
/// replaced by `rep`.
pub open spec fn replace_all_spec(s: Seq<char>, pat: Seq<char>, rep: Seq<char>) -> Seq<char>
    decreases s.len(),
{
    if pat.len() == 0 {
        s
    } else if s.len() < pat.len() {
        s
    } else if s.subrange(0, pat.len() as int) == pat {
        rep + replace_all_spec(s.skip(pat.len() as int), pat, rep)
    } else {
        seq![s[0]] + replace_all_spec(s.skip(1), pat, rep)
    }
}

/// Whether `pat` occurs in `v` starting at `i`.
fn match_at(v: &Vec<char>, i: usize, pat: &Vec<char>) -> (r: bool)
    requires
        i <= v@.len(),
    ensures
        r == (i + pat@.len() <= v@.len() && v@.subrange(
            i as int,
            i + pat@.len(),
        ) == pat@),
{
    if pat.len() > v.len() - i {
        return false;
    }
    let mut j: usize = 0;
    while j < pat.len()
        invariant
            i + pat@.len() <= v@.len(),
            v@.len() <= usize::MAX,
            j <= pat@.len(),
            forall|p: int| 0 <= p < j ==> v@[i + p] == pat@[p],
        decreases pat@.len() - j,
    {
        if v[i + j] != pat[j] {
            assert(v@.subrange(i as int, i + pat@.len())[j as int] != pat@[j as int]);
            return false;
        }
        j = j + 1;
    }
    assert(v@.subrange(i as int, i + pat@.len()) =~= pat@);
    true
}

/// Replaces every (leftmost, non-overlapping) occurrence of `pat` by
/// `rep`.
pub fn replace_all(s: &str, pat: &str, rep: &str) -> (r: String)
    requires
        pat@.len() > 0,
    ensures
        r@ == replace_all_spec(s@, pat@, rep@),
{
    let v = chars_of(s);
    let pv = chars_of(pat);
    let rv = chars_of(rep);
    let mut out: Vec<char> = Vec::new();
    let mut i: usize = 0;
    let n = v.len();
    proof {
        assert(s@.skip(0) =~= s@);
    }
    while i < n
        invariant
            n == v@.len(),
            v@ == s@,
            pv@ == pat@,
            rv@ == rep@,
            pat@.len() > 0,
            i <= n,
            replace_all_spec(s@, pat@, rep@) == out@ + replace_all_spec(
                s@.skip(i as int),
                pat@,
                rep@,
            ),
        decreases n - i,
    {
        let ghost rem = s@.skip(i as int);
        if match_at(&v, i, &pv) {
            proof {
                assert(rem.len() >= pat@.len());
                assert(rem.subrange(0, pat@.len() as int) =~= s@.subrange(
                    i as int,
                    i + pat@.len(),
                ));
                assert(rem.skip(pat@.len() as int) =~= s@.skip(i + pat@.len()));
                assert(replace_all_spec(rem, pat@, rep@) == rep@ + replace_all_spec(
                    s@.skip(i + pat@.len()),
                    pat@,
                    rep@,
                ));
            }
            let mut j: usize = 0;
            let ghost out0 = out@;
            while j < rv.len()
                invariant
                    j <= rv@.len(),
                    out@ == out0 + rv@.subrange(0, j as int),
                decreases rv@.len() - j,
            {
                out.push(rv[j]);
                assert(out@ =~= out0 + rv@.subrange(0, j + 1 as int));
                j = j + 1;
            }
            proof {
                assert(rv@.subrange(0, rv@.len() as int) =~= rv@);
                assert(out@ + replace_all_spec(s@.skip(i + pat@.len()), pat@, rep@)
                    =~= out0 + replace_all_spec(rem, pat@, rep@));
            }
            i = i + pv.len();
        } else {
            proof {
                if rem.len() >= pat@.len() {
                    assert(rem.subrange(0, pat@.len() as int) =~= s@.subrange(
                        i as int,
                        i + pat@.len(),
                    ));
                }
                assert(rem.skip(1) =~= s@.skip(i + 1));
                assert(replace_all_spec(rem, pat@, rep@) == seq![rem[0]] + replace_all_spec(
                    s@.skip(i + 1),
                    pat@,
                    rep@,
                ));
                assert(rem[0] == s@[i as int]);
            }
            out.push(v[i]);
            proof {
                assert(out@ + replace_all_spec(s@.skip(i + 1), pat@, rep@) =~= out@.drop_last()
                    + (seq![rem[0]] + replace_all_spec(s@.skip(i + 1), pat@, rep@)));
            }
            i = i + 1;
        }
    }
    proof {
        assert(s@.skip(n as int) =~= Seq::<char>::empty());
        assert(replace_all_spec(s@.skip(n as int), pat@, rep@) =~= Seq::<char>::empty());
        assert(out@ =~= replace_all_spec(s@, pat@, rep@));
    }
    string_of(&out)
}

/// The sequence without its leading newlines.
pub open spec fn drop_leading_newlines(s: Seq<char>) -> Seq<char>
    decreases s.len(),
{
    if s.len() > 0 && s[0] == '\n' {
        drop_leading_newlines(s.skip(1))
    } else {
        s
    }
}

/// The sequence without its trailing newlines.
pub open spec fn drop_trailing_newlines(s: Seq<char>) -> Seq<char>
    decreases s.len(),
{
    if s.len() > 0 && s.last() == '\n' {
        drop_trailing_newlines(s.drop_last())
    } else {
        s
    }
}

/// The text without leading or trailing newlines.
pub open spec fn trim_newlines_spec(s: Seq<char>) -> Seq<char> {
    drop_trailing_newlines(drop_leading_newlines(s))
}

/// Strips leading and trailing newlines.
pub fn trim_newlines(s: &str) -> (r: String)
    ensures
        r@ == trim_newlines_spec(s@),
{
    let v = chars_of(s);
    let n = v.len();
    let mut a: usize = 0;
    proof {
        assert(s@.skip(0) =~= s@);
    }
    while a < n && v[a] == '\n'
        invariant
            n == v@.len(),
            v@ == s@,
            a <= n,
            drop_leading_newlines(s@) == drop_leading_newlines(s@.skip(a as int)),
            forall|p: int| 0 <= p < a ==> s@[p] == '\n',
        decreases n - a,
    {
        proof {
            assert(s@.skip(a as int)[0] == s@[a as int]);
            assert(s@.skip(a as int).skip(1) =~= s@.skip(a + 1));
        }
        a = a + 1;
    }
    proof {
        if a < n {
            assert(s@.skip(a as int)[0] != '\n');
            assert(drop_leading_newlines(s@.skip(a as int)) == s@.skip(a as int));
        } else {
            assert(s@.skip(a as int) =~= Seq::<char>::empty());
            assert(drop_leading_newlines(s@) =~= s@.skip(a as int));
        }
    }
    let ghost mid = s@.skip(a as int);
    let mut b: usize = n;
    while b > a && v[b - 1] == '\n'
        invariant
            n == v@.len(),
            v@ == s@,
            a <= b <= n,
            mid == s@.skip(a as int),
            drop_leading_newlines(s@) == mid,
            drop_trailing_newlines(mid) == drop_trailing_newlines(
                s@.subrange(a as int, b as int),
            ),
        decreases b,
    {
        proof {
            let cur = s@.subrange(a as int, b as int);
            assert(cur.last() == s@[b - 1]);
            assert(cur.drop_last() =~= s@.subrange(a as int, b - 1));
        }
        b = b - 1;
    }
    proof {
        let cur = s@.subrange(a as int, b as int);
        if b > a {
            assert(cur.last() == s@[b - 1]);
            assert(cur.last() != '\n');
            assert(drop_trailing_newlines(cur) == cur);
        } else {
            assert(cur =~= Seq::<char>::empty());
            assert(drop_trailing_newlines(cur) == cur);
        }
        assert(mid =~= s@.subrange(a as int, n as int));
    }
    seg(&v, a, b)
}

} // verus!
