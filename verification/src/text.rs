//! Character-sequence transformations used by the lookup-key normalizer:
//! leftmost non-overlapping substring replacement, per-character rewrites,
//! and trimming, each proved equal to a spec-level description.

use vstd::prelude::*;
use vstd::string::StrSliceExecFns;

verus! {

/// Leftmost, non-overlapping replacement of `pat` by `rep` in `s`: scan from
/// the front; at a match, emit `rep` and resume after the match; otherwise
/// emit the character and move on.
pub open spec fn replace_str(s: Seq<char>, pat: Seq<char>, rep: Seq<char>) -> Seq<char>
    recommends
        pat.len() >= 1,
    decreases s.len(),
{
    if pat.len() == 0 || s.len() < pat.len() {
        s
    } else if s.take(pat.len() as int) == pat {
        rep + replace_str(s.skip(pat.len() as int), pat, rep)
    } else {
        seq![s[0]] + replace_str(s.drop_first(), pat, rep)
    }
}

/// `true` exactly when `pat` occurs in `s` at position `i`.
pub open spec fn match_at(s: Seq<char>, pat: Seq<char>, i: int) -> bool {
    0 <= i && i + pat.len() <= s.len() && s.subrange(i, i + pat.len() as int) == pat
}

/// Position of the first occurrence of `pat` in `s`, if any.
pub open spec fn find_sub(s: Seq<char>, pat: Seq<char>) -> Option<int>
    recommends
        pat.len() >= 1,
    decreases s.len(),
{
    if pat.len() == 0 || s.len() < pat.len() {
        Option::None
    } else if s.take(pat.len() as int) == pat {
        Option::Some(0)
    } else {
        match find_sub(s.drop_first(), pat) {
            Option::None => Option::None,
            Option::Some(i) => Option::Some(i + 1),
        }
    }
}

/// `find_sub` returns the first match position: a returned index is a match
/// with no match before it, and `None` means there is no match at all.
pub proof fn lemma_find_sub_first(s: Seq<char>, pat: Seq<char>)
    requires
        pat.len() >= 1,
    ensures
        match find_sub(s, pat) {
            Option::Some(i) => match_at(s, pat, i) && forall|j: int|
                0 <= j < i ==> !match_at(s, pat, j),
            Option::None => forall|j: int| !match_at(s, pat, j),
        },
    decreases s.len(),
{
    if s.len() < pat.len() {
        assert forall|j: int| !match_at(s, pat, j) by {
            assert(j + pat.len() > s.len() || j < 0);
        }
    } else if s.take(pat.len() as int) == pat {
        assert(s.subrange(0, pat.len() as int) =~= s.take(pat.len() as int));
    } else {
        lemma_find_sub_first(s.drop_first(), pat);
        let t = s.drop_first();
        assert forall|j: int| 0 <= j implies match_at(s, pat, j + 1) == match_at(t, pat, j) by {
            if j + 1 + pat.len() <= s.len() {
                assert(s.subrange(j + 1, j + 1 + pat.len() as int) =~= t.subrange(
                    j,
                    j + pat.len() as int,
                ));
            }
        }
        assert(s.subrange(0, pat.len() as int) =~= s.take(pat.len() as int));
        match find_sub(t, pat) {
            Option::None => {
                assert forall|j: int| !match_at(s, pat, j) by {
                    if j >= 1 {
                        assert(!match_at(t, pat, j - 1));
                    }
                }
            },
            Option::Some(i) => {
                assert(match_at(s, pat, i + 1));
                assert forall|j: int| 0 <= j < i + 1 implies !match_at(s, pat, j) by {
                    if j >= 1 {
                        assert(!match_at(t, pat, j - 1));
                    }
                }
            },
        }
    }
}

/// Whether `pat` occurs in `s` at position `i`, by character comparison.
pub fn starts_with_at(s: &Vec<char>, pat: &Vec<char>, i: usize) -> (b: bool)
    requires
        i <= s@.len(),
    ensures
        b == match_at(s@, pat@, i as int),
{
    if pat.len() > s.len() - i {
        return false;
    }
    let n = s.len();
    let mut j: usize = 0;
    while j < pat.len()
        invariant
            j <= pat@.len(),
            i + pat@.len() <= n == s@.len(),
            forall|k: int| 0 <= k < j ==> s@[i + k] == pat@[k],
        decreases pat@.len() - j,
    {
        if s[i + j] != pat[j] {
            proof {
                assert(s@.subrange(i as int, i + pat@.len())[j as int] == s@[i + j]);
            }
            return false;
        }
        j += 1;
    }
    proof {
        assert(s@.subrange(i as int, i + pat@.len()) =~= pat@);
    }
    true
}

/// Appends every character of `xs` to `out`.
pub fn push_all(out: &mut Vec<char>, xs: &Vec<char>)
    ensures
        final(out)@ == old(out)@ + xs@,
{
    let mut j: usize = 0;
    proof {
        assert(out@ =~= out@ + xs@.take(0));
    }
    while j < xs.len()
        invariant
            j <= xs@.len(),
            out@ == old(out)@ + xs@.take(j as int),
        decreases xs@.len() - j,
    {
        out.push(xs[j]);
        proof {
            assert(old(out)@ + xs@.take(j + 1) =~= (old(out)@ + xs@.take(j as int)).push(
                xs@[j as int],
            ));
        }
        j += 1;
    }
    proof {
        assert(xs@.take(xs@.len() as int) =~= xs@);
    }
}

/// Replaces every leftmost, non-overlapping occurrence of `pat` by `rep`.
pub fn replace_chars(s: &Vec<char>, pat: &Vec<char>, rep: &Vec<char>) -> (r: Vec<char>)
    requires
        pat@.len() >= 1,
    ensures
        r@ == replace_str(s@, pat@, rep@),
{
    let mut out: Vec<char> = Vec::new();
    let mut i: usize = 0;
    proof {
        assert(s@.skip(0) =~= s@);
        assert(Seq::<char>::empty() + replace_str(s@, pat@, rep@) =~= replace_str(
            s@,
            pat@,
            rep@,
        ));
    }
    while i < s.len()
        invariant
            i <= s@.len(),
            pat@.len() >= 1,
            replace_str(s@, pat@, rep@) == out@ + replace_str(s@.skip(i as int), pat@, rep@),
        decreases s@.len() - i,
    {
        let ghost tail = s@.skip(i as int);
        if starts_with_at(s, pat, i) {
            proof {
                assert(tail.take(pat@.len() as int) =~= s@.subrange(i as int, i + pat@.len()));
                assert(replace_str(tail, pat@, rep@) == rep@ + replace_str(
                    tail.skip(pat@.len() as int),
                    pat@,
                    rep@,
                ));
                assert(tail.skip(pat@.len() as int) =~= s@.skip(i + pat@.len()));
                assert((out@ + rep@) + replace_str(s@.skip(i + pat@.len()), pat@, rep@) =~= out@
                    + (rep@ + replace_str(s@.skip(i + pat@.len()), pat@, rep@)));
            }
            push_all(&mut out, rep);
            i += pat.len();
        } else {
            proof {
                assert(tail[0] == s@[i as int]);
                assert(tail.drop_first() =~= s@.skip(i + 1));
                if i + pat@.len() <= s@.len() {
                    assert(tail.take(pat@.len() as int) =~= s@.subrange(
                        i as int,
                        i + pat@.len(),
                    ));
                    assert(replace_str(tail, pat@, rep@) == seq![tail[0]] + replace_str(
                        tail.drop_first(),
                        pat@,
                        rep@,
                    ));
                } else {
                    assert(replace_str(tail, pat@, rep@) == tail);
                    assert(replace_str(tail.drop_first(), pat@, rep@) == tail.drop_first());
                    assert(tail =~= seq![tail[0]] + tail.drop_first());
                }
                assert((out@ + seq![s@[i as int]]) + replace_str(s@.skip(i + 1), pat@, rep@)
                    =~= out@ + (seq![s@[i as int]] + replace_str(s@.skip(i + 1), pat@, rep@)));
                assert(out@.push(s@[i as int]) =~= out@ + seq![s@[i as int]]);
            }
            out.push(s[i]);
            i += 1;
        }
    }
    proof {
        assert(s@.skip(s@.len() as int) =~= Seq::<char>::empty());
        assert(out@ + Seq::<char>::empty() =~= out@);
    }
    out
}

/// The characters that generic name normalization rewrites to underscores.
pub open spec fn is_special(c: char) -> bool {
    c == '.' || c == '-' || c == '\'' || c == '&' || c == '!'
}

/// Every special character rewritten to an underscore, the rest unchanged.
pub open spec fn underscore_specials(s: Seq<char>) -> Seq<char> {
    s.map_values(
        |c: char|
            if is_special(c) {
                '_'
            } else {
                c
            },
    )
}

/// Every space rewritten to an underscore, the rest unchanged.
pub open spec fn underscore_spaces(s: Seq<char>) -> Seq<char> {
    s.map_values(
        |c: char|
            if c == ' ' {
                '_'
            } else {
                c
            },
    )
}

/// Rewrites each special character to an underscore.
pub fn map_specials(s: &Vec<char>) -> (r: Vec<char>)
    ensures
        r@ == underscore_specials(s@),
{
    let mut out: Vec<char> = Vec::new();
    let mut i: usize = 0;
    while i < s.len()
        invariant
            i <= s@.len(),
            out@.len() == i,
            forall|j: int| 0 <= j < i ==> out@[j] == (if is_special(s@[j]) {
                '_'
            } else {
                s@[j]
            }),
        decreases s@.len() - i,
    {
        let c = s[i];
        if c == '.' || c == '-' || c == '\'' || c == '&' || c == '!' {
            out.push('_');
        } else {
            out.push(c);
        }
        i += 1;
    }
    proof {
        assert(out@ =~= underscore_specials(s@));
    }
    out
}

/// Rewrites each space to an underscore.
pub fn map_spaces(s: &Vec<char>) -> (r: Vec<char>)
    ensures
        r@ == underscore_spaces(s@),
{
    let mut out: Vec<char> = Vec::new();
    let mut i: usize = 0;
    while i < s.len()
        invariant
            i <= s@.len(),
            out@.len() == i,
            forall|j: int| 0 <= j < i ==> out@[j] == (if s@[j] == ' ' {
                '_'
            } else {
                s@[j]
            }),
        decreases s@.len() - i,
    {
        let c = s[i];
        if c == ' ' {
            out.push('_');
        } else {
            out.push(c);
        }
        i += 1;
    }
    proof {
        assert(out@ =~= underscore_spaces(s@));
    }
    out
}

/// `s` with every exclamation mark deleted.
pub open spec fn remove_bangs(s: Seq<char>) -> Seq<char>
    decreases s.len(),
{
    if s.len() == 0 {
        Seq::empty()
    } else if s[0] == '!' {
        remove_bangs(s.drop_first())
    } else {
        seq![s[0]] + remove_bangs(s.drop_first())
    }
}

/// Deletes every exclamation mark.
pub fn strip_bangs(s: &Vec<char>) -> (r: Vec<char>)
    ensures
        r@ == remove_bangs(s@),
{
    let mut out: Vec<char> = Vec::new();
    let mut i: usize = 0;
    proof {
        assert(s@.skip(0) =~= s@);
        assert(Seq::<char>::empty() + remove_bangs(s@) =~= remove_bangs(s@));
    }
    while i < s.len()
        invariant
            i <= s@.len(),
            remove_bangs(s@) == out@ + remove_bangs(s@.skip(i as int)),
        decreases s@.len() - i,
    {
        proof {
            let tail = s@.skip(i as int);
            assert(tail[0] == s@[i as int]);
            assert(tail.drop_first() =~= s@.skip(i + 1));
            if s@[i as int] != '!' {
                assert((out@ + seq![s@[i as int]]) + remove_bangs(s@.skip(i + 1)) =~= out@ + (
                seq![s@[i as int]] + remove_bangs(s@.skip(i + 1))));
                assert(out@.push(s@[i as int]) =~= out@ + seq![s@[i as int]]);
            }
        }
        let c = s[i];
        if c != '!' {
            out.push(c);
        }
        i += 1;
    }
    proof {
        assert(s@.skip(s@.len() as int) =~= Seq::<char>::empty());
        assert(out@ + Seq::<char>::empty() =~= out@);
    }
    out
}

/// `s` with every trailing underscore removed.
pub open spec fn trim_end_underscores(s: Seq<char>) -> Seq<char>
    decreases s.len(),
{
    if s.len() == 0 {
        s
    } else if s.last() == '_' {
        trim_end_underscores(s.drop_last())
    } else {
        s
    }
}

/// Removes every trailing underscore.
pub fn strip_trailing_underscores(s: &Vec<char>) -> (r: Vec<char>)
    ensures
        r@ == trim_end_underscores(s@),
{
    let mut k: usize = s.len();
    proof {
        assert(s@.take(s@.len() as int) =~= s@);
    }
    while k > 0 && s[k - 1] == '_'
        invariant
            k <= s@.len(),
            trim_end_underscores(s@) == trim_end_underscores(s@.take(k as int)),
        decreases k,
    {
        proof {
            let t = s@.take(k as int);
            assert(t.last() == s@[k - 1]);
            assert(t.drop_last() =~= s@.take(k - 1));
        }
        k -= 1;
    }
    let mut out: Vec<char> = Vec::new();
    let mut i: usize = 0;
    while i < k
        invariant
            i <= k <= s@.len(),
            out@ =~= s@.take(k as int).take(i as int),
        decreases k - i,
    {
        out.push(s[i]);
        i += 1;
    }
    proof {
        if k > 0 {
            assert(s@.take(k as int).last() != '_');
        }
        assert(trim_end_underscores(s@.take(k as int)) == s@.take(k as int));
        assert(s@.take(k as int).take(k as int) =~= s@.take(k as int));
    }
    out
}

/// The characters of `s`, in order, as a vector.
pub fn str_to_chars(s: &str) -> (r: Vec<char>)
    ensures
        r@ == s@,
{
    let n = s.unicode_len();
    let mut out: Vec<char> = Vec::new();
    let mut i: usize = 0;
    while i < n
        invariant
            i <= n == s@.len(),
            out@ =~= s@.take(i as int),
        decreases n - i,
    {
        out.push(s.get_char(i));
        i += 1;
    }
    proof {
        assert(s@.take(s@.len() as int) =~= s@);
    }
    out
}

/// Relies on `String::push`: appends exactly the given character.
#[verifier::external_body]
fn push_char(s: &mut String, c: char)
    ensures
        final(s)@ == old(s)@.push(c),
{
    s.push(c)
}

/// The characters of `v`, in order, as an owned string.
pub fn chars_to_string(v: &Vec<char>) -> (r: String)
    ensures
        r@ == v@,
{
    let mut out = String::new();
    let mut i: usize = 0;
    while i < v.len()
        invariant
            i <= v@.len(),
            out@ =~= v@.take(i as int),
        decreases v@.len() - i,
    {
        push_char(&mut out, v[i]);
        i += 1;
    }
    proof {
        assert(v@.take(v@.len() as int) =~= v@);
    }
    out
}

} // verus!
