//! Character-sequence utilities: global substring replacement, conversion
//! between strings and character vectors, and decimal rendering of counts.

use vstd::prelude::*;
use vstd::string::StrSliceExecFns;

verus! {

/// True when `pat` occurs in `s` starting at index `i`.
pub open spec fn occurs_at(s: Seq<char>, pat: Seq<char>, i: int) -> bool {
    0 <= i && i + pat.len() <= s.len() && s.subrange(i, i + pat.len() as int) == pat
}

/// True when `pat` occurs somewhere in `s`.
pub open spec fn occurs(s: Seq<char>, pat: Seq<char>) -> bool {
    exists|i: int| occurs_at(s, pat, i)
}

/// Left-to-right, non-overlapping replacement of every occurrence of `pat`
/// in `s` by `rep`. An empty pattern leaves `s` unchanged.
pub open spec fn replace_all(s: Seq<char>, pat: Seq<char>, rep: Seq<char>) -> Seq<char>
    decreases s.len(),
{
    if pat.len() == 0 || s.len() < pat.len() {
        s
    } else if s.subrange(0, pat.len() as int) == pat {
        rep + replace_all(s.skip(pat.len() as int), pat, rep)
    } else {
        seq![s[0]] + replace_all(s.skip(1), pat, rep)
    }
}

/// A pattern that occurs nowhere in `s` is replaced nowhere: the result is
/// `s` itself.
pub proof fn lemma_replace_absent(s: Seq<char>, pat: Seq<char>, rep: Seq<char>)
    requires
        pat.len() >= 1,
        !occurs(s, pat),
    ensures
        replace_all(s, pat, rep) == s,
    decreases s.len(),
{
    if s.len() < pat.len() {
    } else {
        assert(!occurs_at(s, pat, 0));
        assert forall|i: int| !occurs_at(s.skip(1), pat, i) by {
            if occurs_at(s.skip(1), pat, i) {
                assert(s.skip(1).subrange(i, i + pat.len() as int) =~= s.subrange(
                    i + 1,
                    i + 1 + pat.len() as int,
                ));
                assert(occurs_at(s, pat, i + 1));
            }
        }
        lemma_replace_absent(s.skip(1), pat, rep);
        assert(seq![s[0]] + s.skip(1) =~= s);
    }
}

/// Replacing a pattern by itself changes nothing.
pub proof fn lemma_replace_self(s: Seq<char>, pat: Seq<char>)
    ensures
        replace_all(s, pat, pat) == s,
    decreases s.len(),
{
    if pat.len() == 0 || s.len() < pat.len() {
    } else if s.subrange(0, pat.len() as int) == pat {
        lemma_replace_self(s.skip(pat.len() as int), pat);
        assert(pat + s.skip(pat.len() as int) =~= s);
    } else {
        lemma_replace_self(s.skip(1), pat);
        assert(seq![s[0]] + s.skip(1) =~= s);
    }
}

/// A replacement that does not grow the pattern cannot grow the string.
proof fn lemma_replace_len_le(s: Seq<char>, pat: Seq<char>, rep: Seq<char>)
    requires
        pat.len() >= 1,
        rep.len() <= pat.len(),
    ensures
        replace_all(s, pat, rep).len() <= s.len(),
    decreases s.len(),
{
    if s.len() < pat.len() {
    } else if s.subrange(0, pat.len() as int) == pat {
        lemma_replace_len_le(s.skip(pat.len() as int), pat, rep);
    } else {
        lemma_replace_len_le(s.skip(1), pat, rep);
    }
}

/// A replacement that does not shrink the pattern cannot shrink the string.
proof fn lemma_replace_len_ge(s: Seq<char>, pat: Seq<char>, rep: Seq<char>)
    requires
        pat.len() >= 1,
        rep.len() >= pat.len(),
    ensures
        replace_all(s, pat, rep).len() >= s.len(),
    decreases s.len(),
{
    if s.len() < pat.len() {
    } else if s.subrange(0, pat.len() as int) == pat {
        lemma_replace_len_ge(s.skip(pat.len() as int), pat, rep);
    } else {
        lemma_replace_len_ge(s.skip(1), pat, rep);
    }
}

/// Replacing a pattern that does occur in `s` by anything other than the
/// pattern itself always changes the string.
pub proof fn lemma_replace_present(s: Seq<char>, pat: Seq<char>, rep: Seq<char>)
    requires
        pat.len() >= 1,
        occurs(s, pat),
        rep != pat,
    ensures
        replace_all(s, pat, rep) != s,
    decreases s.len(),
{
    let m = pat.len() as int;
    let j = choose|j: int| occurs_at(s, pat, j);
    assert(occurs_at(s, pat, j));
    let r = replace_all(s, pat, rep);
    if s.subrange(0, m) == pat {
        if rep.len() == pat.len() {
            if r == s {
                assert(r.subrange(0, m) =~= rep);
                assert(false);
            }
        } else if rep.len() < pat.len() {
            lemma_replace_len_le(s.skip(m), pat, rep);
            assert(r.len() < s.len());
        } else {
            lemma_replace_len_ge(s.skip(m), pat, rep);
            assert(r.len() > s.len());
        }
    } else {
        assert(j != 0);
        assert(s.skip(1).subrange(j - 1, j - 1 + m) =~= s.subrange(j, j + m));
        assert(occurs_at(s.skip(1), pat, j - 1));
        lemma_replace_present(s.skip(1), pat, rep);
        if r == s {
            let t = replace_all(s.skip(1), pat, rep);
            assert(r == seq![s[0]] + t);
            assert forall|k: int| 0 <= k < t.len() implies t[k] == s.skip(1)[k] by {
                assert(t[k] == (seq![s[0]] + t)[k + 1]);
            }
            assert(t =~= s.skip(1));
            assert(false);
        }
    }
}

/// Decides whether `pat` occurs in `s` at index `i`.
fn match_at(s: &Vec<char>, pat: &Vec<char>, i: usize) -> (r: bool)
    requires
        i + pat@.len() <= s@.len(),
    ensures
        r == (s@.subrange(i as int, i as int + pat@.len() as int) == pat@),
{
    let n: usize = s.len();
    let mut j: usize = 0;
    while j < pat.len()
        invariant
            n == s@.len(),
            j <= pat@.len(),
            i + pat@.len() <= s@.len(),
            forall|k: int| 0 <= k < j ==> s@[i + k] == pat@[k],
        decreases pat@.len() - j,
    {
        if s[i + j] != pat[j] {
            assert(s@.subrange(i as int, i as int + pat@.len() as int)[j as int] == s@[i + j]);
            return false;
        }
        j += 1;
    }
    assert(s@.subrange(i as int, i as int + pat@.len() as int) =~= pat@);
    true
}

/// Appends every element of `src` to `dst`, in order.
pub(crate) fn push_all(dst: &mut Vec<char>, src: &Vec<char>)
    ensures
        final(dst)@ == old(dst)@ + src@,
{
    let mut j: usize = 0;
    while j < src.len()
        invariant
            j <= src@.len(),
            dst@ == old(dst)@ + src@.take(j as int),
        decreases src@.len() - j,
    {
        dst.push(src[j]);
        proof {
            assert(src@.take(j as int + 1) =~= src@.take(j as int).push(src@[j as int]));
            assert(old(dst)@ + src@.take(j as int).push(src@[j as int]) =~= (old(dst)@
                + src@.take(j as int)).push(src@[j as int]));
        }
        j += 1;
    }
    assert(src@.take(src@.len() as int) =~= src@);
}

/// Replaces every occurrence of `pat` in `s` by `rep`, scanning left to
/// right without overlap, exactly as `replace_all` describes.
pub fn replace_chars(s: &Vec<char>, pat: &Vec<char>, rep: &Vec<char>) -> (r: Vec<char>)
    requires
        pat@.len() >= 1,
    ensures
        r@ == replace_all(s@, pat@, rep@),
{
    let n: usize = s.len();
    let m: usize = pat.len();
    let mut r: Vec<char> = Vec::new();
    let mut i: usize = 0;
    proof {
        assert(s@.skip(0) =~= s@);
        assert(r@ + replace_all(s@, pat@, rep@) =~= replace_all(s@, pat@, rep@));
    }
    if m <= n {
        while i <= n - m
            invariant
                m == pat@.len(),
                n == s@.len(),
                1 <= m <= n,
                i <= n,
                replace_all(s@, pat@, rep@) == r@ + replace_all(s@.skip(i as int), pat@, rep@),
            decreases n - i,
        {
            proof {
                assert(s@.skip(i as int).subrange(0, m as int) =~= s@.subrange(
                    i as int,
                    i as int + m as int,
                ));
            }
            if match_at(s, pat, i) {
                proof {
                    assert(s@.skip(i as int).skip(m as int) =~= s@.skip(i as int + m as int));
                }
                let ghost r_old = r@;
                push_all(&mut r, rep);
                proof {
                    assert((r_old + rep@) + replace_all(s@.skip(i as int + m as int), pat@, rep@)
                        =~= r_old + (rep@ + replace_all(s@.skip(i as int + m as int), pat@, rep@)));
                }
                i += m;
            } else {
                proof {
                    assert(s@.skip(i as int).skip(1) =~= s@.skip(i as int + 1));
                    assert(s@.skip(i as int)[0] == s@[i as int]);
                }
                let ghost r_old = r@;
                r.push(s[i]);
                proof {
                    assert(r@ =~= r_old + seq![s@[i as int]]);
                    assert((r_old + seq![s@[i as int]]) + replace_all(
                        s@.skip(i as int + 1),
                        pat@,
                        rep@,
                    ) =~= r_old + (seq![s@[i as int]] + replace_all(
                        s@.skip(i as int + 1),
                        pat@,
                        rep@,
                    )));
                }
                i += 1;
            }
        }
    }
    proof {
        assert(s@.skip(i as int).len() < pat@.len());
        assert(replace_all(s@.skip(i as int), pat@, rep@) == s@.skip(i as int));
    }
    while i < n
        invariant
            m == pat@.len(),
            n == s@.len(),
            1 <= m,
            i <= n,
            n - i < m,
            replace_all(s@, pat@, rep@) == r@ + s@.skip(i as int),
        decreases n - i,
    {
        let ghost r_old = r@;
        r.push(s[i]);
        proof {
            assert(s@.skip(i as int) =~= seq![s@[i as int]] + s@.skip(i as int + 1));
            assert(r_old + (seq![s@[i as int]] + s@.skip(i as int + 1)) =~= (r_old + seq![
                s@[i as int],
            ]) + s@.skip(i as int + 1));
            assert(r@ =~= r_old + seq![s@[i as int]]);
        }
        i += 1;
    }
    proof {
        assert(s@.skip(n as int) =~= Seq::<char>::empty());
        assert(r@ + Seq::<char>::empty() =~= r@);
    }
    r
}

/// Decides whether two character vectors hold the same characters.
pub fn eq_chars(a: &Vec<char>, b: &Vec<char>) -> (r: bool)
    ensures
        r == (a@ == b@),
{
    let n: usize = a.len();
    if n != b.len() {
        return false;
    }
    let mut j: usize = 0;
    while j < n
        invariant
            n == a@.len(),
            n == b@.len(),
            j <= n,
            forall|k: int| 0 <= k < j ==> a@[k] == b@[k],
        decreases n - j,
    {
        if a[j] != b[j] {
            return false;
        }
        j += 1;
    }
    assert(a@ =~= b@);
    true
}

/// The characters of `s`, in order.
pub fn chars_of(s: &str) -> (r: Vec<char>)
    ensures
        r@ == s@,
{
    let n: usize = s.unicode_len();
    let mut r: Vec<char> = Vec::new();
    let mut i: usize = 0;
    while i < n
        invariant
            n == s@.len(),
            i <= n,
            r@ == s@.take(i as int),
        decreases n - i,
    {
        r.push(s.get_char(i));
        proof {
            assert(s@.take(i as int + 1) =~= s@.take(i as int).push(s@[i as int]));
        }
        i += 1;
    }
    assert(s@.take(n as int) =~= s@);
    r
}

/// Relies on String::push: appends exactly the given character.
#[verifier::external_body]
pub(crate) fn push_char(s: &mut String, c: char)
    ensures
        final(s)@ == old(s)@.push(c),
{
    s.push(c);
}

/// A string holding exactly the characters of `v`.
pub fn string_of_chars(v: &Vec<char>) -> (r: String)
    ensures
        r@ == v@,
{
    let mut r = String::new();
    let n: usize = v.len();
    let mut i: usize = 0;
    while i < n
        invariant
            n == v@.len(),
            i <= n,
            r@ == v@.take(i as int),
        decreases n - i,
    {
        push_char(&mut r, v[i]);
        proof {
            assert(v@.take(i as int + 1) =~= v@.take(i as int).push(v@[i as int]));
        }
        i += 1;
    }
    assert(v@.take(n as int) =~= v@);
    r
}

/// The character for decimal digit `d`.
pub open spec fn dec_digit(d: nat) -> char
    recommends
        d < 10,
{
    if d == 0 {
        '0'
    } else if d == 1 {
        '1'
    } else if d == 2 {
        '2'
    } else if d == 3 {
        '3'
    } else if d == 4 {
        '4'
    } else if d == 5 {
        '5'
    } else if d == 6 {
        '6'
    } else if d == 7 {
        '7'
    } else if d == 8 {
        '8'
    } else {
        '9'
    }
}

/// The decimal representation of `n`, most significant digit first, with
/// no leading zeros (a single `'0'` for zero).
pub open spec fn dec_str(n: nat) -> Seq<char>
    decreases n,
{
    if n < 10 {
        seq![dec_digit(n)]
    } else {
        dec_str(n / 10).push(dec_digit(n % 10))
    }
}

fn digit_char(d: usize) -> (c: char)
    requires
        d < 10,
    ensures
        c == dec_digit(d as nat),
{
    if d == 0 {
        '0'
    } else if d == 1 {
        '1'
    } else if d == 2 {
        '2'
    } else if d == 3 {
        '3'
    } else if d == 4 {
        '4'
    } else if d == 5 {
        '5'
    } else if d == 6 {
        '6'
    } else if d == 7 {
        '7'
    } else if d == 8 {
        '8'
    } else {
        '9'
    }
}

/// Appends the decimal representation of `n` to `out`.
pub fn push_dec(out: &mut String, n: usize)
    ensures
        final(out)@ == old(out)@ + dec_str(n as nat),
    decreases n,
{
    if n >= 10 {
        push_dec(out, n / 10);
    }
    let d = digit_char(n % 10);
    push_char(out, d);
    proof {
        if n >= 10 {
            assert(n as nat / 10 == (n / 10) as nat);
            assert(n as nat % 10 == (n % 10) as nat);
            assert(old(out)@ + dec_str(n as nat / 10).push(dec_digit(n as nat % 10)) =~= (old(
                out,
            )@ + dec_str(n as nat / 10)).push(dec_digit(n as nat % 10)));
        } else {
            assert(old(out)@ + seq![dec_digit(n as nat)] =~= old(out)@.push(dec_digit(n as nat)));
        }
    }
}

} // verus!
