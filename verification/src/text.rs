use vstd::prelude::*;

verus! {

/// `pat` occurs in `s` starting at position `i`.
pub open spec fn match_at(s: Seq<char>, pat: Seq<char>, i: int) -> bool {
    0 <= i && i + pat.len() <= s.len() && s.subrange(i, i + pat.len() as int) == pat
}

/// The result of replacing every occurrence of `pat` in `s` by `rep`,
/// scanning left to right without overlap and without rescanning `rep`,
/// exactly as `str::replace` does.
pub open spec fn spec_replace_all(s: Seq<char>, pat: Seq<char>, rep: Seq<char>) -> Seq<char>
    decreases s.len(),
{
    if pat.len() == 0 {
        s
    } else if s.len() < pat.len() {
        s
    } else if s.subrange(0, pat.len() as int) == pat {
        rep + spec_replace_all(s.skip(pat.len() as int), pat, rep)
    } else {
        seq![s[0]] + spec_replace_all(s.skip(1), pat, rep)
    }
}

/// Whether `pat` occurs in `s` at position `i`, compared character by
/// character.
pub fn matches_at(s: &str, i: usize, pat: &str) -> (b: bool)
    requires
        i <= s@.len(),
    ensures
        b == match_at(s@, pat@, i as int),
{
    let n = s.unicode_len();
    let m = pat.unicode_len();
    if m > n - i {
        return false;
    }
    let mut j: usize = 0;
    while j < m
        invariant
            n == s@.len(),
            m == pat@.len(),
            i + m <= n,
            j <= m,
            forall|k: int| 0 <= k < j ==> s@[i + k] == pat@[k],
        decreases m - j,
    {
        if s.get_char(i + j) != pat.get_char(j) {
            proof {
                assert(s@.subrange(i as int, i + pat@.len() as int) != pat@) by {
                    if s@.subrange(i as int, i + pat@.len() as int) == pat@ {
                        assert(s@.subrange(i as int, i + pat@.len() as int)[j as int]
                            == s@[i + j as int]);
                    }
                }
            }
            return false;
        }
        j += 1;
    }
    proof {
        assert(s@.subrange(i as int, i + pat@.len() as int) =~= pat@);
    }
    true
}

/// Whether two strings hold the same characters.
pub fn str_eq(a: &str, b: &str) -> (r: bool)
    ensures
        r == (a@ == b@),
{
    let n = a.unicode_len();
    let m = b.unicode_len();
    if n != m {
        return false;
    }
    let r = matches_at(a, 0, b);
    proof {
        assert(a@.subrange(0, m as int) =~= a@);
    }
    r
}

/// Appends one captured line and its terminating newline to an accumulated
/// output.
pub fn push_line(out: &mut String, line: &str)
    ensures
        final(out)@ == old(out)@ + line@ + "\n"@,
{
    out.append(line);
    out.append("\n");
}

/// Replaces every occurrence of `pat` in `s` by `rep`, scanning left to
/// right, as `str::replace` does for a non-empty pattern.
pub fn replace_all(s: &str, pat: &str, rep: &str) -> (r: String)
    requires
        pat@.len() > 0,
    ensures
        r@ == spec_replace_all(s@, pat@, rep@),
{
    let n = s.unicode_len();
    let m = pat.unicode_len();
    let mut r = String::new();
    let mut i: usize = 0;
    proof {
        assert(s@.skip(0) =~= s@);
        assert(r@ + spec_replace_all(s@, pat@, rep@) =~= spec_replace_all(s@, pat@, rep@));
    }
    while i < n
        invariant
            n == s@.len(),
            m == pat@.len(),
            m > 0,
            i <= n,
            spec_replace_all(s@, pat@, rep@) == r@ + spec_replace_all(
                s@.skip(i as int),
                pat@,
                rep@,
            ),
        decreases n - i,
    {
        let ghost t = s@.skip(i as int);
        if matches_at(s, i, pat) {
            r.append(rep);
            proof {
                assert(t.subrange(0, pat@.len() as int) =~= s@.subrange(
                    i as int,
                    i + pat@.len() as int,
                ));
                assert(t.skip(pat@.len() as int) =~= s@.skip(i + pat@.len() as int));
                assert(spec_replace_all(s@, pat@, rep@) =~= r@ + spec_replace_all(
                    s@.skip(i + pat@.len() as int),
                    pat@,
                    rep@,
                ));
            }
            i = i + m;
        } else {
            let piece = s.substring_char(i, i + 1);
            r.append(piece);
            proof {
                assert(t.skip(1) =~= s@.skip(i + 1));
                if t.len() < pat@.len() {
                    // Too close to the end for any further match: the spec
                    // copies the remainder verbatim, one character at a time.
                    assert(t.skip(1).len() < pat@.len());
                    assert(spec_replace_all(t, pat@, rep@) == t);
                    assert(spec_replace_all(t.skip(1), pat@, rep@) == t.skip(1));
                    assert(t =~= seq![t[0]] + t.skip(1));
                } else {
                    assert(t.subrange(0, pat@.len() as int) =~= s@.subrange(
                        i as int,
                        i + pat@.len() as int,
                    ));
                    assert(t.subrange(0, pat@.len() as int) != pat@);
                }
                assert(piece@ =~= seq![t[0]]);
                assert(spec_replace_all(s@, pat@, rep@) =~= r@ + spec_replace_all(
                    s@.skip(i + 1),
                    pat@,
                    rep@,
                ));
            }
            i = i + 1;
        }
    }
    proof {
        assert(s@.skip(i as int) =~= Seq::<char>::empty());
        assert(spec_replace_all(s@.skip(i as int), pat@, rep@) == Seq::<char>::empty());
        assert(r@ =~= r@ + Seq::<char>::empty());
    }
    r
}

} // verus!
