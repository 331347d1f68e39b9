//! Document rewriting: literal replacement of URLs by local paths, and the
//! blanket extension sweep that turns every remaining `.jpg`/`.jpeg`/`.png`
//! occurrence (any case) into `.webp` while protecting text that is already
//! `.webp`/`.WEBP`.

use vstd::prelude::*;

use crate::paths::{lower_char, lower_chars, to_lower_char};
use crate::text::starts_with;

verus! {

/// Replacement of every occurrence of `pat` in `s` by `rep`, scanning left
/// to right; an empty pattern replaces nothing.
pub open spec fn replace_chars(s: Seq<char>, pat: Seq<char>, rep: Seq<char>) -> Seq<char>
    decreases s.len(),
{
    if pat.len() == 0 || s.len() < pat.len() {
        s
    } else if s.take(pat.len() as int) == pat {
        rep + replace_chars(s.skip(pat.len() as int), pat, rep)
    } else {
        seq![s[0]] + replace_chars(s.skip(1), pat, rep)
    }
}

/// Whether `pat` occurs in `s` starting at `i`.
pub open spec fn match_at(s: Seq<char>, i: int, pat: Seq<char>) -> bool {
    0 <= i && i + pat.len() <= s.len() && s.subrange(i, i + pat.len()) == pat
}

/// Whether `lower_pat` (given in lower case) occurs case-insensitively in
/// `s` starting at `i`.
pub open spec fn ci_match_at(s: Seq<char>, i: int, lower_pat: Seq<char>) -> bool {
    0 <= i && i + lower_pat.len() <= s.len() && lower_chars(s.subrange(i, i + lower_pat.len()))
        == lower_pat
}

pub fn match_at_exec(s: &Vec<char>, i: usize, pat: &Vec<char>) -> (r: bool)
    requires
        i <= s@.len(),
        pat@.len() <= s@.len() - i,
    ensures
        r == match_at(s@, i as int, pat@),
{
    let n = s.len();
    let m = pat.len();
    let mut j: usize = 0;
    while j < m
        invariant
            j <= m,
            i + m <= n,
            n == s@.len(),
            m == pat@.len(),
            forall|t: int| 0 <= t < j ==> s@[i + t] == pat@[t],
        decreases m - j,
    {
        if s[i + j] != pat[j] {
            assert(s@.subrange(i as int, i + m) != pat@) by {
                assert(s@.subrange(i as int, i + m)[j as int] != pat@[j as int]);
            }
            return false;
        }
        j = j + 1;
    }
    assert(s@.subrange(i as int, i + m) =~= pat@);
    true
}

pub fn ci_match_at_exec(s: &Vec<char>, i: usize, lower_pat: &Vec<char>) -> (r: bool)
    requires
        i <= s@.len(),
    ensures
        r == ci_match_at(s@, i as int, lower_pat@),
{
    let n = s.len();
    let m = lower_pat.len();
    if n - i < m {
        return false;
    }
    let mut j: usize = 0;
    while j < m
        invariant
            j <= m,
            i + m <= n,
            n == s@.len(),
            m == lower_pat@.len(),
            forall|t: int| 0 <= t < j ==> lower_char(s@[i + t]) == lower_pat@[t],
        decreases m - j,
    {
        if to_lower_char(s[i + j]) != lower_pat[j] {
            assert(lower_chars(s@.subrange(i as int, i + m)) != lower_pat@) by {
                assert(lower_chars(s@.subrange(i as int, i + m))[j as int] == lower_char(
                    s@.subrange(i as int, i + m)[j as int],
                ));
            }
            return false;
        }
        j = j + 1;
    }
    assert(lower_chars(s@.subrange(i as int, i + m)) =~= lower_pat@);
    true
}

/// Replaces every occurrence of `pat` in `s` by `rep`.
pub fn replace_all(s: &Vec<char>, pat: &Vec<char>, rep: &Vec<char>) -> (r: Vec<char>)
    requires
        pat@.len() > 0,
    ensures
        r@ == replace_chars(s@, pat@, rep@),
{
    let n = s.len();
    let m = pat.len();
    let mut out: Vec<char> = Vec::new();
    let mut i: usize = 0;
    proof {
        assert(s@.skip(0) =~= s@);
    }
    while i < n
        invariant
            i <= n,
            n == s@.len(),
            m == pat@.len(),
            m > 0,
            replace_chars(s@, pat@, rep@) == out@ + replace_chars(s@.skip(i as int), pat@, rep@),
        decreases n - i,
    {
        let ghost rest = s@.skip(i as int);
        let ghost out0 = out@;
        if m <= n - i && match_at_exec(s, i, pat) {
            crate::paths::append_chars(&mut out, rep);
            proof {
                assert(rest.take(m as int) =~= s@.subrange(i as int, i + m));
                assert(rest.skip(m as int) =~= s@.skip(i + m));
                assert(replace_chars(rest, pat@, rep@) == rep@ + replace_chars(
                    s@.skip(i + m),
                    pat@,
                    rep@,
                ));
                assert(out@ + replace_chars(s@.skip(i + m), pat@, rep@) =~= out0 + (rep@
                    + replace_chars(s@.skip(i + m), pat@, rep@)));
            }
            i = i + m;
        } else {
            out.push(s[i]);
            proof {
                assert(rest[0] == s@[i as int]);
                assert(rest.skip(1) =~= s@.skip(i + 1));
                if m <= n - i {
                    assert(rest.take(m as int) =~= s@.subrange(i as int, i + m));
                    assert(replace_chars(rest, pat@, rep@) == seq![rest[0]] + replace_chars(
                        s@.skip(i + 1),
                        pat@,
                        rep@,
                    ));
                } else {
                    assert(rest.len() < m);
                    assert(replace_chars(rest, pat@, rep@) == rest);
                    assert(rest =~= seq![rest[0]] + rest.skip(1));
                    if s@.skip(i + 1).len() < m {
                        assert(replace_chars(s@.skip(i + 1), pat@, rep@) == s@.skip(i + 1));
                    }
                }
                assert(out@ + replace_chars(s@.skip(i + 1), pat@, rep@) =~= out0 + (seq![rest[0]]
                    + replace_chars(s@.skip(i + 1), pat@, rep@)));
            }
            i = i + 1;
        }
    }
    proof {
        assert(s@.skip(n as int) =~= Seq::<char>::empty());
        assert(replace_chars(s@.skip(n as int), pat@, rep@) == s@.skip(n as int));
        assert(out@ + s@.skip(n as int) =~= out@);
    }
    out
}

/// One pass of extension-aware matching: text already reading `.webp` or
/// `.WEBP` is copied untouched; a `.jpg`, `.jpeg` or `.png` occurrence in
/// any case becomes `.webp`; every other character is copied.
pub open spec fn webp_sweep_chars(s: Seq<char>) -> Seq<char>
    decreases s.len(),
{
    if s.len() == 0 {
        s
    } else if s.len() >= 5 && (starts_with(s, ".webp"@) || starts_with(s, ".WEBP"@)) {
        s.take(5) + webp_sweep_chars(s.skip(5))
    } else if s.len() >= 5 && ci_match_at(s, 0, ".jpeg"@) {
        ".webp"@ + webp_sweep_chars(s.skip(5))
    } else if s.len() >= 4 && (ci_match_at(s, 0, ".jpg"@) || ci_match_at(s, 0, ".png"@)) {
        ".webp"@ + webp_sweep_chars(s.skip(4))
    } else {
        seq![s[0]] + webp_sweep_chars(s.skip(1))
    }
}

/// Runs the extension sweep over a character vector.
pub fn webp_sweep(s: &Vec<char>) -> (r: Vec<char>)
    ensures
        r@ == webp_sweep_chars(s@),
{
    let webp_lower = crate::text::str_to_chars(".webp");
    let webp_upper = crate::text::str_to_chars(".WEBP");
    let jpeg = crate::text::str_to_chars(".jpeg");
    let jpg = crate::text::str_to_chars(".jpg");
    let png = crate::text::str_to_chars(".png");
    proof {
        reveal_strlit(".webp");
        reveal_strlit(".WEBP");
        reveal_strlit(".jpeg");
        reveal_strlit(".jpg");
        reveal_strlit(".png");
    }
    let n = s.len();
    let mut out: Vec<char> = Vec::new();
    let mut i: usize = 0;
    proof {
        assert(s@.skip(0) =~= s@);
    }
    while i < n
        invariant
            i <= n,
            n == s@.len(),
            webp_lower@ == ".webp"@ && webp_lower@.len() == 5,
            webp_upper@ == ".WEBP"@ && webp_upper@.len() == 5,
            jpeg@ == ".jpeg"@ && jpeg@.len() == 5,
            jpg@ == ".jpg"@ && jpg@.len() == 4,
            png@ == ".png"@ && png@.len() == 4,
            webp_sweep_chars(s@) == out@ + webp_sweep_chars(s@.skip(i as int)),
        decreases n - i,
    {
        let ghost rest = s@.skip(i as int);
        let ghost out0 = out@;
        if n - i >= 5 && (match_at_exec(s, i, &webp_lower) || match_at_exec(s, i, &webp_upper)) {
            proof {
                assert(rest.take(5) =~= s@.subrange(i as int, i + 5));
                assert(starts_with(rest, ".webp"@) || starts_with(rest, ".WEBP"@));
                assert(rest.skip(5) =~= s@.skip(i + 5));
            }
            let piece = crate::paths::copy_range(s, i, i + 5);
            crate::paths::append_chars(&mut out, &piece);
            proof {
                assert(out@ =~= out0 + rest.take(5));
                assert(out@ + webp_sweep_chars(s@.skip(i + 5)) =~= out0 + (rest.take(5)
                    + webp_sweep_chars(rest.skip(5))));
            }
            i = i + 5;
        } else if ci_match_at_exec(s, i, &jpeg) {
            proof {
                assert(!(starts_with(rest, ".webp"@) || starts_with(rest, ".WEBP"@))) by {
                    if starts_with(rest, ".webp"@) || starts_with(rest, ".WEBP"@) {
                        assert(rest.take(5) =~= s@.subrange(i as int, i + 5));
                    }
                }
                assert(rest.subrange(0, 5) =~= s@.subrange(i as int, i + 5));
                assert(ci_match_at(rest, 0, ".jpeg"@));
                assert(rest.skip(5) =~= s@.skip(i + 5));
            }
            crate::paths::append_chars(&mut out, &webp_lower);
            proof {
                assert(out@ + webp_sweep_chars(s@.skip(i + 5)) =~= out0 + (".webp"@
                    + webp_sweep_chars(rest.skip(5))));
            }
            i = i + 5;
        } else if ci_match_at_exec(s, i, &jpg) || ci_match_at_exec(s, i, &png) {
            proof {
                assert(!(starts_with(rest, ".webp"@) || starts_with(rest, ".WEBP"@))) by {
                    if i + 5 <= n {
                        assert(rest.take(5) =~= s@.subrange(i as int, i + 5));
                    }
                }
                if i + 5 <= n {
                    assert(rest.subrange(0, 5) =~= s@.subrange(i as int, i + 5));
                }
                assert(rest.subrange(0, 4) =~= s@.subrange(i as int, i + 4));
                assert(!ci_match_at(rest, 0, ".jpeg"@));
                assert(ci_match_at(rest, 0, ".jpg"@) || ci_match_at(rest, 0, ".png"@));
                assert(rest.skip(4) =~= s@.skip(i + 4));
            }
            crate::paths::append_chars(&mut out, &webp_lower);
            proof {
                assert(out@ + webp_sweep_chars(s@.skip(i + 4)) =~= out0 + (".webp"@
                    + webp_sweep_chars(rest.skip(4))));
            }
            i = i + 4;
        } else {
            proof {
                if i + 5 <= n {
                    assert(rest.take(5) =~= s@.subrange(i as int, i + 5));
                    assert(rest.subrange(0, 5) =~= s@.subrange(i as int, i + 5));
                }
                if i + 4 <= n {
                    assert(rest.subrange(0, 4) =~= s@.subrange(i as int, i + 4));
                }
                assert(!(starts_with(rest, ".webp"@) || starts_with(rest, ".WEBP"@)));
                assert(!ci_match_at(rest, 0, ".jpeg"@));
                assert(!ci_match_at(rest, 0, ".jpg"@));
                assert(!ci_match_at(rest, 0, ".png"@));
                assert(rest[0] == s@[i as int]);
                assert(rest.skip(1) =~= s@.skip(i + 1));
            }
            out.push(s[i]);
            proof {
                assert(out@ + webp_sweep_chars(s@.skip(i + 1)) =~= out0 + (seq![rest[0]]
                    + webp_sweep_chars(rest.skip(1))));
            }
            i = i + 1;
        }
    }
    proof {
        assert(s@.skip(n as int) =~= Seq::<char>::empty());
        assert(out@ + webp_sweep_chars(s@.skip(n as int)) =~= out@);
    }
    out
}

} // verus!
