//! Pure path mapping: sanitizing URL-derived strings into filesystem-safe
//! relative paths, appending `index.html` for directory-like URLs, and
//! translating image extensions to `.webp`.

use vstd::prelude::*;

verus! {

/// Characters that survive sanitization unchanged: ASCII letters and digits,
/// `/`, `.` and `-`. Everything else becomes `_`.
pub open spec fn keep_char(c: char) -> bool {
    ('a' <= c && c <= 'z') || ('A' <= c && c <= 'Z') || ('0' <= c && c <= '9') || c == '/' || c
        == '.' || c == '-'
}

pub open spec fn sanitize_char(c: char) -> char {
    if keep_char(c) {
        c
    } else {
        '_'
    }
}

pub open spec fn sanitize_chars(s: Seq<char>) -> Seq<char> {
    s.map_values(|c: char| sanitize_char(c))
}

/// Lower-cases an ASCII letter; leaves any other character alone.
pub open spec fn lower_char(c: char) -> char {
    if 'A' <= c && c <= 'Z' {
        (((c as u8) + 32) as char)
    } else {
        c
    }
}

pub open spec fn lower_chars(s: Seq<char>) -> Seq<char> {
    s.map_values(|c: char| lower_char(c))
}

pub open spec fn ends_with(s: Seq<char>, suffix: Seq<char>) -> bool {
    s.len() >= suffix.len() && s.skip(s.len() - suffix.len()) == suffix
}

/// Case-insensitive suffix test; `lower_suffix` is given in lower case.
pub open spec fn ends_with_ci(s: Seq<char>, lower_suffix: Seq<char>) -> bool {
    ends_with(lower_chars(s), lower_suffix)
}

/// Whether the final `/`-separated segment of `p` contains a `.`.
pub open spec fn tail_has_dot(p: Seq<char>) -> bool
    decreases p.len(),
{
    if p.len() == 0 {
        false
    } else if p.last() == '/' {
        false
    } else if p.last() == '.' {
        true
    } else {
        tail_has_dot(p.drop_last())
    }
}

pub open spec fn strip_leading_slash(p: Seq<char>) -> Seq<char> {
    if p.len() > 0 && p[0] == '/' {
        p.skip(1)
    } else {
        p
    }
}

/// Root and directory-like paths get an `index.html` file name: an empty path
/// becomes `index.html`, a path ending in `/` gets `index.html` appended, and
/// a path whose final segment has no `.` is treated as a directory.
pub open spec fn with_index_file(p: Seq<char>) -> Seq<char> {
    if p.len() == 0 {
        "index.html"@
    } else if p.last() == '/' {
        p + "index.html"@
    } else if !tail_has_dot(p) {
        p + "/index.html"@
    } else {
        p
    }
}

/// The canonical local path for a URL with path component `path` and query
/// component `query`: strip the leading slash, supply an index file where
/// needed, sanitize, and append `?` plus the sanitized query when a
/// non-empty query exists — so two URLs differing only by query never
/// collide unless sanitization itself collapses them.
pub open spec fn local_path_chars(path: Seq<char>, query: Option<Seq<char>>) -> Seq<char> {
    let based = sanitize_chars(with_index_file(strip_leading_slash(path)));
    if query is Some && query->0.len() > 0 {
        based + seq!['?'] + sanitize_chars(query->0)
    } else {
        based
    }
}

/// Whether a URL names a JPEG or PNG image that WebP conversion targets:
/// it ends (case-insensitively) in `.jpg`, `.jpeg` or `.png`, and is not
/// already WebP.
pub open spec fn webp_source_url(u: Seq<char>) -> bool {
    (ends_with_ci(u, ".jpg"@) || ends_with_ci(u, ".jpeg"@) || ends_with_ci(u, ".png"@))
        && !ends_with_ci(u, ".webp"@)
}

/// Replaces a trailing `.jpg`/`.jpeg`/`.png` (any case) of a local path with
/// `.webp`; leaves every other path unchanged.
pub open spec fn translate_webp_chars(p: Seq<char>) -> Seq<char> {
    if ends_with_ci(p, ".jpeg"@) {
        p.take(p.len() - 5) + ".webp"@
    } else if ends_with_ci(p, ".jpg"@) {
        p.take(p.len() - 4) + ".webp"@
    } else if ends_with_ci(p, ".png"@) {
        p.take(p.len() - 4) + ".webp"@
    } else {
        p
    }
}

/// The final local path of a resource: extension-translated when conversion
/// is on and the original URL is an eligible image, otherwise untouched.
pub open spec fn webp_local_path(p: Seq<char>, original_url: Seq<char>, convert: bool) -> Seq<
    char,
> {
    if convert && webp_source_url(original_url) {
        translate_webp_chars(p)
    } else {
        p
    }
}

pub fn is_keep_char(c: char) -> (r: bool)
    ensures
        r == keep_char(c),
{
    ('a' <= c && c <= 'z') || ('A' <= c && c <= 'Z') || ('0' <= c && c <= '9') || c == '/' || c
        == '.' || c == '-'
}

pub fn to_lower_char(c: char) -> (r: char)
    ensures
        r == lower_char(c),
{
    if 'A' <= c && c <= 'Z' {
        ((c as u8) + 32) as char
    } else {
        c
    }
}

/// Sanitizes a character vector; the identity on kept characters, `_` elsewhere.
pub fn sanitize_vec(v: &Vec<char>) -> (r: Vec<char>)
    ensures
        r@ == sanitize_chars(v@),
{
    let mut r: Vec<char> = Vec::new();
    let mut i: usize = 0;
    while i < v.len()
        invariant
            i <= v@.len(),
            r@.len() == i,
            forall|j: int| 0 <= j < i ==> r@[j] == sanitize_char(v@[j]),
        decreases v@.len() - i,
    {
        if is_keep_char(v[i]) {
            r.push(v[i]);
        } else {
            r.push('_');
        }
        i = i + 1;
    }
    assert(r@ =~= sanitize_chars(v@));
    r
}

pub fn lower_vec(v: &Vec<char>) -> (r: Vec<char>)
    ensures
        r@ == lower_chars(v@),
{
    let mut r: Vec<char> = Vec::new();
    let mut i: usize = 0;
    while i < v.len()
        invariant
            i <= v@.len(),
            r@.len() == i,
            forall|j: int| 0 <= j < i ==> r@[j] == lower_char(v@[j]),
        decreases v@.len() - i,
    {
        r.push(to_lower_char(v[i]));
        i = i + 1;
    }
    assert(r@ =~= lower_chars(v@));
    r
}

/// Appends the characters of `src` to `dst`.
pub fn append_chars(dst: &mut Vec<char>, src: &Vec<char>)
    ensures
        final(dst)@ == old(dst)@ + src@,
{
    let mut i: usize = 0;
    while i < src.len()
        invariant
            i <= src@.len(),
            dst@ == old(dst)@ + src@.subrange(0, i as int),
        decreases src@.len() - i,
    {
        dst.push(src[i]);
        assert(dst@ =~= old(dst)@ + src@.subrange(0, i + 1 as int));
        i = i + 1;
    }
    assert(dst@ =~= old(dst)@ + src@);
}

pub fn ends_with_vec(v: &Vec<char>, suffix: &Vec<char>) -> (r: bool)
    ensures
        r == ends_with(v@, suffix@),
{
    let n = v.len();
    let m = suffix.len();
    if n < m {
        return false;
    }
    let mut i: usize = 0;
    while i < m
        invariant
            i <= m,
            m <= n,
            n == v@.len(),
            m == suffix@.len(),
            forall|j: int| 0 <= j < i ==> v@[n - m + j] == suffix@[j],
        decreases m - i,
    {
        if v[n - m + i] != suffix[i] {
            assert(v@.skip(n - m)[i as int] != suffix@[i as int]);
            return false;
        }
        i = i + 1;
    }
    assert(v@.skip(n - m) =~= suffix@);
    true
}

/// Case-insensitive suffix test against a lower-case suffix literal.
pub fn ends_with_ci_vec(v: &Vec<char>, lower_suffix: &Vec<char>) -> (r: bool)
    ensures
        r == ends_with_ci(v@, lower_suffix@),
{
    let low = lower_vec(v);
    ends_with_vec(&low, lower_suffix)
}

/// Copies `v[from..to]` into a fresh vector.
pub fn copy_range(v: &Vec<char>, from: usize, to: usize) -> (r: Vec<char>)
    requires
        from <= to <= v@.len(),
    ensures
        r@ == v@.subrange(from as int, to as int),
{
    let mut r: Vec<char> = Vec::new();
    let mut i: usize = from;
    while i < to
        invariant
            from <= i <= to <= v@.len(),
            r@ == v@.subrange(from as int, i as int),
        decreases to - i,
    {
        r.push(v[i]);
        assert(r@ =~= v@.subrange(from as int, i + 1 as int));
        i = i + 1;
    }
    r
}

pub fn tail_has_dot_vec(v: &Vec<char>) -> (r: bool)
    ensures
        r == tail_has_dot(v@),
{
    let mut j = v.len();
    assert(v@.subrange(0, v@.len() as int) =~= v@);
    loop
        invariant
            j <= v@.len(),
            tail_has_dot(v@) == tail_has_dot(v@.subrange(0, j as int)),
        decreases j,
    {
        if j == 0 {
            return false;
        }
        let ghost pre = v@.subrange(0, j as int);
        assert(pre.last() == v@[j - 1]);
        let c = v[j - 1];
        if c == '/' {
            return false;
        }
        if c == '.' {
            return true;
        }
        assert(pre.drop_last() =~= v@.subrange(0, j - 1));
        j = j - 1;
    }
}

/// Builds the local path for a URL's path and query components.
pub fn local_path_from_parts(path: &Vec<char>, query: &Option<Vec<char>>) -> (r: Vec<char>)
    ensures
        r@ == local_path_chars(path@, opt_chars_view(*query)),
{
    let mut based: Vec<char> = if path.len() > 0 && path[0] == '/' {
        copy_range(path, 1, path.len())
    } else {
        copy_range(path, 0, path.len())
    };
    assert(path@.subrange(0, path@.len() as int) =~= path@);
    assert(based@ == strip_leading_slash(path@));
    let index_name = crate::text::str_to_chars("index.html");
    if based.len() == 0 {
        based = index_name;
    } else if based[based.len() - 1] == '/' {
        append_chars(&mut based, &index_name);
    } else if !tail_has_dot_vec(&based) {
        based.push('/');
        append_chars(&mut based, &index_name);
        assert(based@ =~= strip_leading_slash(path@) + "/index.html"@) by {
            reveal_strlit("/index.html");
            reveal_strlit("index.html");
            reveal_strlit("/");
            assert(strip_leading_slash(path@).push('/') =~= strip_leading_slash(path@)
                + seq!['/']);
            assert("/index.html"@ =~= seq!['/'] + "index.html"@);
        }
    }
    assert(based@ == with_index_file(strip_leading_slash(path@)));
    let mut clean = sanitize_vec(&based);
    match query {
        Some(q) if q.len() > 0 => {
            clean.push('?');
            let clean_query = sanitize_vec(q);
            append_chars(&mut clean, &clean_query);
            assert(clean@ =~= sanitize_chars(with_index_file(strip_leading_slash(path@)))
                + seq!['?'] + sanitize_chars(q@));
            clean
        },
        _ => { clean },
    }
}

/// The view of an optional character vector.
pub open spec fn opt_chars_view(q: Option<Vec<char>>) -> Option<Seq<char>> {
    match q {
        Some(v) => Some(v@),
        None => None,
    }
}

/// Replaces a trailing `.jpg`/`.jpeg`/`.png` (any case) with `.webp`.
pub fn translate_webp_vec(p: &Vec<char>) -> (r: Vec<char>)
    ensures
        r@ == translate_webp_chars(p@),
{
    let jpeg = crate::text::str_to_chars(".jpeg");
    let jpg = crate::text::str_to_chars(".jpg");
    let png = crate::text::str_to_chars(".png");
    let webp = crate::text::str_to_chars(".webp");
    proof {
        reveal_strlit(".jpeg");
        reveal_strlit(".jpg");
        reveal_strlit(".png");
        reveal_strlit(".webp");
    }
    if ends_with_ci_vec(p, &jpeg) {
        let mut r = copy_range(p, 0, p.len() - 5);
        append_chars(&mut r, &webp);
        r
    } else if ends_with_ci_vec(p, &jpg) {
        let mut r = copy_range(p, 0, p.len() - 4);
        append_chars(&mut r, &webp);
        r
    } else if ends_with_ci_vec(p, &png) {
        let mut r = copy_range(p, 0, p.len() - 4);
        append_chars(&mut r, &webp);
        r
    } else {
        copy_range(p, 0, p.len())
    }
}

/// Whether `u` is an eligible JPEG/PNG URL for WebP conversion.
pub fn is_webp_source_url(u: &Vec<char>) -> (r: bool)
    ensures
        r == webp_source_url(u@),
{
    let jpeg = crate::text::str_to_chars(".jpeg");
    let jpg = crate::text::str_to_chars(".jpg");
    let png = crate::text::str_to_chars(".png");
    let webp = crate::text::str_to_chars(".webp");
    (ends_with_ci_vec(u, &jpg) || ends_with_ci_vec(u, &jpeg) || ends_with_ci_vec(u, &png))
        && !ends_with_ci_vec(u, &webp)
}

/// The final local path of a resource under the WebP-conversion setting.
pub fn webp_local_path_vec(p: &Vec<char>, original_url: &Vec<char>, convert: bool) -> (r: Vec<
    char,
>)
    ensures
        r@ == webp_local_path(p@, original_url@, convert),
{
    if convert && is_webp_source_url(original_url) {
        translate_webp_vec(p)
    } else {
        copy_range(p, 0, p.len())
    }
}

/// The directory part of a local path: everything before the last `/`, or
/// empty when there is none.
pub open spec fn parent_dir(p: Seq<char>) -> Seq<char>
    decreases p.len(),
{
    if p.len() == 0 {
        p
    } else if p.last() == '/' {
        p.drop_last()
    } else {
        parent_dir(p.drop_last())
    }
}

pub fn parent_dir_vec(v: &Vec<char>) -> (r: Vec<char>)
    ensures
        r@ == parent_dir(v@),
{
    let mut j = v.len();
    assert(v@.subrange(0, v@.len() as int) =~= v@);
    loop
        invariant
            j <= v@.len(),
            parent_dir(v@) == parent_dir(v@.subrange(0, j as int)),
        decreases j,
    {
        if j == 0 {
            assert(v@.subrange(0, 0) =~= Seq::<char>::empty());
            return Vec::new();
        }
        let ghost pre = v@.subrange(0, j as int);
        assert(pre.last() == v@[j - 1]);
        if v[j - 1] == '/' {
            assert(pre.drop_last() =~= v@.subrange(0, j - 1));
            return copy_range(v, 0, j - 1);
        }
        assert(pre.drop_last() =~= v@.subrange(0, j - 1));
        j = j - 1;
    }
}

/// What pathdiff::diff_paths returns for a target path and a base directory,
/// both as strings.
pub uninterp spec fn relpath_of(to: Seq<char>, base: Seq<char>) -> Option<Seq<char>>;

/// A relative path whose `/`-separated segments are all nonempty and none of
/// them `.` or `..`; such a path survives component normalization unchanged.
pub open spec fn plain_rel_path(p: Seq<char>) -> bool {
    &&& p.len() > 0
    &&& p[0] != '/'
    &&& p[p.len() - 1] != '/'
    &&& (forall|i: int| 0 <= i < p.len() - 1 ==> !(p[i] == '/' && #[trigger] p[i + 1] == '/'))
    &&& (forall|i: int|
        0 <= i < p.len() && #[trigger] p[i] == '.' && (i == 0 || p[i - 1] == '/') ==> !(i + 1
            == p.len() || p[i + 1] == '/' || (p[i + 1] == '.' && (i + 2 == p.len() || p[i + 2]
            == '/'))))
}

/// Relies on pathdiff::diff_paths: the relative path from the base directory
/// to the target, by component comparison; with an empty base, a plain
/// relative target passes through unchanged.
#[verifier::external_body]
pub fn diff_paths_str(to: &str, base: &str) -> (r: Option<String>)
    ensures
        match r {
            Some(s) => relpath_of(to@, base@) == Some(s@),
            None => relpath_of(to@, base@) is None,
        },
        base@.len() == 0 && plain_rel_path(to@) ==> r is Some && r->0@ == to@,
{
    pathdiff::diff_paths(std::path::Path::new(to), std::path::Path::new(base)).map(
        |p| p.to_string_lossy().to_string(),
    )
}

/// The relative reference from the file at `from` to the file at `to`: the
/// computed relative path, or `to` itself when none is computable.
pub open spec fn relative_path_spec(from: Seq<char>, to: Seq<char>) -> Seq<char> {
    match relpath_of(to, parent_dir(from)) {
        Some(r) => r,
        None => to,
    }
}

/// Computes the relative reference from one local file to another.
pub fn calculate_relative_path(from_path: &str, to_path: &str) -> (r: String)
    ensures
        r@ == relative_path_spec(from_path@, to_path@),
        parent_dir(from_path@).len() == 0 && plain_rel_path(to_path@) ==> r@ == to_path@,
{
    let from_chars = crate::text::str_to_chars(from_path);
    let dir = parent_dir_vec(&from_chars);
    let dir_str = crate::text::chars_to_string(&dir);
    match diff_paths_str(to_path, dir_str.as_str()) {
        Some(r) => r,
        None => to_path.to_owned(),
    }
}

/// Sanitization completeness: sanitized text never contains `?`, `&`, `=`,
/// `#` or a space.
pub proof fn lemma_sanitize_complete(s: Seq<char>)
    ensures
        forall|i: int|
            0 <= i < sanitize_chars(s).len() ==> #[trigger] sanitize_chars(s)[i] != '?'
                && sanitize_chars(s)[i] != '&' && sanitize_chars(s)[i] != '=' && sanitize_chars(
                s,
            )[i] != '#' && sanitize_chars(s)[i] != ' ',
{
    assert forall|i: int| 0 <= i < sanitize_chars(s).len() implies #[trigger] sanitize_chars(s)[i]
        != '?' && sanitize_chars(s)[i] != '&' && sanitize_chars(s)[i] != '=' && sanitize_chars(
        s,
    )[i] != '#' && sanitize_chars(s)[i] != ' ' by {
        assert(sanitize_chars(s)[i] == sanitize_char(s[i]));
    }
}

/// The same, of a whole local path: only the query separator `?` survives;
/// `&`, `=`, `#` and spaces never do.
pub proof fn lemma_local_path_sanitized(path: Seq<char>, query: Option<Seq<char>>)
    ensures
        forall|i: int|
            0 <= i < local_path_chars(path, query).len() ==> #[trigger] local_path_chars(
                path,
                query,
            )[i] != '&' && local_path_chars(path, query)[i] != '=' && local_path_chars(
                path,
                query,
            )[i] != '#' && local_path_chars(path, query)[i] != ' ',
{
    let based = sanitize_chars(with_index_file(strip_leading_slash(path)));
    lemma_sanitize_complete(with_index_file(strip_leading_slash(path)));
    if query is Some && query->0.len() > 0 {
        lemma_sanitize_complete(query->0);
        assert forall|i: int| 0 <= i < local_path_chars(path, query).len() implies #[trigger] local_path_chars(
            path,
            query,
        )[i] != '&' && local_path_chars(path, query)[i] != '=' && local_path_chars(path, query)[i]
            != '#' && local_path_chars(path, query)[i] != ' ' by {
            let whole = based + seq!['?'] + sanitize_chars(query->0);
            if i < based.len() {
                assert(whole[i] == based[i]);
            } else if i == based.len() {
                assert(whole[i] == '?');
            } else {
                assert(whole[i] == sanitize_chars(query->0)[i - based.len() - 1]);
            }
        }
    }
}

/// A suffix of dots and lower-case letters is matched case-insensitively by
/// characters that sanitization keeps unchanged, so sanitizing cannot
/// disturb it.
proof fn lemma_sanitize_keeps_ci_suffix(p: Seq<char>, ext: Seq<char>)
    requires
        ends_with_ci(p, ext),
        forall|j: int| 0 <= j < ext.len() ==> ext[j] == '.' || ('a' <= #[trigger] ext[j] && ext[j]
            <= 'z'),
    ensures
        ends_with_ci(sanitize_chars(p), ext),
{
    let n = p.len() as int;
    let m = ext.len() as int;
    assert(lower_chars(p).len() == n);
    assert forall|j: int| 0 <= j < m implies lower_chars(sanitize_chars(p)).skip(n - m)[j]
        == ext[j] by {
        let c = p[n - m + j];
        assert(lower_chars(p).skip(n - m)[j] == lower_char(c));
        assert(lower_char(c) == ext[j]);
        assert(keep_char(c)) by {
            if ext[j] == '.' {
                assert(c == '.');
            }
        }
        assert(sanitize_chars(p)[n - m + j] == c);
        assert(lower_chars(sanitize_chars(p))[n - m + j] == lower_char(c));
    }
    assert(lower_chars(sanitize_chars(p)).skip(n - m) =~= ext);
}

/// A path that ends (case-insensitively) in `.jpg`, `.jpeg` or `.png` has a
/// `.` in its final segment and does not end in `/`.
proof fn lemma_image_ext_tail_has_dot(p: Seq<char>)
    requires
        ends_with_ci(p, ".jpg"@) || ends_with_ci(p, ".jpeg"@) || ends_with_ci(p, ".png"@),
    ensures
        p.len() > 0,
        p.last() != '/',
        tail_has_dot(p),
{
    reveal_strlit(".jpg");
    reveal_strlit(".jpeg");
    reveal_strlit(".png");
    let n = p.len() as int;
    if ends_with_ci(p, ".jpeg"@) {
        assert(lower_char(p[n - 5]) == '.') by {
            assert(lower_chars(p).skip(n - 5)[0] == lower_char(p[n - 5]));
        }
        assert(lower_char(p[n - 4]) == 'j') by {
            assert(lower_chars(p).skip(n - 5)[1] == lower_char(p[n - 4]));
        }
        assert(lower_char(p[n - 3]) == 'p') by {
            assert(lower_chars(p).skip(n - 5)[2] == lower_char(p[n - 3]));
        }
        assert(lower_char(p[n - 2]) == 'e') by {
            assert(lower_chars(p).skip(n - 5)[3] == lower_char(p[n - 2]));
        }
        assert(lower_char(p[n - 1]) == 'g') by {
            assert(lower_chars(p).skip(n - 5)[4] == lower_char(p[n - 1]));
        }
        let q1 = p.drop_last();
        let q2 = q1.drop_last();
        let q3 = q2.drop_last();
        let q4 = q3.drop_last();
        assert(q1.last() == p[n - 2] && q2.last() == p[n - 3] && q3.last() == p[n - 4]
            && q4.last() == p[n - 5]);
        assert(tail_has_dot(q4));
        assert(tail_has_dot(q3));
        assert(tail_has_dot(q2));
        assert(tail_has_dot(q1));
        assert(tail_has_dot(p));
    } else {
        let low: Seq<char> = if ends_with_ci(p, ".jpg"@) {
            ".jpg"@
        } else {
            ".png"@
        };
        assert(lower_char(p[n - 4]) == '.') by {
            assert(lower_chars(p).skip(n - 4)[0] == lower_char(p[n - 4]));
        }
        assert(lower_char(p[n - 3]) == low[1]) by {
            assert(lower_chars(p).skip(n - 4)[1] == lower_char(p[n - 3]));
        }
        assert(lower_char(p[n - 2]) == low[2]) by {
            assert(lower_chars(p).skip(n - 4)[2] == lower_char(p[n - 2]));
        }
        assert(lower_char(p[n - 1]) == low[3]) by {
            assert(lower_chars(p).skip(n - 4)[3] == lower_char(p[n - 1]));
        }
        let q1 = p.drop_last();
        let q2 = q1.drop_last();
        let q3 = q2.drop_last();
        assert(q1.last() == p[n - 2] && q2.last() == p[n - 3] && q3.last() == p[n - 4]);
        assert(tail_has_dot(q3));
        assert(tail_has_dot(q2));
        assert(tail_has_dot(q1));
        assert(tail_has_dot(p));
    }
}

/// Stripping a leading slash keeps a dot-led case-insensitive suffix.
proof fn lemma_strip_keeps_ci_suffix(p: Seq<char>, ext: Seq<char>)
    requires
        ends_with_ci(p, ext),
        ext.len() > 0,
        ext[0] == '.',
    ensures
        ends_with_ci(strip_leading_slash(p), ext),
{
    let n = p.len() as int;
    let m = ext.len() as int;
    if p.len() > 0 && p[0] == '/' {
        assert(n > m) by {
            if n == m {
                assert(lower_chars(p).skip(0) =~= lower_chars(p));
                assert(lower_char(p[0]) == ext[0]);
            }
        }
        let q = p.skip(1);
        assert forall|j: int| 0 <= j < m implies lower_chars(q).skip(q.len() - m)[j]
            == ext[j] by {
            assert(lower_chars(q)[n - 1 - m + j] == lower_char(q[n - 1 - m + j]));
            assert(q[n - 1 - m + j] == p[n - m + j]);
            assert(lower_chars(p).skip(n - m)[j] == lower_char(p[n - m + j]));
        }
        assert(lower_chars(q).skip(q.len() - m) =~= ext);
    }
}

/// The local-path pipeline keeps an image extension: a URL path component
/// ending (case-insensitively) in `.jpg`, `.jpeg` or `.png`, with no query
/// to append, maps to a local path ending the same way.
pub proof fn lemma_local_path_keeps_image_extension(path: Seq<char>, query: Option<Seq<char>>)
    requires
        query is None || query->0.len() == 0,
    ensures
        ends_with_ci(path, ".jpg"@) ==> ends_with_ci(local_path_chars(path, query), ".jpg"@),
        ends_with_ci(path, ".jpeg"@) ==> ends_with_ci(local_path_chars(path, query), ".jpeg"@),
        ends_with_ci(path, ".png"@) ==> ends_with_ci(local_path_chars(path, query), ".png"@),
{
    reveal_strlit(".jpg");
    reveal_strlit(".jpeg");
    reveal_strlit(".png");
    if ends_with_ci(path, ".jpg"@) || ends_with_ci(path, ".jpeg"@) || ends_with_ci(
        path,
        ".png"@,
    ) {
        let stripped = strip_leading_slash(path);
        if ends_with_ci(path, ".jpg"@) {
            lemma_strip_keeps_ci_suffix(path, ".jpg"@);
        }
        if ends_with_ci(path, ".jpeg"@) {
            lemma_strip_keeps_ci_suffix(path, ".jpeg"@);
        }
        if ends_with_ci(path, ".png"@) {
            lemma_strip_keeps_ci_suffix(path, ".png"@);
        }
        lemma_image_ext_tail_has_dot(stripped);
        assert(with_index_file(stripped) == stripped);
        if ends_with_ci(stripped, ".jpg"@) {
            lemma_sanitize_keeps_ci_suffix(stripped, ".jpg"@);
        }
        if ends_with_ci(stripped, ".jpeg"@) {
            lemma_sanitize_keeps_ci_suffix(stripped, ".jpeg"@);
        }
        if ends_with_ci(stripped, ".png"@) {
            lemma_sanitize_keeps_ci_suffix(stripped, ".png"@);
        }
    }
}

/// WebP targeting from URL components: with conversion on, an eligible image
/// URL whose path component carries the image extension and whose query is
/// absent or empty maps to a local path that the translation makes end in
/// `.webp`.
pub proof fn lemma_webp_targeting_components(
    u: Seq<char>,
    path: Seq<char>,
    query: Option<Seq<char>>,
)
    requires
        webp_source_url(u),
        ends_with_ci(path, ".jpg"@) || ends_with_ci(path, ".jpeg"@) || ends_with_ci(
            path,
            ".png"@,
        ),
        query is None || query->0.len() == 0,
    ensures
        ends_with(webp_local_path(local_path_chars(path, query), u, true), ".webp"@),
{
    lemma_local_path_keeps_image_extension(path, query);
    lemma_webp_targeting(local_path_chars(path, query), u);
}

/// WebP targeting: with conversion on, an eligible image URL whose local path
/// carries the same kind of extension maps to a path ending in `.webp`; a URL
/// already ending in `.webp`, or with any other extension, leaves the local
/// path unchanged.
pub proof fn lemma_webp_targeting(p: Seq<char>, u: Seq<char>)
    ensures
        webp_source_url(u) && (ends_with_ci(p, ".jpg"@) || ends_with_ci(p, ".jpeg"@)
            || ends_with_ci(p, ".png"@)) ==> ends_with(webp_local_path(p, u, true), ".webp"@),
        ends_with_ci(u, ".webp"@) ==> webp_local_path(p, u, true) == p,
        !webp_source_url(u) ==> webp_local_path(p, u, true) == p,
{
    reveal_strlit(".jpeg");
    reveal_strlit(".jpg");
    reveal_strlit(".png");
    reveal_strlit(".webp");
    if webp_source_url(u) && (ends_with_ci(p, ".jpg"@) || ends_with_ci(p, ".jpeg"@)
        || ends_with_ci(p, ".png"@)) {
        let t = translate_webp_chars(p);
        if ends_with_ci(p, ".jpeg"@) {
            assert(t.skip(t.len() - 5) =~= ".webp"@);
        } else if ends_with_ci(p, ".jpg"@) {
            assert(t.skip(t.len() - 5) =~= ".webp"@);
        } else {
            assert(t.skip(t.len() - 5) =~= ".webp"@);
        }
    }
}

} // verus!
