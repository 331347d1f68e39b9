//! Resource discovery: a single scanning pass over HTML text that parses
//! tags and attributes and yields typed references, plus the CSS scan for
//! `background[-image]: url(...)` values. The grammar is the crate's own;
//! malformed markup never fails, unparseable fragments are skipped.

use vstd::prelude::*;

use crate::paths::lower_chars;
use crate::resource::ResourceType;
use crate::rewrite::{ci_match_at, match_at};

verus! {

pub open spec fn is_space(c: char) -> bool {
    c == ' ' || c == '\t' || c == '\n' || c == '\r'
}

pub open spec fn is_letter(c: char) -> bool {
    ('a' <= c && c <= 'z') || ('A' <= c && c <= 'Z')
}

/// The classes of characters a scan stops at.
#[derive(Clone, Copy, Debug, PartialEq, Eq, Structural)]
pub enum ScanStop {
    /// Stop at whitespace, `=`, `>` or `<`: the end of an attribute name.
    AttrName,
    /// Stop at whitespace, `>` or `<`: the end of an unquoted value.
    Unquoted,
    /// Stop at the given quote character.
    Quote(char),
    /// Stop at the first character that is not a letter: the end of a tag name.
    TagName,
    /// Stop at the first character that is not whitespace.
    NotSpace,
    /// Stop at whitespace, quotes or `)`: the end of a CSS `url(...)` value.
    CssUrl,
}

pub open spec fn stop_char(k: ScanStop, c: char) -> bool {
    match k {
        ScanStop::AttrName => is_space(c) || c == '=' || c == '>' || c == '<',
        ScanStop::Unquoted => is_space(c) || c == '>' || c == '<',
        ScanStop::Quote(q) => c == q,
        ScanStop::TagName => !is_letter(c),
        ScanStop::NotSpace => !is_space(c),
        ScanStop::CssUrl => is_space(c) || c == '\'' || c == '"' || c == ')',
    }
}

/// The first position at or after `i` holding a stop character, or the end
/// of the text.
pub open spec fn scan_stop_pos(s: Seq<char>, i: int, k: ScanStop) -> int
    recommends
        0 <= i,
    decreases s.len() - i,
{
    if i >= s.len() {
        s.len() as int
    } else if stop_char(k, s[i]) {
        i
    } else {
        scan_stop_pos(s, i + 1, k)
    }
}

pub proof fn lemma_scan_stop_bounds(s: Seq<char>, i: int, k: ScanStop)
    requires
        0 <= i <= s.len(),
    ensures
        i <= scan_stop_pos(s, i, k) <= s.len(),
    decreases s.len() - i,
{
    if i < s.len() && !stop_char(k, s[i]) {
        lemma_scan_stop_bounds(s, i + 1, k);
    }
}

pub fn stop_char_exec(k: &ScanStop, c: char) -> (r: bool)
    ensures
        r == stop_char(*k, c),
{
    match k {
        ScanStop::AttrName => c == ' ' || c == '\t' || c == '\n' || c == '\r' || c == '=' || c
            == '>' || c == '<',
        ScanStop::Unquoted => c == ' ' || c == '\t' || c == '\n' || c == '\r' || c == '>' || c
            == '<',
        ScanStop::Quote(q) => c == *q,
        ScanStop::TagName => !(('a' <= c && c <= 'z') || ('A' <= c && c <= 'Z')),
        ScanStop::NotSpace => !(c == ' ' || c == '\t' || c == '\n' || c == '\r'),
        ScanStop::CssUrl => c == ' ' || c == '\t' || c == '\n' || c == '\r' || c == '\'' || c
            == '"' || c == ')',
    }
}

/// Scans forward from `i` to the first stop character of class `k`.
pub fn find_stop(s: &Vec<char>, i: usize, k: ScanStop) -> (r: usize)
    requires
        i <= s@.len(),
    ensures
        r == scan_stop_pos(s@, i as int, k),
        i <= r <= s@.len(),
{
    let n = s.len();
    let mut j = i;
    while j < n
        invariant
            i <= j <= n,
            n == s@.len(),
            scan_stop_pos(s@, i as int, k) == scan_stop_pos(s@, j as int, k),
        decreases n - j,
    {
        if stop_char_exec(&k, s[j]) {
            return j;
        }
        j = j + 1;
    }
    j
}

/// Clamps a scan position to a lower bound; scan results already respect
/// their bounds, so this only makes progress measures self-evident.
pub open spec fn at_least(x: int, lo: int) -> int {
    if x < lo {
        lo
    } else {
        x
    }
}

pub open spec fn at_most(x: int, hi: int) -> int {
    if x > hi {
        hi
    } else {
        x
    }
}

/// Parses the attribute list of a tag, starting just after the tag name:
/// whitespace-separated `name`, `name=value`, `name="value"` or
/// `name='value'` items, ending after `>` (or at `<` or the end of text when
/// the tag is unterminated). Returns the attributes and the resume position.
pub open spec fn parse_attrs(s: Seq<char>, i: int) -> (Seq<(Seq<char>, Seq<char>)>, int)
    recommends
        0 <= i,
    decreases s.len() - i, 1int,
{
    if i >= s.len() {
        (Seq::empty(), s.len() as int)
    } else {
        let j = at_most(at_least(scan_stop_pos(s, i, ScanStop::NotSpace), i), s.len() as int);
        if j >= s.len() {
            (Seq::empty(), s.len() as int)
        } else if s[j] == '>' {
            (Seq::empty(), j + 1)
        } else if s[j] == '<' {
            (Seq::empty(), j)
        } else {
            parse_attrs_at(s, j)
        }
    }
}

/// Parses one attribute beginning exactly at `j` (a non-space, non-`<`,
/// non-`>` position), then the rest of the list.
pub open spec fn parse_attrs_at(s: Seq<char>, j: int) -> (Seq<(Seq<char>, Seq<char>)>, int)
    recommends
        0 <= j < s.len(),
    decreases s.len() - j, 0int,
{
    if !(0 <= j < s.len()) {
        (Seq::empty(), s.len() as int)
    } else {
        let name_end = at_most(
            at_least(scan_stop_pos(s, j, ScanStop::AttrName), j),
            s.len() as int,
        );
        if name_end == j {
            // the character is `=` or similar noise: skip it
            let (rest, end) = parse_attrs(s, j + 1);
            (rest, end)
        } else {
            let name = s.subrange(j, name_end);
            if name_end < s.len() && s[name_end] == '=' {
                let vstart = name_end + 1;
                if vstart < s.len() && (s[vstart] == '"' || s[vstart] == '\'') {
                    let vend = at_most(
                        at_least(
                            scan_stop_pos(s, vstart + 1, ScanStop::Quote(s[vstart])),
                            vstart + 1,
                        ),
                        s.len() as int,
                    );
                    let value = s.subrange(vstart + 1, vend);
                    let after = if vend < s.len() {
                        vend + 1
                    } else {
                        vend
                    };
                    let (rest, end) = parse_attrs(s, after);
                    (seq![(name, value)] + rest, end)
                } else {
                    let vend = at_most(
                        at_least(scan_stop_pos(s, vstart, ScanStop::Unquoted), vstart),
                        s.len() as int,
                    );
                    let value = s.subrange(vstart, vend);
                    let (rest, end) = parse_attrs(s, vend);
                    (seq![(name, value)] + rest, end)
                }
            } else {
                let (rest, end) = parse_attrs(s, name_end);
                (seq![(name, Seq::empty())] + rest, end)
            }
        }
    }
}

/// The view of an executable attribute list.
pub open spec fn attrs_view(v: Seq<(Vec<char>, Vec<char>)>) -> Seq<(Seq<char>, Seq<char>)> {
    v.map_values(|p: (Vec<char>, Vec<char>)| (p.0@, p.1@))
}

/// Parses the attribute list beginning at `i`, as `parse_attrs` describes.
pub fn parse_attrs_exec(s: &Vec<char>, i: usize) -> (r: (Vec<(Vec<char>, Vec<char>)>, usize))
    requires
        i <= s@.len(),
    ensures
        attrs_view(r.0@) == parse_attrs(s@, i as int).0,
        r.1 == parse_attrs(s@, i as int).1,
        i <= r.1 <= s@.len(),
{
    let n = s.len();
    let mut acc: Vec<(Vec<char>, Vec<char>)> = Vec::new();
    let mut pos: usize = i;
    loop
        invariant
            i <= pos <= n,
            n == s@.len(),
            parse_attrs(s@, i as int).0 =~= attrs_view(acc@) + parse_attrs(s@, pos as int).0,
            parse_attrs(s@, i as int).1 == parse_attrs(s@, pos as int).1,
        decreases n - pos,
    {
        if pos >= n {
            assert(attrs_view(acc@) + Seq::<(Seq<char>, Seq<char>)>::empty() =~= attrs_view(
                acc@,
            ));
            return (acc, n);
        }
        let j = find_stop(s, pos, ScanStop::NotSpace);
        assert(j == at_most(at_least(scan_stop_pos(s@, pos as int, ScanStop::NotSpace), pos as int), n as int));
        if j >= n {
            assert(attrs_view(acc@) + Seq::<(Seq<char>, Seq<char>)>::empty() =~= attrs_view(
                acc@,
            ));
            return (acc, n);
        }
        if s[j] == '>' {
            assert(attrs_view(acc@) + Seq::<(Seq<char>, Seq<char>)>::empty() =~= attrs_view(
                acc@,
            ));
            return (acc, j + 1);
        }
        if s[j] == '<' {
            assert(attrs_view(acc@) + Seq::<(Seq<char>, Seq<char>)>::empty() =~= attrs_view(
                acc@,
            ));
            return (acc, j);
        }
        // one attribute starts at j
        let name_end = find_stop(s, j, ScanStop::AttrName);
        if name_end == j {
            assert(parse_attrs(s@, pos as int).0 == parse_attrs(s@, j + 1).0);
            assert(parse_attrs(s@, pos as int).1 == parse_attrs(s@, j + 1).1);
            pos = j + 1;
        } else {
            let name = crate::paths::copy_range(s, j, name_end);
            if name_end < n && s[name_end] == '=' {
                let vstart = name_end + 1;
                if vstart < n && (s[vstart] == '"' || s[vstart] == '\'') {
                    let vend = find_stop(s, vstart + 1, ScanStop::Quote(s[vstart]));
                    let value = crate::paths::copy_range(s, vstart + 1, vend);
                    let after = if vend < n {
                        vend + 1
                    } else {
                        vend
                    };
                    let ghost acc0 = acc@;
                    acc.push((name, value));
                    proof {
                        assert(attrs_view(acc@) =~= attrs_view(acc0) + seq![
                            (s@.subrange(j as int, name_end as int), s@.subrange(
                                vstart + 1,
                                vend as int,
                            )),
                        ]);
                    }
                    pos = after;
                } else {
                    let vend = find_stop(s, vstart, ScanStop::Unquoted);
                    let value = crate::paths::copy_range(s, vstart, vend);
                    let ghost acc0 = acc@;
                    acc.push((name, value));
                    proof {
                        assert(attrs_view(acc@) =~= attrs_view(acc0) + seq![
                            (s@.subrange(j as int, name_end as int), s@.subrange(
                                vstart as int,
                                vend as int,
                            )),
                        ]);
                    }
                    pos = vend;
                }
            } else {
                let ghost acc0 = acc@;
                acc.push((name, Vec::new()));
                proof {
                    assert(attrs_view(acc@) =~= attrs_view(acc0) + seq![
                        (s@.subrange(j as int, name_end as int), Seq::<char>::empty()),
                    ]);
                }
                pos = name_end;
            }
        }
    }
}

/// The value of the first attribute whose lower-cased name matches.
pub open spec fn attr_value(attrs: Seq<(Seq<char>, Seq<char>)>, name: Seq<char>) -> Option<
    Seq<char>,
>
    decreases attrs.len(),
{
    if attrs.len() == 0 {
        None
    } else if lower_chars(attrs[0].0) == name {
        Some(attrs[0].1)
    } else {
        attr_value(attrs.drop_first(), name)
    }
}

pub fn attr_value_exec(attrs: &Vec<(Vec<char>, Vec<char>)>, name: &Vec<char>) -> (r: Option<
    Vec<char>,
>)
    ensures
        match r {
            Some(v) => attr_value(attrs_view(attrs@), name@) == Some(v@),
            None => attr_value(attrs_view(attrs@), name@) is None,
        },
{
    let mut i: usize = 0;
    let ghost full = attrs_view(attrs@);
    proof {
        assert(full.skip(0) =~= full);
    }
    while i < attrs.len()
        invariant
            i <= attrs@.len(),
            full == attrs_view(attrs@),
            attr_value(full, name@) == attr_value(full.skip(i as int), name@),
        decreases attrs@.len() - i,
    {
        let ghost rest = full.skip(i as int);
        proof {
            assert(rest[0] == full[i as int]);
            assert(rest.drop_first() =~= full.skip(i + 1));
        }
        let low = crate::paths::lower_vec(&attrs[i].0);
        if crate::text::chars_eq(&low, name) {
            let value = attrs[i].1.clone();
            assert(value@ == full[i as int].1);
            return Some(value);
        }
        i = i + 1;
    }
    proof {
        assert(full.skip(attrs@.len() as int) =~= Seq::<(Seq<char>, Seq<char>)>::empty());
    }
    None
}

/// Whether `needle` occurs anywhere in `hay`.
pub open spec fn contains_seq(hay: Seq<char>, needle: Seq<char>) -> bool {
    exists|i: int| match_at(hay, i, needle)
}

pub fn contains_seq_exec(hay: &Vec<char>, needle: &Vec<char>) -> (r: bool)
    ensures
        r == contains_seq(hay@, needle@),
{
    let n = hay.len();
    let m = needle.len();
    if m > n {
        return false;
    }
    if m == 0 {
        assert(match_at(hay@, 0, needle@)) by {
            assert(hay@.subrange(0, 0) =~= needle@);
        }
        return true;
    }
    let mut i: usize = 0;
    while i <= n - m
        invariant
            i <= n - m + 1,
            1 <= m <= n,
            n == hay@.len(),
            m == needle@.len(),
            forall|j: int| 0 <= j < i ==> !match_at(hay@, j, needle@),
        decreases n - i,
    {
        if crate::rewrite::match_at_exec(hay, i, needle) {
            assert(contains_seq(hay@, needle@));
            return true;
        }
        i = i + 1;
    }
    assert(forall|j: int| #![auto] !match_at(hay@, j, needle@));
    false
}

/// The URLs of `background: url(...)` and `background-image: url(...)`
/// declarations in CSS text, scanning from `i`: after the property name and
/// colon, optional whitespace, then a `url(` argument that may be single- or
/// double-quoted; the value runs to the first quote, `)` or whitespace.
pub open spec fn css_urls(s: Seq<char>, i: int) -> Seq<Seq<char>>
    decreases s.len() - i,
{
    if !(0 <= i < s.len()) {
        Seq::empty()
    } else if match_at(s, i, "background"@) {
        let after_kw = if match_at(s, i + 10, "-image"@) {
            i + 16
        } else {
            i + 10
        };
        if after_kw < s.len() && s[after_kw] == ':' {
            let v = at_most(
                at_least(scan_stop_pos(s, after_kw + 1, ScanStop::NotSpace), after_kw + 1),
                s.len() as int,
            );
            if match_at(s, v, "url("@) {
                let qpos = v + 4;
                let vstart = if qpos < s.len() && (s[qpos] == '"' || s[qpos] == '\'') {
                    qpos + 1
                } else {
                    qpos
                };
                let vend = at_most(
                    at_least(scan_stop_pos(s, vstart, ScanStop::CssUrl), vstart),
                    s.len() as int,
                );
                if vend > vstart {
                    seq![s.subrange(vstart, vend)] + css_urls(s, at_least(vend, i + 1))
                } else {
                    css_urls(s, i + 1)
                }
            } else {
                css_urls(s, i + 1)
            }
        } else {
            css_urls(s, i + 1)
        }
    } else {
        css_urls(s, i + 1)
    }
}

/// The view of an executable URL list.
pub open spec fn urls_view(v: Seq<Vec<char>>) -> Seq<Seq<char>> {
    v.map_values(|u: Vec<char>| u@)
}

/// Collects the background-image URLs of CSS text.
pub fn css_urls_exec(s: &Vec<char>) -> (r: Vec<Vec<char>>)
    ensures
        urls_view(r@) == css_urls(s@, 0),
{
    let background = crate::text::str_to_chars("background");
    let image_suffix = crate::text::str_to_chars("-image");
    let url_open = crate::text::str_to_chars("url(");
    proof {
        reveal_strlit("background");
        reveal_strlit("-image");
        reveal_strlit("url(");
    }
    let n = s.len();
    let mut out: Vec<Vec<char>> = Vec::new();
    let mut i: usize = 0;
    while i < n
        invariant
            i <= n,
            n == s@.len(),
            background@ == "background"@ && background@.len() == 10,
            image_suffix@ == "-image"@ && image_suffix@.len() == 6,
            url_open@ == "url("@ && url_open@.len() == 4,
            css_urls(s@, 0) =~= urls_view(out@) + css_urls(s@, i as int),
        decreases n - i,
    {
        let mut advanced = false;
        if n - i >= 10 && crate::rewrite::match_at_exec(s, i, &background) {
            let after_kw = if n - (i + 10) >= 6 && crate::rewrite::match_at_exec(
                s,
                i + 10,
                &image_suffix,
            ) {
                i + 16
            } else {
                i + 10
            };
            if after_kw < n && s[after_kw] == ':' {
                let v = find_stop(s, after_kw + 1, ScanStop::NotSpace);
                if n - v >= 4 && crate::rewrite::match_at_exec(s, v, &url_open) {
                    let qpos = v + 4;
                    let vstart = if qpos < n && (s[qpos] == '"' || s[qpos] == '\'') {
                        qpos + 1
                    } else {
                        qpos
                    };
                    let vend = find_stop(s, vstart, ScanStop::CssUrl);
                    if vend > vstart {
                        let value = crate::paths::copy_range(s, vstart, vend);
                        let ghost out0 = out@;
                        out.push(value);
                        proof {
                            assert(urls_view(out@) =~= urls_view(out0) + seq![
                                s@.subrange(vstart as int, vend as int),
                            ]);
                            assert(css_urls(s@, i as int) == seq![
                                s@.subrange(vstart as int, vend as int),
                            ] + css_urls(s@, vend as int));
                        }
                        i = vend;
                        advanced = true;
                    }
                }
            }
        }
        if !advanced {
            assert(css_urls(s@, i as int) == css_urls(s@, i + 1));
            i = i + 1;
        }
    }
    assert(css_urls(s@, n as int) =~= Seq::<Seq<char>>::empty());
    assert(urls_view(out@) + css_urls(s@, n as int) =~= urls_view(out@));
    out
}

/// The reference a tag's own identity yields: `<link rel=...stylesheet...
/// href>` is a stylesheet, `<script src>` a script, `<img src>` an image,
/// `<a href>` a page link.
pub open spec fn primary_ref(name_low: Seq<char>, attrs: Seq<(Seq<char>, Seq<char>)>) -> Seq<
    (Seq<char>, ResourceType),
> {
    if name_low == "link"@ {
        match (attr_value(attrs, "rel"@), attr_value(attrs, "href"@)) {
            (Some(rel), Some(href)) => if contains_seq(rel, "stylesheet"@) {
                seq![(href, ResourceType::CSS)]
            } else {
                Seq::empty()
            },
            _ => Seq::empty(),
        }
    } else if name_low == "script"@ {
        match attr_value(attrs, "src"@) {
            Some(src) => seq![(src, ResourceType::JavaScript)],
            None => Seq::empty(),
        }
    } else if name_low == "img"@ {
        match attr_value(attrs, "src"@) {
            Some(src) => seq![(src, ResourceType::Image)],
            None => Seq::empty(),
        }
    } else if name_low == "a"@ {
        match attr_value(attrs, "href"@) {
            Some(href) => seq![(href, ResourceType::Link)],
            None => Seq::empty(),
        }
    } else {
        Seq::empty()
    }
}

/// Background images named inside a tag's inline `style` attribute.
pub open spec fn style_refs(attrs: Seq<(Seq<char>, Seq<char>)>) -> Seq<(Seq<char>, ResourceType)> {
    match attr_value(attrs, "style"@) {
        Some(v) => css_urls(v, 0).map_values(|u: Seq<char>| (u, ResourceType::Image)),
        None => Seq::empty(),
    }
}

/// Everything one tag yields: its primary reference, then its inline-style
/// background images.
pub open spec fn refs_for_tag(name: Seq<char>, attrs: Seq<(Seq<char>, Seq<char>)>) -> Seq<
    (Seq<char>, ResourceType),
> {
    primary_ref(lower_chars(name), attrs) + style_refs(attrs)
}

/// The view of an executable reference list.
pub open spec fn refs_view(v: Seq<(Vec<char>, ResourceType)>) -> Seq<(Seq<char>, ResourceType)> {
    v.map_values(|p: (Vec<char>, ResourceType)| (p.0@, p.1))
}

fn push_style_refs(out: &mut Vec<(Vec<char>, ResourceType)>, attrs: &Vec<(Vec<char>, Vec<char>)>)
    ensures
        refs_view(final(out)@) == refs_view(old(out)@) + style_refs(attrs_view(attrs@)),
{
    let style_name = crate::text::str_to_chars("style");
    proof {
        reveal_strlit("style");
    }
    match attr_value_exec(attrs, &style_name) {
        Some(v) => {
            let urls = css_urls_exec(&v);
            let ghost target = css_urls(v@, 0).map_values(|u: Seq<char>| (u, ResourceType::Image));
            let mut i: usize = 0;
            while i < urls.len()
                invariant
                    i <= urls@.len(),
                    urls_view(urls@) == css_urls(v@, 0),
                    target == css_urls(v@, 0).map_values(
                        |u: Seq<char>| (u, ResourceType::Image),
                    ),
                    refs_view(out@) =~= refs_view(old(out)@) + target.take(i as int),
                decreases urls@.len() - i,
            {
                let u = urls[i].clone();
                let ghost out0 = out@;
                out.push((u, ResourceType::Image));
                proof {
                    assert(urls_view(urls@)[i as int] == urls@[i as int]@);
                    assert(target[i as int] == (urls@[i as int]@, ResourceType::Image));
                    assert(refs_view(out@) =~= refs_view(out0) + seq![target[i as int]]);
                    assert(refs_view(old(out)@) + target.take(i + 1 as int) =~= (refs_view(
                        old(out)@,
                    ) + target.take(i as int)) + seq![target[i as int]]);
                }
                i = i + 1;
            }
            proof {
                assert(target.take(urls@.len() as int) =~= target);
            }
        },
        None => {
            assert(refs_view(out@) =~= refs_view(old(out)@) + style_refs(attrs_view(attrs@)));
        },
    }
}

/// Collects the references one parsed tag yields.
pub fn refs_for_tag_exec(name: &Vec<char>, attrs: &Vec<(Vec<char>, Vec<char>)>) -> (r: Vec<
    (Vec<char>, ResourceType),
>)
    ensures
        refs_view(r@) == refs_for_tag(name@, attrs_view(attrs@)),
{
    let mut out: Vec<(Vec<char>, ResourceType)> = Vec::new();
    let name_low = crate::paths::lower_vec(name);
    let ghost av = attrs_view(attrs@);
    proof {
        reveal_strlit("link");
        reveal_strlit("script");
        reveal_strlit("img");
        reveal_strlit("a");
        reveal_strlit("rel");
        reveal_strlit("href");
        reveal_strlit("src");
        reveal_strlit("stylesheet");
    }
    let link_lit = crate::text::str_to_chars("link");
    let script_lit = crate::text::str_to_chars("script");
    let img_lit = crate::text::str_to_chars("img");
    let a_lit = crate::text::str_to_chars("a");
    let rel_lit = crate::text::str_to_chars("rel");
    let href_lit = crate::text::str_to_chars("href");
    let src_lit = crate::text::str_to_chars("src");
    let stylesheet_lit = crate::text::str_to_chars("stylesheet");
    if crate::text::chars_eq(&name_low, &link_lit) {
        let rel = attr_value_exec(attrs, &rel_lit);
        let href = attr_value_exec(attrs, &href_lit);
        match (rel, href) {
            (Some(rel_v), Some(href_v)) => {
                if contains_seq_exec(&rel_v, &stylesheet_lit) {
                    out.push((href_v, ResourceType::CSS));
                }
            },
            _ => {},
        }
    } else if crate::text::chars_eq(&name_low, &script_lit) {
        match attr_value_exec(attrs, &src_lit) {
            Some(src_v) => {
                out.push((src_v, ResourceType::JavaScript));
            },
            None => {},
        }
    } else if crate::text::chars_eq(&name_low, &img_lit) {
        match attr_value_exec(attrs, &src_lit) {
            Some(src_v) => {
                out.push((src_v, ResourceType::Image));
            },
            None => {},
        }
    } else if crate::text::chars_eq(&name_low, &a_lit) {
        match attr_value_exec(attrs, &href_lit) {
            Some(href_v) => {
                out.push((href_v, ResourceType::Link));
            },
            None => {},
        }
    }
    assert(refs_view(out@) =~= primary_ref(lower_chars(name@), av));
    push_style_refs(&mut out, attrs);
    out
}

/// Every reference an HTML document yields, scanning from `i`: at each `<`
/// followed by a letter-named tag, the tag's references; everything else is
/// passed over.
pub open spec fn html_refs(s: Seq<char>, i: int) -> Seq<(Seq<char>, ResourceType)>
    decreases s.len() - i,
{
    if !(0 <= i < s.len()) {
        Seq::empty()
    } else if s[i] != '<' {
        html_refs(s, i + 1)
    } else {
        let ne = at_most(at_least(scan_stop_pos(s, i + 1, ScanStop::TagName), i + 1), s.len() as int);
        if ne == i + 1 {
            html_refs(s, i + 1)
        } else {
            let name = s.subrange(i + 1, ne);
            let pa = parse_attrs(s, ne);
            let resume = at_most(at_least(pa.1, i + 1), s.len() as int);
            if lower_chars(name) == "style"@ {
                let close = at_most(at_least(find_ci(s, resume, "</style"@), resume), s.len() as int);
                refs_for_tag(name, pa.0) + css_urls(s.subrange(resume, close), 0).map_values(
                    |u: Seq<char>| (u, ResourceType::Image),
                ) + html_refs(s, close)
            } else {
                refs_for_tag(name, pa.0) + html_refs(s, resume)
            }
        }
    }
}

/// The first position at or after `i` where `lower_pat` matches
/// case-insensitively, or the end of the text.
pub open spec fn find_ci(s: Seq<char>, i: int, lower_pat: Seq<char>) -> int
    recommends
        0 <= i,
    decreases s.len() - i,
{
    if i >= s.len() {
        s.len() as int
    } else if ci_match_at(s, i, lower_pat) {
        i
    } else {
        find_ci(s, i + 1, lower_pat)
    }
}

/// Scans forward to the first case-insensitive match of `lower_pat`.
pub fn find_ci_exec(s: &Vec<char>, i: usize, lower_pat: &Vec<char>) -> (r: usize)
    requires
        i <= s@.len(),
    ensures
        r == find_ci(s@, i as int, lower_pat@),
        i <= r <= s@.len(),
{
    let n = s.len();
    let mut j = i;
    while j < n
        invariant
            i <= j <= n,
            n == s@.len(),
            find_ci(s@, i as int, lower_pat@) == find_ci(s@, j as int, lower_pat@),
        decreases n - j,
    {
        if crate::rewrite::ci_match_at_exec(s, j, lower_pat) {
            return j;
        }
        j = j + 1;
    }
    j
}

/// Scans a whole document for typed references.
pub fn html_refs_exec(s: &Vec<char>) -> (r: Vec<(Vec<char>, ResourceType)>)
    ensures
        refs_view(r@) == html_refs(s@, 0),
{
    let n = s.len();
    let mut out: Vec<(Vec<char>, ResourceType)> = Vec::new();
    let mut i: usize = 0;
    while i < n
        invariant
            i <= n,
            n == s@.len(),
            html_refs(s@, 0) =~= refs_view(out@) + html_refs(s@, i as int),
        decreases n - i,
    {
        if s[i] != '<' {
            assert(html_refs(s@, i as int) == html_refs(s@, i + 1));
            i = i + 1;
        } else {
            let ne = find_stop(s, i + 1, ScanStop::TagName);
            if ne == i + 1 {
                assert(html_refs(s@, i as int) == html_refs(s@, i + 1));
                i = i + 1;
            } else {
                let name = crate::paths::copy_range(s, i + 1, ne);
                let (attrs, end) = parse_attrs_exec(s, ne);
                let refs = refs_for_tag_exec(&name, &attrs);
                let ghost out0 = out@;
                let mut k: usize = 0;
                let m = refs.len();
                let mut refs_iter = refs;
                // append the tag's references in order
                while k < m
                    invariant
                        k <= m,
                        m == refs_iter@.len(),
                        refs_view(out@) =~= refs_view(out0) + refs_view(refs_iter@).take(k as int),
                    decreases m - k,
                {
                    let url = refs_iter[k].0.clone();
                    let kind = clone_kind(&refs_iter[k].1);
                    let ghost out1 = out@;
                    out.push((url, kind));
                    proof {
                        assert(refs_view(out@) =~= refs_view(out1) + seq![
                            refs_view(refs_iter@)[k as int],
                        ]);
                        assert(refs_view(out0) + refs_view(refs_iter@).take(k + 1 as int) =~= (
                        refs_view(out0) + refs_view(refs_iter@).take(k as int)) + seq![
                            refs_view(refs_iter@)[k as int],
                        ]);
                    }
                    k = k + 1;
                }
                proof {
                    assert(refs_view(refs_iter@).take(m as int) =~= refs_view(refs_iter@));
                }
                let next = if end > i { end } else { i + 1 };
                assert(next as int == at_most(
                    at_least(parse_attrs(s@, ne as int).1, i + 1),
                    s@.len() as int,
                ));
                let name_low = crate::paths::lower_vec(&name);
                let style_lit = crate::text::str_to_chars("style");
                proof {
                    reveal_strlit("style");
                }
                if crate::text::chars_eq(&name_low, &style_lit) {
                    // a `<style>` block: its text up to the closing tag is CSS
                    let close_lit = crate::text::str_to_chars("</style");
                    proof {
                        reveal_strlit("</style");
                    }
                    let close = find_ci_exec(s, next, &close_lit);
                    let block = crate::paths::copy_range(s, next, close);
                    let urls = css_urls_exec(&block);
                    let ghost target = css_urls(block@, 0).map_values(
                        |u: Seq<char>| (u, ResourceType::Image),
                    );
                    let ghost out2 = out@;
                    let mut b: usize = 0;
                    while b < urls.len()
                        invariant
                            b <= urls@.len(),
                            urls_view(urls@) == css_urls(block@, 0),
                            target == css_urls(block@, 0).map_values(
                                |u: Seq<char>| (u, ResourceType::Image),
                            ),
                            refs_view(out@) =~= refs_view(out2) + target.take(b as int),
                        decreases urls@.len() - b,
                    {
                        let u = urls[b].clone();
                        let ghost out3 = out@;
                        out.push((u, ResourceType::Image));
                        proof {
                            assert(urls_view(urls@)[b as int] == urls@[b as int]@);
                            assert(target[b as int] == (urls@[b as int]@, ResourceType::Image));
                            assert(refs_view(out@) =~= refs_view(out3) + seq![target[b as int]]);
                            assert(refs_view(out2) + target.take(b + 1 as int) =~= (refs_view(
                                out2,
                            ) + target.take(b as int)) + seq![target[b as int]]);
                        }
                        b = b + 1;
                    }
                    proof {
                        assert(target.take(urls@.len() as int) =~= target);
                        assert(close as int == at_most(
                            at_least(find_ci(s@, next as int, "</style"@), next as int),
                            s@.len() as int,
                        ));
                        assert(block@ == s@.subrange(next as int, close as int));
                        assert(html_refs(s@, i as int) == refs_for_tag(
                            s@.subrange(i + 1, ne as int),
                            parse_attrs(s@, ne as int).0,
                        ) + target + html_refs(s@, close as int));
                        assert(refs_view(out@) =~= (refs_view(out0) + refs_view(refs_iter@))
                            + target);
                        assert(refs_view(out0) + (refs_for_tag(
                            s@.subrange(i + 1, ne as int),
                            parse_attrs(s@, ne as int).0,
                        ) + target + html_refs(s@, close as int)) =~= refs_view(out@) + html_refs(
                            s@,
                            close as int,
                        ));
                    }
                    i = close;
                } else {
                    proof {
                        assert(html_refs(s@, i as int) == refs_for_tag(
                            s@.subrange(i + 1, ne as int),
                            parse_attrs(s@, ne as int).0,
                        ) + html_refs(
                            s@,
                            at_most(at_least(parse_attrs(s@, ne as int).1, i + 1), s@.len() as int),
                        ));
                    }
                    i = next;
                }
            }
        }
    }
    proof {
        assert(html_refs(s@, n as int) =~= Seq::<(Seq<char>, ResourceType)>::empty());
        assert(refs_view(out@) + html_refs(s@, n as int) =~= refs_view(out@));
    }
    out
}

/// The media kind a URL's extension names: PDF, a common video container,
/// or a raster/WebP image; nothing otherwise.
pub open spec fn media_kind(u: Seq<char>) -> Option<ResourceType> {
    if crate::paths::ends_with_ci(u, ".pdf"@) {
        Some(ResourceType::PDF)
    } else if crate::paths::ends_with_ci(u, ".mp4"@) || crate::paths::ends_with_ci(u, ".avi"@)
        || crate::paths::ends_with_ci(u, ".mov"@) || crate::paths::ends_with_ci(u, ".wmv"@)
        || crate::paths::ends_with_ci(u, ".flv"@) || crate::paths::ends_with_ci(u, ".webm"@)
        || crate::paths::ends_with_ci(u, ".mkv"@) || crate::paths::ends_with_ci(u, ".m4v"@) {
        Some(ResourceType::Video)
    } else if crate::paths::ends_with_ci(u, ".jpg"@) || crate::paths::ends_with_ci(u, ".jpeg"@)
        || crate::paths::ends_with_ci(u, ".png"@) || crate::paths::ends_with_ci(u, ".gif"@)
        || crate::paths::ends_with_ci(u, ".webp"@) {
        Some(ResourceType::Image)
    } else {
        None
    }
}

pub fn media_kind_exec(u: &Vec<char>) -> (r: Option<ResourceType>)
    ensures
        r == media_kind(u@),
{
    let pdf = crate::text::str_to_chars(".pdf");
    if crate::paths::ends_with_ci_vec(u, &pdf) {
        return Some(ResourceType::PDF);
    }
    let mp4 = crate::text::str_to_chars(".mp4");
    let avi = crate::text::str_to_chars(".avi");
    let mov = crate::text::str_to_chars(".mov");
    let wmv = crate::text::str_to_chars(".wmv");
    let flv = crate::text::str_to_chars(".flv");
    let webm = crate::text::str_to_chars(".webm");
    let mkv = crate::text::str_to_chars(".mkv");
    let m4v = crate::text::str_to_chars(".m4v");
    if crate::paths::ends_with_ci_vec(u, &mp4) || crate::paths::ends_with_ci_vec(u, &avi)
        || crate::paths::ends_with_ci_vec(u, &mov) || crate::paths::ends_with_ci_vec(u, &wmv)
        || crate::paths::ends_with_ci_vec(u, &flv) || crate::paths::ends_with_ci_vec(u, &webm)
        || crate::paths::ends_with_ci_vec(u, &mkv) || crate::paths::ends_with_ci_vec(u, &m4v) {
        return Some(ResourceType::Video);
    }
    let jpg = crate::text::str_to_chars(".jpg");
    let jpeg = crate::text::str_to_chars(".jpeg");
    let png = crate::text::str_to_chars(".png");
    let gif = crate::text::str_to_chars(".gif");
    let webp = crate::text::str_to_chars(".webp");
    if crate::paths::ends_with_ci_vec(u, &jpg) || crate::paths::ends_with_ci_vec(u, &jpeg)
        || crate::paths::ends_with_ci_vec(u, &png) || crate::paths::ends_with_ci_vec(u, &gif)
        || crate::paths::ends_with_ci_vec(u, &webp) {
        return Some(ResourceType::Image);
    }
    None
}

/// Whether an attribute may carry a media URL: `href`, `src` or any
/// `data-*` attribute.
pub open spec fn media_attr(name_low: Seq<char>) -> bool {
    name_low == "href"@ || name_low == "src"@ || crate::text::starts_with(name_low, "data-"@)
}

/// The media references among a tag's attributes.
pub open spec fn media_refs_of_attrs(attrs: Seq<(Seq<char>, Seq<char>)>) -> Seq<
    (Seq<char>, ResourceType),
>
    decreases attrs.len(),
{
    if attrs.len() == 0 {
        Seq::empty()
    } else {
        let head: Seq<(Seq<char>, ResourceType)> = if media_attr(lower_chars(attrs[0].0))
            && media_kind(attrs[0].1) is Some {
            seq![(attrs[0].1, media_kind(attrs[0].1)->0)]
        } else {
            Seq::empty()
        };
        head + media_refs_of_attrs(attrs.drop_first())
    }
}

fn media_refs_of_attrs_exec(attrs: &Vec<(Vec<char>, Vec<char>)>) -> (r: Vec<
    (Vec<char>, ResourceType),
>)
    ensures
        refs_view(r@) == media_refs_of_attrs(attrs_view(attrs@)),
{
    let href_lit = crate::text::str_to_chars("href");
    let src_lit = crate::text::str_to_chars("src");
    let data_lit = crate::text::str_to_chars("data-");
    proof {
        reveal_strlit("href");
        reveal_strlit("src");
        reveal_strlit("data-");
    }
    let ghost full = attrs_view(attrs@);
    let mut out: Vec<(Vec<char>, ResourceType)> = Vec::new();
    let mut i: usize = 0;
    proof {
        assert(full.skip(0) =~= full);
    }
    while i < attrs.len()
        invariant
            i <= attrs@.len(),
            full == attrs_view(attrs@),
            href_lit@ == "href"@,
            src_lit@ == "src"@,
            data_lit@ == "data-"@,
            media_refs_of_attrs(full) =~= refs_view(out@) + media_refs_of_attrs(
                full.skip(i as int),
            ),
        decreases attrs@.len() - i,
    {
        let ghost rest = full.skip(i as int);
        proof {
            assert(rest[0] == full[i as int]);
            assert(rest.drop_first() =~= full.skip(i + 1));
        }
        let low = crate::paths::lower_vec(&attrs[i].0);
        let is_media_attr = crate::text::chars_eq(&low, &href_lit) || crate::text::chars_eq(
            &low,
            &src_lit,
        ) || crate::text::starts_with_vec(&low, &data_lit);
        if is_media_attr {
            match media_kind_exec(&attrs[i].1) {
                Some(kind) => {
                    let value = attrs[i].1.clone();
                    let ghost out0 = out@;
                    out.push((value, kind));
                    proof {
                        assert(refs_view(out@) =~= refs_view(out0) + seq![
                            (full[i as int].1, media_kind(full[i as int].1)->0),
                        ]);
                    }
                },
                None => {},
            }
        }
        i = i + 1;
    }
    proof {
        assert(full.skip(attrs@.len() as int) =~= Seq::<(Seq<char>, Seq<char>)>::empty());
        assert(refs_view(out@) + media_refs_of_attrs(full.skip(attrs@.len() as int)) =~= refs_view(
            out@,
        ));
    }
    out
}

/// The media references every tag of a document yields through its `href`,
/// `src` and `data-*` attributes, scanning from `i`.
pub open spec fn media_refs(s: Seq<char>, i: int) -> Seq<(Seq<char>, ResourceType)>
    decreases s.len() - i,
{
    if !(0 <= i < s.len()) {
        Seq::empty()
    } else if s[i] != '<' {
        media_refs(s, i + 1)
    } else {
        let ne = at_most(at_least(scan_stop_pos(s, i + 1, ScanStop::TagName), i + 1), s.len() as int);
        if ne == i + 1 {
            media_refs(s, i + 1)
        } else {
            let pa = parse_attrs(s, ne);
            media_refs_of_attrs(pa.0) + media_refs(
                s,
                at_most(at_least(pa.1, i + 1), s.len() as int),
            )
        }
    }
}

/// Scans a whole document for media links in `href`, `src` and `data-*`
/// attributes.
pub fn media_refs_exec(s: &Vec<char>) -> (r: Vec<(Vec<char>, ResourceType)>)
    ensures
        refs_view(r@) == media_refs(s@, 0),
{
    let n = s.len();
    let mut out: Vec<(Vec<char>, ResourceType)> = Vec::new();
    let mut i: usize = 0;
    while i < n
        invariant
            i <= n,
            n == s@.len(),
            media_refs(s@, 0) =~= refs_view(out@) + media_refs(s@, i as int),
        decreases n - i,
    {
        if s[i] != '<' {
            assert(media_refs(s@, i as int) == media_refs(s@, i + 1));
            i = i + 1;
        } else {
            let ne = find_stop(s, i + 1, ScanStop::TagName);
            if ne == i + 1 {
                assert(media_refs(s@, i as int) == media_refs(s@, i + 1));
                i = i + 1;
            } else {
                let (attrs, end) = parse_attrs_exec(s, ne);
                let refs = media_refs_of_attrs_exec(&attrs);
                let ghost out0 = out@;
                let mut k: usize = 0;
                let m = refs.len();
                let refs_iter = refs;
                while k < m
                    invariant
                        k <= m,
                        m == refs_iter@.len(),
                        refs_view(out@) =~= refs_view(out0) + refs_view(refs_iter@).take(k as int),
                    decreases m - k,
                {
                    let url = refs_iter[k].0.clone();
                    let kind = clone_kind(&refs_iter[k].1);
                    let ghost out1 = out@;
                    out.push((url, kind));
                    proof {
                        assert(refs_view(out@) =~= refs_view(out1) + seq![
                            refs_view(refs_iter@)[k as int],
                        ]);
                        assert(refs_view(out0) + refs_view(refs_iter@).take(k + 1 as int) =~= (
                        refs_view(out0) + refs_view(refs_iter@).take(k as int)) + seq![
                            refs_view(refs_iter@)[k as int],
                        ]);
                    }
                    k = k + 1;
                }
                proof {
                    assert(refs_view(refs_iter@).take(m as int) =~= refs_view(refs_iter@));
                    assert(media_refs(s@, i as int) == media_refs_of_attrs(
                        parse_attrs(s@, ne as int).0,
                    ) + media_refs(
                        s@,
                        at_most(at_least(parse_attrs(s@, ne as int).1, i + 1), s@.len() as int),
                    ));
                }
                let next = if end > i { end } else { i + 1 };
                assert(next as int == at_most(
                    at_least(parse_attrs(s@, ne as int).1, i + 1),
                    s@.len() as int,
                ));
                i = next;
            }
        }
    }
    proof {
        assert(media_refs(s@, n as int) =~= Seq::<(Seq<char>, ResourceType)>::empty());
        assert(refs_view(out@) + media_refs(s@, n as int) =~= refs_view(out@));
    }
    out
}

pub fn clone_kind(k: &ResourceType) -> (r: ResourceType)
    ensures
        r == *k,
{
    match k {
        ResourceType::CSS => ResourceType::CSS,
        ResourceType::JavaScript => ResourceType::JavaScript,
        ResourceType::Image => ResourceType::Image,
        ResourceType::Link => ResourceType::Link,
        ResourceType::PDF => ResourceType::PDF,
        ResourceType::Video => ResourceType::Video,
        ResourceType::Other => ResourceType::Other,
    }
}

} // verus!
