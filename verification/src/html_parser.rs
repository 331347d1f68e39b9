//! The parser façade: resolves discovered references against a base URL,
//! maps them to local paths, and rewrites document text to local references.

use vstd::prelude::*;

use crate::error::MirrorError;
use crate::extract::{css_urls, html_refs};
use crate::resource::{ResourceLink, ResourceType};
use crate::rewrite::replace_chars;
use crate::text::{chars_to_string, starts_with, str_to_chars};
use crate::urls::{local_path_of_url, resolved_url};

verus! {

/// What a discovered reference becomes: its resolved absolute URL, its local
/// path, and its kind; or nothing when resolution fails.
pub open spec fn link_for(base: Seq<char>, raw: Seq<char>, kind: ResourceType) -> Option<
    (Seq<char>, Seq<char>, ResourceType),
> {
    match resolved_url(base, raw) {
        Some(abs) => match local_path_of_url(abs) {
            Some(lp) => Some((abs, lp, kind)),
            None => None,
        },
        None => None,
    }
}

/// The links a reference list yields, unresolvable references skipped.
pub open spec fn links_of(base: Seq<char>, refs: Seq<(Seq<char>, ResourceType)>) -> Seq<
    (Seq<char>, Seq<char>, ResourceType),
>
    decreases refs.len(),
{
    if refs.len() == 0 {
        Seq::empty()
    } else {
        let head: Seq<(Seq<char>, Seq<char>, ResourceType)> = match link_for(
            base,
            refs[0].0,
            refs[0].1,
        ) {
            Some(l) => seq![l],
            None => Seq::empty(),
        };
        head + links_of(base, refs.drop_first())
    }
}

/// The view of a resource-link list.
pub open spec fn links_view(v: Seq<ResourceLink>) -> Seq<(Seq<char>, Seq<char>, ResourceType)> {
    v.map_values(|l: ResourceLink| (l.original_url@, l.local_path@, l.resource_type))
}

/// The local path of a reference that may be relative: absolute http(s)
/// URLs map directly, others resolve against the base first.
pub open spec fn local_path_for_reference(base: Seq<char>, u: Seq<char>) -> Option<Seq<char>> {
    if starts_with(u, "http://"@) || starts_with(u, "https://"@) {
        local_path_of_url(u)
    } else {
        match resolved_url(base, u) {
            Some(abs) => local_path_of_url(abs),
            None => None,
        }
    }
}

/// The relative reference a document uses for a local path: `./` for the
/// root index, `./` plus the path otherwise; nothing when the reference
/// cannot be resolved.
pub open spec fn local_ref_of(base: Seq<char>, raw: Seq<char>) -> Option<Seq<char>> {
    match local_path_for_reference(base, raw) {
        Some(lp) => Some(
            if starts_with(lp, "index.html"@) {
                "./"@
            } else {
                "./"@ + lp
            },
        ),
        None => None,
    }
}

/// The attribute a kind's URL sits in: stylesheets and page links use
/// `href`, scripts and images use `src`.
pub open spec fn attr_word(kind: ResourceType) -> Seq<char> {
    match kind {
        ResourceType::CSS => "href"@,
        ResourceType::Link => "href"@,
        _ => "src"@,
    }
}

/// A full quoted attribute token, `word="value"`.
pub open spec fn attr_token(word: Seq<char>, value: Seq<char>) -> Seq<char> {
    word + seq!['=', '"'] + value + seq!['"']
}

/// One conversion step per discovered reference: the quoted attribute token
/// holding the raw URL is replaced by one holding the local reference.
pub open spec fn converted_html(
    base: Seq<char>,
    s: Seq<char>,
    refs: Seq<(Seq<char>, ResourceType)>,
) -> Seq<char>
    decreases refs.len(),
{
    if refs.len() == 0 {
        s
    } else {
        let raw = refs[0].0;
        let kind = refs[0].1;
        let s2 = match local_ref_of(base, raw) {
            Some(local) => replace_chars(
                s,
                attr_token(attr_word(kind), raw),
                attr_token(attr_word(kind), local),
            ),
            None => s,
        };
        converted_html(base, s2, refs.drop_first())
    }
}

/// Resolves references found in one document against its base URL.
#[derive(Debug, Clone)]
pub struct HtmlParser {
    base_url: String,
}

impl HtmlParser {
    /// The base URL the parser resolves against.
    pub closed spec fn base(&self) -> Seq<char> {
        self.base_url@
    }

    /// Accepts any string the URL parser accepts as a base.
    pub fn new(base_url: &str) -> (r: Result<Self, MirrorError>)
        ensures
            r is Ok <==> crate::urls::url_parse_of(base_url@) is Some,
            r is Ok ==> r->Ok_0.base() == base_url@,
            r is Err ==> r->Err_0 == MirrorError::InvalidUrl,
    {
        match crate::urls::parse_url_parts(base_url) {
            Some(_) => Ok(HtmlParser { base_url: base_url.to_owned() }),
            None => Err(MirrorError::InvalidUrl),
        }
    }

    /// Resolves one reference against the base URL; see `resolved_url`.
    pub fn resolve_url(&self, url: &str) -> (r: Result<String, MirrorError>)
        ensures
            r is Ok <==> resolved_url(self.base(), url@) is Some,
            r is Ok ==> resolved_url(self.base(), url@) == Some(r->Ok_0@),
            r is Err ==> r->Err_0 == MirrorError::InvalidUrl,
    {
        crate::urls::resolve_url_str(self.base_url.as_str(), url)
    }

    /// Maps a character-for-character copy of `path` with every disallowed
    /// character replaced by `_`.
    pub fn sanitize_path(&self, path: &str) -> (r: String)
        ensures
            r@ == crate::paths::sanitize_chars(path@),
    {
        let v = str_to_chars(path);
        let s = crate::paths::sanitize_vec(&v);
        chars_to_string(&s)
    }

    /// The local path of a reference: an absolute http(s) URL maps directly,
    /// anything else resolves against the base URL first.
    pub fn url_to_local_path_string(&self, url: &str) -> (r: Result<String, MirrorError>)
        ensures
            r is Ok <==> local_path_for_reference(self.base(), url@) is Some,
            r is Ok ==> local_path_for_reference(self.base(), url@) == Some(r->Ok_0@),
            r is Err ==> r->Err_0 == MirrorError::InvalidUrl,
    {
        let uc = str_to_chars(url);
        let http = str_to_chars("http://");
        let https = str_to_chars("https://");
        if crate::text::starts_with_vec(&uc, &http) || crate::text::starts_with_vec(&uc, &https) {
            crate::urls::url_local_path(url)
        } else {
            match self.resolve_url(url) {
                Ok(abs) => crate::urls::url_local_path(abs.as_str()),
                Err(e) => Err(e),
            }
        }
    }

    /// Builds the resource link of one discovered reference.
    pub fn create_resource_link(&self, url: &str, resource_type: ResourceType) -> (r: Result<
        ResourceLink,
        MirrorError,
    >)
        ensures
            r is Ok <==> link_for(self.base(), url@, resource_type) is Some,
            r is Ok ==> link_for(self.base(), url@, resource_type) == Some(
                (r->Ok_0.original_url@, r->Ok_0.local_path@, r->Ok_0.resource_type),
            ),
            r is Err ==> r->Err_0 == MirrorError::InvalidUrl,
    {
        match self.resolve_url(url) {
            Ok(abs) => match crate::urls::url_local_path(abs.as_str()) {
                Ok(lp) => Ok(
                    ResourceLink { original_url: abs, local_path: lp, resource_type },
                ),
                Err(e) => Err(e),
            },
            Err(e) => Err(e),
        }
    }

    /// Scans a document and yields every resolvable typed reference, in
    /// document order; extraction itself never fails.
    pub fn extract_resources(&self, html_content: &str) -> (r: Result<
        Vec<ResourceLink>,
        MirrorError,
    >)
        ensures
            r is Ok,
            links_view(r->Ok_0@) == links_of(self.base(), html_refs(html_content@, 0)),
    {
        let chars = str_to_chars(html_content);
        let raw = crate::extract::html_refs_exec(&chars);
        Ok(self.links_from_refs(&raw))
    }

    /// Resolves a list of raw references, skipping the unresolvable.
    fn links_from_refs(&self, raw: &Vec<(Vec<char>, ResourceType)>) -> (r: Vec<ResourceLink>)
        ensures
            links_view(r@) == links_of(self.base(), crate::extract::refs_view(raw@)),
    {
        let ghost full = crate::extract::refs_view(raw@);
        let mut out: Vec<ResourceLink> = Vec::new();
        let mut i: usize = 0;
        proof {
            assert(full.skip(0) =~= full);
        }
        while i < raw.len()
            invariant
                i <= raw@.len(),
                full == crate::extract::refs_view(raw@),
                self.base() == self.base(),
                links_of(self.base(), full) =~= links_view(out@) + links_of(
                    self.base(),
                    full.skip(i as int),
                ),
            decreases raw@.len() - i,
        {
            let ghost rest = full.skip(i as int);
            proof {
                assert(rest[0] == full[i as int]);
                assert(rest.drop_first() =~= full.skip(i + 1));
            }
            let url = chars_to_string(&raw[i].0);
            let kind = crate::extract::clone_kind(&raw[i].1);
            match self.create_resource_link(url.as_str(), kind) {
                Ok(link) => {
                    let ghost out0 = out@;
                    out.push(link);
                    proof {
                        assert(links_view(out@) =~= links_view(out0) + seq![
                            (
                                out@.last().original_url@,
                                out@.last().local_path@,
                                out@.last().resource_type,
                            ),
                        ]);
                    }
                },
                Err(_) => {},
            }
            i = i + 1;
        }
        proof {
            assert(full.skip(raw@.len() as int) =~= Seq::<(Seq<char>, ResourceType)>::empty());
            assert(links_view(out@) + links_of(self.base(), full.skip(raw@.len() as int))
                =~= links_view(out@));
        }
        out
    }

    /// Rewrites every extracted reference's quoted attribute token to point
    /// at its local relative path.
    pub fn convert_html_links(&self, html_content: &str) -> (r: Result<String, MirrorError>)
        ensures
            r is Ok,
            r->Ok_0@ == converted_html(self.base(), html_content@, html_refs(html_content@, 0)),
    {
        let chars = str_to_chars(html_content);
        let raw = crate::extract::html_refs_exec(&chars);
        let ghost full = crate::extract::refs_view(raw@);
        let mut current: Vec<char> = chars;
        let mut i: usize = 0;
        let href_lit = str_to_chars("href");
        let src_lit = str_to_chars("src");
        let index_lit = str_to_chars("index.html");
        let dot_slash = str_to_chars("./");
        proof {
            reveal_strlit("href");
            reveal_strlit("src");
            reveal_strlit("index.html");
            reveal_strlit("./");
            assert(full.skip(0) =~= full);
        }
        while i < raw.len()
            invariant
                i <= raw@.len(),
                full == crate::extract::refs_view(raw@),
                href_lit@ == "href"@,
                src_lit@ == "src"@,
                index_lit@ == "index.html"@,
                dot_slash@ == "./"@,
                converted_html(self.base(), html_content@, full) == converted_html(
                    self.base(),
                    current@,
                    full.skip(i as int),
                ),
            decreases raw@.len() - i,
        {
            let ghost rest = full.skip(i as int);
            proof {
                assert(rest[0] == full[i as int]);
                assert(rest.drop_first() =~= full.skip(i + 1));
            }
            let url = chars_to_string(&raw[i].0);
            match self.url_to_local_path_string(url.as_str()) {
                Ok(lp) => {
                    let lp_chars = str_to_chars(lp.as_str());
                    let local: Vec<char> = if crate::text::starts_with_vec(&lp_chars, &index_lit) {
                        crate::paths::copy_range(&dot_slash, 0, dot_slash.len())
                    } else {
                        let mut v: Vec<char> = Vec::new();
                        crate::paths::append_chars(&mut v, &dot_slash);
                        crate::paths::append_chars(&mut v, &lp_chars);
                        assert(v@ =~= "./"@ + lp@);
                        v
                    };
                    assert(Some(local@) == local_ref_of(self.base(), rest[0].0));
                    let word = match &raw[i].1 {
                        ResourceType::CSS => crate::paths::copy_range(&href_lit, 0, href_lit.len()),
                        ResourceType::Link => crate::paths::copy_range(
                            &href_lit,
                            0,
                            href_lit.len(),
                        ),
                        _ => crate::paths::copy_range(&src_lit, 0, src_lit.len()),
                    };
                    proof {
                        assert(href_lit@.subrange(0, href_lit@.len() as int) =~= href_lit@);
                        assert(src_lit@.subrange(0, src_lit@.len() as int) =~= src_lit@);
                        assert(word@ == attr_word(rest[0].1));
                    }
                    let pat = build_attr_token(&word, &raw[i].0);
                    let rep = build_attr_token(&word, &local);
                    let replaced = crate::rewrite::replace_all(&current, &pat, &rep);
                    current = replaced;
                },
                Err(_) => {
                    assert(local_ref_of(self.base(), rest[0].0) is None);
                },
            }
            i = i + 1;
        }
        proof {
            assert(full.skip(raw@.len() as int) =~= Seq::<(Seq<char>, ResourceType)>::empty());
        }
        Ok(chars_to_string(&current))
    }

    /// Scans CSS text for background images and appends the resolvable ones.
    pub fn extract_background_images_from_css(
        &self,
        css_content: &str,
        resources: &mut Vec<ResourceLink>,
    )
        ensures
            links_view(final(resources)@) == links_view(old(resources)@) + links_of(
                self.base(),
                css_urls(css_content@, 0).map_values(|u: Seq<char>| (u, ResourceType::Image)),
            ),
    {
        let chars = str_to_chars(css_content);
        let urls = crate::extract::css_urls_exec(&chars);
        let mut raw: Vec<(Vec<char>, ResourceType)> = Vec::new();
        let ghost target = css_urls(css_content@, 0).map_values(
            |u: Seq<char>| (u, ResourceType::Image),
        );
        let mut i: usize = 0;
        while i < urls.len()
            invariant
                i <= urls@.len(),
                crate::extract::urls_view(urls@) == css_urls(css_content@, 0),
                target == css_urls(css_content@, 0).map_values(
                    |u: Seq<char>| (u, ResourceType::Image),
                ),
                crate::extract::refs_view(raw@) =~= target.take(i as int),
            decreases urls@.len() - i,
        {
            let u = urls[i].clone();
            let ghost raw0 = raw@;
            raw.push((u, ResourceType::Image));
            proof {
                assert(crate::extract::refs_view(raw@) =~= crate::extract::refs_view(raw0) + seq![
                    target[i as int],
                ]);
                assert(target.take(i + 1 as int) =~= target.take(i as int) + seq![
                    target[i as int],
                ]);
            }
            i = i + 1;
        }
        proof {
            assert(target.take(urls@.len() as int) =~= target);
        }
        let links = self.links_from_refs(&raw);
        let ghost res0 = resources@;
        let mut j: usize = 0;
        let links_iter = links;
        while j < links_iter.len()
            invariant
                j <= links_iter@.len(),
                links_view(links_iter@) == links_of(self.base(), target),
                links_view(resources@) =~= links_view(res0) + links_view(links_iter@).take(
                    j as int,
                ),
            decreases links_iter@.len() - j,
        {
            let link = clone_link(&links_iter[j]);
            let ghost res1 = resources@;
            resources.push(link);
            proof {
                assert(links_view(resources@) =~= links_view(res1) + seq![
                    links_view(links_iter@)[j as int],
                ]);
                assert(links_view(res0) + links_view(links_iter@).take(j + 1 as int) =~= (
                links_view(res0) + links_view(links_iter@).take(j as int)) + seq![
                    links_view(links_iter@)[j as int],
                ]);
            }
            j = j + 1;
        }
        proof {
            assert(links_view(links_iter@).take(links_iter@.len() as int) =~= links_view(
                links_iter@,
            ));
        }
    }
}

/// Idempotence: the local path of a URL is a pure function of the URL and
/// the base alone — any two computations of it agree, so computing it twice
/// for the same URL yields identical output.
pub proof fn lemma_local_path_deterministic(
    base: Seq<char>,
    u: Seq<char>,
    r1: Option<Seq<char>>,
    r2: Option<Seq<char>>,
)
    requires
        r1 == local_path_for_reference(base, u),
        r2 == local_path_for_reference(base, u),
    ensures
        r1 == r2,
{
}

/// Copies a resource link field by field.
pub fn clone_link(l: &ResourceLink) -> (r: ResourceLink)
    ensures
        r.original_url@ == l.original_url@,
        r.local_path@ == l.local_path@,
        r.resource_type == l.resource_type,
{
    ResourceLink {
        original_url: l.original_url.clone(),
        local_path: l.local_path.clone(),
        resource_type: crate::extract::clone_kind(&l.resource_type),
    }
}

/// Builds the quoted token `word="value"`.
fn build_attr_token(word: &Vec<char>, value: &Vec<char>) -> (r: Vec<char>)
    ensures
        r@ == attr_token(word@, value@),
{
    let mut v: Vec<char> = Vec::new();
    crate::paths::append_chars(&mut v, word);
    v.push('=');
    v.push('"');
    crate::paths::append_chars(&mut v, value);
    v.push('"');
    assert(v@ =~= attr_token(word@, value@));
    v
}

} // verus!
