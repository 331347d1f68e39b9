//! The mirror engine: the per-run state (configuration, visited set, download
//! ledger) and every decision the crawl takes — what to visit, what to fetch,
//! where to write it, and how to rewrite page text. The caller performs the
//! network transfers, file writes and image re-encoding these decisions ask
//! for, and reports their outcomes back.

use vstd::prelude::*;

use crate::error::MirrorError;
use crate::extract::{media_refs, refs_view};
use crate::html_parser::{links_of, links_view, local_path_for_reference, HtmlParser};
use crate::paths::{relative_path_spec, translate_webp_chars, webp_local_path, webp_source_url};
use crate::resource::{filter_allows, opt_filter_view, ResourceLink, ResourceType};
use crate::store::PersistentStore;
use crate::text::{starts_with, str_to_chars};
use crate::urls::same_domain;

verus! {

/// What the engine decides for a page task.
#[derive(Clone, Copy, Debug, PartialEq, Eq, Structural)]
pub enum PageDecision {
    /// The URL was already claimed in this run; skip it.
    AlreadyVisited,
    /// The task lies beyond the depth limit; skip it (the URL stays claimed).
    TooDeep,
    /// The page should be fetched.
    Fetch,
}

/// What the engine decides for a non-page resource.
#[derive(Clone, Copy, Debug, PartialEq, Eq, Structural)]
pub enum ResourcePlan {
    /// The ledger already holds the URL; no fetch.
    Cached,
    /// The file already exists on disk; the ledger entry was confirmed, no fetch.
    RecordedExisting,
    /// The resource should be fetched.
    Fetch,
}

/// Per-kind fetch policy: stylesheets, scripts, images, PDFs and videos are
/// fetched from any host (they are needed for the page to render); page
/// links and resources of no recognized kind only from the target host or a
/// subdomain of it.
pub open spec fn download_policy(u: Seq<char>, base: Seq<char>, k: ResourceType) -> bool {
    match k {
        ResourceType::Link => same_domain(u, base),
        ResourceType::Other => same_domain(u, base),
        _ => true,
    }
}

/// A URL that the supplementary scan may add: not a data URI, fragment or
/// root-relative reference, and not on the target host.
pub open spec fn keep_additional(u: Seq<char>, base: Seq<char>) -> bool {
    !starts_with(u, "data:"@) && !starts_with(u, "#"@) && !starts_with(u, "/"@) && !same_domain(
        u,
        base,
    )
}

/// The supplementary references that pass `keep_additional`.
pub open spec fn filtered_media(refs: Seq<(Seq<char>, ResourceType)>, base: Seq<char>) -> Seq<
    (Seq<char>, ResourceType),
>
    decreases refs.len(),
{
    if refs.len() == 0 {
        Seq::empty()
    } else {
        let head: Seq<(Seq<char>, ResourceType)> = if keep_additional(refs[0].0, base) {
            seq![refs[0]]
        } else {
            Seq::empty()
        };
        head + filtered_media(refs.drop_first(), base)
    }
}

pub open spec fn contains_url(acc: Seq<(Seq<char>, ResourceType)>, u: Seq<char>) -> bool {
    exists|i: int| 0 <= i < acc.len() && (#[trigger] acc[i]).0 == u
}

/// First-occurrence deduplication by URL.
pub open spec fn dedup_refs(
    acc: Seq<(Seq<char>, ResourceType)>,
    refs: Seq<(Seq<char>, ResourceType)>,
) -> Seq<(Seq<char>, ResourceType)>
    decreases refs.len(),
{
    if refs.len() == 0 {
        acc
    } else {
        let acc2 = if contains_url(acc, refs[0].0) {
            acc
        } else {
            acc.push(refs[0])
        };
        dedup_refs(acc2, refs.drop_first())
    }
}

/// The deduplicated supplementary references of a document.
pub open spec fn additional_refs(html: Seq<char>, base: Seq<char>) -> Seq<
    (Seq<char>, ResourceType),
> {
    dedup_refs(Seq::empty(), filtered_media(media_refs(html, 0), base))
}

/// One mirror run: its configuration, visited set and download ledger.
#[derive(Debug, Clone)]
pub struct WebsiteMirror {
    pub base_url: String,
    pub output_dir: String,
    pub max_depth: usize,
    pub max_concurrent: usize,
    pub ignore_robots: bool,
    pub download_external: bool,
    pub only_resources: Option<Vec<String>>,
    pub convert_to_webp: bool,
    pub visited_urls: Vec<String>,
    pub persistent_store: PersistentStore,
}

impl WebsiteMirror {
    /// Whether a URL has been claimed in this run.
    pub closed spec fn has_visited(&self, u: Seq<char>) -> bool {
        exists|i: int| 0 <= i < self.visited_urls@.len() && (#[trigger] self.visited_urls@[i])@
            == u
    }

    /// The ledger's URL-to-local-path mapping.
    pub closed spec fn store_map(&self) -> Map<Seq<char>, Seq<char>> {
        self.persistent_store.map_view()
    }

    /// The run's configuration, for stating what a step leaves unchanged.
    pub closed spec fn config(&self) -> (
        Seq<char>,
        Seq<char>,
        usize,
        usize,
        bool,
        bool,
        Option<Seq<Seq<char>>>,
        bool,
    ) {
        (
            self.base_url@,
            self.output_dir@,
            self.max_depth,
            self.max_concurrent,
            self.ignore_robots,
            self.download_external,
            opt_filter_view(self.only_resources),
            self.convert_to_webp,
        )
    }

    /// Accepts any base URL the URL parser accepts; the run starts with an
    /// empty visited set and an empty ledger.
    pub fn new(
        base_url: &str,
        output_dir: &str,
        max_depth: usize,
        max_concurrent: usize,
        ignore_robots: bool,
        download_external: bool,
        only_resources: Option<Vec<String>>,
        convert_to_webp: bool,
    ) -> (r: Result<Self, MirrorError>)
        ensures
            r is Ok <==> crate::urls::url_parse_of(base_url@) is Some,
            r is Ok ==> {
                let m = r->Ok_0;
                &&& m.base_url@ == base_url@
                &&& m.output_dir@ == output_dir@
                &&& m.max_depth == max_depth
                &&& m.max_concurrent == max_concurrent
                &&& m.ignore_robots == ignore_robots
                &&& m.download_external == download_external
                &&& opt_filter_view(m.only_resources) == opt_filter_view(only_resources)
                &&& m.convert_to_webp == convert_to_webp
                &&& (forall|u: Seq<char>| !m.has_visited(u))
                &&& m.store_map() == Map::<Seq<char>, Seq<char>>::empty()
            },
            r is Err ==> r->Err_0 == MirrorError::InvalidUrl,
    {
        match crate::urls::parse_url_parts(base_url) {
            Some(_) => Ok(
                WebsiteMirror {
                    base_url: base_url.to_owned(),
                    output_dir: output_dir.to_owned(),
                    max_depth,
                    max_concurrent,
                    ignore_robots,
                    download_external,
                    only_resources,
                    convert_to_webp,
                    visited_urls: Vec::new(),
                    persistent_store: PersistentStore::new(),
                },
            ),
            None => Err(MirrorError::InvalidUrl),
        }
    }

    /// The overlay of recording a list of entries in order.
    pub open spec fn with_entries(
        m: Map<Seq<char>, Seq<char>>,
        es: Seq<(String, String)>,
    ) -> Map<Seq<char>, Seq<char>>
        decreases es.len(),
    {
        if es.len() == 0 {
            m
        } else {
            Self::with_entries(m.insert(es[0].0@, es[0].1@), es.drop_first())
        }
    }

    /// Seeds the ledger from persisted entries, first to last.
    pub fn load_ledger_entries(&mut self, entries: Vec<(String, String)>)
        ensures
            final(self).store_map() == Self::with_entries(old(self).store_map(), entries@),
            final(self).config() == old(self).config(),
            forall|u: Seq<char>| final(self).has_visited(u) == old(self).has_visited(u),
    {
        let ghost full = entries@;
        let mut i: usize = 0;
        proof {
            assert(full.skip(0) =~= full);
        }
        let n = entries.len();
        let mut entries_vec = entries;
        while i < n
            invariant
                i <= n,
                n == entries_vec@.len(),
                entries_vec@ == full,
                Self::with_entries(old(self).store_map(), full) == Self::with_entries(
                    self.store_map(),
                    full.skip(i as int),
                ),
                self.config() == old(self).config(),
                forall|u: Seq<char>| self.has_visited(u) == old(self).has_visited(u),
            decreases n - i,
        {
            let ghost rest = full.skip(i as int);
            proof {
                assert(rest[0] == full[i as int]);
                assert(rest.drop_first() =~= full.skip(i + 1));
            }
            let url = entries_vec[i].0.clone();
            let path = entries_vec[i].1.clone();
            let ghost mid = *self;
            self.persistent_store.add_download(url, path);
            proof {
                lemma_visited_frame(self, &mid);
            }
            i = i + 1;
        }
        proof {
            assert(full.skip(n as int) =~= Seq::<(String, String)>::empty());
        }
    }

    /// The number of ledger entries visible to a caller, for reporting.
    pub fn ledger_snapshot(&self) -> (r: Vec<(String, String)>)
        ensures
            crate::store::entries_map(r@) == self.store_map(),
    {
        self.persistent_store.snapshot()
    }

    /// Claims a page URL and decides its fate: a URL seen before is skipped;
    /// a task beyond the depth limit is skipped (but stays claimed); anything
    /// else is fetched. A URL can be claimed for fetching at most once per
    /// run: after any call the URL is in the visited set, and a later call
    /// for it can never return `Fetch` again.
    pub fn begin_page(&mut self, url: &str, depth: usize) -> (r: PageDecision)
        ensures
            r is AlreadyVisited <==> old(self).has_visited(url@),
            r is TooDeep <==> (!old(self).has_visited(url@) && old(self).max_depth > 0 && depth
                > old(self).max_depth),
            r is Fetch <==> (!old(self).has_visited(url@) && !(old(self).max_depth > 0 && depth
                > old(self).max_depth)),
            final(self).has_visited(url@),
            forall|u: Seq<char>|
                final(self).has_visited(u) == (old(self).has_visited(u) || u == url@),
            final(self).store_map() == old(self).store_map(),
            final(self).config() == old(self).config(),
    {
        let already = self.check_visited(url);
        if already {
            assert(forall|u: Seq<char>|
                self.has_visited(u) == (old(self).has_visited(u) || u == url@));
            return PageDecision::AlreadyVisited;
        }
        let ghost pre = self.visited_urls@;
        self.visited_urls.push(url.to_owned());
        proof {
            assert(self.visited_urls@[pre.len() as int]@ == url@);
            assert forall|u: Seq<char>|
                self.has_visited(u) == (old(self).has_visited(u) || u == url@) by {
                if self.has_visited(u) {
                    let i = choose|i: int|
                        0 <= i < self.visited_urls@.len() && (#[trigger] self.visited_urls@[i])@
                            == u;
                    if i < pre.len() {
                        assert(pre[i]@ == u);
                    }
                }
                if old(self).has_visited(u) {
                    let i = choose|i: int| 0 <= i < pre.len() && (#[trigger] pre[i])@ == u;
                    assert(self.visited_urls@[i]@ == u);
                }
            }
        }
        if self.max_depth > 0 && depth > self.max_depth {
            PageDecision::TooDeep
        } else {
            PageDecision::Fetch
        }
    }

    fn check_visited(&self, url: &str) -> (r: bool)
        ensures
            r == self.has_visited(url@),
    {
        let mut i: usize = 0;
        while i < self.visited_urls.len()
            invariant
                i <= self.visited_urls@.len(),
                forall|j: int| 0 <= j < i ==> (#[trigger] self.visited_urls@[j])@ != url@,
            decreases self.visited_urls@.len() - i,
        {
            if crate::text::str_eq(self.visited_urls[i].as_str(), url) {
                return true;
            }
            i = i + 1;
        }
        false
    }

    /// Decides a non-page resource per the resumable cache: a URL in the
    /// ledger is never fetched again; a file already on disk is recorded in
    /// the ledger and not fetched; only an unknown URL is fetched. Together
    /// with `resource_saved`, which puts the URL into the ledger, a URL is
    /// fetched at most once per run and never again across resumed runs.
    pub fn resource_plan(&mut self, url: &str, local_path: &str, exists_on_disk: bool) -> (r:
        ResourcePlan)
        ensures
            r is Cached <==> old(self).store_map().contains_key(url@),
            r is RecordedExisting <==> (!old(self).store_map().contains_key(url@)
                && exists_on_disk),
            r is Fetch <==> (!old(self).store_map().contains_key(url@) && !exists_on_disk),
            r is RecordedExisting ==> final(self).store_map() == old(self).store_map().insert(
                url@,
                local_path@,
            ),
            !(r is RecordedExisting) ==> final(self).store_map() == old(self).store_map(),
            final(self).config() == old(self).config(),
            forall|u: Seq<char>| final(self).has_visited(u) == old(self).has_visited(u),
    {
        if self.persistent_store.has_download(url) {
            return ResourcePlan::Cached;
        }
        if exists_on_disk {
            self.persistent_store.add_download(url.to_owned(), local_path.to_owned());
            proof {
                lemma_visited_frame(self, old(self));
            }
            return ResourcePlan::RecordedExisting;
        }
        ResourcePlan::Fetch
    }

    /// Records a successful materialization in the ledger.
    pub fn resource_saved(&mut self, url: &str, save_path: &str)
        ensures
            final(self).store_map() == old(self).store_map().insert(url@, save_path@),
            final(self).config() == old(self).config(),
            forall|u: Seq<char>| final(self).has_visited(u) == old(self).has_visited(u),
    {
        self.persistent_store.add_download(url.to_owned(), save_path.to_owned());
        proof {
            lemma_visited_frame(self, old(self));
        }
    }

    /// Whether fetched bytes of this URL should be offered to the image
    /// transcoder.
    pub fn wants_transcode(&self, url: &str) -> (r: bool)
        ensures
            r == (self.convert_to_webp && webp_source_url(url@)),
    {
        let uc = str_to_chars(url);
        self.convert_to_webp && crate::paths::is_webp_source_url(&uc)
    }

    /// The path fetched bytes are written to: extension-translated exactly
    /// when conversion is on, the URL is an eligible image, and transcoding
    /// succeeded; unchanged otherwise (a failed decode falls back to the
    /// original bytes and path).
    pub fn final_resource_path(&self, url: &str, local_path: &str, transcode_succeeded: bool) -> (r:
        String)
        ensures
            r@ == if self.convert_to_webp && webp_source_url(url@) && transcode_succeeded {
                translate_webp_chars(local_path@)
            } else {
                local_path@
            },
    {
        let uc = str_to_chars(url);
        let lp = str_to_chars(local_path);
        if self.convert_to_webp && crate::paths::is_webp_source_url(&uc) && transcode_succeeded {
            let t = crate::paths::translate_webp_vec(&lp);
            crate::text::chars_to_string(&t)
        } else {
            crate::text::chars_to_string(&lp)
        }
    }

    /// Whether the allow-list admits a resource kind; an absent list admits
    /// every kind.
    pub fn should_process_resource_type(&self, resource_type: &ResourceType) -> (r: bool)
        ensures
            r == filter_allows(opt_filter_view(self.only_resources), *resource_type),
    {
        crate::resource::filter_allows_exec(&self.only_resources, resource_type)
    }

    /// Whether the URL's host is the target host or a subdomain of it.
    pub fn is_same_domain(&self, url: &str) -> (r: bool)
        ensures
            r == same_domain(url@, self.base_url@),
    {
        crate::urls::is_same_domain_str(url, self.base_url.as_str())
    }

    /// Per-kind fetch policy; see `download_policy`.
    pub fn should_download_resource(&self, url: &str, resource_type: &ResourceType) -> (r: bool)
        ensures
            r == download_policy(url@, self.base_url@, *resource_type),
    {
        match resource_type {
            ResourceType::Link => self.is_same_domain(url),
            ResourceType::Other => self.is_same_domain(url),
            _ => true,
        }
    }

    /// Whether a URL names an image, PDF or video by extension.
    pub fn is_resource_url(&self, url: &str) -> (r: bool)
        ensures
            r == (crate::extract::media_kind(url@) is Some),
    {
        let uc = str_to_chars(url);
        match crate::extract::media_kind_exec(&uc) {
            Some(_) => true,
            None => false,
        }
    }

    /// The blanket extension sweep over document text; see
    /// `webp_sweep_chars`.
    pub fn perform_comprehensive_webp_replacement(html_content: &str) -> (r: String)
        ensures
            r@ == crate::rewrite::webp_sweep_chars(html_content@),
    {
        let chars = str_to_chars(html_content);
        let swept = crate::rewrite::webp_sweep(&chars);
        crate::text::chars_to_string(&swept)
    }

    /// The reference text a document uses for a resource: its local path
    /// (WebP-translated when conversion applies), relative to the document's
    /// own local path.
    pub fn get_local_path_for_resource_static(
        html_parser: &HtmlParser,
        original_url: &str,
        convert_to_webp: bool,
        current_html_path: &str,
    ) -> (r: Result<String, MirrorError>)
        ensures
            r is Ok <==> local_path_for_reference(html_parser.base(), original_url@) is Some,
            r is Ok ==> r->Ok_0@ == relative_path_spec(
                current_html_path@,
                webp_local_path(
                    local_path_for_reference(html_parser.base(), original_url@)->0,
                    original_url@,
                    convert_to_webp,
                ),
            ),
            r is Err ==> r->Err_0 == MirrorError::InvalidUrl,
    {
        match html_parser.url_to_local_path_string(original_url) {
            Ok(lp) => {
                let lp_chars = str_to_chars(lp.as_str());
                let url_chars = str_to_chars(original_url);
                let final_lp = crate::paths::webp_local_path_vec(
                    &lp_chars,
                    &url_chars,
                    convert_to_webp,
                );
                let final_str = crate::text::chars_to_string(&final_lp);
                Ok(
                    crate::paths::calculate_relative_path(current_html_path, final_str.as_str()),
                )
            },
            Err(e) => Err(e),
        }
    }

    /// The deduplicated external media URLs of a document: candidates found
    /// in `href`, `src` and `data-*` attributes whose host is not the
    /// target's, skipping data URIs, fragments and root-relative references.
    pub fn extract_additional_image_urls(&self, html_content: &str) -> (r: Vec<
        (String, ResourceType),
    >)
        ensures
            r@.map_values(|p: (String, ResourceType)| (p.0@, p.1)) == additional_refs(
                html_content@,
                self.base_url@,
            ),
    {
        let chars = str_to_chars(html_content);
        let raw = crate::extract::media_refs_exec(&chars);
        let ghost full = refs_view(raw@);
        let data_lit = str_to_chars("data:");
        let hash_lit = str_to_chars("#");
        let slash_lit = str_to_chars("/");
        proof {
            reveal_strlit("data:");
            reveal_strlit("#");
            reveal_strlit("/");
        }
        // filter
        let mut kept: Vec<(Vec<char>, ResourceType)> = Vec::new();
        let mut i: usize = 0;
        proof {
            assert(full.skip(0) =~= full);
        }
        while i < raw.len()
            invariant
                i <= raw@.len(),
                full == refs_view(raw@),
                data_lit@ == "data:"@,
                hash_lit@ == "#"@,
                slash_lit@ == "/"@,
                self.base_url@ == self.base_url@,
                filtered_media(full, self.base_url@) =~= refs_view(kept@) + filtered_media(
                    full.skip(i as int),
                    self.base_url@,
                ),
            decreases raw@.len() - i,
        {
            let ghost rest = full.skip(i as int);
            proof {
                assert(rest[0] == full[i as int]);
                assert(rest.drop_first() =~= full.skip(i + 1));
            }
            let u = &raw[i].0;
            let keep = !crate::text::starts_with_vec(u, &data_lit) && !crate::text::starts_with_vec(
                u,
                &hash_lit,
            ) && !crate::text::starts_with_vec(u, &slash_lit) && {
                let us = crate::text::chars_to_string(u);
                !self.is_same_domain(us.as_str())
            };
            if keep {
                let value = raw[i].0.clone();
                let kind = crate::extract::clone_kind(&raw[i].1);
                let ghost kept0 = kept@;
                kept.push((value, kind));
                proof {
                    assert(refs_view(kept@) =~= refs_view(kept0) + seq![full[i as int]]);
                }
            }
            i = i + 1;
        }
        proof {
            assert(full.skip(raw@.len() as int) =~= Seq::<(Seq<char>, ResourceType)>::empty());
            assert(refs_view(kept@) + filtered_media(
                full.skip(raw@.len() as int),
                self.base_url@,
            ) =~= refs_view(kept@));
        }
        // dedup, keeping first occurrences
        let ghost filtered = refs_view(kept@);
        let mut out: Vec<(Vec<char>, ResourceType)> = Vec::new();
        let mut j: usize = 0;
        proof {
            assert(filtered.skip(0) =~= filtered);
            assert(refs_view(out@) =~= Seq::<(Seq<char>, ResourceType)>::empty());
        }
        while j < kept.len()
            invariant
                j <= kept@.len(),
                filtered == refs_view(kept@),
                dedup_refs(Seq::empty(), filtered) == dedup_refs(
                    refs_view(out@),
                    filtered.skip(j as int),
                ),
            decreases kept@.len() - j,
        {
            let ghost rest = filtered.skip(j as int);
            proof {
                assert(rest[0] == filtered[j as int]);
                assert(rest.drop_first() =~= filtered.skip(j + 1));
            }
            if !contains_url_exec(&out, &kept[j].0) {
                let value = kept[j].0.clone();
                let kind = crate::extract::clone_kind(&kept[j].1);
                let ghost out0 = out@;
                out.push((value, kind));
                proof {
                    assert(refs_view(out@) =~= refs_view(out0).push(filtered[j as int]));
                }
            }
            j = j + 1;
        }
        proof {
            assert(filtered.skip(kept@.len() as int) =~= Seq::<(Seq<char>, ResourceType)>::empty());
        }
        // convert to strings
        let mut result: Vec<(String, ResourceType)> = Vec::new();
        let mut k: usize = 0;
        let ghost target = refs_view(out@);
        while k < out.len()
            invariant
                k <= out@.len(),
                target == refs_view(out@),
                result@.map_values(|p: (String, ResourceType)| (p.0@, p.1)) =~= target.take(
                    k as int,
                ),
            decreases out@.len() - k,
        {
            let s = crate::text::chars_to_string(&out[k].0);
            let kind = crate::extract::clone_kind(&out[k].1);
            let ghost res0 = result@;
            result.push((s, kind));
            proof {
                assert(result@.map_values(|p: (String, ResourceType)| (p.0@, p.1)) =~= res0
                    .map_values(|p: (String, ResourceType)| (p.0@, p.1)) + seq![
                    target[k as int],
                ]);
                assert(target.take(k + 1 as int) =~= target.take(k as int) + seq![
                    target[k as int],
                ]);
            }
            k = k + 1;
        }
        proof {
            assert(target.take(out@.len() as int) =~= target);
        }
        result
    }
}

/// The references of one kind that pass the fetch policy, in order.
pub open spec fn eligible_of_kind(
    rs: Seq<(Seq<char>, Seq<char>, ResourceType)>,
    base: Seq<char>,
    k: ResourceType,
) -> Seq<(Seq<char>, Seq<char>, ResourceType)>
    decreases rs.len(),
{
    if rs.len() == 0 {
        Seq::empty()
    } else {
        let head: Seq<(Seq<char>, Seq<char>, ResourceType)> = if rs[0].2 == k && download_policy(
            rs[0].0,
            base,
            k,
        ) {
            seq![rs[0]]
        } else {
            Seq::empty()
        };
        head + eligible_of_kind(rs.drop_first(), base, k)
    }
}

/// The references the fetch policy rejects, in order.
pub open spec fn skipped_refs(
    rs: Seq<(Seq<char>, Seq<char>, ResourceType)>,
    base: Seq<char>,
) -> Seq<(Seq<char>, Seq<char>, ResourceType)>
    decreases rs.len(),
{
    if rs.len() == 0 {
        Seq::empty()
    } else {
        let head: Seq<(Seq<char>, Seq<char>, ResourceType)> = if !download_policy(
            rs[0].0,
            base,
            rs[0].2,
        ) {
            seq![rs[0]]
        } else {
            Seq::empty()
        };
        head + skipped_refs(rs.drop_first(), base)
    }
}

/// A page's references, partitioned by kind under the fetch policy.
pub struct PagePlan {
    pub css: Vec<ResourceLink>,
    pub js: Vec<ResourceLink>,
    pub images: Vec<ResourceLink>,
    pub pdfs: Vec<ResourceLink>,
    pub videos: Vec<ResourceLink>,
    pub links: Vec<ResourceLink>,
    pub others: Vec<ResourceLink>,
    pub skipped: Vec<ResourceLink>,
}

/// The reference text written for one rewritten resource: its local path,
/// WebP-translated for images when conversion is on, relative to the
/// document's own path.
pub open spec fn final_ref_of(
    t: (Seq<char>, Seq<char>, ResourceType),
    convert: bool,
    current: Seq<char>,
) -> Seq<char> {
    let lp = if t.2 == ResourceType::Image {
        webp_local_path(t.1, t.0, convert)
    } else {
        t.1
    };
    relative_path_spec(current, lp)
}

/// Replacement of each reference's absolute URL by its local reference text,
/// first to last.
pub open spec fn rewrite_list(
    s: Seq<char>,
    rs: Seq<(Seq<char>, Seq<char>, ResourceType)>,
    convert: bool,
    current: Seq<char>,
) -> Seq<char>
    decreases rs.len(),
{
    if rs.len() == 0 {
        s
    } else {
        rewrite_list(
            crate::rewrite::replace_chars(s, rs[0].0, final_ref_of(rs[0], convert, current)),
            rs.drop_first(),
            convert,
            current,
        )
    }
}

/// A page body after rewriting: every reference replaced in scheduling
/// order, then (with conversion on) the blanket extension sweep.
pub open spec fn rewritten_page(
    s: Seq<char>,
    ordered: Seq<(Seq<char>, Seq<char>, ResourceType)>,
    convert: bool,
    current: Seq<char>,
) -> Seq<char> {
    let s1 = rewrite_list(s, ordered, convert, current);
    if convert {
        crate::rewrite::webp_sweep_chars(s1)
    } else {
        s1
    }
}

impl WebsiteMirror {
    /// Partitions a page's references by kind under the fetch policy.
    pub fn partition_resources(&self, resources: &Vec<ResourceLink>) -> (r: PagePlan)
        ensures
            links_view(r.css@) == eligible_of_kind(
                links_view(resources@),
                self.base_url@,
                ResourceType::CSS,
            ),
            links_view(r.js@) == eligible_of_kind(
                links_view(resources@),
                self.base_url@,
                ResourceType::JavaScript,
            ),
            links_view(r.images@) == eligible_of_kind(
                links_view(resources@),
                self.base_url@,
                ResourceType::Image,
            ),
            links_view(r.pdfs@) == eligible_of_kind(
                links_view(resources@),
                self.base_url@,
                ResourceType::PDF,
            ),
            links_view(r.videos@) == eligible_of_kind(
                links_view(resources@),
                self.base_url@,
                ResourceType::Video,
            ),
            links_view(r.links@) == eligible_of_kind(
                links_view(resources@),
                self.base_url@,
                ResourceType::Link,
            ),
            links_view(r.others@) == eligible_of_kind(
                links_view(resources@),
                self.base_url@,
                ResourceType::Other,
            ),
            links_view(r.skipped@) == skipped_refs(links_view(resources@), self.base_url@),
    {
        let ghost full = links_view(resources@);
        let ghost base = self.base_url@;
        let mut plan = PagePlan {
            css: Vec::new(),
            js: Vec::new(),
            images: Vec::new(),
            pdfs: Vec::new(),
            videos: Vec::new(),
            links: Vec::new(),
            others: Vec::new(),
            skipped: Vec::new(),
        };
        let mut i: usize = 0;
        proof {
            assert(full.skip(0) =~= full);
        }
        while i < resources.len()
            invariant
                i <= resources@.len(),
                full == links_view(resources@),
                base == self.base_url@,
                eligible_of_kind(full, base, ResourceType::CSS) =~= links_view(plan.css@)
                    + eligible_of_kind(full.skip(i as int), base, ResourceType::CSS),
                eligible_of_kind(full, base, ResourceType::JavaScript) =~= links_view(plan.js@)
                    + eligible_of_kind(full.skip(i as int), base, ResourceType::JavaScript),
                eligible_of_kind(full, base, ResourceType::Image) =~= links_view(plan.images@)
                    + eligible_of_kind(full.skip(i as int), base, ResourceType::Image),
                eligible_of_kind(full, base, ResourceType::PDF) =~= links_view(plan.pdfs@)
                    + eligible_of_kind(full.skip(i as int), base, ResourceType::PDF),
                eligible_of_kind(full, base, ResourceType::Video) =~= links_view(plan.videos@)
                    + eligible_of_kind(full.skip(i as int), base, ResourceType::Video),
                eligible_of_kind(full, base, ResourceType::Link) =~= links_view(plan.links@)
                    + eligible_of_kind(full.skip(i as int), base, ResourceType::Link),
                eligible_of_kind(full, base, ResourceType::Other) =~= links_view(plan.others@)
                    + eligible_of_kind(full.skip(i as int), base, ResourceType::Other),
                skipped_refs(full, base) =~= links_view(plan.skipped@) + skipped_refs(
                    full.skip(i as int),
                    base,
                ),
            decreases resources@.len() - i,
        {
            let ghost rest = full.skip(i as int);
            proof {
                assert(rest[0] == full[i as int]);
                assert(rest.drop_first() =~= full.skip(i + 1));
            }
            let link = crate::html_parser::clone_link(&resources[i]);
            let allowed = self.should_download_resource(
                link.original_url.as_str(),
                &link.resource_type,
            );
            if allowed {
                let ghost t = rest[0];
                match &link.resource_type {
                    ResourceType::CSS => {
                        let ghost b0 = plan.css@;
                        plan.css.push(link);
                        proof {
                            assert(links_view(plan.css@) =~= links_view(b0) + seq![t]);
                        }
                    },
                    ResourceType::JavaScript => {
                        let ghost b0 = plan.js@;
                        plan.js.push(link);
                        proof {
                            assert(links_view(plan.js@) =~= links_view(b0) + seq![t]);
                        }
                    },
                    ResourceType::Image => {
                        let ghost b0 = plan.images@;
                        plan.images.push(link);
                        proof {
                            assert(links_view(plan.images@) =~= links_view(b0) + seq![t]);
                        }
                    },
                    ResourceType::PDF => {
                        let ghost b0 = plan.pdfs@;
                        plan.pdfs.push(link);
                        proof {
                            assert(links_view(plan.pdfs@) =~= links_view(b0) + seq![t]);
                        }
                    },
                    ResourceType::Video => {
                        let ghost b0 = plan.videos@;
                        plan.videos.push(link);
                        proof {
                            assert(links_view(plan.videos@) =~= links_view(b0) + seq![t]);
                        }
                    },
                    ResourceType::Link => {
                        let ghost b0 = plan.links@;
                        plan.links.push(link);
                        proof {
                            assert(links_view(plan.links@) =~= links_view(b0) + seq![t]);
                        }
                    },
                    ResourceType::Other => {
                        let ghost b0 = plan.others@;
                        plan.others.push(link);
                        proof {
                            assert(links_view(plan.others@) =~= links_view(b0) + seq![t]);
                        }
                    },
                }
            } else {
                let ghost t = rest[0];
                let ghost b0 = plan.skipped@;
                plan.skipped.push(link);
                proof {
                    assert(links_view(plan.skipped@) =~= links_view(b0) + seq![t]);
                }
            }
            i = i + 1;
        }
        proof {
            let ghost end = full.skip(resources@.len() as int);
            assert(end =~= Seq::<(Seq<char>, Seq<char>, ResourceType)>::empty());
        }
        plan
    }

    /// Collects everything one page references: the primary extraction and
    /// the deduplicated supplementary media links, resolved against the
    /// page's own parser.
    pub fn collect_page_links(&self, parser: &HtmlParser, html_content: &str) -> (r: Vec<
        ResourceLink,
    >)
        ensures
            links_view(r@) == links_of(
                parser.base(),
                crate::extract::html_refs(html_content@, 0),
            ) + links_of(parser.base(), additional_refs(html_content@, self.base_url@)),
    {
        let mut out = match parser.extract_resources(html_content) {
            Ok(v) => v,
            Err(_) => Vec::new(),
        };
        let additional = self.extract_additional_image_urls(html_content);
        let ghost target = additional_refs(html_content@, self.base_url@);
        let ghost base_links = links_view(out@);
        let mut i: usize = 0;
        proof {
            assert(target.skip(0) =~= target);
        }
        while i < additional.len()
            invariant
                i <= additional@.len(),
                additional@.map_values(|p: (String, ResourceType)| (p.0@, p.1)) == target,
                links_view(out@) =~= base_links + links_of(parser.base(), target.take(i as int)),
                parser.base() == parser.base(),
            decreases additional@.len() - i,
        {
            proof {
                assert(target[i as int] == (additional@[i as int].0@, additional@[i as int].1));
                assert(target.take(i + 1 as int).drop_first() =~= target.take(i + 1 as int).skip(
                    1,
                ));
            }
            let url = additional[i].0.clone();
            let kind = crate::extract::clone_kind(&additional[i].1);
            match parser.create_resource_link(url.as_str(), kind) {
                Ok(link) => {
                    let ghost o0 = out@;
                    out.push(link);
                    proof {
                        assert(links_view(out@) =~= links_view(o0) + seq![
                            (
                                out@.last().original_url@,
                                out@.last().local_path@,
                                out@.last().resource_type,
                            ),
                        ]);
                        lemma_links_of_take_step(parser.base(), target, i as int);
                    }
                },
                Err(_) => {
                    proof {
                        lemma_links_of_take_step(parser.base(), target, i as int);
                        assert(links_of(parser.base(), target.take(i + 1 as int)) =~= links_of(
                            parser.base(),
                            target.take(i as int),
                        ));
                    }
                },
            }
            i = i + 1;
        }
        proof {
            assert(target.take(additional@.len() as int) =~= target);
        }
        out
    }

    /// Rewrites a page body: every partitioned reference is replaced in the
    /// order stylesheets, scripts, pages, then images, PDFs and videos, and
    /// with conversion on the blanket extension sweep runs last.
    pub fn rewrite_page_content(
        &self,
        html_content: &str,
        plan: &PagePlan,
        current_html_path: &str,
    ) -> (r: String)
        ensures
            r@ == rewritten_page(
                html_content@,
                links_view(plan.css@) + links_view(plan.js@) + links_view(plan.links@)
                    + links_view(plan.images@) + links_view(plan.pdfs@) + links_view(plan.videos@)
                    + links_view(plan.others@),
                self.convert_to_webp,
                current_html_path@,
            ),
    {
        let mut ordered: Vec<ResourceLink> = Vec::new();
        append_links(&mut ordered, &plan.css);
        append_links(&mut ordered, &plan.js);
        append_links(&mut ordered, &plan.links);
        append_links(&mut ordered, &plan.images);
        append_links(&mut ordered, &plan.pdfs);
        append_links(&mut ordered, &plan.videos);
        append_links(&mut ordered, &plan.others);
        let ghost full = links_view(ordered@);
        let mut current: Vec<char> = str_to_chars(html_content);
        let mut i: usize = 0;
        proof {
            assert(full.skip(0) =~= full);
        }
        while i < ordered.len()
            invariant
                i <= ordered@.len(),
                full == links_view(ordered@),
                self.convert_to_webp == self.convert_to_webp,
                rewrite_list(html_content@, full, self.convert_to_webp, current_html_path@)
                    == rewrite_list(
                    current@,
                    full.skip(i as int),
                    self.convert_to_webp,
                    current_html_path@,
                ),
            decreases ordered@.len() - i,
        {
            let ghost rest = full.skip(i as int);
            proof {
                assert(rest[0] == full[i as int]);
                assert(rest.drop_first() =~= full.skip(i + 1));
            }
            let url_chars = str_to_chars(ordered[i].original_url.as_str());
            let lp_chars = str_to_chars(ordered[i].local_path.as_str());
            let final_lp: Vec<char> = match &ordered[i].resource_type {
                ResourceType::Image => crate::paths::webp_local_path_vec(
                    &lp_chars,
                    &url_chars,
                    self.convert_to_webp,
                ),
                _ => crate::paths::copy_range(&lp_chars, 0, lp_chars.len()),
            };
            proof {
                assert(lp_chars@.subrange(0, lp_chars@.len() as int) =~= lp_chars@);
            }
            let final_str = crate::text::chars_to_string(&final_lp);
            let rel = crate::paths::calculate_relative_path(current_html_path, final_str.as_str());
            let rel_chars = str_to_chars(rel.as_str());
            assert(rel_chars@ == final_ref_of(rest[0], self.convert_to_webp, current_html_path@));
            if url_chars.len() > 0 {
                let replaced = crate::rewrite::replace_all(&current, &url_chars, &rel_chars);
                current = replaced;
            } else {
                assert(crate::rewrite::replace_chars(current@, rest[0].0, rel_chars@) == current@);
            }
            i = i + 1;
        }
        proof {
            assert(full.skip(ordered@.len() as int) =~= Seq::<
                (Seq<char>, Seq<char>, ResourceType),
            >::empty());
        }
        if self.convert_to_webp {
            let swept = crate::rewrite::webp_sweep(&current);
            crate::text::chars_to_string(&swept)
        } else {
            crate::text::chars_to_string(&current)
        }
    }
}

/// One step of resolving a reference list: the links of a prefix one longer.
proof fn lemma_links_of_take_step(base: Seq<char>, refs: Seq<(Seq<char>, ResourceType)>, i: int)
    requires
        0 <= i < refs.len(),
    ensures
        links_of(base, refs.take(i + 1)) =~= links_of(base, refs.take(i)) + (match crate::html_parser::link_for(
            base,
            refs[i].0,
            refs[i].1,
        ) {
            Some(l) => seq![l],
            None => Seq::<(Seq<char>, Seq<char>, ResourceType)>::empty(),
        }),
    decreases i,
{
    if i == 0 {
        assert(refs.take(1)[0] == refs[0]);
        assert(refs.take(1).drop_first() =~= refs.take(0));
        assert(refs.take(0) =~= Seq::<(Seq<char>, ResourceType)>::empty());
    } else {
        assert(refs.take(i + 1)[0] == refs[0]);
        assert(refs.take(i)[0] == refs[0]);
        assert(refs.take(i + 1).drop_first() =~= refs.drop_first().take(i));
        assert(refs.take(i).drop_first() =~= refs.drop_first().take(i - 1));
        assert(refs.drop_first()[i - 1] == refs[i]);
        lemma_links_of_take_step(base, refs.drop_first(), i - 1);
    }
}

/// Appends field-wise copies of the source links.
fn append_links(dst: &mut Vec<ResourceLink>, src: &Vec<ResourceLink>)
    ensures
        links_view(final(dst)@) == links_view(old(dst)@) + links_view(src@),
{
    let mut i: usize = 0;
    while i < src.len()
        invariant
            i <= src@.len(),
            links_view(dst@) =~= links_view(old(dst)@) + links_view(src@).take(i as int),
        decreases src@.len() - i,
    {
        let ghost d0 = dst@;
        dst.push(crate::html_parser::clone_link(&src[i]));
        proof {
            assert(links_view(dst@) =~= links_view(d0) + seq![links_view(src@)[i as int]]);
            assert(links_view(old(dst)@) + links_view(src@).take(i + 1 as int) =~= (links_view(
                old(dst)@,
            ) + links_view(src@).take(i as int)) + seq![links_view(src@)[i as int]]);
        }
        i = i + 1;
    }
    proof {
        assert(links_view(src@).take(src@.len() as int) =~= links_view(src@));
    }
}

/// Domain policy: a page reference to a host other than the target's is
/// never among the links a page plan enqueues, while stylesheet and image
/// references pass the fetch policy whatever their host.
pub proof fn lemma_domain_policy(rs: Seq<(Seq<char>, Seq<char>, ResourceType)>, base: Seq<char>)
    ensures
        forall|j: int|
            0 <= j < eligible_of_kind(rs, base, ResourceType::Link).len() ==> same_domain(
                (#[trigger] eligible_of_kind(rs, base, ResourceType::Link)[j]).0,
                base,
            ),
        forall|u: Seq<char>|
            download_policy(u, base, ResourceType::CSS) && #[trigger] download_policy(
                u,
                base,
                ResourceType::Image,
            ),
    decreases rs.len(),
{
    if rs.len() > 0 {
        lemma_domain_policy(rs.drop_first(), base);
        let head: Seq<(Seq<char>, Seq<char>, ResourceType)> = if rs[0].2 == ResourceType::Link
            && download_policy(rs[0].0, base, ResourceType::Link) {
            seq![rs[0]]
        } else {
            Seq::empty()
        };
        let tail = eligible_of_kind(rs.drop_first(), base, ResourceType::Link);
        assert forall|j: int|
            0 <= j < eligible_of_kind(rs, base, ResourceType::Link).len() implies same_domain(
            (#[trigger] eligible_of_kind(rs, base, ResourceType::Link)[j]).0,
            base,
        ) by {
            if j < head.len() {
                assert(eligible_of_kind(rs, base, ResourceType::Link)[j] == rs[0]);
            } else {
                assert(eligible_of_kind(rs, base, ResourceType::Link)[j] == tail[j - head.len()]);
            }
        }
    }
}

/// Two engine states with the same visited list agree on every membership
/// question.
proof fn lemma_visited_frame(a: &WebsiteMirror, b: &WebsiteMirror)
    requires
        a.visited_urls@ == b.visited_urls@,
    ensures
        forall|u: Seq<char>| a.has_visited(u) == b.has_visited(u),
{
    assert forall|u: Seq<char>| a.has_visited(u) == b.has_visited(u) by {
        if a.has_visited(u) {
            let i = choose|i: int|
                0 <= i < a.visited_urls@.len() && (#[trigger] a.visited_urls@[i])@ == u;
            assert((b.visited_urls@[i])@ == u);
        }
        if b.has_visited(u) {
            let i = choose|i: int|
                0 <= i < b.visited_urls@.len() && (#[trigger] b.visited_urls@[i])@ == u;
            assert((a.visited_urls@[i])@ == u);
        }
    }
}

fn contains_url_exec(acc: &Vec<(Vec<char>, ResourceType)>, u: &Vec<char>) -> (r: bool)
    ensures
        r == contains_url(refs_view(acc@), u@),
{
    let mut i: usize = 0;
    while i < acc.len()
        invariant
            i <= acc@.len(),
            forall|j: int| 0 <= j < i ==> (#[trigger] refs_view(acc@)[j]).0 != u@,
        decreases acc@.len() - i,
    {
        if crate::text::chars_eq(&acc[i].0, u) {
            assert((refs_view(acc@)[i as int]).0 == u@);
            return true;
        }
        i = i + 1;
    }
    assert(forall|j: int| #![auto] !(0 <= j < refs_view(acc@).len() && (refs_view(acc@)[j]).0 == u@));
    false
}

} // verus!
