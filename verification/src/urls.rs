//! URL resolution on top of the `url` crate. The crate's parser is consumed
//! through trusted wrappers whose results carry uninterpreted names; every
//! decision taken on those results is verified.

use vstd::prelude::*;

use crate::error::MirrorError;
use crate::paths::{append_chars, ends_with, ends_with_vec, local_path_chars};
use crate::text::{chars_to_string, starts_with, starts_with_vec, str_eq, str_to_chars};

verus! {

/// The components of a parsed absolute URL, as plain values.
pub struct UrlParts {
    pub scheme: String,
    pub host: Option<String>,
    pub path: String,
    pub query: Option<String>,
}

/// What url::Url::parse exposes of a URL string: scheme, host, path and
/// query, in that order, or nothing when parsing fails.
pub uninterp spec fn url_parse_of(u: Seq<char>) -> Option<
    (Seq<char>, Option<Seq<char>>, Seq<char>, Option<Seq<char>>),
>;

/// The serialized form of a URL string after url::Url::parse, or nothing
/// when parsing fails.
pub uninterp spec fn url_normal_of(u: Seq<char>) -> Option<Seq<char>>;

/// The serialized result of url::Url::join of a reference against a base,
/// or nothing when either step fails.
pub uninterp spec fn url_join_of(base: Seq<char>, rel: Seq<char>) -> Option<Seq<char>>;

pub open spec fn opt_string_view(q: Option<String>) -> Option<Seq<char>> {
    match q {
        Some(s) => Some(s@),
        None => None,
    }
}

/// Relies on url::Url::parse and the accessors scheme(), host_str(), path()
/// and query(): the components of the parsed URL.
#[verifier::external_body]
pub fn parse_url_parts(u: &str) -> (r: Option<UrlParts>)
    ensures
        match r {
            Some(p) => url_parse_of(u@) == Some(
                (p.scheme@, opt_string_view(p.host), p.path@, opt_string_view(p.query)),
            ),
            None => url_parse_of(u@) is None,
        },
{
    match url::Url::parse(u) {
        Ok(parsed) => Some(
            UrlParts {
                scheme: parsed.scheme().to_string(),
                host: parsed.host_str().map(|h| h.to_string()),
                path: parsed.path().to_string(),
                query: parsed.query().map(|q| q.to_string()),
            },
        ),
        Err(_) => None,
    }
}

/// Relies on url::Url::parse and url::Url::as_str: the serialized form of
/// the parsed URL.
#[verifier::external_body]
pub fn parse_url_string(u: &str) -> (r: Option<String>)
    ensures
        match r {
            Some(s) => url_normal_of(u@) == Some(s@),
            None => url_normal_of(u@) is None,
        },
{
    match url::Url::parse(u) {
        Ok(parsed) => Some(parsed.as_str().to_string()),
        Err(_) => None,
    }
}

/// Relies on url::Url::join (with url::Url::parse on the base): the
/// serialized form of `rel` resolved against `base` by standard
/// relative-reference resolution.
#[verifier::external_body]
pub fn join_url(base: &str, rel: &str) -> (r: Option<String>)
    ensures
        match r {
            Some(s) => url_join_of(base@, rel@) == Some(s@),
            None => url_join_of(base@, rel@) is None,
        },
{
    match url::Url::parse(base) {
        Ok(b) => match b.join(rel) {
            Ok(j) => Some(j.as_str().to_string()),
            Err(_) => None,
        },
        Err(_) => None,
    }
}

pub open spec fn scheme_prefixed(scheme: Seq<char>, u: Seq<char>) -> Seq<char> {
    scheme + seq![':'] + u
}

/// Whether the string parses as a URL whose scheme is http or https.
pub open spec fn http_scheme_url(s: Seq<char>) -> bool {
    match url_parse_of(s) {
        Some(p) => p.0 == "http"@ || p.0 == "https"@,
        None => false,
    }
}

/// Standard resolution of a reference against a base URL: absolute http(s)
/// references pass through normalization, scheme-relative references inherit
/// the base scheme, everything else joins onto the base; bare fragments and
/// any result outside http(s) (data:, mailto:, tel:, javascript:) fail.
pub open spec fn resolved_url(base: Seq<char>, u: Seq<char>) -> Option<Seq<char>> {
    if starts_with(u, "#"@) {
        None
    } else {
        let cand = if starts_with(u, "http://"@) || starts_with(u, "https://"@) {
            url_normal_of(u)
        } else if starts_with(u, "//"@) {
            match url_parse_of(base) {
                Some(p) => url_normal_of(scheme_prefixed(p.0, u)),
                None => None,
            }
        } else {
            url_join_of(base, u)
        };
        match cand {
            Some(s) => if http_scheme_url(s) {
                Some(s)
            } else {
                None
            },
            None => None,
        }
    }
}

pub fn is_http_scheme(s: &str) -> (r: bool)
    ensures
        r == http_scheme_url(s@),
{
    match parse_url_parts(s) {
        Some(p) => str_eq(p.scheme.as_str(), "http") || str_eq(p.scheme.as_str(), "https"),
        None => false,
    }
}

/// Resolves a reference found in a document against the base URL, returning
/// the absolute URL string, or `InvalidUrl` exactly when standard resolution
/// fails or leads outside http(s).
pub fn resolve_url_str(base: &str, u: &str) -> (r: Result<String, MirrorError>)
    ensures
        r is Ok <==> resolved_url(base@, u@) is Some,
        r is Ok ==> resolved_url(base@, u@) == Some(r->Ok_0@),
        r is Err ==> r->Err_0 == MirrorError::InvalidUrl,
{
    let uc = str_to_chars(u);
    let hash = str_to_chars("#");
    if starts_with_vec(&uc, &hash) {
        return Err(MirrorError::InvalidUrl);
    }
    let http = str_to_chars("http://");
    let https = str_to_chars("https://");
    let protocol_relative = str_to_chars("//");
    let cand: Option<String> = if starts_with_vec(&uc, &http) || starts_with_vec(&uc, &https) {
        parse_url_string(u)
    } else if starts_with_vec(&uc, &protocol_relative) {
        match parse_url_parts(base) {
            Some(p) => {
                let mut v = str_to_chars(p.scheme.as_str());
                v.push(':');
                append_chars(&mut v, &uc);
                assert(v@ =~= scheme_prefixed(p.scheme@, u@));
                let joined = chars_to_string(&v);
                parse_url_string(joined.as_str())
            },
            None => None,
        }
    } else {
        join_url(base, u)
    };
    match cand {
        Some(s) => {
            if is_http_scheme(s.as_str()) {
                Ok(s)
            } else {
                Err(MirrorError::InvalidUrl)
            }
        },
        None => Err(MirrorError::InvalidUrl),
    }
}

/// Whether the URL's host equals the base URL's host or is a subdomain of it.
pub open spec fn same_domain(u: Seq<char>, base: Seq<char>) -> bool {
    match (url_parse_of(u), url_parse_of(base)) {
        (Some(pu), Some(pb)) => match (pu.1, pb.1) {
            (Some(hu), Some(hb)) => hu == hb || ends_with(hu, seq!['.'] + hb),
            _ => false,
        },
        _ => false,
    }
}

pub fn is_same_domain_str(u: &str, base: &str) -> (r: bool)
    ensures
        r == same_domain(u@, base@),
{
    match parse_url_parts(u) {
        Some(pu) => match parse_url_parts(base) {
            Some(pb) => match (pu.host, pb.host) {
                (Some(hu), Some(hb)) => {
                    if str_eq(hu.as_str(), hb.as_str()) {
                        true
                    } else {
                        let mut dotted: Vec<char> = Vec::new();
                        dotted.push('.');
                        let base_host = str_to_chars(hb.as_str());
                        append_chars(&mut dotted, &base_host);
                        assert(dotted@ =~= seq!['.'] + hb@);
                        let ref_host = str_to_chars(hu.as_str());
                        ends_with_vec(&ref_host, &dotted)
                    }
                },
                _ => false,
            },
            None => false,
        },
        None => false,
    }
}

/// The local path of an absolute URL: the path component with an index file
/// where needed, the sanitized query appended.
pub open spec fn local_path_of_url(u: Seq<char>) -> Option<Seq<char>> {
    match url_parse_of(u) {
        Some(p) => Some(local_path_chars(p.2, p.3)),
        None => None,
    }
}

/// WebP targeting for a whole URL: with conversion on, an eligible image URL
/// whose parsed path component carries the image extension, with no query to
/// append, maps to a local path that the translation makes end in `.webp`.
/// That the URL string's trailing extension reappears in the parsed path
/// component is the URL parser's doing — an outside value — so it stands
/// here as a hypothesis over the parse result.
pub proof fn lemma_webp_targeting_of_url(u: Seq<char>)
    requires
        crate::paths::webp_source_url(u),
        url_parse_of(u) is Some,
        ({
            let parts = url_parse_of(u)->0;
            &&& (crate::paths::ends_with_ci(parts.2, ".jpg"@) || crate::paths::ends_with_ci(
                parts.2,
                ".jpeg"@,
            ) || crate::paths::ends_with_ci(parts.2, ".png"@))
            &&& (parts.3 is None || parts.3->0.len() == 0)
        }),
    ensures
        local_path_of_url(u) is Some,
        crate::paths::ends_with(
            crate::paths::webp_local_path(local_path_of_url(u)->0, u, true),
            ".webp"@,
        ),
{
    let parts = url_parse_of(u)->0;
    crate::paths::lemma_webp_targeting_components(u, parts.2, parts.3);
}

pub fn url_local_path(u: &str) -> (r: Result<String, MirrorError>)
    ensures
        r is Ok <==> local_path_of_url(u@) is Some,
        r is Ok ==> local_path_of_url(u@) == Some(r->Ok_0@),
        r is Err ==> r->Err_0 == MirrorError::InvalidUrl,
{
    match parse_url_parts(u) {
        Some(p) => {
            let path_chars = str_to_chars(p.path.as_str());
            let query_chars: Option<Vec<char>> = match &p.query {
                Some(q) => Some(str_to_chars(q.as_str())),
                None => None,
            };
            let local = crate::paths::local_path_from_parts(&path_chars, &query_chars);
            Ok(chars_to_string(&local))
        },
        None => Err(MirrorError::InvalidUrl),
    }
}

} // verus!
