//! Resource classification: the closed set of resource kinds, discovered
//! references, and the priority ordering that schedules downloads.

use vstd::prelude::*;

use crate::paths::{lower_chars, lower_vec};
use crate::text::str_to_chars;

verus! {

/// The kind of a discovered reference. It determines fetch eligibility,
/// priority class, and whether WebP extension translation applies.
#[derive(Debug, Clone, PartialEq, Eq, Structural)]
pub enum ResourceType {
    CSS,
    JavaScript,
    Image,
    Link,
    PDF,
    Video,
    Other,
}

/// A reference discovered in a document: the resolved absolute URL, the
/// local path it maps to, and its kind.
#[derive(Debug, Clone)]
pub struct ResourceLink {
    pub original_url: String,
    pub local_path: String,
    pub resource_type: ResourceType,
}

/// Scheduling tier: stylesheets and scripts come first, pages next, images
/// and other media last.
#[derive(Debug, Clone, PartialEq, Eq, Structural)]
pub enum DownloadPriority {
    Critical,
    High,
    Normal,
}

/// Numeric rank of a priority; a larger rank sorts first in a max-ordered
/// queue.
pub open spec fn priority_rank(p: DownloadPriority) -> int {
    match p {
        DownloadPriority::Critical => 2,
        DownloadPriority::High => 1,
        DownloadPriority::Normal => 0,
    }
}

pub fn priority_rank_exec(p: &DownloadPriority) -> (r: u8)
    ensures
        r == priority_rank(*p),
{
    match p {
        DownloadPriority::Critical => 2,
        DownloadPriority::High => 1,
        DownloadPriority::Normal => 0,
    }
}

impl PartialOrd for DownloadPriority {
    fn partial_cmp(&self, other: &Self) -> (r: Option<core::cmp::Ordering>) {
        let a = priority_rank_exec(self);
        let b = priority_rank_exec(other);
        if a < b {
            Some(core::cmp::Ordering::Less)
        } else if a == b {
            Some(core::cmp::Ordering::Equal)
        } else {
            Some(core::cmp::Ordering::Greater)
        }
    }
}

impl vstd::std_specs::cmp::PartialOrdSpecImpl for DownloadPriority {
    open spec fn obeys_partial_cmp_spec() -> bool {
        true
    }

    open spec fn partial_cmp_spec(&self, other: &Self) -> Option<core::cmp::Ordering> {
        if priority_rank(*self) < priority_rank(*other) {
            Some(core::cmp::Ordering::Less)
        } else if priority_rank(*self) == priority_rank(*other) {
            Some(core::cmp::Ordering::Equal)
        } else {
            Some(core::cmp::Ordering::Greater)
        }
    }
}

/// The priority class of a resource kind: stylesheets and scripts are
/// critical for rendering, pages follow, everything else is normal.
pub open spec fn priority_class_of(k: ResourceType) -> DownloadPriority {
    match k {
        ResourceType::CSS => DownloadPriority::Critical,
        ResourceType::JavaScript => DownloadPriority::Critical,
        ResourceType::Link => DownloadPriority::High,
        _ => DownloadPriority::Normal,
    }
}

pub fn priority_class(k: &ResourceType) -> (r: DownloadPriority)
    ensures
        r == priority_class_of(*k),
{
    match k {
        ResourceType::CSS => DownloadPriority::Critical,
        ResourceType::JavaScript => DownloadPriority::Critical,
        ResourceType::Link => DownloadPriority::High,
        _ => DownloadPriority::Normal,
    }
}

/// A unit of pending crawl work.
#[derive(Debug, Clone)]
pub struct DownloadTask {
    pub url: String,
    pub depth: usize,
    pub priority: DownloadPriority,
    pub resource_type: Option<ResourceType>,
}

pub open spec fn task_eq(a: DownloadTask, b: DownloadTask) -> bool {
    a.url@ == b.url@ && a.depth == b.depth && a.priority == b.priority && a.resource_type
        == b.resource_type
}

impl PartialEq for DownloadTask {
    fn eq(&self, other: &Self) -> (r: bool) {
        let kinds_equal = match (&self.resource_type, &other.resource_type) {
            (Some(a), Some(b)) => *a == *b,
            (None, None) => true,
            _ => false,
        };
        kinds_equal && self.url == other.url && self.depth == other.depth && self.priority
            == other.priority
    }
}

impl vstd::std_specs::cmp::PartialEqSpecImpl for DownloadTask {
    open spec fn obeys_eq_spec() -> bool {
        true
    }

    open spec fn eq_spec(&self, other: &Self) -> bool {
        task_eq(*self, *other)
    }
}

impl Eq for DownloadTask {

}

/// Tasks order by priority rank first; at equal priority a shallower task
/// sorts above a deeper one.
pub open spec fn task_cmp_spec(a: DownloadTask, b: DownloadTask) -> core::cmp::Ordering {
    if priority_rank(a.priority) < priority_rank(b.priority) {
        core::cmp::Ordering::Less
    } else if priority_rank(a.priority) > priority_rank(b.priority) {
        core::cmp::Ordering::Greater
    } else if b.depth < a.depth {
        core::cmp::Ordering::Less
    } else if b.depth > a.depth {
        core::cmp::Ordering::Greater
    } else {
        core::cmp::Ordering::Equal
    }
}

impl PartialOrd for DownloadTask {
    fn partial_cmp(&self, other: &Self) -> (r: Option<core::cmp::Ordering>) {
        let a = priority_rank_exec(&self.priority);
        let b = priority_rank_exec(&other.priority);
        if a < b {
            Some(core::cmp::Ordering::Less)
        } else if a > b {
            Some(core::cmp::Ordering::Greater)
        } else if other.depth < self.depth {
            Some(core::cmp::Ordering::Less)
        } else if other.depth > self.depth {
            Some(core::cmp::Ordering::Greater)
        } else {
            Some(core::cmp::Ordering::Equal)
        }
    }
}

impl vstd::std_specs::cmp::PartialOrdSpecImpl for DownloadTask {
    open spec fn obeys_partial_cmp_spec() -> bool {
        true
    }

    open spec fn partial_cmp_spec(&self, other: &Self) -> Option<core::cmp::Ordering> {
        Some(task_cmp_spec(*self, *other))
    }
}

/// The canonical allow-list name of a resource kind.
pub open spec fn type_tag_chars(k: ResourceType) -> Seq<char> {
    match k {
        ResourceType::CSS => "css"@,
        ResourceType::JavaScript => "js"@,
        ResourceType::Image => "images"@,
        ResourceType::Link => "html"@,
        ResourceType::PDF => "pdf"@,
        ResourceType::Video => "video"@,
        ResourceType::Other => "other"@,
    }
}

pub fn type_tag(k: &ResourceType) -> (r: Vec<char>)
    ensures
        r@ == type_tag_chars(*k),
{
    match k {
        ResourceType::CSS => str_to_chars("css"),
        ResourceType::JavaScript => str_to_chars("js"),
        ResourceType::Image => str_to_chars("images"),
        ResourceType::Link => str_to_chars("html"),
        ResourceType::PDF => str_to_chars("pdf"),
        ResourceType::Video => str_to_chars("video"),
        ResourceType::Other => str_to_chars("other"),
    }
}

pub open spec fn opt_filter_view(f: Option<Vec<String>>) -> Option<Seq<Seq<char>>> {
    match f {
        Some(v) => Some(v.deep_view()),
        None => None,
    }
}

/// Whether some entry of the list, lower-cased, equals the kind's
/// canonical name.
pub open spec fn filter_allows_list(list: Seq<Seq<char>>, k: ResourceType) -> bool
    decreases list.len(),
{
    if list.len() == 0 {
        false
    } else {
        lower_chars(list[0]) == type_tag_chars(k) || filter_allows_list(list.drop_first(), k)
    }
}

/// Whether an allow-list admits a kind: an absent list admits everything; a
/// present list admits a kind exactly when some entry, lower-cased, equals
/// the kind's canonical name.
pub open spec fn filter_allows(filter: Option<Seq<Seq<char>>>, k: ResourceType) -> bool {
    match filter {
        None => true,
        Some(list) => filter_allows_list(list, k),
    }
}

/// Decides whether the allow-list admits a kind.
pub fn filter_allows_exec(filter: &Option<Vec<String>>, k: &ResourceType) -> (r: bool)
    ensures
        r == filter_allows(opt_filter_view(*filter), *k),
{
    match filter {
        None => true,
        Some(list) => {
            let tag = type_tag(k);
            let ghost lv = list.deep_view();
            let mut i: usize = 0;
            proof {
                assert(lv.skip(0) =~= lv);
                assert(lv.len() == list@.len());
            }
            while i < list.len()
                invariant
                    i <= list@.len(),
                    *filter is Some,
                    (*filter)->0 == *list,
                    lv == list.deep_view(),
                    lv.len() == list@.len(),
                    tag@ == type_tag_chars(*k),
                    filter_allows_list(lv, *k) == filter_allows_list(lv.skip(i as int), *k),
                decreases list@.len() - i,
            {
                let ghost rest = lv.skip(i as int);
                proof {
                    assert(rest[0] == lv[i as int]);
                    assert(rest.drop_first() =~= lv.skip(i + 1));
                    assert(lv[i as int] == list@[i as int]@);
                }
                let entry = str_to_chars(list[i].as_str());
                let low = lower_vec(&entry);
                if crate::text::chars_eq(&low, &tag) {
                    return true;
                }
                i = i + 1;
            }
            proof {
                assert(lv.skip(list@.len() as int) =~= Seq::<Seq<char>>::empty());
            }
            false
        },
    }
}

/// Resource filter correctness: the allow-list holding exactly `images` and
/// `css` admits the image and stylesheet kinds and no other.
pub proof fn lemma_resource_filter(filter: Seq<Seq<char>>, k: ResourceType)
    requires
        filter == seq!["images"@, "css"@],
    ensures
        filter_allows(Some(filter), k) <==> (k == ResourceType::Image || k == ResourceType::CSS),
{
    reveal_strlit("images");
    reveal_strlit("css");
    reveal_strlit("js");
    reveal_strlit("html");
    reveal_strlit("pdf");
    reveal_strlit("video");
    reveal_strlit("other");
    assert(lower_chars(filter[0]) =~= "images"@);
    assert(lower_chars(filter[1]) =~= "css"@);
    assert(filter.drop_first()[0] == filter[1]);
    assert(filter.drop_first().drop_first() =~= Seq::<Seq<char>>::empty());
    let tag = type_tag_chars(k);
    assert(!filter_allows_list(Seq::<Seq<char>>::empty(), k));
    assert(filter_allows_list(filter.drop_first(), k) == (lower_chars(filter[1]) == tag));
    assert(filter_allows_list(filter, k) == (lower_chars(filter[0]) == tag || lower_chars(
        filter[1],
    ) == tag));
    match k {
        ResourceType::Image => {
        },
        ResourceType::CSS => {
        },
        _ => {
            assert(tag == "js"@ || tag == "html"@ || tag == "pdf"@ || tag == "video"@ || tag
                == "other"@);
            assert("images"@ != tag && "css"@ != tag) by {
                assert("images"@.len() == 6 && "css"@.len() == 3);
                assert("js"@.len() == 2 && "html"@.len() == 4 && "video"@.len() == 5 && "other"@.len()
                    == 5);
                assert("pdf"@[0] == 'p' && "css"@[0] == 'c');
            }
        },
    }
}

} // verus!
