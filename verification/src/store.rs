//! The download ledger: the single source of truth for "already mirrored".
//! It is a mapping from absolute URL to local path, viewed in contracts as a
//! `Map<Seq<char>, Seq<char>>`. Persistence to disk is the caller's concern;
//! the ledger itself is plain verified state.

use vstd::prelude::*;

verus! {

/// The mapping an entry list denotes: later entries shadow earlier ones.
pub open spec fn entries_map(s: Seq<(String, String)>) -> Map<Seq<char>, Seq<char>>
    decreases s.len(),
{
    if s.len() == 0 {
        Map::empty()
    } else {
        entries_map(s.drop_last()).insert(s.last().0@, s.last().1@)
    }
}

/// A key is in the map exactly when some entry carries it.
pub proof fn lemma_entries_map_key(s: Seq<(String, String)>, k: Seq<char>)
    ensures
        entries_map(s).contains_key(k) <==> exists|i: int| 0 <= i < s.len() && (#[trigger] s[i]).0@
            == k,
    decreases s.len(),
{
    if s.len() > 0 {
        lemma_entries_map_key(s.drop_last(), k);
        if s.last().0@ == k {
            assert((s[s.len() - 1]).0@ == k);
        } else {
            if entries_map(s).contains_key(k) {
                let i = choose|i: int| 0 <= i < s.drop_last().len() && (#[trigger] s.drop_last()[i]).0@
                    == k;
                assert((s[i]).0@ == k);
            }
            if exists|i: int| 0 <= i < s.len() && (#[trigger] s[i]).0@ == k {
                let i = choose|i: int| 0 <= i < s.len() && (#[trigger] s[i]).0@ == k;
                assert(i < s.len() - 1);
                assert((s.drop_last()[i]).0@ == k);
            }
        }
    }
}

/// The value mapped to a key is the one of the last entry carrying it.
pub proof fn lemma_entries_map_last(s: Seq<(String, String)>, i: int)
    requires
        0 <= i < s.len(),
        forall|j: int| i < j < s.len() ==> (#[trigger] s[j]).0@ != (s[i]).0@,
    ensures
        entries_map(s).contains_key((s[i]).0@),
        entries_map(s)[(s[i]).0@] == (s[i]).1@,
    decreases s.len(),
{
    if i == s.len() - 1 {
    } else {
        assert((s.drop_last()[i]).0 == (s[i]).0);
        lemma_entries_map_last(s.drop_last(), i);
    }
}

/// The resumable download cache: one entry per successfully materialized
/// resource, keyed by its remote URL.
#[derive(Debug, Clone)]
pub struct PersistentStore {
    downloads: Vec<(String, String)>,
}

impl PersistentStore {
    /// The URL-to-local-path mapping this ledger holds.
    pub closed spec fn map_view(&self) -> Map<Seq<char>, Seq<char>> {
        entries_map(self.downloads@)
    }

    pub fn new() -> (r: Self)
        ensures
            r.map_view() == Map::<Seq<char>, Seq<char>>::empty(),
    {
        PersistentStore { downloads: Vec::new() }
    }

    pub fn clear(&mut self)
        ensures
            final(self).map_view() == Map::<Seq<char>, Seq<char>>::empty(),
    {
        self.downloads.clear();
    }

    /// Records that `url` has been materialized at `local_path`; recording a
    /// URL again simply updates its path.
    pub fn add_download(&mut self, url: String, local_path: String)
        ensures
            final(self).map_view() == old(self).map_view().insert(url@, local_path@),
    {
        let ghost pre = self.downloads@;
        self.downloads.push((url, local_path));
        proof {
            assert(self.downloads@.drop_last() =~= pre);
        }
    }

    pub fn has_download(&self, url: &str) -> (r: bool)
        ensures
            r == self.map_view().contains_key(url@),
    {
        let mut i: usize = 0;
        while i < self.downloads.len()
            invariant
                i <= self.downloads@.len(),
                forall|j: int| 0 <= j < i ==> (#[trigger] self.downloads@[j]).0@ != url@,
            decreases self.downloads@.len() - i,
        {
            if crate::text::str_eq(self.downloads[i].0.as_str(), url) {
                proof {
                    lemma_entries_map_key(self.downloads@, url@);
                }
                return true;
            }
            i = i + 1;
        }
        proof {
            lemma_entries_map_key(self.downloads@, url@);
        }
        false
    }

    /// The local path recorded for `url`, when one exists.
    pub fn get_local_path(&self, url: &str) -> (r: Option<&String>)
        ensures
            match r {
                Some(p) => self.map_view().contains_key(url@) && p@ == self.map_view()[url@],
                None => !self.map_view().contains_key(url@),
            },
    {
        let n = self.downloads.len();
        let mut i: usize = n;
        while i > 0
            invariant
                i <= n,
                n == self.downloads@.len(),
                forall|j: int| i <= j < n ==> (#[trigger] self.downloads@[j]).0@ != url@,
            decreases i,
        {
            i = i - 1;
            if crate::text::str_eq(self.downloads[i].0.as_str(), url) {
                proof {
                    lemma_entries_map_last(self.downloads@, i as int);
                }
                return Some(&self.downloads[i].1);
            }
        }
        proof {
            lemma_entries_map_key(self.downloads@, url@);
        }
        None
    }

    /// The recorded entries, for persisting: each URL paired with its path.
    pub fn snapshot(&self) -> (r: Vec<(String, String)>)
        ensures
            entries_map(r@) == self.map_view(),
    {
        let mut r: Vec<(String, String)> = Vec::new();
        let mut i: usize = 0;
        while i < self.downloads.len()
            invariant
                i <= self.downloads@.len(),
                r@.len() == i,
                forall|j: int| 0 <= j < i ==> #[trigger] r@[j] == self.downloads@[j],
            decreases self.downloads@.len() - i,
        {
            let url = self.downloads[i].0.clone();
            let path = self.downloads[i].1.clone();
            r.push((url, path));
            i = i + 1;
        }
        assert(r@ =~= self.downloads@);
        r
    }
}

} // verus!
