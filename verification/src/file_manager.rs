//! Local file placement: joining sanitized URL paths onto the output root,
//! relative paths back out of it, and the existence probe the resumable
//! cache consults. Writing bytes to disk is the caller's concern.

use vstd::prelude::*;

use crate::error::MirrorError;
use crate::extract::{at_least, at_most, scan_stop_pos, ScanStop};
use crate::text::{chars_to_string, starts_with, str_to_chars};

verus! {

/// The nonempty `/`-separated segments of a path, joined by single slashes:
/// repeated, leading and trailing separators collapse away.
pub open spec fn segments_joined(p: Seq<char>) -> Seq<char>
    decreases p.len(),
{
    if p.len() == 0 {
        Seq::empty()
    } else if p[0] == '/' {
        segments_joined(p.skip(1))
    } else {
        let e = at_most(at_least(scan_stop_pos(p, 0, ScanStop::Quote('/')), 1), p.len() as int);
        let rest = segments_joined(p.skip(e));
        if rest.len() == 0 {
            p.take(e)
        } else {
            p.take(e) + seq!['/'] + rest
        }
    }
}

/// The absolute location of a URL path under a base directory.
pub open spec fn joined_under(base: Seq<char>, p: Seq<char>) -> Seq<char> {
    let cleaned = segments_joined(p);
    if cleaned.len() == 0 {
        base
    } else {
        base + seq!['/'] + cleaned
    }
}

/// Joins the nonempty segments of `p`.
pub fn segments_joined_exec(p: &Vec<char>) -> (r: Vec<char>)
    ensures
        r@ == segments_joined(p@),
{
    let n = p.len();
    let mut out: Vec<char> = Vec::new();
    let mut i: usize = 0;
    proof {
        assert(p@.skip(0) =~= p@);
    }
    while i < n
        invariant
            i <= n,
            n == p@.len(),
            segments_joined(p@) =~= if out@.len() == 0 {
                segments_joined(p@.skip(i as int))
            } else if segments_joined(p@.skip(i as int)).len() == 0 {
                out@
            } else {
                out@ + seq!['/'] + segments_joined(p@.skip(i as int))
            },
        decreases n - i,
    {
        let ghost rest = p@.skip(i as int);
        if p[i] == '/' {
            proof {
                assert(rest[0] == p@[i as int]);
                assert(rest.skip(1) =~= p@.skip(i + 1));
            }
            i = i + 1;
        } else {
            let e = crate::extract::find_stop(p, i, ScanStop::Quote('/'));
            proof {
                assert(rest[0] == p@[i as int]);
                lemma_scan_shift_general(p@, i as int, ScanStop::Quote('/'));
                crate::extract::lemma_scan_stop_bounds(p@, i + 1, ScanStop::Quote('/'));
                assert(scan_stop_pos(p@, i as int, ScanStop::Quote('/')) == scan_stop_pos(
                    p@,
                    i + 1,
                    ScanStop::Quote('/'),
                ));
                assert(e - i == scan_stop_pos(rest, 0, ScanStop::Quote('/')));
                assert(e - i == at_most(
                    at_least(scan_stop_pos(rest, 0, ScanStop::Quote('/')), 1),
                    rest.len() as int,
                ));
                assert(rest.take(e - i) =~= p@.subrange(i as int, e as int));
                assert(rest.skip(e - i) =~= p@.skip(e as int));
            }
            let seg = crate::paths::copy_range(p, i, e);
            let ghost out0 = out@;
            if out.len() > 0 {
                out.push('/');
                proof {
                    assert(out@ =~= out0 + seq!['/']);
                }
            }
            let ghost out1 = out@;
            crate::paths::append_chars(&mut out, &seg);
            proof {
                assert(out@ =~= out1 + p@.subrange(i as int, e as int));
                if out0.len() == 0 {
                    assert(out@ =~= p@.subrange(i as int, e as int));
                } else {
                    assert(out@ =~= out0 + seq!['/'] + p@.subrange(i as int, e as int));
                }
            }
            i = e;
        }
    }
    proof {
        assert(p@.skip(n as int) =~= Seq::<char>::empty());
        assert(segments_joined(p@.skip(n as int)) =~= Seq::<char>::empty());
    }
    out
}

/// Scanning from position `j` lands where a scan of the suffix from its
/// start lands, shifted by `j`.
proof fn lemma_scan_shift_general(s: Seq<char>, j: int, k: ScanStop)
    requires
        0 <= j <= s.len(),
    ensures
        scan_stop_pos(s, j, k) == j + scan_stop_pos(s.skip(j), 0, k),
    decreases s.len() - j,
{
    if j < s.len() {
        assert(s.skip(j)[0] == s[j]);
        if !crate::extract::stop_char(k, s[j]) {
            lemma_scan_shift_general(s, j + 1, k);
            lemma_scan_shift_general(s.skip(j), 1, k);
            assert(s.skip(j).skip(1) =~= s.skip(j + 1));
        }
    } else {
        assert(s.skip(j).len() == 0);
    }
}

/// Relies on std's std::path::Path::exists: whether a file or directory is
/// present at the path right now. Nothing is assumed of the answer, since it
/// depends on the state of the disk.
#[verifier::external_body]
fn path_exists(p: &str) -> bool {
    std::path::Path::new(p).exists()
}

/// Places files under one output root.
#[derive(Debug, Clone, PartialEq, Eq, Hash)]
pub struct FileManager {
    base_dir: String,
}

impl FileManager {
    /// The output root everything is placed under.
    pub closed spec fn base(&self) -> Seq<char> {
        self.base_dir@
    }

    /// Records the output root; the caller creates the directory itself.
    pub fn new(base_dir: &str) -> (r: Result<Self, MirrorError>)
        ensures
            r is Ok,
            r->Ok_0.base() == base_dir@,
    {
        Ok(FileManager { base_dir: base_dir.to_owned() })
    }

    /// The on-disk location for a URL path: the output root joined with the
    /// path's nonempty segments. The caller creates the parent directories
    /// at this location before writing.
    pub fn create_directories_for_url(&self, url_path: &str) -> (r: Result<String, MirrorError>)
        ensures
            r is Ok,
            r->Ok_0@ == joined_under(self.base(), url_path@),
    {
        let p = str_to_chars(url_path);
        let cleaned = segments_joined_exec(&p);
        if cleaned.len() == 0 {
            Ok(self.base_dir.clone())
        } else {
            let mut out = str_to_chars(self.base_dir.as_str());
            out.push('/');
            proof {
                assert(out@ =~= self.base() + seq!['/']);
            }
            crate::paths::append_chars(&mut out, &cleaned);
            Ok(chars_to_string(&out))
        }
    }

    /// The output root as a directory prefix: itself when it already ends in
    /// a separator, otherwise with one appended.
    pub open spec fn dir_prefix(base: Seq<char>) -> Seq<char> {
        if base.len() > 0 && base.last() == '/' {
            base
        } else {
            base + seq!['/']
        }
    }

    /// The path of a file relative to the output root; fails when the file
    /// does not lie under it. A root given with or without a trailing slash
    /// works the same way.
    pub fn get_relative_path(&self, file_path: &str) -> (r: Result<String, MirrorError>)
        ensures
            file_path@ == self.base() ==> r is Ok && r->Ok_0@ == Seq::<char>::empty(),
            file_path@ != self.base() && starts_with(file_path@, Self::dir_prefix(self.base()))
                ==> r is Ok && r->Ok_0@ == file_path@.skip(
                Self::dir_prefix(self.base()).len() as int,
            ),
            !(file_path@ == self.base() || starts_with(
                file_path@,
                Self::dir_prefix(self.base()),
            )) ==> r is Err && r->Err_0 == MirrorError::Persistence,
    {
        let f = str_to_chars(file_path);
        let b = str_to_chars(self.base_dir.as_str());
        if crate::text::chars_eq(&f, &b) {
            let empty: Vec<char> = Vec::new();
            return Ok(chars_to_string(&empty));
        }
        let mut prefix = str_to_chars(self.base_dir.as_str());
        if !(prefix.len() > 0 && prefix[prefix.len() - 1] == '/') {
            prefix.push('/');
            proof {
                assert(prefix@ =~= self.base() + seq!['/']);
            }
        }
        assert(prefix@ == Self::dir_prefix(self.base()));
        if crate::text::starts_with_vec(&f, &prefix) {
            let rest = crate::paths::copy_range(&f, prefix.len(), f.len());
            assert(rest@ =~= file_path@.skip(Self::dir_prefix(self.base()).len() as int));
            Ok(chars_to_string(&rest))
        } else {
            Err(MirrorError::Persistence)
        }
    }

    /// Whether the file for a URL path already exists under the output root.
    /// The answer reflects the disk and carries no specification.
    pub fn file_exists(&self, url_path: &str) -> bool {
        let p = str_to_chars(url_path);
        let cleaned = segments_joined_exec(&p);
        let mut out = str_to_chars(self.base_dir.as_str());
        if cleaned.len() > 0 {
            out.push('/');
            crate::paths::append_chars(&mut out, &cleaned);
        }
        let full = chars_to_string(&out);
        path_exists(full.as_str())
    }
}

} // verus!
