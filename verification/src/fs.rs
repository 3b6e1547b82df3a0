//! The path resolver and the directory-creation planner.
//!
//! `parse_path_from_url` turns a manifest URI into a work item with a
//! remote URL and a local relative path; the URL arithmetic itself is
//! done by the `url` crate behind trusted wrappers.  `mkdirp` decides,
//! through a cache of already-created directories, when a real
//! `create_dir_all` call is due; the caller performs the call.

use vstd::prelude::*;
use vstd::string::*;
use crate::text::str_eq;
use crate::work_queue::{FileType, WorkItem};

verus! {

broadcast use vstd::set::group_set_axioms;

/// How a URL parse can fail: a relative reference without a base, or
/// anything else.
#[derive(Debug, Clone, Copy, PartialEq, Eq, Structural)]
pub enum UrlParseKind {
    RelativeWithoutBase,
    Other,
}

/// What the resolver reads of a parsed URL: its serialised form and its
/// path component.
#[derive(Debug, Clone, PartialEq, Eq)]
pub struct UrlParts {
    pub href: String,
    pub path: String,
}

pub struct UrlPartsModel {
    pub href: Seq<char>,
    pub path: Seq<char>,
}

impl View for UrlParts {
    type V = UrlPartsModel;

    open spec fn view(&self) -> UrlPartsModel {
        UrlPartsModel { href: self.href@, path: self.path@ }
    }
}

/// What `url::Url::parse` yields on a given input: the parse is a
/// function of the input text alone.
pub uninterp spec fn spec_url_parse(s: Seq<char>) -> Result<UrlPartsModel, UrlParseKind>;

/// What `url::Url::join` yields for a given base and reference: also a
/// function of the two texts alone.
pub uninterp spec fn spec_url_join(base: Seq<char>, rel: Seq<char>) -> Result<
    UrlPartsModel,
    UrlParseKind,
>;

/// Relies on `url::Url::parse`: parses an absolute URL, or reports
/// `RelativeUrlWithoutBase` for a relative reference.  The serialised
/// form and the path are read with `Url::as_str` and `Url::path`.
#[verifier::external_body]
fn url_parse(s: &str) -> (r: Result<UrlParts, UrlParseKind>)
    ensures
        match r {
            Ok(p) => spec_url_parse(s@) == Ok::<UrlPartsModel, UrlParseKind>(p@),
            Err(k) => spec_url_parse(s@) == Err::<UrlPartsModel, UrlParseKind>(k),
        },
{
    match url::Url::parse(s) {
        Ok(u) => {
            let path = u.path().to_string();
            Ok(UrlParts { href: u.as_str().to_string(), path })
        },
        Err(url::ParseError::RelativeUrlWithoutBase) => Err(UrlParseKind::RelativeWithoutBase),
        Err(_) => Err(UrlParseKind::Other),
    }
}

/// Relies on `url::Url::join`: resolves a reference against a base URL.
/// The base is required to parse, so re-parsing it cannot fail here.
#[verifier::external_body]
fn url_join(base: &str, rel: &str) -> (r: Result<UrlParts, UrlParseKind>)
    requires
        spec_url_parse(base@) is Ok,
    ensures
        match r {
            Ok(p) => spec_url_join(base@, rel@) == Ok::<UrlPartsModel, UrlParseKind>(p@),
            Err(k) => spec_url_join(base@, rel@) == Err::<UrlPartsModel, UrlParseKind>(k),
        },
{
    let b = match url::Url::parse(base) {
        Ok(b) => b,
        Err(_) => return Err(UrlParseKind::Other),
    };
    match b.join(rel) {
        Ok(u) => {
            let path = u.path().to_string();
            Ok(UrlParts { href: u.as_str().to_string(), path })
        },
        Err(url::ParseError::RelativeUrlWithoutBase) => Err(UrlParseKind::RelativeWithoutBase),
        Err(_) => Err(UrlParseKind::Other),
    }
}

/// A URL path with its leading `/` removed.
pub open spec fn strip_leading_slash(p: Seq<char>) -> Seq<char> {
    if p.len() > 0 && p[0] == '/' {
        p.skip(1)
    } else {
        p
    }
}

fn strip_slash_exec(p: &str) -> (r: String)
    ensures
        r@ == strip_leading_slash(p@),
{
    let len = p.unicode_len();
    if len > 0 && p.get_char(0) == '/' {
        p.substring_char(1, len).to_owned()
    } else {
        p.to_owned()
    }
}

/// Which URL the resolver settles on: the URI itself when it is
/// absolute; the URI joined against the manifest URL when it is
/// relative; an error otherwise.
pub open spec fn spec_resolve(base: Seq<char>, u: Seq<char>) -> Result<
    UrlPartsModel,
    UrlParseKind,
> {
    match spec_url_parse(u) {
        Ok(p) => Ok(p),
        Err(UrlParseKind::RelativeWithoutBase) => match spec_url_parse(base) {
            Ok(b) => spec_url_join(base, u),
            Err(k) => Err(k),
        },
        Err(k) => Err(k),
    }
}

/// Resolve a manifest URI into a work item.
///
/// An absolute URI is taken as it stands, so the result does not depend
/// on the manifest URL; a relative URI is joined against the manifest
/// URL.  The local path is the resolved URL's path without its leading
/// `/`.
pub fn parse_path_from_url(manifest_url: &str, url: &str, file_type: FileType) -> (r: Result<
    WorkItem,
    UrlParseKind,
>)
    ensures
        match r {
            Ok(w) => spec_resolve(manifest_url@, url@) matches Ok(p) && w.remote_url@ == p.href
                && w.local_path@ == strip_leading_slash(p.path) && w.file_type == file_type,
            Err(k) => spec_resolve(manifest_url@, url@) == Err::<UrlPartsModel, UrlParseKind>(k),
        },
{
    let parts = match url_parse(url) {
        Ok(p) => p,
        Err(UrlParseKind::RelativeWithoutBase) => {
            match url_parse(manifest_url) {
                Ok(_) => {
                    match url_join(manifest_url, url) {
                        Ok(p) => p,
                        Err(k) => {
                            return Err(k);
                        },
                    }
                },
                Err(k) => {
                    return Err(k);
                },
            }
        },
        Err(k) => {
            return Err(k);
        },
    };
    let local_path = strip_slash_exec(parts.path.as_str());
    Ok(WorkItem { local_path, remote_url: parts.href, file_type })
}

/// The directory part of a relative path: everything before the last
/// `/`, or empty when there is none.
pub open spec fn parent_dir(p: Seq<char>) -> Seq<char>
    decreases p.len(),
{
    if p.len() == 0 {
        p
    } else if p.last() == '/' {
        p.drop_last()
    } else {
        parent_dir(p.drop_last())
    }
}

proof fn lemma_parent_dir_take(p: Seq<char>, j: int)
    requires
        0 <= j <= p.len(),
        forall|k: int| j <= k < p.len() ==> p[k] != '/',
    ensures
        parent_dir(p) == parent_dir(p.take(j)),
    decreases p.len() - j,
{
    if j < p.len() {
        assert(p.last() != '/');
        assert(p.drop_last() =~= p.take(p.len() - 1));
        lemma_parent_dir_take(p.take(p.len() - 1), j);
        assert(p.take(p.len() - 1).take(j) =~= p.take(j));
    } else {
        assert(p.take(j) =~= p);
    }
}

/// The parent directory of a path, matching `parent_dir`.
pub fn parent_of(p: &str) -> (r: String)
    ensures
        r@ == parent_dir(p@),
{
    let len = p.unicode_len();
    let mut j: usize = len;
    while j > 0
        invariant
            j <= len,
            len == p@.len(),
            forall|k: int| j <= k < p@.len() ==> p@[k] != '/',
        decreases j,
    {
        if p.get_char(j - 1) == '/' {
            proof {
                lemma_parent_dir_take(p@, j as int);
                assert(p@.take(j as int).last() == p@[j as int - 1]);
                assert(p@.take(j as int).drop_last() =~= p@.take(j as int - 1));
            }
            return p.substring_char(0, j - 1).to_owned();
        }
        j = j - 1;
    }
    proof {
        lemma_parent_dir_take(p@, 0);
        assert(p@.take(0) =~= Seq::<char>::empty());
    }
    String::new()
}

/// The per-kind subdirectory under the output root.
pub fn local_base_dir(file_type: FileType) -> (r: &'static str)
    ensures
        file_type == FileType::Key ==> r@ == "keys"@,
        file_type == FileType::MediaSegment ==> r@ == "segments"@,
{
    match file_type {
        FileType::Key => "keys",
        FileType::MediaSegment => "segments",
    }
}

/// The kind subdirectory a work item lands in.
pub open spec fn spec_kind_dir(file_type: FileType) -> Seq<char> {
    if file_type == FileType::Key {
        "keys"@
    } else {
        "segments"@
    }
}

/// The directory that must exist before a work item's bytes can be
/// written: `output_dir/kind/parent(local_path)`.
pub open spec fn spec_target_dir(output_dir: Seq<char>, item: crate::work_queue::WorkItemModel)
    -> Seq<char> {
    output_dir + seq!['/'] + spec_kind_dir(item.file_type) + seq!['/'] + parent_dir(
        item.local_path,
    )
}

/// The full path a work item's bytes are written to:
/// `output_dir/kind/local_path`.
pub open spec fn spec_target_path(output_dir: Seq<char>, item: crate::work_queue::WorkItemModel)
    -> Seq<char> {
    output_dir + seq!['/'] + spec_kind_dir(item.file_type) + seq!['/'] + item.local_path
}

/// The directory a work item needs.  The result always begins with the
/// output root: a crafted URL cannot climb out of it.
pub fn target_dir(output_dir: &str, item: &WorkItem) -> (r: String)
    ensures
        r@ == spec_target_dir(output_dir@, item@),
        r@.len() >= output_dir@.len(),
        r@.subrange(0, output_dir@.len() as int) == output_dir@,
{
    let mut s = output_dir.to_owned();
    s.push('/');
    s.append(local_base_dir(item.file_type));
    s.push('/');
    let parent = parent_of(item.local_path.as_str());
    s.append(parent.as_str());
    proof {
        assert(s@ =~= spec_target_dir(output_dir@, item@));
        assert(s@.subrange(0, output_dir@.len() as int) =~= output_dir@);
    }
    s
}

/// The file path a work item's bytes are written to.
pub fn target_path(output_dir: &str, item: &WorkItem) -> (r: String)
    ensures
        r@ == spec_target_path(output_dir@, item@),
    {
    let mut s = output_dir.to_owned();
    s.push('/');
    s.append(local_base_dir(item.file_type));
    s.push('/');
    s.append(item.local_path.as_str());
    proof {
        assert(s@ =~= spec_target_path(output_dir@, item@));
    }
    s
}

/// The set of directories already created, so that repeated work items
/// cost one real `create_dir_all` each, not one per item.
pub struct MkdirCache {
    dirs: Vec<String>,
}

impl View for MkdirCache {
    type V = Set<Seq<char>>;

    closed spec fn view(&self) -> Set<Seq<char>> {
        Set::new(|d: Seq<char>| exists|i: int| 0 <= i < self.dirs@.len() && self.dirs@[i]@ == d)
    }
}

impl MkdirCache {
    /// An empty cache: nothing created yet.
    pub fn new() -> (r: MkdirCache)
        ensures
            r@ == Set::<Seq<char>>::empty(),
            r@.finite(),
    {
        let r = MkdirCache { dirs: Vec::new() };
        proof {
            assert(r@ =~= Set::<Seq<char>>::empty());
        }
        r
    }

    /// Is this directory already recorded?
    fn contains(&self, d: &str) -> (r: bool)
        ensures
            r == self@.contains(d@),
    {
        let mut i: usize = 0;
        while i < self.dirs.len()
            invariant
                i <= self.dirs@.len(),
                forall|j: int| 0 <= j < i ==> self.dirs@[j]@ != d@,
            decreases self.dirs@.len() - i,
        {
            if str_eq(self.dirs[i].as_str(), d) {
                return true;
            }
            i += 1;
        }
        false
    }

    /// Record a directory; the result says whether it was new.
    pub fn insert_if_absent(&mut self, d: &str) -> (r: bool)
        requires
            old(self)@.finite(),
        ensures
            r == !old(self)@.contains(d@),
            final(self)@ == old(self)@.insert(d@),
            final(self)@.finite(),
    {
        let ghost old_set = self@;
        if self.contains(d) {
            proof {
                assert(self@ =~= old_set.insert(d@));
            }
            false
        } else {
            self.dirs.push(d.to_owned());
            proof {
                let old_dirs = old(self).dirs@;
                assert forall|x: Seq<char>| self@.contains(x) implies old_set.insert(d@).contains(
                    x,
                ) by {
                    let i = choose|i: int| 0 <= i < self.dirs@.len() && self.dirs@[i]@ == x;
                    if i < old_dirs.len() {
                        assert(old_dirs[i]@ == x);
                        assert(old_set.contains(x));
                    } else {
                        assert(x == d@);
                    }
                }
                assert forall|x: Seq<char>| old_set.insert(d@).contains(x) implies self@.contains(
                    x,
                ) by {
                    if old_set.contains(x) {
                        let i = choose|i: int| 0 <= i < old_dirs.len() && old_dirs[i]@ == x;
                        assert(self.dirs@[i]@ == x);
                    } else {
                        assert(x == d@);
                        assert(self.dirs@[self.dirs@.len() - 1]@ == x);
                    }
                }
                assert(self@ =~= old_set.insert(d@));
            }
            true
        }
    }
}

/// Decide whether a work item's directory still has to be created.  The
/// result carries the directory to create now, or nothing when an
/// earlier item already created it; the caller performs the actual
/// `create_dir_all`.
pub fn mkdirp(cache: &mut MkdirCache, output_dir: &str, item: &WorkItem) -> (r: Option<String>)
    requires
        old(cache)@.finite(),
    ensures
        ({
            let dir = spec_target_dir(output_dir@, item@);
            &&& final(cache)@ == old(cache)@.insert(dir)
            &&& final(cache)@.finite()
            &&& match r {
                Some(d) => d@ == dir && !old(cache)@.contains(dir),
                None => old(cache)@.contains(dir),
            }
        }),
{
    let dir = target_dir(output_dir, item);
    if cache.insert_if_absent(dir.as_str()) {
        Some(dir)
    } else {
        None
    }
}

// ---------------------------------------------------------------------
// The directory-creation law.
// ---------------------------------------------------------------------

/// The distinct directories of a sequence of requests.
pub open spec fn dir_set(dirs: Seq<Seq<char>>) -> Set<Seq<char>>
    decreases dirs.len(),
{
    if dirs.len() == 0 {
        Set::empty()
    } else {
        dir_set(dirs.skip(1)).insert(dirs[0])
    }
}

/// Running the cache over a sequence of directory requests: the final
/// cache and how many real creations happened.
pub open spec fn mkdir_run(dirs: Seq<Seq<char>>, cache: Set<Seq<char>>) -> (Set<Seq<char>>, nat)
    decreases dirs.len(),
{
    if dirs.len() == 0 {
        (cache, 0)
    } else {
        let cache2 = cache.insert(dirs[0]);
        let created: nat = if cache.contains(dirs[0]) {
            0
        } else {
            1
        };
        let (cache_final, n) = mkdir_run(dirs.skip(1), cache2);
        (cache_final, created + n)
    }
}

proof fn lemma_dir_set_finite(dirs: Seq<Seq<char>>)
    ensures
        dir_set(dirs).finite(),
    decreases dirs.len(),
{
    if dirs.len() > 0 {
        lemma_dir_set_finite(dirs.skip(1));
    }
}

/// The creation-count law: over any sequence of directory requests, the
/// number of real creations equals the number of distinct directories
/// not already in the cache — independent of the order and of
/// repetitions in the requests.
pub proof fn lemma_mkdir_creations(dirs: Seq<Seq<char>>, cache: Set<Seq<char>>)
    requires
        cache.finite(),
    ensures
        mkdir_run(dirs, cache).0 =~= cache.union(dir_set(dirs)),
        mkdir_run(dirs, cache).0.finite(),
        mkdir_run(dirs, cache).1 == mkdir_run(dirs, cache).0.len() - cache.len(),
    decreases dirs.len(),
{
    lemma_dir_set_finite(dirs);
    if dirs.len() == 0 {
        assert(mkdir_run(dirs, cache).0 =~= cache.union(dir_set(dirs)));
    } else {
        let d0 = dirs[0];
        let cache2 = cache.insert(d0);
        lemma_mkdir_creations(dirs.skip(1), cache2);
        assert(cache2.union(dir_set(dirs.skip(1))) =~= cache.union(dir_set(dirs)));
        if cache.contains(d0) {
            assert(cache2.len() == cache.len());
        } else {
            assert(cache2.len() == cache.len() + 1);
        }
    }
}

/// From an empty cache the number of real creations is exactly the
/// number of distinct directories seen.
pub proof fn lemma_mkdir_distinct_dirs(dirs: Seq<Seq<char>>)
    ensures
        mkdir_run(dirs, Set::empty()).1 == dir_set(dirs).len(),
{
    lemma_mkdir_creations(dirs, Set::empty());
    assert(Set::<Seq<char>>::empty().union(dir_set(dirs)) =~= dir_set(dirs));
}

} // verus!
