//! Static-file resolution: URL prefixes mapped to directories, the first
//! registered prefix of the request path winning; parent-segment (`..`)
//! traversal is rejected outright, indistinguishably from a missing file.
//! The library only computes the filesystem path and the MIME type; the
//! file read itself stays with the caller.
use vstd::prelude::*;
use crate::router::{path_segments, segments_of};
use crate::text::{has_prefix_at, starts_with_at, str_eq, trim_char, trimmed, views_of};

verus! {

/// Whether some segment of the path is exactly `..`.
pub open spec fn has_dotdot(path: Seq<char>) -> bool {
    exists|i: int| 0 <= i < segments_of(path).len() && segments_of(path)[i] == ("..")@
}

/// Checks a path for `..` segments.
pub fn contains_dotdot(path: &str) -> (r: bool)
    ensures
        r == has_dotdot(path@),
{
    let segs = path_segments(path);
    let n = segs.len();
    let mut i: usize = 0;
    while i < n
        invariant
            0 <= i <= n,
            n == segs@.len(),
            views_of(segs@) == segments_of(path@),
            forall|j: int| 0 <= j < i ==> segments_of(path@)[j] != ("..")@,
        decreases n - i,
    {
        assert(segs@[i as int]@ == segments_of(path@)[i as int]);
        if str_eq(segs[i].as_str(), "..") {
            return true;
        }
        i += 1;
    }
    false
}

/// One URL-prefix-to-directory binding.
pub struct StaticMapping {
    pub prefix: String,
    pub dir: String,
}

/// Index of the first mapping whose prefix starts the path.
pub open spec fn first_mapping(maps: Seq<StaticMapping>, path: Seq<char>) -> Option<int>
    decreases maps.len(),
{
    if maps.len() == 0 {
        None
    } else if has_prefix_at(path, maps.first().prefix@, 0) {
        Some(0int)
    } else {
        match first_mapping(maps.drop_first(), path) {
            None => None,
            Some(i) => Some(i + 1),
        }
    }
}

pub proof fn lemma_first_mapping_at(maps: Seq<StaticMapping>, path: Seq<char>, i: int)
    requires
        0 <= i < maps.len(),
        has_prefix_at(path, maps[i].prefix@, 0),
        forall|j: int| 0 <= j < i ==> !has_prefix_at(path, maps[j].prefix@, 0),
    ensures
        first_mapping(maps, path) == Some(i),
    decreases i,
{
    if i > 0 {
        let d = maps.drop_first();
        assert(d[i - 1] == maps[i]);
        assert forall|j: int| 0 <= j < i - 1 implies !has_prefix_at(path, d[j].prefix@, 0) by {
            assert(d[j] == maps[j + 1]);
        }
        lemma_first_mapping_at(d, path, i - 1);
    }
}

pub proof fn lemma_first_mapping_none(maps: Seq<StaticMapping>, path: Seq<char>)
    requires
        forall|j: int| 0 <= j < maps.len() ==> !has_prefix_at(path, maps[j].prefix@, 0),
    ensures
        first_mapping(maps, path) is None,
    decreases maps.len(),
{
    if maps.len() > 0 {
        let d = maps.drop_first();
        assert forall|j: int| 0 <= j < d.len() implies !has_prefix_at(path, d[j].prefix@, 0) by {
            assert(d[j] == maps[j + 1]);
        }
        lemma_first_mapping_none(d, path);
    }
}

/// The filesystem path a resolution serves: the directory, a separator,
/// and the prefix-stripped remainder with its outer slashes removed.
pub open spec fn joined_path(dir: Seq<char>, rel: Seq<char>) -> Seq<char> {
    dir + ("/")@ + trimmed(rel, '/')
}

/// What resolution yields: the file to read and its MIME type, or nothing
/// when no prefix applies or the path attempts parent traversal.
pub open spec fn resolve_spec(maps: Seq<StaticMapping>, path: Seq<char>)
    -> Option<(Seq<char>, Seq<char>)> {
    if has_dotdot(path) {
        None
    } else {
        match first_mapping(maps, path) {
            None => None,
            Some(i) => {
                let rel = path.skip(maps[i].prefix@.len() as int);
                if has_dotdot(rel) {
                    None
                } else {
                    Some((joined_path(maps[i].dir@, rel), mime_of_path(path)))
                }
            },
        }
    }
}

/// A path with a `..` segment never resolves to a file, whatever is
/// registered and whatever exists on disk.
pub proof fn lemma_traversal_rejected(maps: Seq<StaticMapping>, path: Seq<char>)
    requires
        has_dotdot(path),
    ensures
        resolve_spec(maps, path) is None,
{
}

/// Index of the last `.` of `s`, if any.
pub open spec fn last_dot(s: Seq<char>) -> Option<int>
    decreases s.len(),
{
    if s.len() == 0 {
        None
    } else if s.last() == '.' {
        Some(s.len() - 1)
    } else {
        last_dot(s.drop_last())
    }
}

proof fn lemma_last_dot_at(s: Seq<char>, i: int)
    requires
        0 <= i < s.len(),
        s[i] == '.',
        forall|j: int| i < j < s.len() ==> s[j] != '.',
    ensures
        last_dot(s) == Some(i),
    decreases s.len(),
{
    if i < s.len() - 1 {
        lemma_last_dot_at(s.drop_last(), i);
    }
}

proof fn lemma_last_dot_none(s: Seq<char>)
    requires
        forall|j: int| 0 <= j < s.len() ==> s[j] != '.',
    ensures
        last_dot(s) is None,
    decreases s.len(),
{
    if s.len() > 0 {
        lemma_last_dot_none(s.drop_last());
    }
}

/// The characters after the last `.`, the key of the MIME table.
pub open spec fn extension_of(s: Seq<char>) -> Option<Seq<char>> {
    match last_dot(s) {
        None => None,
        Some(i) => Some(s.skip(i + 1)),
    }
}

/// The fixed extension-to-MIME table; anything unknown is served as
/// `application/octet-stream`.
pub open spec fn mime_of_ext(ext: Option<Seq<char>>) -> Seq<char> {
    match ext {
        None => ("application/octet-stream")@,
        Some(e) => {
            if e == ("html")@ { ("text/html")@ }
            else if e == ("css")@ { ("text/css")@ }
            else if e == ("js")@ { ("application/javascript")@ }
            else if e == ("png")@ { ("image/png")@ }
            else if e == ("jpg")@ { ("image/jpeg")@ }
            else if e == ("jpeg")@ { ("image/jpeg")@ }
            else if e == ("gif")@ { ("image/gif")@ }
            else if e == ("svg")@ { ("image/svg+xml")@ }
            else if e == ("json")@ { ("application/json")@ }
            else if e == ("pdf")@ { ("application/pdf")@ }
            else if e == ("txt")@ { ("text/plain")@ }
            else { ("application/octet-stream")@ }
        },
    }
}

pub open spec fn mime_of_path(path: Seq<char>) -> Seq<char> {
    mime_of_ext(extension_of(path))
}

/// MIME type from the file extension, by the fixed table.
pub fn get_mime_type(path: &str) -> (r: &'static str)
    ensures
        r@ == mime_of_path(path@),
{
    let n = path.unicode_len();
    let mut b: usize = n;
    while b > 0 && path.get_char(b - 1) != '.'
        invariant
            0 <= b <= n,
            n == path@.len(),
            forall|j: int| b <= j < n ==> path@[j] != '.',
        decreases b,
    {
        b -= 1;
    }
    if b == 0 {
        proof {
            lemma_last_dot_none(path@);
        }
        return "application/octet-stream";
    }
    proof {
        lemma_last_dot_at(path@, b - 1);
    }
    let ext = path.substring_char(b, n);
    if str_eq(ext, "html") { "text/html" }
    else if str_eq(ext, "css") { "text/css" }
    else if str_eq(ext, "js") { "application/javascript" }
    else if str_eq(ext, "png") { "image/png" }
    else if str_eq(ext, "jpg") { "image/jpeg" }
    else if str_eq(ext, "jpeg") { "image/jpeg" }
    else if str_eq(ext, "gif") { "image/gif" }
    else if str_eq(ext, "svg") { "image/svg+xml" }
    else if str_eq(ext, "json") { "application/json" }
    else if str_eq(ext, "pdf") { "application/pdf" }
    else if str_eq(ext, "txt") { "text/plain" }
    else { "application/octet-stream" }
}

/// The registered mappings, in registration order.
pub struct StaticFiles {
    pub mappings: Vec<StaticMapping>,
}

impl StaticFiles {
    pub fn new() -> (r: Self)
        ensures
            r.mappings@.len() == 0,
    {
        StaticFiles { mappings: Vec::new() }
    }

    /// Appends one prefix-to-directory mapping.
    pub fn register(&mut self, prefix: &str, dir: &str)
        ensures
            final(self).mappings@.len() == old(self).mappings@.len() + 1,
            final(self).mappings@.last().prefix@ == prefix@,
            final(self).mappings@.last().dir@ == dir@,
            forall|i: int| 0 <= i < old(self).mappings@.len()
                ==> final(self).mappings@[i] == old(self).mappings@[i],
    {
        self.mappings.push(StaticMapping {
            prefix: String::from_str(prefix),
            dir: String::from_str(dir),
        });
    }

    /// Resolves a request path to the file to read and its MIME type.
    pub fn resolve_target(&self, path: &str) -> (r: Option<(String, String)>)
        ensures
            match r {
                Some(t) => resolve_spec(self.mappings@, path@) == Some((t.0@, t.1@)),
                None => resolve_spec(self.mappings@, path@) is None,
            },
    {
        if contains_dotdot(path) {
            return None;
        }
        let n = path.unicode_len();
        let m = self.mappings.len();
        let mut i: usize = 0;
        while i < m
            invariant
                0 <= i <= m,
                m == self.mappings@.len(),
                n == path@.len(),
                !has_dotdot(path@),
                forall|j: int| 0 <= j < i
                    ==> !has_prefix_at(path@, self.mappings@[j].prefix@, 0),
            decreases m - i,
        {
            let prefix = &self.mappings[i].prefix;
            let plen = prefix.as_str().unicode_len();
            if starts_with_at(path, prefix.as_str(), 0) {
                proof {
                    lemma_first_mapping_at(self.mappings@, path@, i as int);
                }
                let rel = path.substring_char(plen, n);
                assert(rel@ == path@.skip(plen as int));
                if contains_dotdot(rel) {
                    return None;
                }
                let mut fs = String::from_str(self.mappings[i].dir.as_str());
                fs.append("/");
                fs.append(trim_char(rel, '/').as_str());
                let mime = String::from_str(get_mime_type(path));
                return Some((fs, mime));
            }
            i += 1;
        }
        proof {
            lemma_first_mapping_none(self.mappings@, path@);
        }
        None
    }
}

} // verus!
