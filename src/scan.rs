//! What the scanner decides for each file: its fingerprint, whether it is worth
//! compressing, its path relative to the scanned root, and the manifest that collects
//! one entry per file.

use crate::checksum::{sha256, sha256_of};
use vstd::prelude::*;
use vstd::slice::{slice_subrange, slice_to_vec};

verus! {

/// Size of each window that the fingerprint samples.
pub const SAMPLE_WINDOW: usize = 4096;

/// The bytes that the fingerprint reads: the first window, then, for a file longer than
/// one window, the last window. Interior bytes of a larger file are not read, so the
/// fingerprint is a weak identifier and never the only integrity check.
pub open spec fn sample_of(content: Seq<u8>) -> Seq<u8> {
    if content.len() <= SAMPLE_WINDOW {
        content
    } else {
        content.subrange(0, SAMPLE_WINDOW as int) + content.subrange(
            content.len() - SAMPLE_WINDOW,
            content.len() as int,
        )
    }
}

/// The SHA-256 of the sampled windows of `content`.
pub fn fingerprint(content: &[u8]) -> (r: Vec<u8>)
    ensures
        r@ == sha256_of(sample_of(content@)),
        r@.len() == 32,
{
    let n = content.len();
    if n <= SAMPLE_WINDOW {
        sha256(content)
    } else {
        let mut sample = slice_to_vec(slice_subrange(content, 0, SAMPLE_WINDOW));
        let mut tail = slice_to_vec(slice_subrange(content, n - SAMPLE_WINDOW, n));
        sample.append(&mut tail);
        sha256(sample.as_slice())
    }
}

/// The first window of `content`, or all of it when it is shorter.
pub open spec fn head_window(content: Seq<u8>) -> Seq<u8> {
    if content.len() <= SAMPLE_WINDOW {
        content
    } else {
        content.subrange(0, SAMPLE_WINDOW as int)
    }
}

/// The last window of `content` when it is longer than one window, else nothing.
pub open spec fn tail_window(content: Seq<u8>) -> Seq<u8> {
    if content.len() <= SAMPLE_WINDOW {
        Seq::empty()
    } else {
        content.subrange(content.len() - SAMPLE_WINDOW, content.len() as int)
    }
}

/// The sampled bytes are the head window followed by the tail window, so a reader that
/// only reads the two windows gets the same fingerprint.
pub proof fn lemma_sample_is_windows(content: Seq<u8>)
    ensures
        sample_of(content) == head_window(content) + tail_window(content),
{
    assert(sample_of(content) =~= head_window(content) + tail_window(content));
}

/// The windows that the fingerprint of a file of `size` bytes reads: the length of the
/// head window, and where the tail window starts, if there is one.
pub fn sample_ranges(size: u64) -> (r: (u64, Option<u64>))
    ensures
        r.0 == (if size <= SAMPLE_WINDOW {
            size
        } else {
            SAMPLE_WINDOW as u64
        }),
        r.1 == (if size <= SAMPLE_WINDOW {
            None
        } else {
            Some((size - SAMPLE_WINDOW) as u64)
        }),
        forall|c: Seq<u8>|
            c.len() == size ==> #[trigger] head_window(c) == c.subrange(0, r.0 as int)
                && tail_window(c) == match r.1 {
                Some(s) => c.subrange(s as int, size as int),
                None => Seq::empty(),
            },
{
    let w = SAMPLE_WINDOW as u64;
    let r = if size <= w {
        (size, None)
    } else {
        (w, Some(size - w))
    };
    assert forall|c: Seq<u8>| c.len() == size implies #[trigger] head_window(c) == c.subrange(
        0,
        r.0 as int,
    ) && tail_window(c) == match r.1 {
        Some(s) => c.subrange(s as int, size as int),
        None => Seq::empty(),
    } by {
        if size <= w {
            assert(c.subrange(0, size as int) =~= c);
        }
    }
    r
}

/// The SHA-256 of a head window followed by a tail window, as read from a file.
pub fn fingerprint_windows(head: &[u8], tail: &[u8]) -> (r: Vec<u8>)
    ensures
        r@ == sha256_of(head@ + tail@),
        r@.len() == 32,
{
    let mut sample = slice_to_vec(head);
    let mut rest = slice_to_vec(tail);
    sample.append(&mut rest);
    sha256(sample.as_slice())
}

/// Changing a byte inside either sampled window changes the sampled bytes.
pub proof fn lemma_window_change_is_sampled(content: Seq<u8>, i: int, v: u8)
    requires
        0 <= i < content.len(),
        i < SAMPLE_WINDOW || i >= content.len() - SAMPLE_WINDOW,
        content[i] != v,
    ensures
        sample_of(content.update(i, v)) != sample_of(content),
{
    let c2 = content.update(i, v);
    if content.len() <= SAMPLE_WINDOW {
        assert(c2[i] != content[i]);
    } else if i < SAMPLE_WINDOW {
        assert(sample_of(c2)[i] != sample_of(content)[i]);
    } else {
        let j = i - (content.len() - SAMPLE_WINDOW) + SAMPLE_WINDOW;
        assert(sample_of(c2)[j] != sample_of(content)[j]);
    }
}

/// Changing only interior bytes of a file longer than two windows leaves its sampled
/// bytes, and so its fingerprint, as they were.
pub proof fn lemma_interior_change_unseen(content: Seq<u8>, i: int, v: u8)
    requires
        content.len() > 2 * SAMPLE_WINDOW,
        SAMPLE_WINDOW <= i < content.len() - SAMPLE_WINDOW,
    ensures
        sample_of(content.update(i, v)) == sample_of(content),
        sha256_of(sample_of(content.update(i, v))) == sha256_of(sample_of(content)),
{
    assert(sample_of(content.update(i, v)) =~= sample_of(content));
}

/// Index of the last `c` in `s`, or -1 when there is none.
pub open spec fn last_index(s: Seq<char>, c: char) -> int
    decreases s.len(),
{
    if s.len() == 0 {
        -1
    } else if s.last() == c {
        s.len() - 1
    } else {
        last_index(s.drop_last(), c)
    }
}

/// The last path component of `p`.
pub open spec fn file_name(p: Seq<char>) -> Seq<char> {
    p.subrange(last_index(p, '/') + 1, p.len() as int)
}

/// What follows the last `.` of the file name, unless the name has no `.` past its first
/// character.
pub open spec fn extension(p: Seq<char>) -> Option<Seq<char>> {
    let name = file_name(p);
    let d = last_index(name, '.');
    if d <= 0 {
        None
    } else {
        Some(name.subrange(d + 1, name.len() as int))
    }
}

/// `c` is `l`, or `l` is a lower-case ASCII letter and `c` its upper-case form.
pub open spec fn ascii_ci_char(c: char, l: char) -> bool {
    c == l || ('a' <= l <= 'z' && c as u32 + 32 == l as u32)
}

/// `e` equals the lower-case word `lit` when ASCII letters are lower-cased.
pub open spec fn ascii_ci_eq(e: Seq<char>, lit: Seq<char>) -> bool {
    e.len() == lit.len() && forall|i: int| 0 <= i < e.len() ==> ascii_ci_char(e[i], lit[i])
}

/// The extensions of text-like formats.
pub open spec fn text_extension(e: Seq<char>) -> bool {
    ||| ascii_ci_eq(e, "txt"@)
    ||| ascii_ci_eq(e, "log"@)
    ||| ascii_ci_eq(e, "csv"@)
    ||| ascii_ci_eq(e, "json"@)
    ||| ascii_ci_eq(e, "xml"@)
    ||| ascii_ci_eq(e, "html"@)
    ||| ascii_ci_eq(e, "css"@)
    ||| ascii_ci_eq(e, "js"@)
    ||| ascii_ci_eq(e, "yaml"@)
    ||| ascii_ci_eq(e, "yml"@)
    ||| ascii_ci_eq(e, "md"@)
    ||| ascii_ci_eq(e, "toml"@)
}

/// A file is compressed in transit when its extension, lower-cased, names a text format.
pub open spec fn compressible(p: Seq<char>) -> bool {
    match extension(p) {
        Some(e) => text_extension(e),
        None => false,
    }
}

/// The index of the last `c` in `s`.
pub fn find_last(s: &str, c: char) -> (r: Option<usize>)
    ensures
        match r {
            Some(k) => last_index(s@, c) == k as int && k < s@.len(),
            None => last_index(s@, c) == -1,
        },
{
    let n = s.unicode_len();
    let mut i: usize = 0;
    let mut found: Option<usize> = None;
    while i < n
        invariant
            n == s@.len(),
            i <= n,
            match found {
                Some(k) => last_index(s@.take(i as int), c) == k as int && k < i,
                None => last_index(s@.take(i as int), c) == -1,
            },
        decreases n - i,
    {
        assert(s@.take(i + 1).drop_last() =~= s@.take(i as int));
        if s.get_char(i) == c {
            found = Some(i);
        }
        i = i + 1;
    }
    assert(s@.take(n as int) =~= s@);
    found
}

/// Whether `e` equals the lower-case word `lit` once its ASCII letters are lower-cased.
pub fn ascii_ci_equal(e: &str, lit: &str) -> (r: bool)
    ensures
        r == ascii_ci_eq(e@, lit@),
{
    let n = e.unicode_len();
    if n != lit.unicode_len() {
        return false;
    }
    let mut i: usize = 0;
    while i < n
        invariant
            n == e@.len(),
            n == lit@.len(),
            i <= n,
            forall|k: int| 0 <= k < i ==> ascii_ci_char(e@[k], lit@[k]),
        decreases n - i,
    {
        let c = e.get_char(i);
        let l = lit.get_char(i);
        let same = c == l || ('a' <= l && l <= 'z' && (c as u32) + 32 == l as u32);
        if !same {
            return false;
        }
        i = i + 1;
    }
    true
}

/// Whether `e` is one of the text-like extensions.
pub fn is_text_extension(e: &str) -> (r: bool)
    ensures
        r == text_extension(e@),
{
    ascii_ci_equal(e, "txt") || ascii_ci_equal(e, "log") || ascii_ci_equal(e, "csv")
        || ascii_ci_equal(e, "json") || ascii_ci_equal(e, "xml") || ascii_ci_equal(e, "html")
        || ascii_ci_equal(e, "css") || ascii_ci_equal(e, "js") || ascii_ci_equal(e, "yaml")
        || ascii_ci_equal(e, "yml") || ascii_ci_equal(e, "md") || ascii_ci_equal(e, "toml")
}

/// Whether the file at `path` is compressed in transit, decided by its extension alone.
pub fn is_compressible(path: &str) -> (r: bool)
    ensures
        r == compressible(path@),
{
    let n = path.unicode_len();
    let start = match find_last(path, '/') {
        Some(k) => k + 1,
        None => 0,
    };
    let name = path.substring_char(start, n);
    assert(name@ == file_name(path@));
    match find_last(name, '.') {
        None => false,
        Some(d) => {
            if d == 0 {
                false
            } else {
                let m = name.unicode_len();
                let ext = name.substring_char(d + 1, m);
                is_text_extension(ext)
            }
        },
    }
}

/// One file of a scanned tree.
#[derive(Debug, Clone)]
pub struct ManifestEntry {
    pub relative_path: String,
    pub size: u64,
    pub modified_at: u64,
    pub fingerprint: Vec<u8>,
    pub compressible: bool,
}

/// Builds the entry of a file from its relative path, metadata and content.
pub fn make_entry(relative_path: String, size: u64, modified_at: u64, content: &[u8]) -> (r:
    ManifestEntry)
    ensures
        r.relative_path@ == relative_path@,
        r.size == size,
        r.modified_at == modified_at,
        r.fingerprint@ == sha256_of(sample_of(content@)),
        r.compressible == compressible(relative_path@),
{
    let fp = fingerprint(content);
    entry_with_fingerprint(relative_path, size, modified_at, fp)
}

/// Builds the entry of a file whose fingerprint was computed from its two windows.
pub fn entry_with_fingerprint(relative_path: String, size: u64, modified_at: u64, fingerprint: Vec<
    u8,
>) -> (r: ManifestEntry)
    ensures
        r.relative_path@ == relative_path@,
        r.size == size,
        r.modified_at == modified_at,
        r.fingerprint@ == fingerprint@,
        r.compressible == compressible(relative_path@),
{
    let c = is_compressible(relative_path.as_str());
    ManifestEntry { relative_path, size, modified_at, fingerprint, compressible: c }
}

#[derive(Debug, Clone, Copy, PartialEq, Eq, Structural)]
pub enum ScanError {
    /// A second entry with a relative path already in the manifest.
    DuplicatePath,
}

/// No two entries share a relative path.
pub open spec fn paths_unique(paths: Seq<Seq<char>>) -> bool {
    forall|i: int, j: int| 0 <= i < j < paths.len() ==> paths[i] != paths[j]
}

/// The scanned files, in the order they were found, each relative path once.
#[derive(Debug, Clone)]
pub struct Manifest {
    entries: Vec<ManifestEntry>,
}

impl Manifest {
    /// The relative paths, in order.
    pub open spec fn paths(&self) -> Seq<Seq<char>> {
        self.entries_view().map_values(|e: ManifestEntry| e.relative_path@)
    }

    /// The entries, in order.
    pub closed spec fn entries_view(&self) -> Seq<ManifestEntry> {
        self.entries@
    }

    pub open spec fn wf(&self) -> bool {
        paths_unique(self.paths())
    }

    pub fn new() -> (r: Manifest)
        ensures
            r.wf(),
            r.entries_view().len() == 0,
    {
        Manifest { entries: Vec::new() }
    }

    pub fn len(&self) -> (r: usize)
        ensures
            r == self.entries_view().len(),
    {
        self.entries.len()
    }

    pub fn get(&self, i: usize) -> (r: &ManifestEntry)
        requires
            i < self.entries_view().len(),
        ensures
            *r == self.entries_view()[i as int],
    {
        &self.entries[i]
    }

    /// Whether some entry has relative path `path`.
    pub fn contains_path(&self, path: &String) -> (r: bool)
        ensures
            r == self.paths().contains(path@),
    {
        let mut i: usize = 0;
        while i < self.entries.len()
            invariant
                i <= self.entries@.len(),
                forall|k: int| 0 <= k < i ==> self.paths()[k] != path@,
            decreases self.entries@.len() - i,
        {
            if self.entries[i].relative_path == *path {
                assert(self.paths()[i as int] == path@);
                return true;
            }
            i = i + 1;
        }
        false
    }

    /// Appends an entry whose relative path is new; refuses a path already present.
    pub fn add(&mut self, entry: ManifestEntry) -> (r: Result<(), ScanError>)
        requires
            old(self).wf(),
        ensures
            final(self).wf(),
            r is Ok <==> !old(self).paths().contains(entry.relative_path@),
            r is Ok ==> final(self).entries_view() == old(self).entries_view().push(entry),
            r is Err ==> final(self).entries_view() == old(self).entries_view(),
    {
        if self.contains_path(&entry.relative_path) {
            return Err(ScanError::DuplicatePath);
        }
        let ghost p = entry.relative_path@;
        self.entries.push(entry);
        assert(self.paths() =~= old(self).paths().push(p));
        Ok(())
    }
}

/// The relative paths of a list of entries, in order.
pub open spec fn entry_paths(entries: Seq<ManifestEntry>) -> Seq<Seq<char>> {
    entries.map_values(|e: ManifestEntry| e.relative_path@)
}

/// The manifest of the files found by a walk, in the order found: it holds exactly the
/// relative paths of `found`, each once, and where the walk found each path once (one
/// entry per file) it has one entry per file, in order.
pub fn build_manifest(found: &Vec<ManifestEntry>) -> (r: Manifest)
    ensures
        r.wf(),
        forall|p: Seq<char>| r.paths().contains(p) <==> entry_paths(found@).contains(p),
        paths_unique(entry_paths(found@)) ==> r.paths() == entry_paths(found@),
{
    let mut m = Manifest::new();
    let mut i: usize = 0;
    while i < found.len()
        invariant
            i <= found@.len(),
            m.wf(),
            forall|p: Seq<char>|
                m.paths().contains(p) <==> entry_paths(found@).take(i as int).contains(p),
            paths_unique(entry_paths(found@)) ==> m.paths() == entry_paths(found@).take(i as int),
        decreases found@.len() - i,
    {
        let e = &found[i];
        let entry = ManifestEntry {
            relative_path: e.relative_path.clone(),
            size: e.size,
            modified_at: e.modified_at,
            fingerprint: e.fingerprint.clone(),
            compressible: e.compressible,
        };
        let ghost old_paths = m.paths();
        let ghost fp = entry_paths(found@);
        let ghost pi = e.relative_path@;
        assert(fp.take(i + 1) =~= fp.take(i as int).push(pi));
        let res = m.add(entry);
        proof {
            let t0 = fp.take(i as int);
            let t1 = fp.take(i + 1);
            if res is Ok {
                assert(m.paths() =~= old_paths.push(pi));
            }
            assert forall|p: Seq<char>| m.paths().contains(p) <==> t1.contains(p) by {
                if m.paths().contains(p) {
                    if res is Ok {
                        let k = choose|k: int| 0 <= k < m.paths().len() && m.paths()[k] == p;
                        if k < old_paths.len() {
                            assert(old_paths[k] == p);
                        } else {
                            assert(t1[i as int] == p);
                        }
                    }
                    assert(t1.contains(p)) by {
                        if old_paths.contains(p) {
                            let k = choose|k: int| 0 <= k < t0.len() && t0[k] == p;
                            assert(t1[k] == p);
                        }
                    }
                }
                if t1.contains(p) {
                    let k = choose|k: int| 0 <= k < t1.len() && t1[k] == p;
                    if k < i {
                        assert(t0[k] == p);
                        assert(old_paths.contains(p));
                        let j = choose|j: int| 0 <= j < old_paths.len() && old_paths[j] == p;
                        assert(m.paths()[j] == p);
                    } else if res is Ok {
                        assert(m.paths()[old_paths.len() as int] == p);
                    } else {
                        assert(old_paths.contains(pi));
                        let j = choose|j: int| 0 <= j < old_paths.len() && old_paths[j] == pi;
                        assert(m.paths()[j] == p);
                    }
                }
            }
            if paths_unique(fp) {
                if !(res is Ok) {
                    let j = choose|j: int| 0 <= j < old_paths.len() && old_paths[j] == pi;
                    assert(fp[j] == t0[j]);
                    assert(fp[j] == fp[i as int]);
                }
            }
        }
        i = i + 1;
    }
    assert(entry_paths(found@).take(found@.len() as int) =~= entry_paths(found@));
    m
}

/// Each relative path in a manifest belongs to exactly one entry.
pub proof fn lemma_one_entry_per_path(m: Manifest, i: int, j: int)
    requires
        m.wf(),
        0 <= i < m.paths().len(),
        0 <= j < m.paths().len(),
        m.paths()[i] == m.paths()[j],
    ensures
        i == j,
{
}

/// The path of `path` below `root`: `path` itself when `root` is empty, else what follows
/// `root` and a `/`.
pub open spec fn relative_to(root: Seq<char>, path: Seq<char>) -> Option<Seq<char>> {
    if root.len() == 0 {
        Some(path)
    } else if path.len() > root.len() && path.subrange(0, root.len() as int) == root
        && path[root.len() as int] == '/' {
        Some(path.subrange(root.len() as int + 1, path.len() as int))
    } else {
        None
    }
}

/// The path of `path` below the directory `root`, if it lies below it.
pub fn relative_path(root: &str, path: &str) -> (r: Option<String>)
    ensures
        string_view(r) == relative_to(root@, path@),
{
    let rn = root.unicode_len();
    let pn = path.unicode_len();
    if rn == 0 {
        return Some(String::from_str(path));
    }
    if pn <= rn {
        return None;
    }
    let mut i: usize = 0;
    while i < rn
        invariant
            rn == root@.len(),
            pn == path@.len(),
            rn < pn,
            i <= rn,
            forall|k: int| 0 <= k < i ==> path@[k] == root@[k],
        decreases rn - i,
    {
        if path.get_char(i) != root.get_char(i) {
            assert(path@.subrange(0, rn as int)[i as int] != root@[i as int]);
            return None;
        }
        i = i + 1;
    }
    assert(path@.subrange(0, rn as int) =~= root@);
    if path.get_char(rn) != '/' {
        return None;
    }
    Some(String::from_str(path.substring_char(rn + 1, pn)))
}

pub open spec fn string_view(s: Option<String>) -> Option<Seq<char>> {
    match s {
        Some(t) => Some(t@),
        None => None,
    }
}

} // verus!
