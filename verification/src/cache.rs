//! The incremental cache: the content hashes of the source files as of the
//! last successful build, the comparison with the files as they are now, and
//! the master hash that addresses the build in the distributed cache.

use vstd::prelude::*;
use vstd::string::StringExecFns;
use vstd::utf8::encode_utf8;
use crate::config::RemoteCacheConfig;
use crate::digest::{content_hash, hash_bytes};
use crate::error::{ForgeError, ForgeResult};
use crate::hashes::{is_listing, listing, FileHashes, Pair};
use crate::text::{chars_of, string_of, strs, texts};

verus! {

/// A file of the source tree as it was read: its path below the source
/// directory, its extension without the dot (empty where it has none), and
/// its bytes.
#[derive(Debug, Clone)]
pub struct SourceFile {
    pub path: String,
    pub extension: String,
    pub content: Vec<u8>,
}

/// Whether files with the extension `ext` are watched: all are when the
/// list of extensions is empty.
pub open spec fn is_watched(ext: Seq<char>, allow: Seq<Seq<char>>) -> bool {
    allow.len() == 0 || allow.contains(ext)
}

/// The hashes of the watched files among `files`: path to content hash. Of
/// two files with one path the later one counts.
pub open spec fn hashes_of(files: Seq<SourceFile>, allow: Seq<Seq<char>>) -> Map<Seq<char>, Seq<char>>
    decreases files.len(),
{
    if files.len() == 0 {
        Map::empty()
    } else {
        let rest = hashes_of(files.drop_last(), allow);
        let f = files.last();
        if is_watched(f.extension@, allow) {
            rest.insert(f.path@, content_hash(f.content@))
        } else {
            rest
        }
    }
}

/// The paths of `current`, in its order, that `stored` does not hold with
/// the same hash.
pub open spec fn changed_paths(current: Seq<Pair>, stored: Map<Seq<char>, Seq<char>>) -> Seq<Seq<char>>
    decreases current.len(),
{
    if current.len() == 0 {
        Seq::empty()
    } else {
        let rest = changed_paths(current.drop_last(), stored);
        let e = current.last();
        if stored.contains_pair(e.0, e.1) {
            rest
        } else {
            rest.push(e.0)
        }
    }
}

/// The bytes that the master hash digests: for every pair in order, the
/// bytes of the path and then the bytes of the hash.
pub open spec fn master_input(pairs: Seq<Pair>) -> Seq<u8>
    decreases pairs.len(),
{
    if pairs.len() == 0 {
        Seq::empty()
    } else {
        master_input(pairs.drop_last()) + encode_utf8(pairs.last().0) + encode_utf8(pairs.last().1)
    }
}

/// The master hash of a map of file hashes: the content hash of its entries
/// taken by rising path.
pub open spec fn master_text(m: Map<Seq<char>, Seq<char>>) -> Seq<char> {
    content_hash(master_input(listing(m)))
}

/// `s` without the slashes at its end.
pub open spec fn trim_slashes(s: Seq<char>) -> Seq<char>
    decreases s.len(),
{
    if s.len() > 0 && s.last() == '/' {
        trim_slashes(s.drop_last())
    } else {
        s
    }
}

/// The name of the archive that holds the build with master hash `master`.
pub open spec fn archive_text(master: Seq<char>) -> Seq<char> {
    master + ".tar.gz"@
}

/// The address of the archive for `master` in the store at `remote`.
pub open spec fn url_text(remote: Seq<char>, master: Seq<char>) -> Seq<char> {
    trim_slashes(remote) + "/cache/"@ + archive_text(master)
}

/// Whether the hashes of the watched files among `files` are not `stored`.
pub open spec fn tree_changed(stored: Map<Seq<char>, Seq<char>>, files: Seq<SourceFile>, allow: Seq<Seq<char>>) -> bool {
    stored != hashes_of(files, allow)
}

/// No two files have the same path.
pub open spec fn unique_paths(files: Seq<SourceFile>) -> bool {
    forall|i: int, j: int| 0 <= i < files.len() && 0 <= j < files.len() && i != j ==> (#[trigger] files[i]).path@ != (
    #[trigger] files[j]).path@
}

/// The paths that have a hash are the paths of the watched files.
pub proof fn lemma_hashed_paths(files: Seq<SourceFile>, allow: Seq<Seq<char>>, path: Seq<char>)
    ensures
        hashes_of(files, allow).dom().contains(path) <==> exists|i: int|
            0 <= i < files.len() && is_watched((#[trigger] files[i]).extension@, allow) && files[i].path@ == path,
    decreases files.len(),
{
    if files.len() > 0 {
        let rest = files.drop_last();
        lemma_hashed_paths(rest, allow, path);
        if exists|i: int|
            0 <= i < files.len() && is_watched((#[trigger] files[i]).extension@, allow) && files[i].path@ == path {
            let i = choose|i: int|
                0 <= i < files.len() && is_watched((#[trigger] files[i]).extension@, allow) && files[i].path@ == path;
            if i < files.len() - 1 {
                assert(rest[i] == files[i]);
            }
        }
    }
}

/// A watched file that no later file shares its path with has the hash of
/// its content stored for its path.
pub proof fn lemma_hash_of_file(files: Seq<SourceFile>, allow: Seq<Seq<char>>, i: int)
    requires
        0 <= i < files.len(),
        is_watched(files[i].extension@, allow),
        forall|j: int| i < j < files.len() ==> (#[trigger] files[j]).path@ != files[i].path@,
    ensures
        hashes_of(files, allow).contains_pair(files[i].path@, content_hash(files[i].content@)),
    decreases files.len(),
{
    if i < files.len() - 1 {
        let rest = files.drop_last();
        lemma_hash_of_file(rest, allow, i);
    }
}

/// After the hashes of a source tree were stored, the same tree shows no
/// changes.
pub proof fn lemma_unchanged_tree_has_no_changes(files: Seq<SourceFile>, allow: Seq<Seq<char>>)
    ensures
        !tree_changed(hashes_of(files, allow), files, allow),
{
}

/// After the hashes of a source tree were stored, the tree with one watched
/// file given another content shows changes, provided the content hashes of
/// the two contents differ.
pub proof fn lemma_modified_file_is_a_change(
    files: Seq<SourceFile>,
    allow: Seq<Seq<char>>,
    i: int,
    modified: SourceFile,
)
    requires
        unique_paths(files),
        0 <= i < files.len(),
        is_watched(files[i].extension@, allow),
        is_watched(modified.extension@, allow),
        modified.path@ == files[i].path@,
        content_hash(modified.content@) != content_hash(files[i].content@),
    ensures
        tree_changed(hashes_of(files, allow), files.update(i, modified), allow),
{
    let now = files.update(i, modified);
    lemma_hash_of_file(files, allow, i);
    lemma_hash_of_file(now, allow, i);
}

/// After the hashes of a source tree were stored, the tree without one of
/// its watched files shows changes.
pub proof fn lemma_deleted_file_is_a_change(files: Seq<SourceFile>, allow: Seq<Seq<char>>, i: int)
    requires
        unique_paths(files),
        0 <= i < files.len(),
        is_watched(files[i].extension@, allow),
    ensures
        tree_changed(hashes_of(files, allow), files.remove(i), allow),
{
    let now = files.remove(i);
    let path = files[i].path@;
    lemma_hash_of_file(files, allow, i);
    lemma_hashed_paths(now, allow, path);
}

/// After the hashes of a source tree were stored, the tree with one more
/// watched file, under a path of its own, shows changes.
pub proof fn lemma_added_file_is_a_change(files: Seq<SourceFile>, allow: Seq<Seq<char>>, added: SourceFile)
    requires
        is_watched(added.extension@, allow),
        forall|j: int| 0 <= j < files.len() ==> (#[trigger] files[j]).path@ != added.path@,
    ensures
        tree_changed(hashes_of(files, allow), files.push(added), allow),
{
    lemma_hashed_paths(files, allow, added.path@);
}

/// The master hash does not depend on the order in which entries were put
/// into the map.
pub proof fn lemma_master_hash_ignores_insertion_order(
    m: Map<Seq<char>, Seq<char>>,
    path1: Seq<char>,
    hash1: Seq<char>,
    path2: Seq<char>,
    hash2: Seq<char>,
)
    requires
        path1 != path2,
    ensures
        master_text(m.insert(path1, hash1).insert(path2, hash2)) == master_text(
            m.insert(path2, hash2).insert(path1, hash1),
        ),
{
    assert(m.insert(path1, hash1).insert(path2, hash2) =~= m.insert(path2, hash2).insert(path1, hash1));
}

/// Two lists of pairs that differ in one hash, of the same length in bytes,
/// give different bytes to digest.
proof fn lemma_input_differs(s: Seq<Pair>, t: Seq<Pair>, i: int)
    requires
        s.len() == t.len(),
        0 <= i < s.len(),
        forall|j: int| 0 <= j < s.len() && j != i ==> s[j] == t[j],
        s[i].0 == t[i].0,
        encode_utf8(s[i].1).len() == encode_utf8(t[i].1).len(),
        encode_utf8(s[i].1) != encode_utf8(t[i].1),
    ensures
        master_input(s) != master_input(t),
        master_input(s).len() == master_input(t).len(),
    decreases s.len(),
{
    let n = s.len() - 1;
    let s0 = s.drop_last();
    let t0 = t.drop_last();
    if i == n {
        assert(s0 =~= t0);
        let head = master_input(s0) + encode_utf8(s[i].0);
        let x = encode_utf8(s[i].1);
        let y = encode_utf8(t[i].1);
        assert((head + x).skip(head.len() as int) =~= x);
        assert((head + y).skip(head.len() as int) =~= y);
    } else {
        lemma_input_differs(s0, t0, i);
        let tail = encode_utf8(s[n].0) + encode_utf8(s[n].1);
        let a = master_input(s0);
        let b = master_input(t0);
        assert(master_input(s) =~= a + tail);
        assert(master_input(t) =~= b + tail);
        assert((a + tail).take(a.len() as int) =~= a);
        assert((b + tail).take(b.len() as int) =~= b);
    }
}

/// Where one entry of a map of file hashes gets another hash, of the same
/// length in bytes, the bytes that the master hash digests change.
pub proof fn lemma_master_input_changes(
    m: Map<Seq<char>, Seq<char>>,
    path: Seq<char>,
    old_hash: Seq<char>,
    new_hash: Seq<char>,
)
    requires
        is_listing(listing(m.insert(path, old_hash)), m.insert(path, old_hash)),
        old_hash != new_hash,
        encode_utf8(old_hash).len() == encode_utf8(new_hash).len(),
    ensures
        master_input(listing(m.insert(path, old_hash))) != master_input(listing(m.insert(path, new_hash))),
{
    let before = m.insert(path, old_hash);
    let after = m.insert(path, new_hash);
    let s = listing(before);
    let i = crate::hashes::key_index(s, path);
    assert(before.dom().contains(path));
    let t = s.update(i, (path, new_hash));
    assert(is_listing(t, after)) by {
        assert forall|a: int, b: int| 0 <= a < b < t.len() implies crate::lex::text_lt(#[trigger] t[a].0, #[trigger] t[b].0) by {}
        assert forall|j: int| 0 <= j < t.len() implies after.contains_pair((#[trigger] t[j]).0, t[j].1) by {
            if j != i {
                if s[j].0 == path {
                    crate::hashes::lemma_sorted_keys_distinct(s, i, j);
                }
            }
        }
        assert forall|k: Seq<char>| #[trigger] after.dom().contains(k) implies crate::hashes::has_key(t, k) by {
            let j = crate::hashes::key_index(s, k);
            assert(t[j].0 == k);
        }
    }
    crate::hashes::lemma_listing_unique(after, t, listing(after));
    vstd::utf8::encode_utf8_decode_utf8(old_hash);
    vstd::utf8::encode_utf8_decode_utf8(new_hash);
    lemma_input_differs(s, t, i);
}

/// Whether `ext` is watched.
fn watched(ext: &str, extensions: &[&str]) -> (r: bool)
    ensures
        r == is_watched(ext@, strs(extensions@)),
{
    extensions.len() == 0 || crate::project::has_extension(ext, extensions)
}

/// Appends the bytes of `s` to `buf`.
fn append_bytes(buf: &mut Vec<u8>, s: &str)
    ensures
        final(buf)@ == old(buf)@ + encode_utf8(s@),
{
    let bytes = s.as_bytes();
    let ghost start = buf@;
    let mut i: usize = 0;
    while i < bytes.len()
        invariant
            i <= bytes@.len(),
            bytes@ == encode_utf8(s@),
            buf@ == start + bytes@.take(i as int),
        decreases bytes.len() - i,
    {
        buf.push(bytes[i]);
        i = i + 1;
    }
}

/// `s` without the slashes at its end.
pub fn without_trailing_slashes(s: &str) -> (r: String)
    ensures
        r@ == trim_slashes(s@),
{
    let mut chars = chars_of(s);
    while chars.len() > 0 && chars[chars.len() - 1] == '/'
        invariant
            trim_slashes(chars@) == trim_slashes(s@),
        decreases chars.len(),
    {
        chars.pop();
    }
    string_of(&chars)
}

/// What to send to the store, and where.
#[derive(Debug, Clone)]
pub struct RemoteRequest {
    /// The master hash of the build.
    pub master_hash: String,
    /// The archive's name: the master hash and ".tar.gz".
    pub archive_name: String,
    /// The archive's address in the store.
    pub url: String,
    /// The bearer token to send along, where one is configured.
    pub token: Option<String>,
}

/// What was found at the place of the cache file.
#[derive(Debug, Clone)]
pub enum LoadedFile {
    /// There is no file.
    Absent,
    /// The file could not be read; the text says why.
    Unreadable(String),
    /// The file was read but does not hold a cache.
    Corrupted,
    /// The file held this cache.
    Parsed(BuildCache),
}

/// The state of the build cache, kept between runs.
#[derive(Debug, Clone, Default)]
pub struct BuildCache {
    /// Version of the cache's format.
    pub version: u32,
    /// Content hash of every watched file, by path below the source directory.
    pub file_hashes: FileHashes,
    /// When the last successful build ended, in seconds since the epoch.
    pub last_build_timestamp: Option<u64>,
}

impl BuildCache {
    /// The cache of a project that was never built: format version 1, no
    /// hashes, no time.
    pub fn fresh() -> (c: Self)
        ensures
            c.version == 1,
            c.file_hashes@ == Map::<Seq<char>, Seq<char>>::empty(),
            c.last_build_timestamp is None,
    {
        BuildCache { version: 1, file_hashes: FileHashes::new(), last_build_timestamp: None }
    }

    /// The cache to start a build with, from what was found at `cache_path`:
    /// a fresh cache where there is no file, the cache that the file held,
    /// and an error where the file cannot be read or holds no cache. A
    /// corrupted file is reported, never taken for an absent one.
    pub fn load(cache_path: &str, file: LoadedFile) -> (r: ForgeResult<Self>)
        ensures
            match file {
                LoadedFile::Absent => r matches Ok(c) && c.version == 1 && c.file_hashes@ == Map::<
                    Seq<char>,
                    Seq<char>,
                >::empty() && c.last_build_timestamp is None,
                LoadedFile::Unreadable(m) => r matches Err(ForgeError::IoError { path, message }) && path@
                    == cache_path@ && message == m,
                LoadedFile::Corrupted => r matches Err(ForgeError::CacheCorrupted { path }) && path@ == cache_path@,
                LoadedFile::Parsed(c) => r == Ok::<BuildCache, ForgeError>(c),
            },
    {
        match file {
            LoadedFile::Absent => Ok(Self::fresh()),
            LoadedFile::Unreadable(message) => Err(
                ForgeError::IoError { path: String::from_str(cache_path), message },
            ),
            LoadedFile::Corrupted => Err(ForgeError::CacheCorrupted { path: String::from_str(cache_path) }),
            LoadedFile::Parsed(cache) => Ok(cache),
        }
    }

    /// Hashes the watched files among `files`.
    pub fn compute_hashes(files: &[SourceFile], extensions: &[&str]) -> (hashes: FileHashes)
        ensures
            hashes@ == hashes_of(files@, strs(extensions@)),
    {
        let mut hashes = FileHashes::new();
        let mut i: usize = 0;
        while i < files.len()
            invariant
                i <= files@.len(),
                hashes@ == hashes_of(files@.take(i as int), strs(extensions@)),
            decreases files.len() - i,
        {
            let f = &files[i];
            proof {
                assert(files@.take(i + 1).drop_last() =~= files@.take(i as int));
            }
            if watched(f.extension.as_str(), extensions) {
                let hash = hash_bytes(f.content.as_slice());
                hashes.insert(f.path.clone(), hash);
            }
            i = i + 1;
        }
        assert(files@.take(files@.len() as int) =~= files@);
        hashes
    }

    /// Whether `current` differs from the stored hashes: a path has another
    /// hash, a path is new, or a stored path is gone.
    pub fn differs_from(&self, current: &FileHashes) -> (r: bool)
        ensures
            r == (self.file_hashes@ != current@),
    {
        let stored = &self.file_hashes;
        let n = current.len();
        let mut i: usize = 0;
        while i < n
            invariant
                i <= n,
                *stored == self.file_hashes,
                n == listing(current@).len(),
                is_listing(listing(current@), current@),
                forall|k: int| 0 <= k < i ==> stored@.contains_pair((#[trigger] listing(current@)[k]).0, listing(current@)[k].1),
            decreases n - i,
        {
            let path = current.path_at(i);
            let hash = current.hash_at(i);
            match stored.get(path.as_str()) {
                Some(old_hash) => {
                    if !(*old_hash == *hash) {
                        return true;
                    }
                },
                None => {
                    return true;
                },
            }
            i = i + 1;
        }
        let m = stored.len();
        let mut j: usize = 0;
        while j < m
            invariant
                j <= m,
                *stored == self.file_hashes,
                m == listing(stored@).len(),
                is_listing(listing(stored@), stored@),
                is_listing(listing(current@), current@),
                forall|k: int|
                    0 <= k < listing(current@).len() ==> stored@.contains_pair(
                        (#[trigger] listing(current@)[k]).0,
                        listing(current@)[k].1,
                    ),
                forall|k: int| 0 <= k < j ==> current@.dom().contains((#[trigger] listing(stored@)[k]).0),
            decreases m - j,
        {
            let old_path = stored.path_at(j);
            if !current.contains_key(old_path.as_str()) {
                return true;
            }
            j = j + 1;
        }
        proof {
            let a = stored@;
            let b = current@;
            assert forall|k: Seq<char>| a.dom().contains(k) implies b.dom().contains(k) by {}
            assert forall|k: Seq<char>| b.dom().contains(k) implies a.dom().contains(k) && a[k] == b[k] by {}
            assert(a =~= b);
        }
        false
    }

    /// Whether the source files changed since the hashes were stored: the
    /// hashes of the watched files among `files` are not the stored ones.
    pub fn has_changes(&self, files: &[SourceFile], extensions: &[&str]) -> (r: bool)
        ensures
            r == tree_changed(self.file_hashes@, files@, strs(extensions@)),
    {
        let current = Self::compute_hashes(files, extensions);
        self.differs_from(&current)
    }

    /// Stores the hashes of the watched files among `files` in place of the
    /// old ones, and `now` as the time of the last build.
    pub fn update_hashes(&mut self, files: &[SourceFile], extensions: &[&str], now: u64)
        ensures
            final(self).file_hashes@ == hashes_of(files@, strs(extensions@)),
            final(self).last_build_timestamp == Some(now),
            final(self).version == old(self).version,
    {
        self.file_hashes = Self::compute_hashes(files, extensions);
        self.last_build_timestamp = Some(now);
    }

    /// The paths, by rising path, of the watched files among `files` that
    /// are new or whose hash is not the stored one.
    pub fn changed_files(&self, files: &[SourceFile], extensions: &[&str]) -> (changed: Vec<String>)
        ensures
            texts(changed@) == changed_paths(
                listing(hashes_of(files@, strs(extensions@))),
                self.file_hashes@,
            ),
    {
        let current = Self::compute_hashes(files, extensions);
        let ghost cur = listing(current@);
        let ghost stored = self.file_hashes@;
        let mut changed: Vec<String> = Vec::new();
        let n = current.len();
        let mut i: usize = 0;
        while i < n
            invariant
                i <= n,
                n == cur.len(),
                cur == listing(current@),
                stored == self.file_hashes@,
                texts(changed@) == changed_paths(cur.take(i as int), stored),
            decreases n - i,
        {
            let path = current.path_at(i);
            let hash = current.hash_at(i);
            proof {
                assert(cur.take(i + 1).drop_last() =~= cur.take(i as int));
            }
            let same = match self.file_hashes.get(path.as_str()) {
                Some(old_hash) => *old_hash == *hash,
                None => false,
            };
            if !same {
                let ghost before = texts(changed@);
                changed.push(path.clone());
            }
            i = i + 1;
        }
        assert(cur.take(cur.len() as int) =~= cur);
        changed
    }

    /// The master hash: one content hash for the whole map of file hashes,
    /// taken over the paths and their hashes by rising path. It depends on
    /// the entries alone, not on the order in which they were stored.
    pub fn compute_master_hash(&self) -> (r: ForgeResult<String>)
        ensures
            r matches Ok(h) && h@ == master_text(self.file_hashes@),
    {
        let hashes = &self.file_hashes;
        let ghost pairs = listing(hashes@);
        let mut buf: Vec<u8> = Vec::new();
        let n = hashes.len();
        let mut i: usize = 0;
        while i < n
            invariant
                i <= n,
                n == pairs.len(),
                pairs == listing(hashes@),
                buf@ == master_input(pairs.take(i as int)),
            decreases n - i,
        {
            proof {
                assert(pairs.take(i + 1).drop_last() =~= pairs.take(i as int));
            }
            append_bytes(&mut buf, hashes.path_at(i).as_str());
            append_bytes(&mut buf, hashes.hash_at(i).as_str());
            i = i + 1;
        }
        assert(pairs.take(pairs.len() as int) =~= pairs);
        Ok(hash_bytes(buf.as_slice()))
    }

    /// Where the build with this cache's master hash lies in the store.
    pub fn remote_request(&self, remote_config: &RemoteCacheConfig) -> (req: RemoteRequest)
        ensures
            req.master_hash@ == master_text(self.file_hashes@),
            req.archive_name@ == archive_text(req.master_hash@),
            req.url@ == url_text(remote_config.remote@, req.master_hash@),
            req.token == remote_config.token,
    {
        let master_hash = match self.compute_master_hash() {
            Ok(h) => h,
            Err(_) => String::new(),
        };
        let mut archive_name = master_hash.clone();
        archive_name.append(".tar.gz");
        let mut url = without_trailing_slashes(remote_config.remote.as_str());
        url.append("/cache/");
        url.append(archive_name.as_str());
        let token = match &remote_config.token {
            Some(t) => Some(t.clone()),
            None => None,
        };
        RemoteRequest { master_hash, archive_name, url, token }
    }

    /// The upload to make after a local build: none unless the
    /// configuration asks to push and the output directory exists.
    pub fn upload_to_remote(&self, output_exists: bool, remote_config: &RemoteCacheConfig) -> (req: Option<
        RemoteRequest,
    >)
        ensures
            req is Some <==> remote_config.push && output_exists,
            req matches Some(q) ==> {
                &&& q.master_hash@ == master_text(self.file_hashes@)
                &&& q.archive_name@ == archive_text(q.master_hash@)
                &&& q.url@ == url_text(remote_config.remote@, q.master_hash@)
                &&& q.token == remote_config.token
            },
    {
        if !remote_config.push || !output_exists {
            None
        } else {
            Some(self.remote_request(remote_config))
        }
    }

    /// The download to try before a local build.
    pub fn download_from_remote(&self, remote_config: &RemoteCacheConfig) -> (req: RemoteRequest)
        ensures
            req.master_hash@ == master_text(self.file_hashes@),
            req.archive_name@ == archive_text(req.master_hash@),
            req.url@ == url_text(remote_config.remote@, req.master_hash@),
            req.token == remote_config.token,
    {
        self.remote_request(remote_config)
    }
}

/// Whether an answer of the store is a success: a status from 200 to 299.
/// No answer at all is none.
pub fn is_success(status: Option<u16>) -> (r: bool)
    ensures
        r == (status matches Some(code) && 200 <= code <= 299),
{
    match status {
        Some(code) => 200 <= code && code <= 299,
        None => false,
    }
}

/// Whether the output directory was restored from the store: the download
/// succeeded and the archive could be unpacked. Anything else is a miss.
pub fn cache_restored(status: Option<u16>, unpacked: bool) -> (r: bool)
    ensures
        r == ((status matches Some(code) && 200 <= code <= 299) && unpacked),
{
    is_success(status) && unpacked
}

} // verus!
