//! The rules of the cache on disk: keys, freshness, and what a clean-up removes.
//!
//! Raw fetches are cached apart from rendered documents, so that a cached page can be extracted
//! in another way later, and a page that needs a browser is not rendered twice for one request.

use vstd::prelude::*;

use crate::clock;
use crate::fetch::{FetchModel, FetchResult};
use crate::text;

verus! {

/// A cached fetch.
#[derive(Debug, Clone)]
pub struct CachedFetch {
    /// When the entry was written, in seconds since the Unix epoch.
    pub fetched_at: u64,
    pub final_url: String,
    pub status: u16,
    pub content_type: Option<String>,
    pub html: String,
    pub raw_bytes: usize,
}

/// A cached fetch, as a mathematical value.
#[verifier::ext_equal]
pub struct CachedFetchModel {
    pub fetched_at: u64,
    pub final_url: Seq<char>,
    pub status: u16,
    pub content_type: Option<Seq<char>>,
    pub html: Seq<char>,
    pub raw_bytes: usize,
}

impl DeepView for CachedFetch {
    type V = CachedFetchModel;

    open spec fn deep_view(&self) -> CachedFetchModel {
        CachedFetchModel {
            fetched_at: self.fetched_at,
            final_url: self.final_url@,
            status: self.status,
            content_type: self.content_type.deep_view(),
            html: self.html@,
            raw_bytes: self.raw_bytes,
        }
    }
}

/// A cached rendering.
#[derive(Debug, Clone)]
pub struct CachedRender {
    /// When the entry was written, in seconds since the Unix epoch.
    pub fetched_at: u64,
    pub final_url: String,
    pub html: String,
    pub raw_bytes: usize,
}

/// A cached rendering, as a mathematical value.
#[verifier::ext_equal]
pub struct CachedRenderModel {
    pub fetched_at: u64,
    pub final_url: Seq<char>,
    pub html: Seq<char>,
    pub raw_bytes: usize,
}

impl DeepView for CachedRender {
    type V = CachedRenderModel;

    open spec fn deep_view(&self) -> CachedRenderModel {
        CachedRenderModel {
            fetched_at: self.fetched_at,
            final_url: self.final_url@,
            html: self.html@,
            raw_bytes: self.raw_bytes,
        }
    }
}

// ---------------------------------------------------------------------------------------------
// Keys
// ---------------------------------------------------------------------------------------------

/// The SHA-256 digest of a text's bytes.
pub uninterp spec fn sha256(bytes: Seq<u8>) -> Seq<u8>;

/// `sha2`'s `Sha256::digest`. The result is a function of the bytes and has 32 bytes.
#[verifier::external_body]
fn digest(bytes: &[u8]) -> (r: Vec<u8>)
    ensures
        r@ == sha256(bytes@),
        r@.len() == 32,
{
    <sha2::Sha256 as sha2::Digest>::digest(bytes).to_vec()
}

/// The hexadecimal digit for a number below 16.
pub open spec fn hex_digit(n: u8) -> char {
    if n < 10 {
        (48 + n) as char
    } else {
        (87 + n) as char
    }
}

/// The bytes in hexadecimal digits, two for each.
pub open spec fn hex(bytes: Seq<u8>) -> Seq<char> {
    Seq::new(
        2 * bytes.len(),
        |i: int|
            hex_digit(
                if i % 2 == 0 {
                    (bytes[i / 2] / 16) as u8
                } else {
                    (bytes[i / 2] % 16) as u8
                },
            ),
    )
}

fn to_hex(n: u8) -> (c: char)
    requires
        n < 16,
    ensures
        c == hex_digit(n),
{
    if n < 10 {
        (48 + n) as char
    } else {
        (87 + n) as char
    }
}

/// The key of an entry: the SHA-256 digest of what was asked for, in hexadecimal digits.
pub open spec fn key_of(identity: Seq<char>) -> Seq<char> {
    hex(sha256(vstd::utf8::encode_utf8(identity)))
}

/// The key of an entry: stable, and safe as a file name.
pub fn key(identity: &str) -> (r: String)
    ensures
        r@ == key_of(identity@),
        r@.len() == 64,
{
    let bytes = digest(identity.as_bytes());
    let mut out = String::new();
    let ghost all = hex(bytes@);
    assert(out@ =~= all.take(0));
    for i in 0..bytes.len()
        invariant
            all == hex(bytes@),
            out@ == all.take(2 * i),
    {
        let b = bytes[i];
        let high = to_hex(b / 16);
        let low = to_hex(b % 16);
        out.push(high);
        out.push(low);
        proof {
            assert((2 * i) / 2 == i && (2 * i) % 2 == 0);
            assert((2 * i + 1) / 2 == i && (2 * i + 1) % 2 == 1);
            assert(all[2 * i] == high);
            assert(all[2 * i + 1] == low);
            assert(all.take(2 * (i + 1)) =~= all.take(2 * i).push(high).push(low));
        }
    }
    assert(all.take(all.len() as int) =~= all);
    out
}

/// The name of the file that holds an entry.
pub fn file_name(identity: &str) -> (r: String)
    ensures
        r@ == key_of(identity@) + ".json"@,
{
    text::concat(key(identity).as_str(), ".json")
}

/// What a rendering depends on: the URL and how long and for what it waits. Selectors and formats
/// come later and are no part of it.
pub open spec fn identity_of(
    url: Seq<char>,
    js_mode: Seq<char>,
    wait_ms: nat,
    wait_for: Option<Seq<char>>,
) -> Seq<char> {
    "url="@ + url + "\njs_mode="@ + js_mode + "\nwait_ms="@ + text::decimal(wait_ms)
        + "\nwait_for="@ + match wait_for {
        Some(selector) => selector,
        None => seq![],
    }
}

/// Builds the identity of a rendering.
pub fn render_identity(url: &str, js_mode: &str, wait_ms: u128, wait_for: Option<&str>) -> (r:
    String)
    ensures
        r@ == identity_of(url@, js_mode@, wait_ms as nat, text::opt(wait_for)),
{
    let mut out = "url=".to_string();
    out.push_str(url);
    out.push_str("\njs_mode=");
    out.push_str(js_mode);
    out.push_str("\nwait_ms=");
    out.push_str(text::to_decimal(wait_ms).as_str());
    out.push_str("\nwait_for=");
    match wait_for {
        Some(selector) => {
            out.push_str(selector);
        },
        None => {
            assert(out@ + seq![] =~= out@);
        },
    }
    out
}

// ---------------------------------------------------------------------------------------------
// Freshness
// ---------------------------------------------------------------------------------------------

/// An entry from `fetched_at` is at most `ttl` seconds old. One from the future counts as new.
pub open spec fn fresh(now: u64, fetched_at: u64, ttl: u64) -> bool {
    now - fetched_at <= ttl
}

/// Whether an entry is at most `ttl` seconds old.
pub fn is_fresh(now: u64, fetched_at: u64, ttl: u64) -> (r: bool)
    ensures
        r == fresh(now, fetched_at, ttl),
{
    now.saturating_sub(fetched_at) <= ttl
}

/// The seconds since the Unix epoch, as [`clock::seconds`] reads them.
pub fn now() -> (n: u64) {
    clock::seconds()
}

/// The cached fetch, where it is fresh.
pub open spec fn kept(entry: Option<CachedFetchModel>, now: u64, ttl: u64) -> Option<
    CachedFetchModel,
> {
    match entry {
        Some(e) => if fresh(now, e.fetched_at, ttl) {
            Some(e)
        } else {
            None
        },
        None => None,
    }
}

/// The cached rendering, where it is fresh.
pub open spec fn kept_render(entry: Option<CachedRenderModel>, now: u64, ttl: u64) -> Option<
    CachedRenderModel,
> {
    match entry {
        Some(e) => if fresh(now, e.fetched_at, ttl) {
            Some(e)
        } else {
            None
        },
        None => None,
    }
}

/// Keeps a cached fetch that is fresh.
pub fn keep_fresh(entry: Option<CachedFetch>, now: u64, ttl: u64) -> (r: Option<CachedFetch>)
    ensures
        r.deep_view() == kept(entry.deep_view(), now, ttl),
{
    match entry {
        Some(e) => if is_fresh(now, e.fetched_at, ttl) {
            Some(e)
        } else {
            None
        },
        None => None,
    }
}

/// Keeps a cached rendering that is fresh.
pub fn keep_fresh_render(entry: Option<CachedRender>, now: u64, ttl: u64) -> (r: Option<
    CachedRender,
>)
    ensures
        r.deep_view() == kept_render(entry.deep_view(), now, ttl),
{
    match entry {
        Some(e) => if is_fresh(now, e.fetched_at, ttl) {
            Some(e)
        } else {
            None
        },
        None => None,
    }
}

/// The entry for a fetched page.
pub open spec fn entry_of(fetched: FetchModel, now: u64) -> CachedFetchModel {
    CachedFetchModel {
        fetched_at: now,
        final_url: fetched.final_url,
        status: fetched.status,
        content_type: fetched.content_type,
        html: fetched.html,
        raw_bytes: fetched.raw_bytes,
    }
}

/// The page that an entry holds.
pub open spec fn page_of(entry: CachedFetchModel) -> FetchModel {
    FetchModel {
        final_url: entry.final_url,
        status: entry.status,
        content_type: entry.content_type,
        html: entry.html,
        raw_bytes: entry.raw_bytes,
    }
}

/// Makes the entry for a fetched page.
pub fn make_entry(fetched: &FetchResult, now: u64) -> (r: CachedFetch)
    ensures
        r.deep_view() == entry_of(fetched.deep_view(), now),
{
    CachedFetch {
        fetched_at: now,
        final_url: fetched.final_url.clone(),
        status: fetched.status,
        content_type: text::copy_opt(&fetched.content_type),
        html: fetched.html.clone(),
        raw_bytes: fetched.raw_bytes,
    }
}

/// Takes the page out of an entry.
pub fn take_page(entry: CachedFetch) -> (r: FetchResult)
    ensures
        r.deep_view() == page_of(entry.deep_view()),
{
    FetchResult {
        final_url: entry.final_url,
        status: entry.status,
        content_type: entry.content_type,
        html: entry.html,
        raw_bytes: entry.raw_bytes,
    }
}

// ---------------------------------------------------------------------------------------------
// Maintenance
// ---------------------------------------------------------------------------------------------

/// A file in a directory of the cache.
#[derive(Debug)]
pub struct FileEntry {
    /// Its name, where that is text.
    pub name: Option<String>,
    /// Its size, where it is a plain file.
    pub size: Option<u64>,
    /// What reading its time stamp gave.
    pub stamp: Stamp,
}

/// What reading the time stamp of an entry gave.
#[derive(Debug, Clone, Copy, PartialEq, Eq, Structural)]
pub enum Stamp {
    /// The file could not be read.
    Unreadable,
    /// The file holds no entry.
    Corrupt,
    /// The entry was written at that time.
    Written(u64),
}

/// What a clean-up removed.
#[derive(Debug, Clone, Copy, PartialEq, Eq, Structural)]
pub struct CachePurge {
    /// Files removed.
    pub removed: usize,
    /// Bytes freed.
    pub bytes: u64,
}

impl Default for CachePurge {
    fn default() -> (r: CachePurge)
        ensures
            r == (CachePurge { removed: 0, bytes: 0 }),
    {
        CachePurge { removed: 0, bytes: 0 }
    }
}

impl CachePurge {
    /// Counts one more removed file.
    pub fn record(&mut self, size: u64)
        requires
            old(self).removed < usize::MAX,
            old(self).bytes + size <= u64::MAX,
        ensures
            final(self).removed == old(self).removed + 1,
            final(self).bytes == old(self).bytes + size,
    {
        self.removed = self.removed + 1;
        self.bytes = self.bytes + size;
    }

    /// Counts what another clean-up removed as well.
    pub fn absorb(&mut self, other: CachePurge)
        requires
            old(self).removed + other.removed <= usize::MAX,
            old(self).bytes + other.bytes <= u64::MAX,
        ensures
            final(self).removed == old(self).removed + other.removed,
            final(self).bytes == old(self).bytes + other.bytes,
    {
        self.removed = self.removed + other.removed;
        self.bytes = self.bytes + other.bytes;
    }
}

/// How many entries each part of the cache holds, and their sizes.
#[derive(Debug, Clone, Copy, PartialEq, Eq, Structural)]
pub struct CacheReport {
    pub fetch_entries: usize,
    pub fetch_bytes: u64,
    pub render_entries: usize,
    pub render_bytes: u64,
}

impl Default for CacheReport {
    fn default() -> (r: CacheReport)
        ensures
            r == (CacheReport {
                fetch_entries: 0,
                fetch_bytes: 0,
                render_entries: 0,
                render_bytes: 0,
            }),
    {
        CacheReport { fetch_entries: 0, fetch_bytes: 0, render_entries: 0, render_bytes: 0 }
    }
}

impl CacheReport {
    /// The entries of both parts.
    pub fn total_entries(&self) -> (n: usize)
        requires
            self.fetch_entries + self.render_entries <= usize::MAX,
        ensures
            n == self.fetch_entries + self.render_entries,
    {
        self.fetch_entries + self.render_entries
    }

    /// The bytes of both parts.
    pub fn total_bytes(&self) -> (n: u64)
        requires
            self.fetch_bytes + self.render_bytes <= u64::MAX,
        ensures
            n == self.fetch_bytes + self.render_bytes,
    {
        self.fetch_bytes + self.render_bytes
    }
}

/// The name is that of a cache file: it has the extension `json`, with something before it.
pub open spec fn cache_file_name(name: Seq<char>) -> bool {
    text::ends(name, ".json"@) && name.len() > 5
}

/// Whether the name is that of a cache file. Nothing else is ever touched.
pub fn is_cache_file(name: &str) -> (r: bool)
    ensures
        r == cache_file_name(name@),
{
    let chars = text::to_chars(name);
    text::ends_with(chars.as_slice(), ".json") && chars.len() > 5
}

/// The size of a plain file of the cache; nothing for any other.
pub open spec fn entry_size(e: FileEntry) -> Option<u64> {
    match e.name {
        Some(name) => if cache_file_name(name@) {
            e.size
        } else {
            None
        },
        None => None,
    }
}

fn size_of_entry(e: &FileEntry) -> (r: Option<u64>)
    ensures
        r == entry_size(*e),
{
    match &e.name {
        Some(name) => if is_cache_file(name.as_str()) {
            e.size
        } else {
            None
        },
        None => None,
    }
}

/// How many of the files are entries of the cache.
pub open spec fn entry_count(files: Seq<FileEntry>) -> nat
    decreases files.len(),
{
    if files.len() == 0 {
        0
    } else {
        entry_count(files.drop_last()) + if entry_size(files.last()) is Some {
            1nat
        } else {
            0nat
        }
    }
}

/// How many bytes the entries of the cache among the files have.
pub open spec fn entry_bytes(files: Seq<FileEntry>) -> nat
    decreases files.len(),
{
    if files.len() == 0 {
        0
    } else {
        entry_bytes(files.drop_last()) + match entry_size(files.last()) {
            Some(n) => n as nat,
            None => 0nat,
        }
    }
}

proof fn lemma_entries_bounded(files: Seq<FileEntry>, n: int)
    requires
        0 <= n <= files.len(),
    ensures
        entry_count(files.take(n)) <= n,
        entry_bytes(files.take(n)) <= entry_bytes(files),
    decreases files.len(),
{
    if n < files.len() {
        lemma_entries_bounded(files.drop_last(), n);
        assert(files.drop_last().take(n) =~= files.take(n));
    } else if n > 0 {
        lemma_entries_bounded(files.drop_last(), n - 1);
        assert(files.take(n) =~= files);
        assert(files.drop_last().take(n - 1) =~= files.drop_last());
    } else {
        assert(files.take(n) =~= files);
    }
}

/// Counts the entries of the cache in a directory and sums up their sizes.
pub fn dir_report(files: &Vec<FileEntry>) -> (r: (usize, u64))
    requires
        entry_bytes(files@) <= u64::MAX,
    ensures
        r.0 == entry_count(files@),
        r.1 == entry_bytes(files@),
{
    let mut count: usize = 0;
    let mut bytes: u64 = 0;
    for i in 0..files.len()
        invariant
            entry_bytes(files@) <= u64::MAX,
            count == entry_count(files@.take(i as int)),
            bytes == entry_bytes(files@.take(i as int)),
            count <= i,
    {
        proof {
            assert(files@.take(i + 1).drop_last() =~= files@.take(i as int));
            lemma_entries_bounded(files@, i + 1);
        }
        if let Some(n) = size_of_entry(&files[i]) {
            count = count + 1;
            bytes = bytes + n;
        }
    }
    assert(files@.take(files@.len() as int) =~= files@);
    (count, bytes)
}

/// Summarises both parts of the cache.
pub fn report(fetch: &Vec<FileEntry>, render: &Vec<FileEntry>) -> (r: CacheReport)
    requires
        entry_bytes(fetch@) <= u64::MAX,
        entry_bytes(render@) <= u64::MAX,
    ensures
        r.fetch_entries == entry_count(fetch@),
        r.fetch_bytes == entry_bytes(fetch@),
        r.render_entries == entry_count(render@),
        r.render_bytes == entry_bytes(render@),
{
    let (fetch_entries, fetch_bytes) = dir_report(fetch);
    let (render_entries, render_bytes) = dir_report(render);
    CacheReport { fetch_entries, fetch_bytes, render_entries, render_bytes }
}

/// The entry is older than the cutoff, or is none at all. What cannot be read for the moment is
/// left alone.
pub open spec fn expired(stamp: Stamp, cutoff: u64) -> bool {
    match stamp {
        Stamp::Unreadable => false,
        Stamp::Corrupt => true,
        Stamp::Written(at) => at < cutoff,
    }
}

/// Whether an entry is older than the cutoff, or is none at all.
pub fn entry_is_expired(stamp: Stamp, cutoff: u64) -> (r: bool)
    ensures
        r == expired(stamp, cutoff),
{
    match stamp {
        Stamp::Unreadable => false,
        Stamp::Corrupt => true,
        Stamp::Written(at) => at < cutoff,
    }
}

/// The time before which entries are stale.
pub open spec fn cutoff_of(now: u64, ttl: u64) -> u64 {
    if now >= ttl {
        (now - ttl) as u64
    } else {
        0
    }
}

/// The positions of the files that are entries of the cache and, where there is a cutoff, have
/// expired by it.
pub open spec fn doomed(files: Seq<FileEntry>, cutoff: Option<u64>) -> Seq<usize>
    decreases files.len(),
{
    if files.len() == 0 {
        seq![]
    } else {
        let before = doomed(files.drop_last(), cutoff);
        let e = files.last();
        if entry_size(e) is Some && (cutoff matches Some(c) ==> expired(e.stamp, c)) {
            before.push((files.len() - 1) as usize)
        } else {
            before
        }
    }
}

fn purge_list(files: &Vec<FileEntry>, cutoff: Option<u64>) -> (r: Vec<usize>)
    ensures
        r@ == doomed(files@, cutoff),
{
    let mut out: Vec<usize> = Vec::new();
    assert(out@ =~= doomed(files@.take(0), cutoff));
    for i in 0..files.len()
        invariant
            out@ == doomed(files@.take(i as int), cutoff),
    {
        assert(files@.take(i + 1).drop_last() =~= files@.take(i as int));
        let e = &files[i];
        let wanted = match cutoff {
            Some(c) => entry_is_expired(e.stamp, c),
            None => true,
        };
        if size_of_entry(e).is_some() && wanted {
            out.push(i);
        }
    }
    assert(files@.take(files@.len() as int) =~= files@);
    out
}

/// Picks the files that clearing the cache removes: all its entries, and nothing else. They are
/// given by their positions.
pub fn clear(files: &Vec<FileEntry>) -> (r: Vec<usize>)
    ensures
        r@ == doomed(files@, None),
{
    purge_list(files, None)
}

/// Picks the files that pruning the cache removes: the entries older than `ttl` seconds, and
/// those that hold no entry. They are given by their positions.
pub fn prune(files: &Vec<FileEntry>, now: u64, ttl: u64) -> (r: Vec<usize>)
    ensures
        r@ == doomed(files@, Some(cutoff_of(now, ttl))),
{
    purge_list(files, Some(now.saturating_sub(ttl)))
}

// ---------------------------------------------------------------------------------------------
// Laws
// ---------------------------------------------------------------------------------------------

/// Pruning removes an entry exactly where a lookup would not serve it any more.
pub proof fn law_pruning_agrees_with_lookups(now: u64, written: u64, ttl: u64)
    ensures
        expired(Stamp::Written(written), cutoff_of(now, ttl)) <==> !fresh(now, written, ttl),
{
}

/// Only cache files are ever removed.
pub proof fn law_foreign_files_are_kept(files: Seq<FileEntry>, cutoff: Option<u64>, i: int)
    requires
        files.len() <= usize::MAX,
        0 <= i < doomed(files, cutoff).len(),
    ensures
        0 <= doomed(files, cutoff)[i] < files.len(),
        entry_size(files[doomed(files, cutoff)[i] as int]) is Some,
        cutoff matches Some(c) ==> expired(files[doomed(files, cutoff)[i] as int].stamp, c),
    decreases files.len(),
{
    let before = doomed(files.drop_last(), cutoff);
    if i < before.len() {
        law_foreign_files_are_kept(files.drop_last(), cutoff, i);
        assert(doomed(files, cutoff)[i] == before[i]);
        assert(files.drop_last()[before[i] as int] == files[before[i] as int]);
    } else {
        assert(doomed(files, cutoff)[i] == files.len() - 1);
    }
}

/// How many bytes the files at those positions have.
pub open spec fn bytes_at(files: Seq<FileEntry>, positions: Seq<usize>) -> nat
    decreases positions.len(),
{
    if positions.len() == 0 {
        0
    } else {
        bytes_at(files, positions.drop_last()) + match entry_size(
            files[positions.last() as int],
        ) {
            Some(n) => n as nat,
            None => 0nat,
        }
    }
}

proof fn lemma_bytes_at(files: Seq<FileEntry>, positions: Seq<usize>)
    requires
        files.len() > 0,
        forall|i: int| 0 <= i < positions.len() ==> (#[trigger] positions[i]) < files.len() - 1,
    ensures
        bytes_at(files, positions) == bytes_at(files.drop_last(), positions),
    decreases positions.len(),
{
    if positions.len() > 0 {
        assert(positions[positions.len() - 1] < files.len() - 1);
        assert forall|i: int| 0 <= i < positions.drop_last().len() implies (
        #[trigger] positions.drop_last()[i]) < files.len() - 1 by {
            assert(positions.drop_last()[i] == positions[i]);
        }
        lemma_bytes_at(files, positions.drop_last());
    }
}

/// Clearing removes exactly the entries, and the bytes, that a report counts.
pub proof fn law_clearing_removes_what_a_report_counts(files: Seq<FileEntry>)
    requires
        files.len() <= usize::MAX,
    ensures
        doomed(files, None).len() == entry_count(files),
        bytes_at(files, doomed(files, None)) == entry_bytes(files),
    decreases files.len(),
{
    if files.len() > 0 {
        let before = doomed(files.drop_last(), None);
        law_clearing_removes_what_a_report_counts(files.drop_last());
        assert forall|i: int| 0 <= i < before.len() implies (#[trigger] before[i]) < files.len()
            - 1 by {
            law_foreign_files_are_kept(files.drop_last(), None, i);
        }
        lemma_bytes_at(files, before);
        if entry_size(files.last()) is Some {
            assert(doomed(files, None).drop_last() =~= before);
            assert(doomed(files, None).last() == files.len() - 1);
        }
    }
}

/// A page that is stored and served again is the same page.
pub proof fn law_stored_pages_come_back(fetched: FetchModel, now: u64)
    ensures
        page_of(entry_of(fetched, now)) == fetched,
{
}

/// No line feed stands in `s`.
pub open spec fn single_line(s: Seq<char>) -> bool {
    forall|i: int| 0 <= i < s.len() ==> s[i] != '\n'
}

proof fn lemma_line_split(a: Seq<char>, b: Seq<char>, x: Seq<char>, y: Seq<char>)
    requires
        single_line(a),
        single_line(b),
        x.len() > 0,
        y.len() > 0,
        x[0] == '\n',
        y[0] == '\n',
        a + x == b + y,
    ensures
        a == b,
        x == y,
{
    if a.len() < b.len() {
        assert((a + x)[a.len() as int] == '\n');
        assert((b + y)[a.len() as int] == b[a.len() as int]);
    }
    if b.len() < a.len() {
        assert((b + y)[b.len() as int] == '\n');
        assert((a + x)[b.len() as int] == a[b.len() as int]);
    }
    assert(a =~= b) by {
        assert forall|i: int| 0 <= i < a.len() implies a[i] == b[i] by {
            assert((a + x)[i] == a[i]);
            assert((b + y)[i] == b[i]);
        }
    }
    assert(a.len() == b.len());
    assert((a + x).len() == a.len() + x.len());
    assert((b + y).len() == b.len() + y.len());
    assert(x =~= y) by {
        assert forall|i: int| 0 <= i < x.len() implies x[i] == y[i] by {
            assert((a + x)[a.len() + i] == x[i]);
            assert((b + y)[a.len() + i] == y[i]);
        }
    }
}

spec fn waiting_for(wait_for: Option<Seq<char>>) -> Seq<char> {
    "\nwait_for="@ + match wait_for {
        Some(selector) => selector,
        None => seq![],
    }
}

spec fn waiting(wait_ms: nat, wait_for: Option<Seq<char>>) -> Seq<char> {
    "\nwait_ms="@ + (text::decimal(wait_ms) + waiting_for(wait_for))
}

spec fn rendering(js_mode: Seq<char>, wait_ms: nat, wait_for: Option<Seq<char>>) -> Seq<char> {
    "\njs_mode="@ + (js_mode + waiting(wait_ms, wait_for))
}

proof fn lemma_identity(
    url: Seq<char>,
    js_mode: Seq<char>,
    wait_ms: nat,
    wait_for: Option<Seq<char>>,
)
    ensures
        identity_of(url, js_mode, wait_ms, wait_for) == "url="@ + (url + rendering(
            js_mode,
            wait_ms,
            wait_for,
        )),
        rendering(js_mode, wait_ms, wait_for)[0] == '\n',
        rendering(js_mode, wait_ms, wait_for).len() > 0,
        waiting(wait_ms, wait_for)[0] == '\n',
        waiting(wait_ms, wait_for).len() > 0,
        waiting_for(wait_for)[0] == '\n',
        waiting_for(wait_for).len() > 0,
{
    assert(identity_of(url, js_mode, wait_ms, wait_for) =~= "url="@ + (url + rendering(
        js_mode,
        wait_ms,
        wait_for,
    )));
    reveal_strlit("\njs_mode=");
    reveal_strlit("\nwait_ms=");
    reveal_strlit("\nwait_for=");
}

proof fn lemma_field_split(
    p: Seq<char>,
    a: Seq<char>,
    b: Seq<char>,
    x: Seq<char>,
    y: Seq<char>,
)
    requires
        single_line(a),
        single_line(b),
        x.len() > 0,
        y.len() > 0,
        x[0] == '\n',
        y[0] == '\n',
        p + (a + x) == p + (b + y),
    ensures
        a == b,
        x == y,
{
    assert((p + (a + x)).skip(p.len() as int) =~= a + x);
    assert((p + (b + y)).skip(p.len() as int) =~= b + y);
    lemma_line_split(a, b, x, y);
}

/// Two renderings share an identity only where they have the same URL, mode and waiting time,
/// and wait for the same selector, where waiting for none counts as waiting for an empty one.
/// URLs and modes hold no line feed.
pub proof fn law_identities_tell_renderings_apart(
    url_a: Seq<char>,
    mode_a: Seq<char>,
    ms_a: nat,
    for_a: Option<Seq<char>>,
    url_b: Seq<char>,
    mode_b: Seq<char>,
    ms_b: nat,
    for_b: Option<Seq<char>>,
)
    requires
        single_line(url_a),
        single_line(url_b),
        single_line(mode_a),
        single_line(mode_b),
        identity_of(url_a, mode_a, ms_a, for_a) == identity_of(url_b, mode_b, ms_b, for_b),
    ensures
        url_a == url_b,
        mode_a == mode_b,
        ms_a == ms_b,
        (match for_a {
            Some(s) => s,
            None => seq![],
        }) == (match for_b {
            Some(s) => s,
            None => seq![],
        }),
{
    lemma_identity(url_a, mode_a, ms_a, for_a);
    lemma_identity(url_b, mode_b, ms_b, for_b);
    lemma_field_split(
        "url="@,
        url_a,
        url_b,
        rendering(mode_a, ms_a, for_a),
        rendering(mode_b, ms_b, for_b),
    );
    lemma_field_split(
        "\njs_mode="@,
        mode_a,
        mode_b,
        waiting(ms_a, for_a),
        waiting(ms_b, for_b),
    );
    text::lemma_decimal(ms_a);
    text::lemma_decimal(ms_b);
    lemma_field_split(
        "\nwait_ms="@,
        text::decimal(ms_a),
        text::decimal(ms_b),
        waiting_for(for_a),
        waiting_for(for_b),
    );
    text::lemma_decimal_injective(ms_a, ms_b);
    let n = "\nwait_for="@.len() as int;
    assert(waiting_for(for_a).skip(n) == waiting_for(for_b).skip(n));
    assert(waiting_for(for_a).skip(n) =~= match for_a {
        Some(s) => s,
        None => seq![],
    });
    assert(waiting_for(for_b).skip(n) =~= match for_b {
        Some(s) => s,
        None => seq![],
    });
}

/// A page that was stored comes back, as it was, until its lifetime is over, and not after.
pub proof fn law_pages_come_back_for_their_lifetime(
    fetched: FetchModel,
    written: u64,
    now: u64,
    ttl: u64,
)
    ensures
        kept(Some(entry_of(fetched, written)), now, ttl) == if fresh(now, written, ttl) {
            Some(entry_of(fetched, written))
        } else {
            None
        },
        fresh(now, written, ttl) ==> page_of(kept(Some(entry_of(fetched, written)), now, ttl)->0)
            == fetched,
{
    law_stored_pages_come_back(fetched, written);
}

/// Two keys agree only where the digests do.
pub proof fn law_hex_is_injective(a: Seq<u8>, b: Seq<u8>)
    requires
        hex(a) == hex(b),
    ensures
        a == b,
{
    assert(hex(a).len() == 2 * a.len());
    assert(hex(b).len() == 2 * b.len());
    assert forall|i: int| 0 <= i < a.len() implies a[i] == b[i] by {
        assert((2 * i) / 2 == i && (2 * i) % 2 == 0);
        assert((2 * i + 1) / 2 == i && (2 * i + 1) % 2 == 1);
        assert(hex(a)[2 * i] == hex_digit((a[i] / 16) as u8));
        assert(hex(b)[2 * i] == hex_digit((b[i] / 16) as u8));
        assert(hex(a)[2 * i + 1] == hex_digit((a[i] % 16) as u8));
        assert(hex(b)[2 * i + 1] == hex_digit((b[i] % 16) as u8));
        lemma_hex_digit((a[i] / 16) as u8, (b[i] / 16) as u8);
        lemma_hex_digit((a[i] % 16) as u8, (b[i] % 16) as u8);
    }
    assert(a =~= b);
}

proof fn lemma_hex_digit(m: u8, n: u8)
    requires
        m < 16,
        n < 16,
        hex_digit(m) == hex_digit(n),
    ensures
        m == n,
{
}

/// An entry is served until `ttl` seconds have gone by since it was written, unchanged, and never
/// after that.
pub proof fn law_entries_live_for_their_lifetime(
    entry: CachedFetchModel,
    rendering: CachedRenderModel,
    now: u64,
    ttl: u64,
)
    ensures
        now <= entry.fetched_at + ttl ==> kept(Some(entry), now, ttl) == Some(entry),
        now > entry.fetched_at + ttl ==> kept(Some(entry), now, ttl) is None,
        now <= rendering.fetched_at + ttl ==> kept_render(Some(rendering), now, ttl) == Some(
            rendering,
        ),
        now > rendering.fetched_at + ttl ==> kept_render(Some(rendering), now, ttl) is None,
        kept(None, now, ttl) is None,
        kept_render(None, now, ttl) is None,
        forall|at: u64| #[trigger] fresh(now, at, ttl) <==> now <= at + ttl,
{
}

/// A stored page carries the time at which it was stored, and everything that was fetched.
pub proof fn law_an_entry_holds_the_page(fetched: FetchModel, now: u64)
    ensures
        entry_of(fetched, now).fetched_at == now,
        entry_of(fetched, now).final_url == fetched.final_url,
        entry_of(fetched, now).status == fetched.status,
        entry_of(fetched, now).content_type == fetched.content_type,
        entry_of(fetched, now).html == fetched.html,
        entry_of(fetched, now).raw_bytes == fetched.raw_bytes,
{
}

/// A key writes each byte of the digest with two small hexadecimal digits, the higher one first.
pub proof fn law_keys_are_written_in_hexadecimal(identity: Seq<char>, i: int)
    requires
        0 <= i < sha256(vstd::utf8::encode_utf8(identity)).len(),
    ensures
        ({
            let digest = sha256(vstd::utf8::encode_utf8(identity));
            &&& key_of(identity).len() == 2 * digest.len()
            &&& key_of(identity)[2 * i] == "0123456789abcdef"@[digest[i] as int / 16]
            &&& key_of(identity)[2 * i + 1] == "0123456789abcdef"@[digest[i] as int % 16]
        }),
{
    let digest = sha256(vstd::utf8::encode_utf8(identity));
    reveal_strlit("0123456789abcdef");
    assert((2 * i) / 2 == i && (2 * i) % 2 == 0);
    assert((2 * i + 1) / 2 == i && (2 * i + 1) % 2 == 1);
    let high = (digest[i] / 16) as u8;
    let low = (digest[i] % 16) as u8;
    assert(key_of(identity)[2 * i] == hex_digit(high));
    assert(key_of(identity)[2 * i + 1] == hex_digit(low));
    lemma_hex_letter(high);
    lemma_hex_letter(low);
}

proof fn lemma_hex_letter(n: u8)
    requires
        n < 16,
    ensures
        hex_digit(n) == "0123456789abcdef"@[n as int],
{
    reveal_strlit("0123456789abcdef");
}

/// Clearing removes every plain file of the cache, and pruning those that were written before the
/// lifetime of an entry began or that hold no entry. Both leave everything else alone: what has
/// another extension, and what cannot be read for the moment.
pub proof fn law_what_a_cleanup_removes(files: Seq<FileEntry>, now: u64, ttl: u64, k: int)
    requires
        files.len() <= usize::MAX,
        0 <= k < files.len(),
    ensures
        ({
            let f = files[k];
            let ours = f.size is Some && (f.name matches Some(name) && name@.len() > 5
                && name@.skip(name@.len() - 5) == ".json"@);
            let stale = match f.stamp {
                Stamp::Unreadable => false,
                Stamp::Corrupt => true,
                Stamp::Written(at) => at + ttl < now,
            };
            &&& doomed(files, None).contains(k as usize) <==> ours
            &&& doomed(files, Some(cutoff_of(now, ttl))).contains(k as usize) <==> ours && stale
        }),
{
    let f = files[k];
    reveal_strlit(".json");
    if let Some(name) = f.name {
        let n = name@;
        if n.len() > 5 {
            assert(n.subrange(n.len() - 5, n.len() as int) =~= n.skip(n.len() - 5));
        }
    }
    lemma_doomed(files, None, k);
    lemma_doomed(files, Some(cutoff_of(now, ttl)), k);
}

proof fn lemma_doomed(files: Seq<FileEntry>, cutoff: Option<u64>, k: int)
    requires
        files.len() <= usize::MAX,
        0 <= k < files.len(),
    ensures
        doomed(files, cutoff).contains(k as usize) <==> entry_size(files[k]) is Some && (
        cutoff matches Some(c) ==> expired(files[k].stamp, c)),
    decreases files.len(),
{
    let all = doomed(files, cutoff);
    let before = doomed(files.drop_last(), cutoff);
    if k < files.len() - 1 {
        lemma_doomed(files.drop_last(), cutoff, k);
        if before.contains(k as usize) {
            let i = choose|i: int| 0 <= i < before.len() && before[i] == k;
            assert(all[i] == k as usize);
        }
        if all.contains(k as usize) {
            let i = choose|i: int| 0 <= i < all.len() && all[i] == k;
            assert(i < before.len());
            assert(before[i] == k as usize);
        }
    } else {
        if all.contains(k as usize) {
            let i = choose|i: int| 0 <= i < all.len() && all[i] == k;
            if i < before.len() {
                law_foreign_files_are_kept(files.drop_last(), cutoff, i);
            }
        }
        if all.len() > before.len() {
            assert(all[all.len() - 1] == k as usize);
        }
    }
}

/// A report counts every plain file with the extension `json` and adds up the sizes, whatever the
/// order of the files. Nothing else counts.
pub proof fn law_a_report_adds_up(front: Seq<FileEntry>, back: Seq<FileEntry>, f: FileEntry)
    ensures
        entry_count(front + back) == entry_count(front) + entry_count(back),
        entry_bytes(front + back) == entry_bytes(front) + entry_bytes(back),
        ({
            let ours = f.size is Some && (f.name matches Some(name) && name@.len() > 5
                && name@.skip(name@.len() - 5) == ".json"@);
            &&& entry_count(seq![f]) == if ours {
                1nat
            } else {
                0nat
            }
            &&& entry_bytes(seq![f]) == if ours {
                f.size->0 as nat
            } else {
                0nat
            }
        }),
    decreases back.len(),
{
    reveal_strlit(".json");
    if let Some(name) = f.name {
        let n = name@;
        if n.len() > 5 {
            assert(n.subrange(n.len() - 5, n.len() as int) =~= n.skip(n.len() - 5));
        }
    }
    assert(seq![f].drop_last() =~= seq![]);
    assert(entry_count(seq![]) == 0);
    assert(entry_bytes(seq![]) == 0);
    if back.len() == 0 {
        assert(front + back =~= front);
    } else {
        law_a_report_adds_up(front, back.drop_last(), f);
        assert((front + back).drop_last() =~= front + back.drop_last());
        assert((front + back).last() == back.last());
    }
}

/// The mathematical value of an entry shows every part of it.
pub proof fn law_views_show_every_part(e: CachedFetch, r: CachedRender)
    ensures
        e.deep_view().fetched_at == e.fetched_at && e.deep_view().final_url == e.final_url@
            && e.deep_view().status == e.status && e.deep_view().content_type
            == e.content_type.deep_view() && e.deep_view().html == e.html@
            && e.deep_view().raw_bytes == e.raw_bytes,
        r.deep_view().fetched_at == r.fetched_at && r.deep_view().final_url == r.final_url@
            && r.deep_view().html == r.html@ && r.deep_view().raw_bytes == r.raw_bytes,
{
}

} // verus!
