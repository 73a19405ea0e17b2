//! The hash cache engine: a concurrent index from canonical path to
//! `(digest, observed mtime)` held in a `dashmap::DashMap` behind trusted
//! wrappers, and the verified decisions around it — when a cached digest may
//! be served, when the file must be re-read, and what the watcher must do.

use vstd::prelude::*;

use crate::bytes::{clone_bytes, dir_of};
use crate::watcher::WatchBook;

verus! {

#[verifier::external_type_specification]
#[verifier::external_body]
#[verifier::reject_recursive_types(K)]
#[verifier::reject_recursive_types(V)]
#[verifier::reject_recursive_types(S)]
pub struct ExDashMap<K, V, S>(dashmap::DashMap<K, V, S>);

/// What a digest index holds: for each canonical path, the digest bytes and
/// the file modification time observed when the digest was computed.
pub uninterp spec fn index_of(
    m: dashmap::DashMap<Vec<u8>, (Vec<u8>, u128), std::collections::hash_map::RandomState>,
) -> Map<Seq<u8>, (Seq<u8>, u128)>;

/// The empty digest index.
pub open spec fn empty_index() -> Map<Seq<u8>, (Seq<u8>, u128)> {
    Map::empty()
}

/// Relies on dashmap::DashMap::new: a fresh map holds no entries.
#[verifier::external_body]
fn index_new() -> (r: dashmap::DashMap<Vec<u8>, (Vec<u8>, u128), std::collections::hash_map::RandomState>)
    ensures
        index_of(r) == empty_index(),
{
    dashmap::DashMap::new()
}

/// Relies on dashmap::DashMap::get: returns the value stored at the key, or
/// nothing when the key is absent. The value is cloned out of the map's
/// guard.
#[verifier::external_body]
fn index_get(
    m: &dashmap::DashMap<Vec<u8>, (Vec<u8>, u128), std::collections::hash_map::RandomState>,
    key: &Vec<u8>,
) -> (r: Option<(Vec<u8>, u128)>)
    ensures
        match r {
            Some(v) => index_of(*m).contains_key(key@) && index_of(*m)[key@] == (v.0@, v.1),
            None => !index_of(*m).contains_key(key@),
        },
{
    m.get(key).map(|entry| entry.value().clone())
}

/// Relies on dashmap::DashMap::insert: maps the key to the value, replacing
/// any entry the key had.
#[verifier::external_body]
fn index_insert(
    m: &mut dashmap::DashMap<Vec<u8>, (Vec<u8>, u128), std::collections::hash_map::RandomState>,
    key: Vec<u8>,
    value: (Vec<u8>, u128),
)
    ensures
        index_of(*final(m)) == index_of(*old(m)).insert(key@, (value.0@, value.1)),
{
    m.insert(key, value);
}

/// Relies on dashmap::DashMap::remove: drops the entry at the key, if any,
/// and returns it.
#[verifier::external_body]
fn index_remove(
    m: &mut dashmap::DashMap<Vec<u8>, (Vec<u8>, u128), std::collections::hash_map::RandomState>,
    key: &Vec<u8>,
) -> (r: Option<(Vec<u8>, u128)>)
    ensures
        index_of(*final(m)) == index_of(*old(m)).remove(key@),
        match r {
            Some(v) => index_of(*old(m)).contains_key(key@) && index_of(*old(m))[key@] == (
                v.0@,
                v.1,
            ),
            None => !index_of(*old(m)).contains_key(key@),
        },
{
    m.remove(key).map(|kv| kv.1)
}

/// Relies on dashmap::DashMap::clear: drops every entry.
#[verifier::external_body]
fn index_clear(
    m: &mut dashmap::DashMap<Vec<u8>, (Vec<u8>, u128), std::collections::hash_map::RandomState>,
)
    ensures
        index_of(*final(m)) == empty_index(),
{
    m.clear();
}

/// How the cache learns that a cached file changed: by filesystem change
/// events on watched directories, or lazily by comparing modification
/// times on every lookup. Fixed when the cache is built.
pub enum MonitoringMode {
    Watch,
    Timestamp,
}

/// Whether a lookup may be served from the cache, and with what.
///
/// `spec_plan(entries, mode, path, mtime) == Some(d)` says the cached
/// digest `d` is served without re-reading the file; `None` says the file
/// must be re-read and re-hashed. A cached entry is trusted outright in
/// watch mode (the watcher evicts stale entries), and only while the
/// observed modification time is unchanged in timestamp mode.
pub open spec fn spec_plan(
    entries: Map<Seq<u8>, (Seq<u8>, u128)>,
    mode: MonitoringMode,
    path: Seq<u8>,
    mtime: Option<u128>,
) -> Option<Seq<u8>> {
    if entries.contains_key(path) {
        match mode {
            MonitoringMode::Watch => Some(entries[path].0),
            MonitoringMode::Timestamp => if mtime == Some(entries[path].1) {
                Some(entries[path].0)
            } else {
                None
            },
        }
    } else {
        None
    }
}

/// The answer of a cache lookup: the cached digest, or the instruction to
/// re-read and re-hash the file.
pub enum GetPlan {
    Cached(Vec<u8>),
    NeedsHash,
}

/// The digest cache: a concurrent index from canonical path to
/// `(digest, observed mtime)`, with watch bookkeeping that mirrors the
/// index in watch mode and stays empty in timestamp mode.
pub struct HashCache {
    index: dashmap::DashMap<Vec<u8>, (Vec<u8>, u128), std::collections::hash_map::RandomState>,
    mode: MonitoringMode,
    book: WatchBook,
}

impl HashCache {
    /// The cached entries: canonical path to digest and observed mtime.
    pub closed spec fn entries(self) -> Map<Seq<u8>, (Seq<u8>, u128)> {
        index_of(self.index)
    }

    pub closed spec fn mode(self) -> MonitoringMode {
        self.mode
    }

    /// The directory `d` is under watch.
    pub closed spec fn watched(self, d: Seq<u8>) -> bool {
        self.book.watched(d)
    }

    /// The watch bookkeeping mirrors the index: in watch mode exactly the
    /// cached paths are monitored, in timestamp mode nothing is.
    pub closed spec fn wf(self) -> bool {
        &&& self.book.wf()
        &&& match self.mode {
            MonitoringMode::Watch => forall|p: Seq<u8>|
                #[trigger] self.book.tracked_path(p) <==> self.entries().contains_key(p),
            MonitoringMode::Timestamp => forall|p: Seq<u8>| !#[trigger] self.book.tracked_path(p),
        }
    }

    /// A directory is watched exactly while some cached file lives in it
    /// (and in timestamp mode nothing ever is).
    pub proof fn lemma_watched_iff_cached_file_in_dir(self, d: Seq<u8>)
        requires
            self.wf(),
            self.mode() is Watch,
        ensures
            self.watched(d) <==> exists|p: Seq<u8>|
                #[trigger] self.entries().contains_key(p) && dir_of(p) == d,
    {
        self.book.lemma_watched_iff_inhabited(d);
        if self.watched(d) {
            let p = choose|p: Seq<u8>| self.book.tracked_path(p) && dir_of(p) == d;
            assert(self.entries().contains_key(p) && dir_of(p) == d);
        }
        if exists|p: Seq<u8>| #[trigger] self.entries().contains_key(p) && dir_of(p) == d {
            let p = choose|p: Seq<u8>|
                #[trigger] self.entries().contains_key(p) && dir_of(p) == d;
            assert(self.book.tracked_path(p) && dir_of(p) == d);
        }
    }

    /// A fresh, empty cache in the given monitoring mode.
    pub fn new(mode: MonitoringMode) -> (r: HashCache)
        ensures
            r.wf(),
            r.entries() == empty_index(),
            r.mode() == mode,
            forall|d: Seq<u8>| !r.watched(d),
    {
        HashCache { index: index_new(), mode, book: WatchBook::new() }
    }

    /// Decides a lookup: serve the cached digest, or re-read the file.
    /// `mtime` is the file's current modification time as far as the
    /// caller observed it; it is only consulted in timestamp mode.
    pub fn plan_get(&self, path: &Vec<u8>, mtime: Option<u128>) -> (r: GetPlan)
        ensures
            match r {
                GetPlan::Cached(d) => spec_plan(self.entries(), self.mode(), path@, mtime)
                    == Some(d@),
                GetPlan::NeedsHash => spec_plan(self.entries(), self.mode(), path@, mtime)
                    is None,
            },
    {
        match index_get(&self.index, path) {
            Some(entry) => match self.mode {
                MonitoringMode::Watch => GetPlan::Cached(entry.0),
                MonitoringMode::Timestamp => match mtime {
                    Some(m) => if m == entry.1 {
                        GetPlan::Cached(entry.0)
                    } else {
                        GetPlan::NeedsHash
                    },
                    None => GetPlan::NeedsHash,
                },
            },
            None => GetPlan::NeedsHash,
        }
    }

    /// Stores a freshly computed digest with the modification time
    /// observed at hashing time, replacing any previous entry. Returns the
    /// directory on which a watch must now be started, exactly when the
    /// cache is in watch mode and the file's directory was not watched
    /// yet.
    pub fn record_hash(&mut self, path: &Vec<u8>, digest: &Vec<u8>, mtime: u128) -> (watch: Option<
        Vec<u8>,
    >)
        requires
            old(self).wf(),
        ensures
            final(self).wf(),
            final(self).entries() == old(self).entries().insert(path@, (digest@, mtime)),
            final(self).mode() == old(self).mode(),
            match watch {
                Some(d) => old(self).mode() is Watch && d@ == dir_of(path@) && !old(self).watched(
                    dir_of(path@),
                ),
                None => old(self).mode() is Timestamp || old(self).watched(dir_of(path@)),
            },
    {
        let key = clone_bytes(path);
        let value = clone_bytes(digest);
        index_insert(&mut self.index, key, (value, mtime));
        match self.mode {
            MonitoringMode::Watch => {
                let started = self.book.note_insert(path);
                proof {
                    assert forall|p: Seq<u8>|
                        #[trigger] self.book.tracked_path(p)
                            <==> self.entries().contains_key(p) by {}
                }
                started
            },
            MonitoringMode::Timestamp => None,
        }
    }

    /// Drops the entry for a file the watcher reported as modified or
    /// removed. Returns the directory whose watch must be retired, exactly
    /// when the evicted file was the last cached one in its directory.
    pub fn evict(&mut self, path: &Vec<u8>) -> (unwatch: Option<Vec<u8>>)
        requires
            old(self).wf(),
        ensures
            final(self).wf(),
            final(self).entries() == old(self).entries().remove(path@),
            final(self).mode() == old(self).mode(),
            match unwatch {
                Some(d) => old(self).mode() is Watch && old(self).entries().contains_key(path@)
                    && d@ == dir_of(path@) && !final(self).watched(dir_of(path@)),
                None => !old(self).entries().contains_key(path@) || old(self).mode()
                    is Timestamp || final(self).watched(dir_of(path@)),
            },
    {
        index_remove(&mut self.index, path);
        let retired = self.book.note_evict(path);
        proof {
            if old(self).mode() is Watch {
                assert forall|p: Seq<u8>|
                    #[trigger] self.book.tracked_path(p) <==> self.entries().contains_key(p) by {}
            }
        }
        retired
    }

    /// Drops every entry and retires every watch. Returns the directories
    /// whose watches are to be deregistered: every watched directory is
    /// among them (one appearance per cached file).
    pub fn clear(&mut self) -> (unwatch: Vec<Vec<u8>>)
        requires
            old(self).wf(),
        ensures
            final(self).wf(),
            final(self).entries() == empty_index(),
            final(self).mode() == old(self).mode(),
            forall|d: Seq<u8>| !final(self).watched(d),
            covers_watched(*old(self), unwatch@),
    {
        index_clear(&mut self.index);
        let dirs = self.book.clear();
        proof {
            let ghost b = self.book;
            assert forall|d: Seq<u8>| !final(self).watched(d) by {
                if b.watched(d) {
                    b.lemma_watched_iff_inhabited(d);
                }
            }
        }
        dirs
    }
}

/// `dirs` is the watched directories of `c`, possibly with repeats:
/// everything listed is watched, and everything watched is listed.
pub open spec fn covers_watched(c: HashCache, dirs: Seq<Vec<u8>>) -> bool {
    &&& forall|k: int| 0 <= k < dirs.len() ==> c.watched((#[trigger] dirs[k])@)
    &&& forall|d: Seq<u8>|
        #[trigger] c.watched(d) ==> exists|k: int| 0 <= k < dirs.len() && (#[trigger] dirs[k])@
            == d
}

/// An entry whose file is unchanged is served from the cache: the same
/// digest comes back, in either mode, and the file is not re-read.
pub proof fn lemma_unchanged_served_cached(
    c: HashCache,
    p: Seq<u8>,
    d: Seq<u8>,
    m: u128,
)
    requires
        c.entries().contains_key(p),
        c.entries()[p] == (d, m),
    ensures
        spec_plan(c.entries(), c.mode(), p, Some(m)) == Some(d),
{
}

/// A modified file is re-hashed, and the new digest is what later lookups
/// serve. In timestamp mode the changed mtime forces the re-read directly;
/// in watch mode it is the watcher's eviction that forces it.
pub proof fn lemma_modified_file_rehashed(
    entries: Map<Seq<u8>, (Seq<u8>, u128)>,
    p: Seq<u8>,
    m_old: u128,
    m_new: u128,
    d_new: Seq<u8>,
)
    requires
        entries.contains_key(p) ==> entries[p].1 == m_old,
        m_new != m_old,
    ensures
        spec_plan(entries, MonitoringMode::Timestamp, p, Some(m_new)) is None,
        spec_plan(entries.remove(p), MonitoringMode::Watch, p, Some(m_new)) is None,
        spec_plan(
            entries.insert(p, (d_new, m_new)),
            MonitoringMode::Timestamp,
            p,
            Some(m_new),
        ) == Some(d_new),
        spec_plan(
            entries.remove(p).insert(p, (d_new, m_new)),
            MonitoringMode::Watch,
            p,
            Some(m_new),
        ) == Some(d_new),
{
}

/// After `clear`, every lookup re-reads its file: nothing is served from
/// an empty cache.
pub proof fn lemma_clear_forces_reread(mode: MonitoringMode, p: Seq<u8>, mtime: Option<u128>)
    ensures
        spec_plan(empty_index(), mode, p, mtime) is None,
{
}

} // verus!
