//! Directory-watch bookkeeping: which directories are under watch, and for
//! which cached files. A directory is watched exactly while at least one
//! cached file lives in it; the watch starts with the first such file and
//! retires with the last. The OS-level watch registration is the caller's;
//! this module decides, exactly, when to register and when to retire.

use vstd::prelude::*;

use crate::bytes::{bytes_eq, dir_of, split_path};

verus! {

/// A filesystem notification on a watched directory, as the OS reports it.
pub enum FsEventKind {
    Modify,
    Remove,
    Create,
    Rename,
}

/// Which notifications invalidate a cached digest: a modified or removed
/// file is evicted; create and rename are ignored (a change to a tracked
/// file's content surfaces as a modify).
pub fn event_evicts(kind: &FsEventKind) -> (r: bool)
    ensures
        r <==> (kind is Modify || kind is Remove),
{
    match kind {
        FsEventKind::Modify => true,
        FsEventKind::Remove => true,
        FsEventKind::Create => false,
        FsEventKind::Rename => false,
    }
}

/// Watch bookkeeping: one pair per monitored file, holding the file's
/// parent directory (the watched directory) and its canonical path.
pub struct WatchBook {
    pairs: Vec<(Vec<u8>, Vec<u8>)>,
}

impl WatchBook {
    /// The file at `p` is monitored.
    pub closed spec fn tracked_path(self, p: Seq<u8>) -> bool {
        exists|k: int| 0 <= k < self.pairs@.len() && (#[trigger] self.pairs@[k]).1@ == p
    }

    /// The directory `d` is under watch.
    pub closed spec fn watched(self, d: Seq<u8>) -> bool {
        exists|k: int| 0 <= k < self.pairs@.len() && (#[trigger] self.pairs@[k]).0@ == d
    }

    /// Every pair holds a path with its own parent directory, and no path
    /// appears twice.
    pub closed spec fn wf(self) -> bool {
        &&& forall|k: int|
            0 <= k < self.pairs@.len() ==> (#[trigger] self.pairs@[k]).0@ == dir_of(
                self.pairs@[k].1@,
            )
        &&& forall|k: int, l: int|
            0 <= k < l < self.pairs@.len() ==> (#[trigger] self.pairs@[k]).1@ != (
            #[trigger] self.pairs@[l]).1@
    }

    /// A directory is watched exactly while some monitored file lives in
    /// it.
    pub proof fn lemma_watched_iff_inhabited(self, d: Seq<u8>)
        requires
            self.wf(),
        ensures
            self.watched(d) <==> exists|p: Seq<u8>| self.tracked_path(p) && dir_of(p) == d,
    {
        if self.watched(d) {
            let k = choose|k: int|
                0 <= k < self.pairs@.len() && (#[trigger] self.pairs@[k]).0@ == d;
            let p = self.pairs@[k].1@;
            assert(self.tracked_path(p) && dir_of(p) == d);
        }
        if exists|p: Seq<u8>| self.tracked_path(p) && dir_of(p) == d {
            let p = choose|p: Seq<u8>| self.tracked_path(p) && dir_of(p) == d;
            let k = choose|k: int|
                0 <= k < self.pairs@.len() && (#[trigger] self.pairs@[k]).1@ == p;
            assert(self.pairs@[k].0@ == d);
        }
    }

    pub fn new() -> (r: WatchBook)
        ensures
            r.wf(),
            forall|p: Seq<u8>| !r.tracked_path(p),
            forall|d: Seq<u8>| !r.watched(d),
    {
        WatchBook { pairs: Vec::new() }
    }

    /// Notes that the file at `path` now has a cached entry. Returns the
    /// parent directory when a watch must be started on it — exactly when
    /// it was not watched yet; noting a file of an already watched
    /// directory starts nothing.
    pub fn note_insert(&mut self, path: &Vec<u8>) -> (started: Option<Vec<u8>>)
        requires
            old(self).wf(),
        ensures
            final(self).wf(),
            forall|q: Seq<u8>|
                final(self).tracked_path(q) <==> (old(self).tracked_path(q) || q == path@),
            forall|d: Seq<u8>|
                final(self).watched(d) <==> (old(self).watched(d) || d == dir_of(path@)),
            match started {
                Some(d) => d@ == dir_of(path@) && !old(self).watched(dir_of(path@)),
                None => old(self).watched(dir_of(path@)),
            },
    {
        let (dir, _base) = split_path(path);
        let n: usize = self.pairs.len();
        let mut already_tracked = false;
        let mut dir_watched = false;
        let mut k: usize = 0;
        while k < n
            invariant
                0 <= k <= n == self.pairs@.len(),
                already_tracked <==> exists|j: int|
                    0 <= j < k && (#[trigger] self.pairs@[j]).1@ == path@,
                dir_watched <==> exists|j: int|
                    0 <= j < k && (#[trigger] self.pairs@[j]).0@ == dir@,
            decreases n - k,
        {
            if bytes_eq(self.pairs[k].1.as_slice(), path.as_slice()) {
                already_tracked = true;
            }
            if bytes_eq(self.pairs[k].0.as_slice(), dir.as_slice()) {
                dir_watched = true;
            }
            k = k + 1;
        }
        if already_tracked {
            proof {
                let j = choose|j: int|
                    0 <= j < self.pairs@.len() && (#[trigger] self.pairs@[j]).1@ == path@;
                assert(self.pairs@[j].0@ == dir_of(path@));
                assert(forall|q: Seq<u8>|
                    self.tracked_path(q) <==> (old(self).tracked_path(q) || q == path@));
            }
            return None;
        }
        let ghost before = self.pairs@;
        let key = crate::bytes::clone_bytes(path);
        let dir_copy = crate::bytes::clone_bytes(&dir);
        self.pairs.push((dir_copy, key));
        proof {
            assert forall|q: Seq<u8>|
                final(self).tracked_path(q) <==> (old(self).tracked_path(q) || q == path@) by {
                if final(self).tracked_path(q) {
                    let j = choose|j: int|
                        0 <= j < self.pairs@.len() && (#[trigger] self.pairs@[j]).1@ == q;
                    if j < before.len() {
                        assert(before[j].1@ == q);
                    }
                }
                if old(self).tracked_path(q) {
                    let j = choose|j: int| 0 <= j < before.len() && (#[trigger] before[j]).1@ == q;
                    assert(self.pairs@[j].1@ == q);
                }
                if q == path@ {
                    assert(self.pairs@[before.len() as int].1@ == q);
                }
            }
            assert forall|d: Seq<u8>|
                final(self).watched(d) <==> (old(self).watched(d) || d == dir_of(path@)) by {
                if final(self).watched(d) {
                    let j = choose|j: int|
                        0 <= j < self.pairs@.len() && (#[trigger] self.pairs@[j]).0@ == d;
                    if j < before.len() {
                        assert(before[j].0@ == d);
                    }
                }
                if old(self).watched(d) {
                    let j = choose|j: int| 0 <= j < before.len() && (#[trigger] before[j]).0@ == d;
                    assert(self.pairs@[j].0@ == d);
                }
                if d == dir_of(path@) {
                    assert(self.pairs@[before.len() as int].0@ == d);
                }
            }
        }
        if dir_watched {
            None
        } else {
            Some(dir)
        }
    }

    /// Notes that the cached entry for the file at `path` is gone. Returns
    /// the parent directory when its watch must be retired — exactly when
    /// the file was monitored and no other monitored file remains in that
    /// directory.
    pub fn note_evict(&mut self, path: &Vec<u8>) -> (retired: Option<Vec<u8>>)
        requires
            old(self).wf(),
        ensures
            final(self).wf(),
            forall|q: Seq<u8>|
                final(self).tracked_path(q) <==> (old(self).tracked_path(q) && q != path@),
            match retired {
                Some(d) => d@ == dir_of(path@) && old(self).tracked_path(path@)
                    && !final(self).watched(dir_of(path@)),
                None => !old(self).tracked_path(path@) || final(self).watched(dir_of(path@)),
            },
    {
        let n: usize = self.pairs.len();
        let mut found: usize = n;
        let mut k: usize = 0;
        while k < n
            invariant
                0 <= k <= n == self.pairs@.len(),
                found == n || (0 <= found < k && self.pairs@[found as int].1@ == path@),
                found == n ==> forall|j: int|
                    0 <= j < k ==> (#[trigger] self.pairs@[j]).1@ != path@,
            decreases n - k,
        {
            if found == n && bytes_eq(self.pairs[k].1.as_slice(), path.as_slice()) {
                found = k;
            }
            k = k + 1;
        }
        if found == n {
            proof {
                assert(forall|q: Seq<u8>|
                    self.tracked_path(q) <==> (old(self).tracked_path(q) && q != path@));
            }
            return None;
        }
        let ghost before = self.pairs@;
        let removed = self.pairs.remove(found);
        proof {
            assert(self.pairs@ == before.remove(found as int));
            assert forall|q: Seq<u8>|
                final(self).tracked_path(q) <==> (old(self).tracked_path(q) && q != path@) by {
                if final(self).tracked_path(q) {
                    let j = choose|j: int|
                        0 <= j < self.pairs@.len() && (#[trigger] self.pairs@[j]).1@ == q;
                    if j < found {
                        assert(before[j].1@ == q);
                        assert(q != path@);
                    } else {
                        assert(before[j + 1].1@ == q);
                        assert(q != path@);
                    }
                }
                if old(self).tracked_path(q) && q != path@ {
                    let j = choose|j: int| 0 <= j < before.len() && (#[trigger] before[j]).1@ == q;
                    assert(j != found);
                    if j < found {
                        assert(self.pairs@[j].1@ == q);
                    } else {
                        assert(self.pairs@[j - 1].1@ == q);
                    }
                }
            }
            assert forall|k2: int, l2: int|
                0 <= k2 < l2 < self.pairs@.len() implies (#[trigger] self.pairs@[k2]).1@ != (
            #[trigger] self.pairs@[l2]).1@ by {
                let ok = if k2 < found {
                    k2
                } else {
                    k2 + 1
                };
                let ol = if l2 < found {
                    l2
                } else {
                    l2 + 1
                };
                assert(before[ok].1@ == self.pairs@[k2].1@);
                assert(before[ol].1@ == self.pairs@[l2].1@);
            }
        }
        let dir = removed.0;
        proof {
            assert(dir@ == dir_of(path@));
        }
        let m: usize = self.pairs.len();
        let mut still_watched = false;
        let mut k2: usize = 0;
        while k2 < m
            invariant
                0 <= k2 <= m == self.pairs@.len(),
                still_watched <==> exists|j: int|
                    0 <= j < k2 && (#[trigger] self.pairs@[j]).0@ == dir@,
            decreases m - k2,
        {
            if bytes_eq(self.pairs[k2].0.as_slice(), dir.as_slice()) {
                still_watched = true;
            }
            k2 = k2 + 1;
        }
        if still_watched {
            None
        } else {
            Some(dir)
        }
    }

    /// Forgets everything: every file unmonitored, every watch retired.
    /// Returns one directory per previously monitored file (a directory
    /// with several monitored files appears once per file); every
    /// previously watched directory is among them, and nothing else is.
    pub fn clear(&mut self) -> (dirs: Vec<Vec<u8>>)
        requires
            old(self).wf(),
        ensures
            final(self).wf(),
            forall|q: Seq<u8>| !final(self).tracked_path(q),
            forall|k: int| 0 <= k < dirs@.len() ==> old(self).watched((#[trigger] dirs@[k])@),
            forall|d: Seq<u8>|
                #[trigger] old(self).watched(d) ==> exists|k: int|
                    0 <= k < dirs@.len() && (#[trigger] dirs@[k])@ == d,
    {
        let ghost before = self.pairs@;
        let mut dirs: Vec<Vec<u8>> = Vec::new();
        loop
            invariant
                self.pairs@.len() + dirs@.len() == before.len(),
                self.pairs@ == before.take(self.pairs@.len() as int),
                forall|k: int|
                    0 <= k < dirs@.len() ==> (#[trigger] dirs@[k])@ == before[before.len() - 1
                        - k].0@,
            ensures
                self.pairs@.len() == 0,
                dirs@.len() == before.len(),
                forall|k: int|
                    0 <= k < dirs@.len() ==> (#[trigger] dirs@[k])@ == before[before.len() - 1
                        - k].0@,
            decreases self.pairs@.len(),
        {
            let ghost cur = self.pairs@;
            match self.pairs.pop() {
                Some(pair) => {
                    dirs.push(pair.0);
                    proof {
                        assert(cur == before.take(cur.len() as int));
                        assert(pair == cur[cur.len() - 1]);
                        assert(pair == before[cur.len() - 1]);
                        assert(self.pairs@ =~= before.take(self.pairs@.len() as int));
                    }
                },
                None => {
                    break ;
                },
            }
        }
        proof {
            assert forall|d: Seq<u8>| #[trigger] old(self).watched(d) implies exists|k: int|
                0 <= k < dirs@.len() && (#[trigger] dirs@[k])@ == d by {
                let j = choose|j: int| 0 <= j < before.len() && (#[trigger] before[j]).0@ == d;
                assert(dirs@[before.len() - 1 - j]@ == d);
            }
            assert forall|k: int| 0 <= k < dirs@.len() implies old(self).watched(
                (#[trigger] dirs@[k])@,
            ) by {
                assert(before[before.len() - 1 - k].0@ == dirs@[k]@);
            }
        }
        dirs
    }
}

} // verus!
