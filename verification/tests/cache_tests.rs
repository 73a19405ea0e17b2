use clcache_server::cache::{GetPlan, HashCache, MonitoringMode};
use clcache_server::digest::digest_hex_of_bytes;
use clcache_server::server::{apply_command, respond_to_path_results, CommandEffect};

fn cached(plan: GetPlan) -> Vec<u8> {
    match plan {
        GetPlan::Cached(d) => d,
        GetPlan::NeedsHash => panic!("expected a cached digest"),
    }
}

fn needs_hash(plan: GetPlan) -> bool {
    matches!(plan, GetPlan::NeedsHash)
}

#[test]
fn miss_then_hit_unchanged_file() {
    // Consecutive lookups of an unchanged file: the first must hash, the
    // second is served from the cache with the identical digest.
    let mut cache = HashCache::new(MonitoringMode::Timestamp);
    let path = b"/src/a.h".to_vec();
    assert!(needs_hash(cache.plan_get(&path, Some(1000))));
    let digest = digest_hex_of_bytes(b"foo");
    cache.record_hash(&path, &digest, 1000);
    assert_eq!(cached(cache.plan_get(&path, Some(1000))), digest);
    assert_eq!(cached(cache.plan_get(&path, Some(1000))), digest);
}

#[test]
fn modified_file_gets_new_digest() {
    // Overwrite "foo" with "bar": the changed mtime forces a re-hash, the
    // new digest differs, and it is then served stably.
    let mut cache = HashCache::new(MonitoringMode::Timestamp);
    let path = b"/tmp/scratch/foo".to_vec();
    let digest_a = digest_hex_of_bytes(b"foo");
    cache.record_hash(&path, &digest_a, 1);
    assert_eq!(cached(cache.plan_get(&path, Some(1))), digest_a);

    let digest_b = digest_hex_of_bytes(b"bar");
    assert_ne!(digest_a, digest_b);
    assert!(needs_hash(cache.plan_get(&path, Some(2))));
    cache.record_hash(&path, &digest_b, 2);
    assert_eq!(cached(cache.plan_get(&path, Some(2))), digest_b);
    assert_eq!(cached(cache.plan_get(&path, Some(2))), digest_b);
}

#[test]
fn watch_mode_trusts_entry_until_evicted() {
    // In watch mode the stored digest is served whatever the mtime; after
    // the watcher evicts the entry, the file must be re-read.
    let mut cache = HashCache::new(MonitoringMode::Watch);
    let path = b"/src/b.h".to_vec();
    let digest = digest_hex_of_bytes(b"content");
    let started = cache.record_hash(&path, &digest, 5);
    assert_eq!(started, Some(b"/src".to_vec()));
    assert_eq!(cached(cache.plan_get(&path, Some(99))), digest);
    let unwatch = cache.evict(&path);
    assert_eq!(unwatch, Some(b"/src".to_vec()));
    assert!(needs_hash(cache.plan_get(&path, Some(99))));
}

#[test]
fn watch_started_once_per_directory() {
    // The second file in an already watched directory starts no new watch;
    // only evicting the last file of the directory retires it.
    let mut cache = HashCache::new(MonitoringMode::Watch);
    let a = b"/src/a.h".to_vec();
    let b = b"/src/b.h".to_vec();
    let d = digest_hex_of_bytes(b"x");
    assert_eq!(cache.record_hash(&a, &d, 1), Some(b"/src".to_vec()));
    assert_eq!(cache.record_hash(&b, &d, 1), None);
    assert_eq!(cache.evict(&a), None);
    assert_eq!(cache.evict(&b), Some(b"/src".to_vec()));
}

#[test]
fn timestamp_mode_never_watches() {
    let mut cache = HashCache::new(MonitoringMode::Timestamp);
    let path = b"/src/c.h".to_vec();
    let d = digest_hex_of_bytes(b"y");
    assert_eq!(cache.record_hash(&path, &d, 7), None);
}

#[test]
fn clear_forces_reread() {
    // After `*clear` is served the cache answers `*ok` and the next lookup
    // re-reads the file even though nothing changed on disk.
    let mut cache = HashCache::new(MonitoringMode::Timestamp);
    let path = b"/src/a.h".to_vec();
    let digest = digest_hex_of_bytes(b"foo");
    cache.record_hash(&path, &digest, 10);
    assert_eq!(cached(cache.plan_get(&path, Some(10))), digest);

    let (response, effect) = apply_command(&mut cache, &b"clear".to_vec());
    assert_eq!(response, b"*ok\n".to_vec());
    assert!(matches!(effect, CommandEffect::Unwatch(_)));
    assert!(needs_hash(cache.plan_get(&path, Some(10))));
}

#[test]
fn clear_returns_watched_directories() {
    let mut cache = HashCache::new(MonitoringMode::Watch);
    let d = digest_hex_of_bytes(b"z");
    cache.record_hash(&b"/one/a".to_vec(), &d, 1);
    cache.record_hash(&b"/two/b".to_vec(), &d, 1);
    let (response, effect) = apply_command(&mut cache, &b"clear".to_vec());
    assert_eq!(response, b"*ok\n".to_vec());
    match effect {
        CommandEffect::Unwatch(mut dirs) => {
            dirs.sort();
            assert_eq!(dirs, vec![b"/one".to_vec(), b"/two".to_vec()]);
        }
        _ => panic!("expected directories to unwatch"),
    }
    assert!(needs_hash(cache.plan_get(&b"/one/a".to_vec(), Some(1))));
}

#[test]
fn exit_command_acknowledged_then_shutdown() {
    let mut cache = HashCache::new(MonitoringMode::Timestamp);
    let (response, effect) = apply_command(&mut cache, &b"exit".to_vec());
    assert_eq!(response, b"*ok\n".to_vec());
    assert!(matches!(effect, CommandEffect::Exit));
}

#[test]
fn unknown_command_reply() {
    let mut cache = HashCache::new(MonitoringMode::Timestamp);
    let (response, effect) = apply_command(&mut cache, &b"bogus".to_vec());
    assert_eq!(response, b"Unknown command\n\0".to_vec());
    assert!(matches!(effect, CommandEffect::NoEffect));
}

#[test]
fn batch_response_keeps_request_order() {
    // Three files served in one request: the digests come back in exactly
    // the order the paths were sent.
    let d1 = digest_hex_of_bytes(b"one");
    let d2 = digest_hex_of_bytes(b"two");
    let d3 = digest_hex_of_bytes(b"three");
    let results = vec![Ok(d1.clone()), Ok(d2.clone()), Ok(d3.clone())];
    let response = respond_to_path_results(results);
    let mut expected = Vec::new();
    expected.extend(d1);
    expected.push(b'\n');
    expected.extend(d2);
    expected.push(b'\n');
    expected.extend(d3);
    expected.push(b'\n');
    expected.push(0);
    assert_eq!(response, expected);
}

#[test]
fn batch_failure_is_all_or_nothing() {
    let d1 = digest_hex_of_bytes(b"one");
    let results = vec![
        Ok(d1),
        Err(b"Failed to resolve path '/no/such/file'".to_vec()),
        Ok(digest_hex_of_bytes(b"three")),
    ];
    let response = respond_to_path_results(results);
    assert_eq!(
        response,
        b"!Failed to resolve path '/no/such/file'\0".to_vec()
    );
}

#[test]
fn empty_batch_gives_empty_list_response() {
    let response = respond_to_path_results(Vec::new());
    assert_eq!(response, b"\0".to_vec());
}
