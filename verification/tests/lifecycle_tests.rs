use clcache_server::bytes::split_path;
use clcache_server::digest::digest_buffer_capacity;
use clcache_server::lifecycle::{
    daemon_step, endpoint_name, launcher_exit_code, ready_event_name, relaunch_decision,
    singleton_object_name, spawn_decision, spawn_guard_name, startup_decision, DaemonAction,
    DaemonEvent, IdleTimer, StartupDecision, ACCESS_VIOLATION_CODE,
};
use clcache_server::watcher::{event_evicts, FsEventKind, WatchBook};

#[test]
fn object_names_derived_from_id() {
    let id = b"626763c0-bebe-11ed-a901-0800200c9a66-2";
    assert_eq!(
        singleton_object_name(id),
        b"Local\\singleton-626763c0-bebe-11ed-a901-0800200c9a66-2".to_vec()
    );
    assert_eq!(
        ready_event_name(id),
        b"Local\\ready-626763c0-bebe-11ed-a901-0800200c9a66-2".to_vec()
    );
    assert_eq!(
        spawn_guard_name(id),
        b"Local\\mutex-626763c0-bebe-11ed-a901-0800200c9a66-2".to_vec()
    );
    assert_eq!(
        endpoint_name(id),
        b"\\\\.\\pipe\\\\LOCAL\\\\clcache-626763c0-bebe-11ed-a901-0800200c9a66-2".to_vec()
    );
}

#[test]
fn digest_buffer_is_bounded() {
    assert_eq!(digest_buffer_capacity(0), 0);
    assert_eq!(digest_buffer_capacity(4096), 4096);
    assert_eq!(digest_buffer_capacity(1_000_000), 1_000_000);
    assert_eq!(digest_buffer_capacity(1_000_001), 1_000_000);
    assert_eq!(digest_buffer_capacity(u64::MAX), 1_000_000);
}

#[test]
fn second_daemon_exits_without_binding() {
    // Single-instance: with the singleton already held, the decision is to
    // exit cleanly without ever binding the listener.
    assert!(matches!(startup_decision(true), StartupDecision::RunServer));
    assert!(matches!(
        startup_decision(false),
        StartupDecision::AlreadyRunning
    ));
}

#[test]
fn daemon_loop_reactions() {
    assert!(matches!(
        daemon_step(&DaemonEvent::ClientConnected),
        DaemonAction::ResetTimer
    ));
    assert!(matches!(
        daemon_step(&DaemonEvent::IdleTick),
        DaemonAction::Shutdown
    ));
    assert!(matches!(
        daemon_step(&DaemonEvent::ExitRequested),
        DaemonAction::Shutdown
    ));
    assert!(matches!(
        daemon_step(&DaemonEvent::Interrupted),
        DaemonAction::Shutdown
    ));
}

#[test]
fn idle_timer_expires_after_timeout() {
    let timer = IdleTimer::new(100, 30);
    assert!(!timer.is_expired(100));
    assert!(!timer.is_expired(129));
    assert!(timer.is_expired(130));
    assert!(timer.is_expired(500));
}

#[test]
fn connection_resets_idle_countdown() {
    let mut timer = IdleTimer::new(100, 30);
    timer.on_connect(125);
    assert!(!timer.is_expired(130));
    assert!(!timer.is_expired(154));
    assert!(timer.is_expired(155));
}

#[test]
fn client_spawns_only_when_no_daemon_runs() {
    assert!(spawn_decision(false));
    assert!(!spawn_decision(true));
}

#[test]
fn launcher_retries_only_on_access_violation() {
    assert!(relaunch_decision(ACCESS_VIOLATION_CODE));
    assert!(!relaunch_decision(0));
    assert!(!relaunch_decision(1));
    assert_eq!(launcher_exit_code(0, None), 0);
    assert_eq!(launcher_exit_code(3, None), 3);
    assert_eq!(launcher_exit_code(ACCESS_VIOLATION_CODE, Some(0)), 0);
    assert_eq!(launcher_exit_code(ACCESS_VIOLATION_CODE, Some(7)), 7);
}

#[test]
fn split_path_separators() {
    assert_eq!(
        split_path(&b"/src/a.h".to_vec()),
        (b"/src".to_vec(), b"a.h".to_vec())
    );
    assert_eq!(
        split_path(&b"C:\\dir\\b.h".to_vec()),
        (b"C:\\dir".to_vec(), b"b.h".to_vec())
    );
    assert_eq!(
        split_path(&b"plain".to_vec()),
        (b"".to_vec(), b"plain".to_vec())
    );
}

#[test]
fn watch_book_is_idempotent_per_directory() {
    // Watched -> Watched on a second file of the same directory is a
    // no-op; the watch retires only with the last monitored file.
    let mut book = WatchBook::new();
    assert_eq!(book.note_insert(&b"/d/a".to_vec()), Some(b"/d".to_vec()));
    assert_eq!(book.note_insert(&b"/d/a".to_vec()), None);
    assert_eq!(book.note_insert(&b"/d/b".to_vec()), None);
    assert_eq!(book.note_evict(&b"/d/a".to_vec()), None);
    assert_eq!(book.note_evict(&b"/d/a".to_vec()), None);
    assert_eq!(book.note_evict(&b"/d/b".to_vec()), Some(b"/d".to_vec()));
}

#[test]
fn watch_book_clear_lists_every_directory() {
    let mut book = WatchBook::new();
    book.note_insert(&b"/one/a".to_vec());
    book.note_insert(&b"/two/b".to_vec());
    book.note_insert(&b"/two/c".to_vec());
    let mut dirs = book.clear();
    dirs.sort();
    dirs.dedup();
    assert_eq!(dirs, vec![b"/one".to_vec(), b"/two".to_vec()]);
    assert_eq!(book.note_insert(&b"/one/a".to_vec()), Some(b"/one".to_vec()));
}

#[test]
fn only_modify_and_remove_evict() {
    assert!(event_evicts(&FsEventKind::Modify));
    assert!(event_evicts(&FsEventKind::Remove));
    assert!(!event_evicts(&FsEventKind::Create));
    assert!(!event_evicts(&FsEventKind::Rename));
}
