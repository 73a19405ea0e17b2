//! Daemon lifecycle decisions: single-instance startup, the idle-timeout
//! countdown that every accepted connection resets, the main-loop reaction
//! to each event, the client side's double-checked daemon spawn, and the
//! launcher's retry rule. The OS primitives these decisions drive (named
//! mutexes, events, process creation) stay with the caller.

use vstd::prelude::*;

use crate::bytes::push_all;
use vstd::string::StringSliceAdditionalSpecFns;

verus! {

/// The name of the singleton mutex for a server id: both daemons of one id
/// derive the same name, which is what makes the role exclusive.
pub fn singleton_object_name(id: &[u8]) -> (r: Vec<u8>)
    ensures
        r@ == ("Local\\singleton-").spec_bytes() + id@,
{
    derived_name("Local\\singleton-".as_bytes(), id)
}

/// The name of the ready event the daemon signals once its listener
/// accepts connections.
pub fn ready_event_name(id: &[u8]) -> (r: Vec<u8>)
    ensures
        r@ == ("Local\\ready-").spec_bytes() + id@,
{
    derived_name("Local\\ready-".as_bytes(), id)
}

/// The name of the spawn-guard mutex the client side holds while it
/// double-checks and spawns the daemon.
pub fn spawn_guard_name(id: &[u8]) -> (r: Vec<u8>)
    ensures
        r@ == ("Local\\mutex-").spec_bytes() + id@,
{
    derived_name("Local\\mutex-".as_bytes(), id)
}

/// The name of the local duplex endpoint the daemon listens on.
pub fn endpoint_name(id: &[u8]) -> (r: Vec<u8>)
    ensures
        r@ == ("\\\\.\\pipe\\\\LOCAL\\\\clcache-").spec_bytes() + id@,
{
    derived_name("\\\\.\\pipe\\\\LOCAL\\\\clcache-".as_bytes(), id)
}

fn derived_name(prefix: &[u8], id: &[u8]) -> (r: Vec<u8>)
    ensures
        r@ == prefix@ + id@,
{
    let mut r: Vec<u8> = Vec::new();
    push_all(&mut r, prefix);
    push_all(&mut r, id);
    proof {
        assert(r@ =~= prefix@ + id@);
    }
    r
}

/// What the daemon does right after acquiring — or failing to acquire —
/// the singleton role for its server id.
pub enum StartupDecision {
    /// The singleton was acquired: bind the listener and serve.
    RunServer,
    /// Another daemon holds the singleton: exit cleanly, code zero,
    /// without binding anything.
    AlreadyRunning,
}

/// The listener is bound only when this process holds the singleton role;
/// a second daemon on the same id never reaches the bind.
pub fn startup_decision(is_single: bool) -> (r: StartupDecision)
    ensures
        r is RunServer <==> is_single,
        r is AlreadyRunning <==> !is_single,
{
    if is_single {
        StartupDecision::RunServer
    } else {
        StartupDecision::AlreadyRunning
    }
}

/// One occurrence the daemon's main loop reacts to.
pub enum DaemonEvent {
    /// The idle deadline passed with no connection.
    IdleTick,
    /// A client connected.
    ClientConnected,
    /// A handler served an `exit` command.
    ExitRequested,
    /// The OS delivered an interrupt.
    Interrupted,
}

/// The main loop's reaction: keep serving with a fresh idle deadline, or
/// shut down.
pub enum DaemonAction {
    ResetTimer,
    Shutdown,
}

/// The main loop's rule: a connection resets the countdown and everything
/// else — idle expiry, an explicit exit, an interrupt — shuts the daemon
/// down.
pub fn daemon_step(ev: &DaemonEvent) -> (r: DaemonAction)
    ensures
        r is ResetTimer <==> ev is ClientConnected,
        r is Shutdown <==> !(ev is ClientConnected),
{
    match ev {
        DaemonEvent::ClientConnected => DaemonAction::ResetTimer,
        DaemonEvent::IdleTick => DaemonAction::Shutdown,
        DaemonEvent::ExitRequested => DaemonAction::Shutdown,
        DaemonEvent::Interrupted => DaemonAction::Shutdown,
    }
}

/// The idle-exit countdown: a deadline that connections push out. Times
/// are the caller's clock readings, in any fixed unit.
pub struct IdleTimer {
    deadline: u64,
    timeout: u64,
}

impl IdleTimer {
    /// The moment the daemon exits if no connection arrives first.
    pub closed spec fn deadline(self) -> u64 {
        self.deadline
    }

    /// The configured idle timeout.
    pub closed spec fn timeout(self) -> u64 {
        self.timeout
    }

    /// Starts the countdown: the daemon may exit a full timeout from now.
    pub fn new(now: u64, timeout: u64) -> (r: IdleTimer)
        requires
            now + timeout <= u64::MAX,
        ensures
            r.deadline() == now + timeout,
            r.timeout() == timeout,
    {
        IdleTimer { deadline: now + timeout, timeout }
    }

    /// A connection was accepted: the countdown starts over, a full
    /// timeout from the moment of connection.
    pub fn on_connect(&mut self, now: u64)
        requires
            now + old(self).timeout() <= u64::MAX,
        ensures
            final(self).deadline() == now + old(self).timeout(),
            final(self).timeout() == old(self).timeout(),
    {
        self.deadline = now + self.timeout;
    }

    /// The countdown has run out exactly when the deadline has passed.
    pub fn is_expired(&self, now: u64) -> (r: bool)
        ensures
            r <==> now >= self.deadline(),
    {
        now >= self.deadline
    }
}

/// The client side's double-checked spawn: consulted again under the
/// spawn-guard mutex, a daemon is spawned exactly when none is running.
pub fn spawn_decision(daemon_running: bool) -> (r: bool)
    ensures
        r <==> !daemon_running,
{
    !daemon_running
}

/// The exit status a child delivers when it dies of an access violation.
pub const ACCESS_VIOLATION_CODE: i32 = -1073741819;

/// The launcher's retry rule: a child that died of an access violation is
/// launched once more (with the troublesome environment entry removed);
/// any other exit is final.
pub fn relaunch_decision(first_exit: i32) -> (r: bool)
    ensures
        r <==> first_exit == ACCESS_VIOLATION_CODE,
{
    first_exit == ACCESS_VIOLATION_CODE
}

/// The exit code the launcher itself reports: the first child's, unless a
/// retry happened, then the second child's.
pub fn launcher_exit_code(first_exit: i32, second_exit: Option<i32>) -> (r: i32)
    requires
        first_exit == ACCESS_VIOLATION_CODE ==> second_exit is Some,
    ensures
        first_exit != ACCESS_VIOLATION_CODE ==> r == first_exit,
        first_exit == ACCESS_VIOLATION_CODE ==> Some(r) == second_exit,
{
    if first_exit == ACCESS_VIOLATION_CODE {
        match second_exit {
            Some(code) => code,
            None => first_exit,
        }
    } else {
        first_exit
    }
}

} // verus!
