//! Per-window identity: the PID owning a loopback client's socket.

use vstd::prelude::*;

verus! {

/// Owning PID of a loopback client process (one per editor window).
#[derive(Debug, Clone, Copy, PartialEq, Eq, Hash, Structural)]
pub struct WindowKey(u32);

impl View for WindowKey {
    type V = u32;

    closed spec fn view(&self) -> u32 {
        self.0
    }
}

/// Whether `pid` can name a live process to probe: positive and within
/// `i32` (larger values turn negative when handed to `kill`).
pub open spec fn probeable(pid: u32) -> bool {
    0 < pid && pid <= i32::MAX
}

impl WindowKey {
    /// Wrap a raw PID.
    pub fn from_pid(pid: u32) -> (k: Self)
        ensures
            k@ == pid,
    {
        WindowKey(pid)
    }

    /// The process identifier this key represents.
    pub fn pid(self) -> (p: u32)
        ensures
            p == self@,
    {
        self.0
    }

    /// The PID to probe for liveness, or `None` when no process can have it.
    pub fn probe_pid(self) -> (p: Option<i32>)
        ensures
            p is Some <==> probeable(self@),
            p matches Some(v) ==> v as int == self@ as int,
    {
        if self.0 == 0 || self.0 > 2147483647u32 {
            None
        } else {
            Some(self.0 as i32)
        }
    }

    /// Whether the owning process is alive: a probeable PID for which
    /// `alive` (the operating system's existence probe) answers `true`.
    pub fn is_live<F: Fn(i32) -> bool>(self, alive: F) -> (b: bool)
        requires
            forall|p: i32| #[trigger] alive.requires((p,)),
        ensures
            b ==> probeable(self@) && alive.ensures((self@ as i32,), true),
            !probeable(self@) ==> !b,
            probeable(self@) && !b ==> alive.ensures((self@ as i32,), false),
    {
        match self.probe_pid() {
            None => false,
            Some(p) => alive(p),
        }
    }
}

/// A key that names no process is never live, whatever the probe says.
pub proof fn law_unprobeable_key_is_dead(pid: u32)
    requires
        pid == 0 || pid > i32::MAX,
    ensures
        !probeable(pid),
{
}

} // verus!
