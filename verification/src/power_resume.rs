//! Resume and unlock detection: which window-system messages mean the machine came
//! back from sleep or the session was unlocked, so the global hotkey is re-claimed at
//! once. The watcher window and its message pump belong to the application.

use vstd::prelude::*;

verus! {

/// `WM_POWERBROADCAST` (winuser.h).
pub const WM_POWERBROADCAST: u32 = 0x0218;

/// `WM_WTSSESSION_CHANGE` (winuser.h).
pub const WM_WTSSESSION_CHANGE: u32 = 0x02B1;

/// `PBT_APMRESUMESUSPEND`: resumed after a user-initiated suspend.
pub const PBT_APMRESUMESUSPEND: u32 = 0x0007;

/// `PBT_APMRESUMEAUTOMATIC`: resumed automatically.
pub const PBT_APMRESUMEAUTOMATIC: u32 = 0x0012;

/// `WTS_SESSION_UNLOCK`: the session was unlocked.
pub const WTS_SESSION_UNLOCK: u32 = 0x8;

/// Whether a message reports a resume from sleep or a session unlock.
pub fn is_recovery_message(msg: u32, wparam: u32) -> (b: bool)
    ensures
        b == ((msg == WM_POWERBROADCAST && (wparam == PBT_APMRESUMEAUTOMATIC || wparam
            == PBT_APMRESUMESUSPEND)) || (msg == WM_WTSSESSION_CHANGE && wparam == WTS_SESSION_UNLOCK)),
{
    if msg == WM_POWERBROADCAST {
        wparam == PBT_APMRESUMEAUTOMATIC || wparam == PBT_APMRESUMESUSPEND
    } else if msg == WM_WTSSESSION_CHANGE {
        wparam == WTS_SESSION_UNLOCK
    } else {
        false
    }
}

} // verus!
