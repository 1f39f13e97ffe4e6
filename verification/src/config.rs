//! Names and numbers that the tool is built around.

use vstd::prelude::*;

verus! {

/// The port on which AList serves.
pub const ALIST_PORT: u16 = 5244;

/// The public relay through which bore makes AList reachable.
pub const BORE_HOST: &'static str = "bore.pub";

/// How long a service may take to come up, in seconds.
pub const STARTUP_TIMEOUT_SECS: u64 = 15;

/// The file, in the application's data directory, that keeps the AList password.
pub const PASSWORD_FILE: &'static str = "alist_password.json";

/// The name of the AList executable, on Windows or elsewhere.
pub fn alist_binary(windows: bool) -> (name: &'static str)
    ensures
        name@ == (if windows {
            "alist.exe"@
        } else {
            "alist"@
        }),
{
    if windows {
        "alist.exe"
    } else {
        "alist"
    }
}

/// The name of the bore executable, on Windows or elsewhere.
pub fn bore_binary(windows: bool) -> (name: &'static str)
    ensures
        name@ == (if windows {
            "bore.exe"@
        } else {
            "bore"@
        }),
{
    if windows {
        "bore.exe"
    } else {
        "bore"
    }
}

} // verus!
