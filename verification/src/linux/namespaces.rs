//! The cheap check of the kernel knobs that gate unprivileged user
//! namespaces.
use vstd::prelude::*;
use crate::text::{append_chars, chars_of, decimal, decimal_chars, parse_u64, parse_unsigned, string_of, trim, trim_ws};

verus! {

/// `unshare` flag for a new mount namespace.
pub const CLONE_NEWNS: i32 = 0x0002_0000;
/// `unshare` flag for a new user namespace.
pub const CLONE_NEWUSER: i32 = 0x1000_0000;
/// `unshare` flag for a new pid namespace.
pub const CLONE_NEWPID: i32 = 0x2000_0000;
/// `unshare` flag for a new network namespace.
pub const CLONE_NEWNET: i32 = 0x4000_0000;
/// `unshare` flag for a new IPC namespace.
pub const CLONE_NEWIPC: i32 = 0x0800_0000;

/// The `uid_map` / `gid_map` line that maps root of the new user namespace
/// to the single outer id `outer`.
pub fn id_map_line(outer: u32) -> (s: String)
    ensures
        s@ == "0 "@ + decimal(outer as nat) + " 1\n"@,
{
    let mut out = chars_of("0 ");
    let d = decimal_chars(outer as u64);
    append_chars(&mut out, d.as_slice());
    let tail = chars_of(" 1\n");
    append_chars(&mut out, tail.as_slice());
    string_of(out.as_slice())
}

/// A knob file's body read as a number: trimmed and parsed as a `u64`.
pub open spec fn knob_value(body: Option<Seq<char>>) -> Option<u64> {
    match body {
        Some(b) => match parse_unsigned(trim_ws(b), u64::MAX as int) {
            Some(v) => Some(v as u64),
            None => None,
        },
        None => None,
    }
}

fn read_knob(body: Option<&str>) -> (r: Option<u64>)
    ensures
        r == knob_value(
            match body {
                Some(b) => Some(b@),
                None => None,
            },
        ),
{
    match body {
        Some(b) => {
            let cs = chars_of(b);
            let t = trim(cs.as_slice());
            parse_u64(t.as_slice())
        },
        None => None,
    }
}

/// Whether the knobs allow unprivileged user namespaces, given the bodies
/// of `/proc/sys/kernel/unprivileged_userns_clone` and
/// `/proc/sys/user/max_user_namespaces` (`None` where unreadable): the
/// clone knob is not zero (an unreadable or malformed one does not gate),
/// and the namespace limit is above zero (an unreadable or malformed one
/// counts as unlimited).
pub fn userns_knobs_look_enabled(clone_knob: Option<&str>, max_knob: Option<&str>) -> (r: bool)
    ensures
        r == ((match knob_value(
            match clone_knob {
                Some(b) => Some(b@),
                None => None,
            },
        ) {
            Some(v) => v != 0,
            None => true,
        }) && (match knob_value(
            match max_knob {
                Some(b) => Some(b@),
                None => None,
            },
        ) {
            Some(v) => v > 0,
            None => true,
        })),
{
    let clone_ok = match read_knob(clone_knob) {
        Some(v) => v != 0,
        None => true,
    };
    let max_ok = match read_knob(max_knob) {
        Some(v) => v > 0,
        None => true,
    };
    clone_ok && max_ok
}

} // verus!
