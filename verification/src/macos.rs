//! macOS observation and capability reporting: the Endpoint Security gates
//! and status line, and the labels of the FSEvents change feed.
pub mod child;
pub mod net_proxy;

use vstd::prelude::*;
use crate::text::{
    append_chars, chars_of, contains_run, join_chars, join_with, seqs_of, string_of,
};

verus! {

pub const ES_ACTION_TYPE_AUTH: u32 = 0;
pub const ES_ACTION_TYPE_NOTIFY: u32 = 1;
pub const ES_AUTH_RESULT_ALLOW: u32 = 0;
pub const ES_AUTH_RESULT_DENY: u32 = 1;
pub const ES_EVENT_TYPE_AUTH_EXEC: u32 = 0;
pub const ES_EVENT_TYPE_AUTH_OPEN: u32 = 1;
pub const ES_EVENT_TYPE_AUTH_RENAME: u32 = 6;
pub const ES_EVENT_TYPE_AUTH_UNLINK: u32 = 7;
pub const ES_EVENT_TYPE_NOTIFY_EXEC: u32 = 9;
pub const ES_EVENT_TYPE_NOTIFY_OPEN: u32 = 10;
pub const ES_EVENT_TYPE_NOTIFY_RENAME: u32 = 15;
pub const ES_EVENT_TYPE_NOTIFY_UNLINK: u32 = 16;

/// The entitlement an Endpoint Security client must be signed with.
pub const ES_ENTITLEMENT: &'static str = "com.apple.developer.endpoint-security.client";

/// Runtime state of the Endpoint Security integration.
#[derive(Debug, Clone, PartialEq, Eq)]
pub struct EndpointSecurityCapabilities {
    pub feature_enabled: bool,
    pub framework_available: bool,
    pub new_client_symbol: bool,
    pub subscribe_symbol: bool,
    pub respond_auth_symbol: bool,
    pub delete_client_symbol: bool,
    pub entitlement_present: bool,
    pub privileged: bool,
    pub client_active: bool,
    pub reason: String,
}

/// What was found on the host, before the feature gate is applied.
#[derive(Debug, Clone, Copy, PartialEq, Eq, Structural)]
pub struct EsProbe {
    /// The framework could be loaded.
    pub framework: bool,
    pub new_client_symbol: bool,
    pub subscribe_symbol: bool,
    pub respond_auth_symbol: bool,
    pub delete_client_symbol: bool,
    /// The signed binary advertises the entitlement.
    pub entitlement: bool,
    /// The effective user is root.
    pub root: bool,
    /// An AUTH client is already active.
    pub client_active: bool,
}

impl EndpointSecurityCapabilities {
    /// Every gate an AUTH client needs is met.
    pub open spec fn ready_spec(&self) -> bool {
        self.feature_enabled && self.framework_available && self.new_client_symbol
            && self.subscribe_symbol && self.respond_auth_symbol && self.delete_client_symbol
            && self.entitlement_present && self.privileged
    }

    /// Whether every gate an AUTH client needs is met.
    pub fn runtime_ready(&self) -> (r: bool)
        ensures
            r == self.ready_spec(),
    {
        self.feature_enabled && self.framework_available && self.new_client_symbol
            && self.subscribe_symbol && self.respond_auth_symbol && self.delete_client_symbol
            && self.entitlement_present && self.privileged
    }
}

/// The first gate that fails, in the order they are checked.
pub open spec fn es_reason(feature: bool, p: EsProbe) -> Seq<char> {
    if !feature {
        "feature endpoint-security is disabled; Seatbelt remains the enforcement boundary"@
    } else if !p.framework {
        "EndpointSecurity.framework is unavailable on this host"@
    } else if !(p.new_client_symbol && p.subscribe_symbol && p.respond_auth_symbol
        && p.delete_client_symbol) {
        "EndpointSecurity symbols are incomplete; no client will be created"@
    } else if !p.entitlement {
        "signed binary does not advertise com.apple.developer.endpoint-security.client; Apple entitlement is required"@
    } else if !p.root {
        "process is not running with root privilege that Endpoint Security requires"@
    } else {
        "framework, symbols, and entitlement are verified; AUTH engine ready"@
    }
}

/// The capabilities for a build with the feature `feature` on a host where
/// `p` was found: without the feature nothing is loaded, and the
/// entitlement and privilege count only with it.
pub fn capabilities_from(feature: bool, p: EsProbe) -> (c: EndpointSecurityCapabilities)
    ensures
        c.feature_enabled == feature,
        c.framework_available == (feature && p.framework),
        c.new_client_symbol == (feature && p.framework && p.new_client_symbol),
        c.subscribe_symbol == (feature && p.framework && p.subscribe_symbol),
        c.respond_auth_symbol == (feature && p.framework && p.respond_auth_symbol),
        c.delete_client_symbol == (feature && p.framework && p.delete_client_symbol),
        c.entitlement_present == (feature && p.entitlement),
        c.privileged == (feature && p.root),
        c.client_active == p.client_active,
        c.reason@ == es_reason(feature, p),
{
    let framework = feature && p.framework;
    let reason = if !feature {
        "feature endpoint-security is disabled; Seatbelt remains the enforcement boundary".to_owned()
    } else if !p.framework {
        "EndpointSecurity.framework is unavailable on this host".to_owned()
    } else if !(p.new_client_symbol && p.subscribe_symbol && p.respond_auth_symbol
        && p.delete_client_symbol) {
        "EndpointSecurity symbols are incomplete; no client will be created".to_owned()
    } else if !p.entitlement {
        "signed binary does not advertise com.apple.developer.endpoint-security.client; Apple entitlement is required".to_owned()
    } else if !p.root {
        "process is not running with root privilege that Endpoint Security requires".to_owned()
    } else {
        "framework, symbols, and entitlement are verified; AUTH engine ready".to_owned()
    };
    EndpointSecurityCapabilities {
        feature_enabled: feature,
        framework_available: framework,
        new_client_symbol: framework && p.new_client_symbol,
        subscribe_symbol: framework && p.subscribe_symbol,
        respond_auth_symbol: framework && p.respond_auth_symbol,
        delete_client_symbol: framework && p.delete_client_symbol,
        entitlement_present: feature && p.entitlement,
        privileged: feature && p.root,
        client_active: p.client_active,
        reason,
    }
}

/// A ready client needs the feature, the framework, all four symbols, the
/// entitlement and root; the reason then names the ready state.
pub proof fn lemma_ready_needs_every_gate(feature: bool, p: EsProbe, c: EndpointSecurityCapabilities)
    requires
        c.feature_enabled == feature,
        c.framework_available == (feature && p.framework),
        c.new_client_symbol == (feature && p.framework && p.new_client_symbol),
        c.subscribe_symbol == (feature && p.framework && p.subscribe_symbol),
        c.respond_auth_symbol == (feature && p.framework && p.respond_auth_symbol),
        c.delete_client_symbol == (feature && p.framework && p.delete_client_symbol),
        c.entitlement_present == (feature && p.entitlement),
        c.privileged == (feature && p.root),
    ensures
        c.ready_spec() == (feature && p.framework && p.new_client_symbol && p.subscribe_symbol
            && p.respond_auth_symbol && p.delete_client_symbol && p.entitlement && p.root),
        c.ready_spec() ==> es_reason(feature, p)
            == "framework, symbols, and entitlement are verified; AUTH engine ready"@,
{
}

/// `yes` or `no`.
pub open spec fn yes_no(b: bool) -> Seq<char> {
    if b {
        "yes"@
    } else {
        "no"@
    }
}

/// The capability line for doctor, status line and reports.
pub open spec fn status_spec(c: EndpointSecurityCapabilities) -> Seq<char> {
    "Endpoint Security: "@ + c.reason@ + "; feature="@ + yes_no(c.feature_enabled)
        + ", framework="@ + yes_no(c.framework_available) + ", entitlement="@ + yes_no(
        c.entitlement_present,
    ) + ", privileged="@ + yes_no(c.privileged) + ", client-active="@ + yes_no(c.client_active)
}

fn push_str(out: &mut Vec<char>, s: &str)
    ensures
        final(out)@ == old(out)@ + s@,
{
    let c = chars_of(s);
    append_chars(out, c.as_slice());
}

fn push_yes_no(out: &mut Vec<char>, b: bool)
    ensures
        final(out)@ == old(out)@ + yes_no(b),
{
    if b {
        push_str(out, "yes");
    } else {
        push_str(out, "no");
    }
}

/// The human-readable capability line.
pub fn status(c: &EndpointSecurityCapabilities) -> (s: String)
    ensures
        s@ == status_spec(*c),
{
    let mut out: Vec<char> = Vec::new();
    push_str(&mut out, "Endpoint Security: ");
    push_str(&mut out, c.reason.as_str());
    push_str(&mut out, "; feature=");
    push_yes_no(&mut out, c.feature_enabled);
    push_str(&mut out, ", framework=");
    push_yes_no(&mut out, c.framework_available);
    push_str(&mut out, ", entitlement=");
    push_yes_no(&mut out, c.entitlement_present);
    push_str(&mut out, ", privileged=");
    push_yes_no(&mut out, c.privileged);
    push_str(&mut out, ", client-active=");
    push_yes_no(&mut out, c.client_active);
    assert(out@ =~= status_spec(*c));
    string_of(out.as_slice())
}

/// What the AUTH engine reports when a gate is missing: `None` where every
/// gate is met and the client is to be created.
pub fn inactive_notice(c: &EndpointSecurityCapabilities) -> (r: Option<String>)
    ensures
        c.ready_spec() ==> r is None,
        !c.ready_spec() ==> (r matches Some(m) && m@ == "Endpoint Security inactive: "@ + c.reason@
            + " (Seatbelt remains primary enforcement)"@),
{
    if c.runtime_ready() {
        return None;
    }
    let mut out: Vec<char> = Vec::new();
    push_str(&mut out, "Endpoint Security inactive: ");
    push_str(&mut out, c.reason.as_str());
    push_str(&mut out, " (Seatbelt remains primary enforcement)");
    Some(string_of(out.as_slice()))
}

/// The text after the first occurrence of `key` in `s` (`str::split_once`).
pub open spec fn after_first(s: Seq<char>, key: Seq<char>) -> Seq<char> {
    match crate::text::find_from(s, key, 0) {
        Some(k) => s.skip(k + key.len()),
        None => Seq::empty(),
    }
}

/// Whether a `codesign --display --entitlements` output grants the Endpoint
/// Security entitlement: the key occurs, and a true value follows it.
pub open spec fn entitlement_granted(text: Seq<char>) -> bool {
    let key = ES_ENTITLEMENT@;
    contains_run(text, key) && {
        let v = after_first(text, key);
        contains_run(v, "<true/>"@) || contains_run(v, "<true />"@) || contains_run(v, ">true<"@)
    }
}

/// Whether the signing output grants the Endpoint Security entitlement.
pub fn entitlement_in_codesign_output(text: &str) -> (r: bool)
    ensures
        r == entitlement_granted(text@),
{
    let t = chars_of(text);
    let key = chars_of(ES_ENTITLEMENT);
    let k = match crate::text::find_chars(t.as_slice(), key.as_slice(), 0) {
        Some(k) => k,
        None => {
            proof {
                crate::text::lemma_find_from_none(t@, key@, 0);
            }
            return false;
        },
    };
    proof {
        crate::text::lemma_find_from_none(t@, key@, 0);
    }
    let rest = crate::text::sub_chars(t.as_slice(), k + key.len(), t.len());
    assert(rest@ =~= t@.skip(k + key@.len()));
    let a = chars_of("<true/>");
    let b = chars_of("<true />");
    let c = chars_of(">true<");
    crate::text::chars_contains(rest.as_slice(), a.as_slice()) || crate::text::chars_contains(
        rest.as_slice(),
        b.as_slice(),
    ) || crate::text::chars_contains(rest.as_slice(), c.as_slice())
}

/// FSEvents flags and the label each one gets, in report order.
pub open spec fn fs_label_table() -> Seq<(u32, Seq<char>)> {
    seq![
        (0x0000_0001u32, "must_scan_subdirs"@),
        (0x0000_0002u32, "user_dropped"@),
        (0x0000_0004u32, "kernel_dropped"@),
        (0x0000_0008u32, "event_ids_wrapped"@),
        (0x0000_0010u32, "history_done"@),
        (0x0000_0020u32, "root_changed"@),
        (0x0000_0040u32, "mount"@),
        (0x0000_0080u32, "unmount"@),
        (0x0000_0100u32, "created"@),
        (0x0000_0200u32, "removed"@),
        (0x0000_0400u32, "inode_metadata"@),
        (0x0000_0800u32, "renamed"@),
        (0x0000_1000u32, "modified"@),
        (0x0000_2000u32, "finder_info"@),
        (0x0000_4000u32, "owner_changed"@),
        (0x0000_8000u32, "xattr_changed"@),
        (0x0001_0000u32, "file"@),
        (0x0002_0000u32, "directory"@),
        (0x0004_0000u32, "symlink"@),
        (0x0008_0000u32, "own_event"@),
        (0x0010_0000u32, "hardlink"@),
        (0x0020_0000u32, "last_hardlink"@),
        (0x0040_0000u32, "cloned"@),
    ]
}

pub const USER_DROPPED: u32 = 0x0000_0002;
pub const KERNEL_DROPPED: u32 = 0x0000_0004;
pub const EVENT_IDS_WRAPPED: u32 = 0x0000_0008;
pub const ITEM_CREATED: u32 = 0x0000_0100;
pub const ITEM_IS_DIR: u32 = 0x0002_0000;

/// The labels of the table entries whose flag is set, in table order.
pub open spec fn set_labels(flags: u32, table: Seq<(u32, Seq<char>)>) -> Seq<Seq<char>>
    decreases table.len(),
{
    if table.len() == 0 {
        Seq::empty()
    } else {
        let prev = set_labels(flags, table.drop_last());
        if flags & table.last().0 != 0 {
            prev.push(table.last().1)
        } else {
            prev
        }
    }
}

/// The label text of an FSEvents flag word: the set flags' labels joined by
/// commas, or `changed` where no known flag is set.
pub open spec fn labels_spec(flags: u32) -> Seq<char> {
    let l = set_labels(flags, fs_label_table());
    if l.len() == 0 {
        "changed"@
    } else {
        join_with(l, ',')
    }
}

/// The label text of an FSEvents flag word.
pub fn labels(flags: u32) -> (s: String)
    ensures
        s@ == labels_spec(flags),
{
    let table: Vec<(u32, &'static str)> = vec![
        (0x0000_0001u32, "must_scan_subdirs"),
        (0x0000_0002u32, "user_dropped"),
        (0x0000_0004u32, "kernel_dropped"),
        (0x0000_0008u32, "event_ids_wrapped"),
        (0x0000_0010u32, "history_done"),
        (0x0000_0020u32, "root_changed"),
        (0x0000_0040u32, "mount"),
        (0x0000_0080u32, "unmount"),
        (0x0000_0100u32, "created"),
        (0x0000_0200u32, "removed"),
        (0x0000_0400u32, "inode_metadata"),
        (0x0000_0800u32, "renamed"),
        (0x0000_1000u32, "modified"),
        (0x0000_2000u32, "finder_info"),
        (0x0000_4000u32, "owner_changed"),
        (0x0000_8000u32, "xattr_changed"),
        (0x0001_0000u32, "file"),
        (0x0002_0000u32, "directory"),
        (0x0004_0000u32, "symlink"),
        (0x0008_0000u32, "own_event"),
        (0x0010_0000u32, "hardlink"),
        (0x0020_0000u32, "last_hardlink"),
        (0x0040_0000u32, "cloned"),
    ];
    let ghost t = fs_label_table();
    assert(table@.len() == t.len());
    assert forall|i: int| 0 <= i < t.len() implies (#[trigger] table@[i]).0 == t[i].0 && table@[i].1@
        == t[i].1 by {}
    let mut parts: Vec<Vec<char>> = Vec::new();
    let mut i: usize = 0;
    assert(t.take(0) =~= Seq::<(u32, Seq<char>)>::empty());
    while i < table.len()
        invariant
            i <= table.len(),
            table@.len() == t.len(),
            t == fs_label_table(),
            forall|k: int| 0 <= k < t.len() ==> (#[trigger] table@[k]).0 == t[k].0 && table@[k].1@
                == t[k].1,
            seqs_of(parts@) == set_labels(flags, t.take(i as int)),
        decreases table.len() - i,
    {
        assert(t.take(i + 1).drop_last() =~= t.take(i as int));
        assert(t.take(i + 1).last() == t[i as int]);
        let (bit, label) = table[i];
        if flags & bit != 0 {
            let ghost before = parts@;
            parts.push(chars_of(label));
            assert(seqs_of(parts@) =~= seqs_of(before).push(label@));
        }
        i += 1;
    }
    assert(t.take(t.len() as int) =~= t);
    if parts.len() == 0 {
        return "changed".to_owned();
    }
    let joined = join_chars(&parts, ',');
    string_of(joined.as_slice())
}

/// A flag word with no known flag set is reported as a change, never as a
/// read.
pub proof fn lemma_no_flags_is_a_change()
    ensures
        labels_spec(0) == "changed"@,
{
    let t = fs_label_table();
    assert forall|n: int| 0 <= n <= t.len() implies #[trigger] set_labels(0, t.take(n)).len() == 0 by {
        lemma_zero_flags_select_nothing(t, n);
    }
    assert(t.take(t.len() as int) =~= t);
}

proof fn lemma_zero_flags_select_nothing(t: Seq<(u32, Seq<char>)>, n: int)
    requires
        0 <= n <= t.len(),
    ensures
        set_labels(0, t.take(n)).len() == 0,
    decreases n,
{
    if n > 0 {
        assert(t.take(n).drop_last() =~= t.take(n - 1));
        lemma_zero_flags_select_nothing(t, n - 1);
        let b = t.take(n).last().0;
        assert(0u32 & b == 0u32) by (bit_vector);
    }
}

/// The notices one FSEvents record produces: the change line, and a warning
/// where history was dropped or event ids wrapped.
pub open spec fn change_notices_spec(path: Seq<char>, flags: u32) -> Seq<Seq<char>> {
    let line = "fsevents change ["@ + labels_spec(flags) + "] path="@ + path;
    if flags & (USER_DROPPED | KERNEL_DROPPED | EVENT_IDS_WRAPPED) != 0 {
        seq![line, "fsevents warning: event history was dropped/wrapped near path="@ + path
            + "; this feed is incomplete"@]
    } else {
        seq![line]
    }
}

/// The notices one FSEvents record produces.
pub fn change_notices(path: &str, flags: u32) -> (n: Vec<String>)
    ensures
        n@.map_values(|s: String| s@) == change_notices_spec(path@, flags),
{
    let mut line: Vec<char> = Vec::new();
    push_str(&mut line, "fsevents change [");
    let l = labels(flags);
    push_str(&mut line, l.as_str());
    push_str(&mut line, "] path=");
    push_str(&mut line, path);
    let mut out: Vec<String> = Vec::new();
    out.push(string_of(line.as_slice()));
    if flags & (USER_DROPPED | KERNEL_DROPPED | EVENT_IDS_WRAPPED) != 0 {
        let mut w: Vec<char> = Vec::new();
        push_str(&mut w, "fsevents warning: event history was dropped/wrapped near path=");
        push_str(&mut w, path);
        push_str(&mut w, "; this feed is incomplete");
        out.push(string_of(w.as_slice()));
    }
    assert(out@.map_values(|s: String| s@) =~= change_notices_spec(path@, flags));
    out
}

/// macOS `open` flags that make an open a write.
pub const MAC_O_WRONLY: i32 = 0x1;
pub const MAC_O_RDWR: i32 = 0x2;
pub const MAC_O_CREAT: i32 = 0x200;
pub const MAC_O_TRUNC: i32 = 0x400;

/// An Endpoint Security authorization event, as plain values (the path is
/// `None` where the message carries no file or no UTF-8 path).
#[derive(Debug, Clone, PartialEq, Eq)]
pub enum AuthEvent {
    Open { path: Option<String>, fflag: i32 },
    Unlink { path: Option<String> },
    Exec,
    Rename,
    Other,
}

/// The answer to an authorization event and the path it concerned: a path
/// under a denied path is refused; an open for writing needs a write root,
/// any other open a read or write root; an unlink needs a write root;
/// everything else is allowed.
pub open spec fn auth_spec(event: AuthEvent, scope: crate::linux::observe_seccomp::PathScope) -> (u32, Option<Seq<char>>) {
    let deny = crate::linux::net_relay::strings_view(scope.deny@);
    let reads = crate::linux::net_relay::strings_view(scope.allow_read@);
    let writes = crate::linux::net_relay::strings_view(scope.allow_write@);
    match event {
        AuthEvent::Open { path: Some(p), fflag } => {
            let is_write = fflag & (MAC_O_WRONLY | MAC_O_RDWR | MAC_O_CREAT | MAC_O_TRUNC) != 0;
            if crate::linux::observe_seccomp::under_any(p@, deny) || (is_write && !crate::linux::observe_seccomp::under_any(p@, writes))
                || (!is_write && !(crate::linux::observe_seccomp::under_any(p@, reads) || crate::linux::observe_seccomp::under_any(p@, writes))) {
                (ES_AUTH_RESULT_DENY, Some(p@))
            } else {
                (ES_AUTH_RESULT_ALLOW, Some(p@))
            }
        },
        AuthEvent::Unlink { path: Some(p) } => if crate::linux::observe_seccomp::under_any(p@, deny)
            || !crate::linux::observe_seccomp::under_any(p@, writes) {
            (ES_AUTH_RESULT_DENY, Some(p@))
        } else {
            (ES_AUTH_RESULT_ALLOW, Some(p@))
        },
        _ => (ES_AUTH_RESULT_ALLOW, None),
    }
}

/// Decides an Endpoint Security authorization event against the policy's
/// path scope.
pub fn evaluate_auth_event(event: &AuthEvent, scope: &crate::linux::observe_seccomp::PathScope) -> (r: (u32, Option<String>))
    ensures
        r.0 == auth_spec(*event, *scope).0,
        crate::text::opt_chars(r.1) == auth_spec(*event, *scope).1,
{
    match event {
        AuthEvent::Open { path: Some(p), fflag } => {
            let pc = chars_of(p.as_str());
            let is_write = *fflag & (MAC_O_WRONLY | MAC_O_RDWR | MAC_O_CREAT | MAC_O_TRUNC) != 0;
            let denied = crate::linux::observe_seccomp::under_any_root(pc.as_slice(), &scope.deny);
            let in_write = crate::linux::observe_seccomp::under_any_root(pc.as_slice(), &scope.allow_write);
            let in_read = crate::linux::observe_seccomp::under_any_root(pc.as_slice(), &scope.allow_read) || in_write;
            let verdict = if denied || (is_write && !in_write) || (!is_write && !in_read) {
                ES_AUTH_RESULT_DENY
            } else {
                ES_AUTH_RESULT_ALLOW
            };
            (verdict, Some(p.clone()))
        },
        AuthEvent::Unlink { path: Some(p) } => {
            let pc = chars_of(p.as_str());
            let denied = crate::linux::observe_seccomp::under_any_root(pc.as_slice(), &scope.deny);
            let in_write = crate::linux::observe_seccomp::under_any_root(pc.as_slice(), &scope.allow_write);
            let verdict = if denied || !in_write {
                ES_AUTH_RESULT_DENY
            } else {
                ES_AUTH_RESULT_ALLOW
            };
            (verdict, Some(p.clone()))
        },
        _ => (ES_AUTH_RESULT_ALLOW, None),
    }
}

/// Whether the parent-death watchdog is started: both pids are real and
/// differ.
pub fn should_spawn_watchdog(vetto_pid: i32, agent_pid: i32) -> (r: bool)
    ensures
        r == (vetto_pid > 0 && agent_pid > 0 && vetto_pid != agent_pid),
{
    vetto_pid > 0 && agent_pid > 0 && vetto_pid != agent_pid
}

/// What the watchdog does next.
#[derive(Debug, Clone, Copy, PartialEq, Eq, Structural)]
pub enum WatchAction {
    /// vetto is gone: kill the agent, then exit.
    KillAgentAndExit,
    /// The agent is gone: nothing is left to guard, exit.
    Exit,
    /// Keep watching.
    Continue,
}

/// The watchdog's answer to the exit notices of one wait (the pids they
/// name, in order): the first notice about vetto or the agent decides.
pub open spec fn exits_spec(exited: Seq<i32>, vetto_pid: i32, agent_pid: i32) -> WatchAction
    decreases exited.len(),
{
    if exited.len() == 0 {
        WatchAction::Continue
    } else if exited[0] == vetto_pid {
        WatchAction::KillAgentAndExit
    } else if exited[0] == agent_pid {
        WatchAction::Exit
    } else {
        exits_spec(exited.drop_first(), vetto_pid, agent_pid)
    }
}

/// Decides on the exit notices of one wait.
pub fn watch_exits(exited: &[i32], vetto_pid: i32, agent_pid: i32) -> (a: WatchAction)
    ensures
        a == exits_spec(exited@, vetto_pid, agent_pid),
{
    let mut i: usize = 0;
    assert(exited@.skip(0) =~= exited@);
    while i < exited.len()
        invariant
            i <= exited.len(),
            exits_spec(exited@, vetto_pid, agent_pid) == exits_spec(exited@.skip(i as int), vetto_pid, agent_pid),
        decreases exited.len() - i,
    {
        assert(exited@.skip(i as int).drop_first() =~= exited@.skip(i + 1));
        if exited[i] == vetto_pid {
            return WatchAction::KillAgentAndExit;
        }
        if exited[i] == agent_pid {
            return WatchAction::Exit;
        }
        i += 1;
    }
    WatchAction::Continue
}

/// The answer to the liveness probes made after each wait: vetto being gone
/// is checked first.
pub fn watch_liveness(vetto_gone: bool, agent_gone: bool) -> (a: WatchAction)
    ensures
        a == if vetto_gone {
            WatchAction::KillAgentAndExit
        } else if agent_gone {
            WatchAction::Exit
        } else {
            WatchAction::Continue
        },
{
    if vetto_gone {
        WatchAction::KillAgentAndExit
    } else if agent_gone {
        WatchAction::Exit
    } else {
        WatchAction::Continue
    }
}

} // verus!
