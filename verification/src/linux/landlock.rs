//! Landlock access masks per ABI version, and the data-only preparation of
//! path rules from the policy's read and write roots.
use vstd::prelude::*;
use crate::paths::{lemma_path_lt_strict_order, path_less, path_lt};
use crate::text::{chars_eq, chars_of, copy_chars, seqs_of, string_of};

verus! {

/// `landlock_create_ruleset` system call number (x86_64 and aarch64).
pub const SYS_LANDLOCK_CREATE_RULESET: i64 = 444;

/// `landlock_add_rule` system call number.
pub const SYS_LANDLOCK_ADD_RULE: i64 = 445;

/// `landlock_restrict_self` system call number.
pub const SYS_LANDLOCK_RESTRICT_SELF: i64 = 446;

/// Flag that makes `landlock_create_ruleset` report the ABI version.
pub const LANDLOCK_CREATE_RULESET_VERSION: u32 = 1;

/// Rule type for a path hierarchy.
pub const LANDLOCK_RULE_PATH_BENEATH: i32 = 1;

/// Rule type for a TCP port.
pub const LANDLOCK_RULE_NET_PORT: i32 = 2;

pub const EXECUTE: u64 = 0x1;
pub const WRITE_FILE: u64 = 0x2;
pub const READ_FILE: u64 = 0x4;
pub const READ_DIR: u64 = 0x8;
pub const REMOVE_DIR: u64 = 0x10;
pub const REMOVE_FILE: u64 = 0x20;
pub const MAKE_CHAR: u64 = 0x40;
pub const MAKE_DIR: u64 = 0x80;
pub const MAKE_REG: u64 = 0x100;
pub const MAKE_SOCK: u64 = 0x200;
pub const MAKE_FIFO: u64 = 0x400;
pub const MAKE_BLOCK: u64 = 0x800;
pub const MAKE_SYM: u64 = 0x1000;
/// ABI 2.
pub const REFER: u64 = 0x2000;
/// ABI 3.
pub const TRUNCATE: u64 = 0x4000;
/// ABI 5.
pub const IOCTL_DEV: u64 = 0x8000;
pub const LANDLOCK_ACCESS_FS_IOCTL_DEV: u64 = 0x8000;

/// ABI 4.
pub const LANDLOCK_ACCESS_NET_BIND_TCP: u64 = 0x1;
/// ABI 4.
pub const LANDLOCK_ACCESS_NET_CONNECT_TCP: u64 = 0x2;

/// ABI 6.
pub const LANDLOCK_SCOPE_ABSTRACT_UNIX_SOCKET: u64 = 0x1;
/// ABI 6.
pub const LANDLOCK_SCOPE_SIGNAL: u64 = 0x2;

/// The kernel's `struct landlock_ruleset_attr`.
#[derive(Debug, Clone, Copy, PartialEq, Eq, Structural)]
pub struct LandlockRulesetAttr {
    pub handled_access_fs: u64,
    pub handled_access_net: u64,
    pub handled_access_scope: u64,
}

/// The kernel's `struct landlock_path_beneath_attr`.
#[derive(Debug, Clone, Copy, PartialEq, Eq, Structural)]
pub struct LandlockPathBeneathAttr {
    pub allowed_access: u64,
    pub parent_fd: i32,
}

/// The kernel's `struct landlock_net_port_attr`.
#[derive(Debug, Clone, Copy, PartialEq, Eq, Structural)]
pub struct LandlockNetPortAttr {
    pub allowed_access: u64,
    pub port: u64,
}

/// Size of `landlock_ruleset_attr` that the kernel of ABI `abi` expects.
pub fn ruleset_attr_size_for_abi(abi: u32) -> (size: usize)
    ensures
        size == if abi >= 6 {
            24usize
        } else if abi >= 4 {
            16usize
        } else {
            8usize
        },
{
    if abi >= 6 {
        24
    } else if abi >= 4 {
        16
    } else {
        8
    }
}

/// The filesystem rights handled at ABI `abi`.
pub open spec fn fs_mask_spec(abi: u32) -> u64 {
    if abi >= 5 {
        0xFFFF
    } else if abi >= 3 {
        0x7FFF
    } else if abi >= 2 {
        0x3FFF
    } else {
        0x1FFF
    }
}

/// The filesystem rights handled at ABI `abi`: the base rights, plus REFER
/// from ABI 2, TRUNCATE from ABI 3 and IOCTL_DEV from ABI 5.
pub fn handled_fs_mask(abi: u32) -> (mask: u64)
    ensures
        mask == fs_mask_spec(abi),
{
    let mut mask = EXECUTE | WRITE_FILE | READ_FILE | READ_DIR | REMOVE_DIR | REMOVE_FILE
        | MAKE_CHAR | MAKE_DIR | MAKE_REG | MAKE_SOCK | MAKE_FIFO | MAKE_BLOCK | MAKE_SYM;
    assert(mask == 0x1FFF) by (bit_vector)
        requires
            mask == 0x1u64 | 0x2u64 | 0x4u64 | 0x8u64 | 0x10u64 | 0x20u64 | 0x40u64 | 0x80u64
                | 0x100u64 | 0x200u64 | 0x400u64 | 0x800u64 | 0x1000u64,
    ;
    if abi >= 2 {
        mask = mask | REFER;
        assert(0x1FFFu64 | 0x2000u64 == 0x3FFFu64) by (bit_vector);
    }
    if abi >= 3 {
        mask = mask | TRUNCATE;
        assert(0x3FFFu64 | 0x4000u64 == 0x7FFFu64) by (bit_vector);
    }
    if abi >= 5 {
        mask = mask | IOCTL_DEV;
        assert(0x7FFFu64 | 0x8000u64 == 0xFFFFu64) by (bit_vector);
    }
    mask
}

/// The network rights handled at ABI `abi` (TCP bind and connect from ABI 4).
pub fn handled_net_mask(abi: u32) -> (mask: u64)
    ensures
        mask == if abi >= 4 {
            3u64
        } else {
            0u64
        },
{
    if abi >= 4 {
        assert(0x1u64 | 0x2u64 == 3u64) by (bit_vector);
        LANDLOCK_ACCESS_NET_BIND_TCP | LANDLOCK_ACCESS_NET_CONNECT_TCP
    } else {
        0
    }
}

/// The scopes handled at ABI `abi` (abstract UNIX sockets and signals from ABI 6).
pub fn handled_scope_mask(abi: u32) -> (mask: u64)
    ensures
        mask == if abi >= 6 {
            3u64
        } else {
            0u64
        },
{
    if abi >= 6 {
        assert(0x1u64 | 0x2u64 == 3u64) by (bit_vector);
        LANDLOCK_SCOPE_ABSTRACT_UNIX_SOCKET | LANDLOCK_SCOPE_SIGNAL
    } else {
        0
    }
}

/// Read-only rights: read and execute files, list directories, and (ABI 5+)
/// device ioctls.
pub open spec fn read_only_spec(is_dir: bool, abi: u32) -> u64 {
    if is_dir {
        if abi >= 5 {
            0x800D
        } else {
            0xD
        }
    } else {
        if abi >= 5 {
            0x8005
        } else {
            0x5
        }
    }
}

/// Read-only rights for toolchains, caches and system trees.
pub fn read_only_rights(is_dir: bool, abi: u32) -> (r: u64)
    ensures
        r == read_only_spec(is_dir, abi),
{
    let mut r = READ_FILE | EXECUTE;
    assert(0x4u64 | 0x1u64 == 0x5u64) by (bit_vector);
    if is_dir {
        r = r | READ_DIR;
        assert(0x5u64 | 0x8u64 == 0xDu64) by (bit_vector);
    }
    if abi >= 5 {
        r = r | IOCTL_DEV;
        assert(0x5u64 | 0x8000u64 == 0x8005u64 && 0xDu64 | 0x8000u64 == 0x800Du64) by (bit_vector);
    }
    r
}

/// Rights for trees the agent must be able to mutate: every filesystem right
/// the ABI handles.
pub fn write_rights(abi: u32) -> (r: u64)
    ensures
        r == fs_mask_spec(abi),
{
    let base = read_only_rights(true, abi);
    let mut r = base | WRITE_FILE | REMOVE_DIR | REMOVE_FILE | MAKE_DIR | MAKE_REG | MAKE_SYM
        | MAKE_FIFO | MAKE_SOCK | MAKE_CHAR | MAKE_BLOCK;
    assert(r == (if abi >= 5 { 0x9FFFu64 } else { 0x1FFFu64 })) by (bit_vector)
        requires
            base == (if abi >= 5 { 0x800Du64 } else { 0xDu64 }),
            r == base | 0x2u64 | 0x10u64 | 0x20u64 | 0x80u64 | 0x100u64 | 0x1000u64 | 0x400u64
                | 0x200u64 | 0x40u64 | 0x800u64,
    ;
    if abi >= 2 {
        r = r | REFER;
        assert(0x1FFFu64 | 0x2000u64 == 0x3FFFu64 && 0x9FFFu64 | 0x2000u64 == 0xBFFFu64) by (bit_vector);
    }
    if abi >= 3 {
        r = r | TRUNCATE;
        assert(0x3FFFu64 | 0x4000u64 == 0x7FFFu64 && 0xBFFFu64 | 0x4000u64 == 0xFFFFu64) by (bit_vector);
    }
    if abi >= 5 {
        r = r | IOCTL_DEV;
        assert(0xFFFFu64 | 0x8000u64 == 0xFFFFu64) by (bit_vector);
    }
    r
}

/// Each newer ABI handles every filesystem right an older one does, and
/// write rights carry device ioctls exactly from ABI 5 on.
pub proof fn lemma_masks_scale_with_abi(a: u32, b: u32)
    requires
        a <= b,
    ensures
        fs_mask_spec(a) & fs_mask_spec(b) == fs_mask_spec(a),
        (fs_mask_spec(a) & IOCTL_DEV != 0) == (a >= 5),
        (fs_mask_spec(a) & REFER != 0) == (a >= 2),
        (fs_mask_spec(a) & TRUNCATE != 0) == (a >= 3),
{
    let x = fs_mask_spec(a);
    let y = fs_mask_spec(b);
    assert(x == 0x1FFF || x == 0x3FFF || x == 0x7FFF || x == 0xFFFF);
    assert({
        &&& 0x1FFFu64 & 0x3FFFu64 == 0x1FFFu64
        &&& 0x1FFFu64 & 0x7FFFu64 == 0x1FFFu64
        &&& 0x1FFFu64 & 0xFFFFu64 == 0x1FFFu64
        &&& 0x3FFFu64 & 0x7FFFu64 == 0x3FFFu64
        &&& 0x3FFFu64 & 0xFFFFu64 == 0x3FFFu64
        &&& 0x7FFFu64 & 0xFFFFu64 == 0x7FFFu64
        &&& 0x1FFFu64 & 0x1FFFu64 == 0x1FFFu64
        &&& 0x3FFFu64 & 0x3FFFu64 == 0x3FFFu64
        &&& 0x7FFFu64 & 0x7FFFu64 == 0x7FFFu64
        &&& 0xFFFFu64 & 0xFFFFu64 == 0xFFFFu64
        &&& 0x1FFFu64 & 0x8000u64 == 0u64
        &&& 0x3FFFu64 & 0x8000u64 == 0u64
        &&& 0x7FFFu64 & 0x8000u64 == 0u64
        &&& 0xFFFFu64 & 0x8000u64 == 0x8000u64
        &&& 0x1FFFu64 & 0x2000u64 == 0u64
        &&& 0x3FFFu64 & 0x2000u64 == 0x2000u64
        &&& 0x7FFFu64 & 0x2000u64 == 0x2000u64
        &&& 0xFFFFu64 & 0x2000u64 == 0x2000u64
        &&& 0x1FFFu64 & 0x4000u64 == 0u64
        &&& 0x3FFFu64 & 0x4000u64 == 0u64
        &&& 0x7FFFu64 & 0x4000u64 == 0x4000u64
        &&& 0xFFFFu64 & 0x4000u64 == 0x4000u64
    }) by (bit_vector);
}


/// What the filesystem reports of one policy path when rules are prepared.
#[derive(Debug, Clone, PartialEq, Eq)]
pub struct PathFacts {
    pub path: String,
    pub exists: bool,
    pub is_dir: bool,
}

/// A path rule prepared for a Landlock ruleset.
///
/// This is data only: preparing rules creates no ruleset, adds no kernel
/// rule and restricts nothing.
#[derive(Debug, Clone, PartialEq, Eq)]
pub struct PreparedRule {
    pub path: String,
    pub allowed_access: u64,
}

/// Data-only Landlock preparation result.
#[derive(Debug, Clone, PartialEq, Eq)]
pub struct PreparedRuleset {
    abi: u32,
    rules: Vec<PreparedRule>,
}

/// Why rules could not be prepared.
#[derive(Debug, Clone, Copy, PartialEq, Eq, Structural)]
pub enum LandlockError {
    /// The kernel does not support Landlock (it needs 5.13 or later).
    Unsupported,
}

impl LandlockError {
    /// What the operator is told.
    pub fn message(&self) -> (m: String)
        ensures
            m@ == match self {
                LandlockError::Unsupported => "kernel does not support Landlock (needs >= 5.13)"@,
            },
    {
        match self {
            LandlockError::Unsupported => "kernel does not support Landlock (needs >= 5.13)".to_owned(),
        }
    }
}

/// A rule as plain values: its path and its access mask.
pub open spec fn rule_view(r: PreparedRule) -> (Seq<char>, u64) {
    (r.path@, r.allowed_access)
}

/// The rules of a list, as plain values.
pub open spec fn rules_of(s: Seq<PreparedRule>) -> Seq<(Seq<char>, u64)> {
    s.map_values(|r: PreparedRule| rule_view(r))
}

impl PreparedRuleset {
    /// The ABI the masks were computed for.
    pub closed spec fn abi_view(&self) -> u32 {
        self.abi
    }

    /// The prepared rules, in order.
    pub closed spec fn rules_view(&self) -> Seq<(Seq<char>, u64)> {
        rules_of(self.rules@)
    }

    /// Landlock ABI used to calculate the access masks.
    pub fn abi(&self) -> (r: u32)
        ensures
            r == self.abi_view(),
    {
        self.abi
    }

    /// Prepared path rules, in stable path order.
    pub fn rules(&self) -> (r: &[PreparedRule])
        ensures
            rules_of(r@) == self.rules_view(),
    {
        self.rules.as_slice()
    }

    /// Number of concrete rules that would be added to the kernel.
    pub fn len(&self) -> (n: usize)
        ensures
            n == self.rules_view().len(),
    {
        self.rules.len()
    }

    /// Whether no rule would be added.
    pub fn is_empty(&self) -> (b: bool)
        ensures
            b == (self.rules_view().len() == 0),
    {
        self.rules.len() == 0
    }
}

/// Rights a write root grants: every handled right, less file reads when
/// `strip_read` is set.
pub open spec fn write_grant(abi: u32, strip_read: bool) -> u64 {
    if strip_read {
        fs_mask_spec(abi) & !READ_FILE
    } else {
        fs_mask_spec(abi)
    }
}

/// Rights one listed path asks for.
pub open spec fn grant_rights(abi: u32, write: bool, strip_read: bool, is_dir: bool) -> u64 {
    if write {
        write_grant(abi, strip_read)
    } else {
        read_only_spec(is_dir, abi)
    }
}

/// The grants of a list of roots, in order: each existing path with whether
/// it is a directory and the rights it asks for.
pub open spec fn grants_of(facts: Seq<PathFacts>, abi: u32, write: bool, strip_read: bool) -> Seq<
    (Seq<char>, bool, u64),
>
    decreases facts.len(),
{
    if facts.len() == 0 {
        Seq::empty()
    } else {
        let prev = grants_of(facts.drop_last(), abi, write, strip_read);
        let f = facts.last();
        if f.exists {
            prev.push((f.path@, f.is_dir, grant_rights(abi, write, strip_read, f.is_dir)))
        } else {
            prev
        }
    }
}

/// All grants of a policy: the read roots first, then the write roots.
pub open spec fn all_grants(
    abi: u32,
    allow_write: Seq<PathFacts>,
    allow_read: Seq<PathFacts>,
    strip_read: bool,
) -> Seq<(Seq<char>, bool, u64)> {
    grants_of(allow_read, abi, false, strip_read) + grants_of(allow_write, abi, true, strip_read)
}

/// Whether some grant names path `p`.
pub open spec fn has_path(g: Seq<(Seq<char>, bool, u64)>, p: Seq<char>) -> bool {
    exists|i: int| 0 <= i < g.len() && (#[trigger] g[i]).0 == p
}

/// The union of the rights granted to path `p`.
pub open spec fn merged_rights(g: Seq<(Seq<char>, bool, u64)>, p: Seq<char>) -> u64
    decreases g.len(),
{
    if g.len() == 0 {
        0
    } else {
        let r = merged_rights(g.drop_last(), p);
        if g.last().0 == p {
            r | g.last().2
        } else {
            r
        }
    }
}

/// Whether the first grant of path `p` saw a directory.
pub open spec fn first_is_dir(g: Seq<(Seq<char>, bool, u64)>, p: Seq<char>) -> bool
    decreases g.len(),
{
    if g.len() == 0 {
        false
    } else if has_path(g.drop_last(), p) {
        first_is_dir(g.drop_last(), p)
    } else {
        g.last().0 == p && g.last().1
    }
}

/// Rights the kernel accepts on a path that is not a directory.
pub open spec fn file_mask_spec(abi: u32) -> u64 {
    READ_FILE | WRITE_FILE | EXECUTE | (if abi >= 3 {
        TRUNCATE
    } else {
        0
    }) | (if abi >= 5 {
        IOCTL_DEV
    } else {
        0
    })
}

/// The rights path `p` ends up with: the union of its grants, cut to the
/// file rights where it is not a directory.
pub open spec fn effective_rights(abi: u32, g: Seq<(Seq<char>, bool, u64)>, p: Seq<char>) -> u64 {
    if first_is_dir(g, p) {
        merged_rights(g, p)
    } else {
        merged_rights(g, p) & file_mask_spec(abi)
    }
}

/// `v` holds exactly one rule for each granted path whose effective rights
/// are not empty, with those rights, in path order.
pub open spec fn prepared_exactly(
    abi: u32,
    g: Seq<(Seq<char>, bool, u64)>,
    v: Seq<(Seq<char>, u64)>,
) -> bool {
    &&& forall|m: int|
        0 <= m < v.len() ==> has_path(g, (#[trigger] v[m]).0) && v[m].1 == effective_rights(
            abi,
            g,
            v[m].0,
        ) && v[m].1 != 0
    &&& forall|p: Seq<char>|
        #![trigger has_path(g, p)]
        has_path(g, p) && effective_rights(abi, g, p) != 0 ==> exists|m: int|
            0 <= m < v.len() && (#[trigger] v[m]).0 == p
    &&& forall|m1: int, m2: int|
        0 <= m1 < v.len() && 0 <= m2 < v.len() && m1 != m2 ==> (#[trigger] v[m1]).0 != (
        #[trigger] v[m2]).0
    &&& forall|m1: int, m2: int|
        0 <= m1 < m2 < v.len() ==> !path_lt((#[trigger] v[m2]).0, (#[trigger] v[m1]).0)
}

/// The accumulated per-path state models the grants `g`.
spec fn acc_models(
    ps: Seq<Seq<char>>,
    ds: Seq<bool>,
    rs: Seq<u64>,
    g: Seq<(Seq<char>, bool, u64)>,
) -> bool {
    &&& ps.len() == ds.len()
    &&& ps.len() == rs.len()
    &&& forall|i: int|
        0 <= i < ps.len() ==> has_path(g, #[trigger] ps[i]) && rs[i] == merged_rights(g, ps[i])
            && ds[i] == first_is_dir(g, ps[i])
    &&& forall|p: Seq<char>|
        #![trigger has_path(g, p)]
        has_path(g, p) ==> exists|i: int| 0 <= i < ps.len() && ps[i] == p
    &&& forall|i: int, j: int|
        0 <= i < ps.len() && 0 <= j < ps.len() && i != j ==> #[trigger] ps[i] != #[trigger] ps[j]
}

proof fn lemma_merged_absent(g: Seq<(Seq<char>, bool, u64)>, p: Seq<char>)
    requires
        !has_path(g, p),
    ensures
        merged_rights(g, p) == 0,
    decreases g.len(),
{
    if g.len() > 0 {
        let h = g.drop_last();
        assert(!has_path(h, p)) by {
            if has_path(h, p) {
                let i = choose|i: int| 0 <= i < h.len() && (#[trigger] h[i]).0 == p;
                assert(g[i] == h[i]);
            }
        }
        assert(g[g.len() - 1] == g.last());
        lemma_merged_absent(h, p);
    }
}

proof fn lemma_grant_push(
    g: Seq<(Seq<char>, bool, u64)>,
    x: (Seq<char>, bool, u64),
    p: Seq<char>,
)
    ensures
        merged_rights(g.push(x), p) == if x.0 == p {
            merged_rights(g, p) | x.2
        } else {
            merged_rights(g, p)
        },
        first_is_dir(g.push(x), p) == if has_path(g, p) {
            first_is_dir(g, p)
        } else {
            x.0 == p && x.1
        },
        has_path(g.push(x), p) == (has_path(g, p) || x.0 == p),
{
    let h = g.push(x);
    assert(h.drop_last() =~= g);
    assert(h[g.len() as int] == x);
    if has_path(g, p) {
        let i = choose|i: int| 0 <= i < g.len() && (#[trigger] g[i]).0 == p;
        assert(h[i] == g[i]);
    }
    if has_path(h, p) && x.0 != p {
        let i = choose|i: int| 0 <= i < h.len() && (#[trigger] h[i]).0 == p;
        assert(g[i] == h[i]);
    }
}

/// Adds one grant to the per-path accumulation.
fn merge_grant(
    paths: &mut Vec<Vec<char>>,
    dirs: &mut Vec<bool>,
    rights: &mut Vec<u64>,
    Ghost(g): Ghost<Seq<(Seq<char>, bool, u64)>>,
    path: Vec<char>,
    is_dir: bool,
    r: u64,
)
    requires
        acc_models(seqs_of(old(paths)@), old(dirs)@, old(rights)@, g),
    ensures
        acc_models(seqs_of(final(paths)@), final(dirs)@, final(rights)@, g.push((path@, is_dir, r))),
{
    let ghost x = (path@, is_dir, r);
    let ghost g2 = g.push(x);
    let ghost ps = seqs_of(paths@);
    let mut k: usize = 0;
    while k < paths.len()
        invariant
            k <= paths.len(),
            ps == seqs_of(paths@),
            forall|j: int| 0 <= j < k ==> ps[j] != path@,
        ensures
            k <= paths.len(),
            k < paths.len() ==> ps[k as int] == path@,
            forall|j: int| 0 <= j < k ==> ps[j] != path@,
        decreases paths.len() - k,
    {
        if chars_eq(paths[k].as_slice(), path.as_slice()) {
            break;
        }
        k += 1;
    }
    if k < paths.len() {
        let merged = rights[k] | r;
        rights.set(k, merged);
        proof {
            assert forall|i: int| 0 <= i < ps.len() implies has_path(g2, #[trigger] ps[i])
                && rights@[i] == merged_rights(g2, ps[i]) && dirs@[i] == first_is_dir(
                g2,
                ps[i],
            ) by {
                lemma_grant_push(g, x, ps[i]);
            }
            assert forall|p: Seq<char>| #![trigger has_path(g2, p)] has_path(g2, p) implies exists|
                i: int,
            | 0 <= i < ps.len() && ps[i] == p by {
                lemma_grant_push(g, x, p);
                if p == path@ {
                    assert(ps[k as int] == p);
                }
            }
        }
    } else {
        proof {
            if has_path(g, path@) {
                let i = choose|i: int| 0 <= i < ps.len() && ps[i] == path@;
            }
            lemma_merged_absent(g, path@);
            assert(0u64 | r == r) by (bit_vector);
        }
        paths.push(path);
        dirs.push(is_dir);
        rights.push(r);
        proof {
            let ps2 = seqs_of(paths@);
            assert(ps2 =~= ps.push(x.0));
            assert forall|i: int| 0 <= i < ps2.len() implies has_path(g2, #[trigger] ps2[i])
                && rights@[i] == merged_rights(g2, ps2[i]) && dirs@[i] == first_is_dir(
                g2,
                ps2[i],
            ) by {
                lemma_grant_push(g, x, ps2[i]);
            }
            assert forall|p: Seq<char>| #![trigger has_path(g2, p)] has_path(g2, p) implies exists|
                i: int,
            | 0 <= i < ps2.len() && ps2[i] == p by {
                lemma_grant_push(g, x, p);
                if p == x.0 {
                    assert(ps2[ps.len() as int] == p);
                } else {
                    let i = choose|i: int| 0 <= i < ps.len() && ps[i] == p;
                    assert(ps2[i] == p);
                }
            }
        }
    }
}

/// Adds the grants of one list of roots to the accumulation.
fn merge_roots(
    paths: &mut Vec<Vec<char>>,
    dirs: &mut Vec<bool>,
    rights: &mut Vec<u64>,
    Ghost(g): Ghost<Seq<(Seq<char>, bool, u64)>>,
    facts: &[PathFacts],
    abi: u32,
    write: bool,
    strip_read: bool,
)
    requires
        acc_models(seqs_of(old(paths)@), old(dirs)@, old(rights)@, g),
    ensures
        acc_models(
            seqs_of(final(paths)@),
            final(dirs)@,
            final(rights)@,
            g + grants_of(facts@, abi, write, strip_read),
        ),
{
    let granted = if write {
        let w = write_rights(abi);
        if strip_read {
            w & !READ_FILE
        } else {
            w
        }
    } else {
        0
    };
    let mut i: usize = 0;
    assert(facts@.take(0) =~= Seq::<PathFacts>::empty());
    assert(g + Seq::<(Seq<char>, bool, u64)>::empty() =~= g);
    while i < facts.len()
        invariant
            i <= facts.len(),
            write ==> granted == write_grant(abi, strip_read),
            acc_models(
                seqs_of(paths@),
                dirs@,
                rights@,
                g + grants_of(facts@.take(i as int), abi, write, strip_read),
            ),
        decreases facts.len() - i,
    {
        let ghost before = grants_of(facts@.take(i as int), abi, write, strip_read);
        assert(facts@.take(i + 1).drop_last() =~= facts@.take(i as int));
        assert(facts@.take(i + 1).last() == facts@[i as int]);
        let f = &facts[i];
        if f.exists {
            let rr = if write {
                granted
            } else {
                read_only_rights(f.is_dir, abi)
            };
            let path = chars_of(f.path.as_str());
            merge_grant(paths, dirs, rights, Ghost(g + before), path, f.is_dir, rr);
            assert((g + before).push((f.path@, f.is_dir, rr)) =~= g + before.push(
                (f.path@, f.is_dir, rr),
            ));
        }
        i += 1;
    }
    assert(facts@.take(facts.len() as int) =~= facts@);
}

/// Rights the kernel accepts on a path that is not a directory.
pub fn file_mask(abi: u32) -> (m: u64)
    ensures
        m == file_mask_spec(abi),
{
    READ_FILE | WRITE_FILE | EXECUTE | (if abi >= 3 {
        TRUNCATE
    } else {
        0
    }) | (if abi >= 5 {
        IOCTL_DEV
    } else {
        0
    })
}

/// Paths in order: no later one sorts before an earlier one.
spec fn sorted_paths(s: Seq<Seq<char>>) -> bool {
    forall|m1: int, m2: int| 0 <= m1 < m2 < s.len() ==> !path_lt(#[trigger] s[m2], #[trigger] s[m1])
}

/// Inserts `path` with rights `eff` before the first path that sorts after it.
fn insert_sorted(
    out_paths: &mut Vec<Vec<char>>,
    out_rights: &mut Vec<u64>,
    path: &[char],
    eff: u64,
) -> (p: usize)
    requires
        old(out_paths).len() == old(out_rights).len(),
        sorted_paths(seqs_of(old(out_paths)@)),
    ensures
        p <= old(out_paths).len(),
        seqs_of(final(out_paths)@) == seqs_of(old(out_paths)@).insert(p as int, path@),
        final(out_rights)@ == old(out_rights)@.insert(p as int, eff),
        sorted_paths(seqs_of(final(out_paths)@)),
{
    let ghost s = seqs_of(out_paths@);
    let ghost x = path@;
    let mut p: usize = 0;
    while p < out_paths.len() && !path_less(path, out_paths[p].as_slice())
        invariant
            p <= out_paths.len(),
            s == seqs_of(out_paths@),
            x == path@,
            forall|k: int| 0 <= k < p ==> !path_lt(x, #[trigger] s[k]),
        decreases out_paths.len() - p,
    {
        p += 1;
    }
    assert(p < s.len() ==> path_lt(x, s[p as int]));
    let copy = copy_chars(path);
    out_paths.insert(p, copy);
    out_rights.insert(p, eff);
    proof {
        let s2 = seqs_of(out_paths@);
        assert(s2 =~= s.insert(p as int, x));
        assert forall|m1: int, m2: int| 0 <= m1 < m2 < s2.len() implies !path_lt(
            #[trigger] s2[m2],
            #[trigger] s2[m1],
        ) by {
            if m1 == p {
                let k = m2 - 1;
                lemma_path_lt_strict_order(s[k], x, s[p as int]);
                lemma_path_lt_strict_order(x, s[p as int], s[p as int]);
            } else if m1 < p && m2 > p {
                assert(!path_lt(s[m2 - 1], s[m1]));
            } else if m1 > p {
                assert(!path_lt(s[m2 - 1], s[m1 - 1]));
            }
        }
    }
    p
}

/// The output built from the first `i` accumulated paths: each output path
/// is one of them, with its effective rights, which are not empty; each of
/// them with rights is in the output; no path twice; in path order.
spec fn out_tracks(
    abi: u32,
    g: Seq<(Seq<char>, bool, u64)>,
    ps: Seq<Seq<char>>,
    i: int,
    s: Seq<Seq<char>>,
    r: Seq<u64>,
) -> bool {
    &&& s.len() == r.len()
    &&& forall|m: int|
        0 <= m < s.len() ==> exists|idx: int| 0 <= idx < i && ps[idx] == (#[trigger] s[m])
    &&& forall|m: int|
        0 <= m < s.len() ==> #[trigger] r[m] == effective_rights(abi, g, s[m]) && r[m] != 0
            && has_path(g, s[m])
    &&& forall|idx: int|
        0 <= idx < i && effective_rights(abi, g, #[trigger] ps[idx]) != 0 ==> exists|m: int|
            0 <= m < s.len() && s[m] == ps[idx]
    &&& forall|m1: int, m2: int|
        0 <= m1 < s.len() && 0 <= m2 < s.len() && m1 != m2 ==> (#[trigger] s[m1]) != (
        #[trigger] s[m2])
    &&& sorted_paths(s)
}

proof fn lemma_tracks_skip(
    abi: u32,
    g: Seq<(Seq<char>, bool, u64)>,
    ps: Seq<Seq<char>>,
    i: int,
    s: Seq<Seq<char>>,
    r: Seq<u64>,
)
    requires
        0 <= i < ps.len(),
        out_tracks(abi, g, ps, i, s, r),
        effective_rights(abi, g, ps[i]) == 0,
    ensures
        out_tracks(abi, g, ps, i + 1, s, r),
{
    assert forall|m: int| 0 <= m < s.len() implies exists|idx: int|
        0 <= idx < i + 1 && ps[idx] == (#[trigger] s[m]) by {
        let idx = choose|idx: int| 0 <= idx < i && ps[idx] == s[m];
    }
}

proof fn lemma_tracks_insert(
    abi: u32,
    g: Seq<(Seq<char>, bool, u64)>,
    ps: Seq<Seq<char>>,
    i: int,
    s: Seq<Seq<char>>,
    r: Seq<u64>,
    p: int,
)
    requires
        0 <= i < ps.len(),
        0 <= p <= s.len(),
        out_tracks(abi, g, ps, i, s, r),
        effective_rights(abi, g, ps[i]) != 0,
        has_path(g, ps[i]),
        forall|a: int, b: int|
            0 <= a < ps.len() && 0 <= b < ps.len() && a != b ==> #[trigger] ps[a] != #[trigger] ps[b],
        sorted_paths(s.insert(p, ps[i])),
    ensures
        out_tracks(
            abi,
            g,
            ps,
            i + 1,
            s.insert(p, ps[i]),
            r.insert(p, effective_rights(abi, g, ps[i])),
        ),
{
    let x = ps[i];
    let s2 = s.insert(p, x);
    let r2 = r.insert(p, effective_rights(abi, g, x));
    assert forall|m: int| 0 <= m < s2.len() implies #[trigger] r2[m] == effective_rights(
        abi,
        g,
        s2[m],
    ) && r2[m] != 0 && has_path(g, s2[m]) by {
        if m < p {
            assert(r2[m] == r[m]);
        } else if m > p {
            assert(r2[m] == r[m - 1]);
        }
    }
    assert forall|m1: int, m2: int|
        0 <= m1 < s2.len() && 0 <= m2 < s2.len() && m1 != m2 implies (#[trigger] s2[m1]) != (
        #[trigger] s2[m2]) by {
        if m1 == p {
            let k = if m2 < p {
                m2
            } else {
                m2 - 1
            };
            let idx = choose|idx: int| 0 <= idx < i && ps[idx] == s[k];
        } else if m2 == p {
            let k = if m1 < p {
                m1
            } else {
                m1 - 1
            };
            let idx = choose|idx: int| 0 <= idx < i && ps[idx] == s[k];
        } else {
            let a = if m1 < p {
                m1
            } else {
                m1 - 1
            };
            let b = if m2 < p {
                m2
            } else {
                m2 - 1
            };
            assert(s[a] != s[b]);
        }
    }
    assert forall|m: int| 0 <= m < s2.len() implies exists|idx: int|
        0 <= idx < i + 1 && ps[idx] == (#[trigger] s2[m]) by {
        if m == p {
            assert(ps[i] == s2[m]);
        } else if m < p {
            let idx = choose|idx: int| 0 <= idx < i && ps[idx] == s[m];
            assert(ps[idx] == s2[m]);
        } else {
            let idx = choose|idx: int| 0 <= idx < i && ps[idx] == s[m - 1];
            assert(ps[idx] == s2[m]);
        }
    }
    assert forall|idx: int|
        0 <= idx < i + 1 && effective_rights(abi, g, #[trigger] ps[idx]) != 0 implies exists|m: int|
        0 <= m < s2.len() && s2[m] == ps[idx] by {
        if idx == i {
            assert(s2[p] == ps[idx]);
        } else {
            let m = choose|m: int| 0 <= m < s.len() && s[m] == ps[idx];
            if m < p {
                assert(s2[m] == ps[idx]);
            } else {
                assert(s2[m + 1] == ps[idx]);
            }
        }
    }
}

/// Prepares path rules for a caller-supplied ABI without touching the
/// Landlock installation system calls. Read and write grants of one path
/// are united; only existing paths count; a path that is not a directory
/// keeps only the file rights; paths left with no right are dropped; the
/// rules come in path order.
pub fn prepare_ruleset_for_abi(
    abi: u32,
    allow_write: &[PathFacts],
    allow_read: &[PathFacts],
    strip_read_on_write: bool,
) -> (r: PreparedRuleset)
    ensures
        r.abi_view() == abi,
        prepared_exactly(
            abi,
            all_grants(abi, allow_write@, allow_read@, strip_read_on_write),
            r.rules_view(),
        ),
{
    let ghost g = all_grants(abi, allow_write@, allow_read@, strip_read_on_write);
    let mut paths: Vec<Vec<char>> = Vec::new();
    let mut dirs: Vec<bool> = Vec::new();
    let mut rights: Vec<u64> = Vec::new();
    let ghost empty = Seq::<(Seq<char>, bool, u64)>::empty();
    assert(seqs_of(paths@) =~= Seq::<Seq<char>>::empty());
    merge_roots(
        &mut paths,
        &mut dirs,
        &mut rights,
        Ghost(empty),
        allow_read,
        abi,
        false,
        strip_read_on_write,
    );
    let ghost reads = grants_of(allow_read@, abi, false, strip_read_on_write);
    assert(empty + reads =~= reads);
    merge_roots(
        &mut paths,
        &mut dirs,
        &mut rights,
        Ghost(reads),
        allow_write,
        abi,
        true,
        strip_read_on_write,
    );
    let ghost ps = seqs_of(paths@);
    let mask = file_mask(abi);
    let mut out_paths: Vec<Vec<char>> = Vec::new();
    let mut out_rights: Vec<u64> = Vec::new();
    let mut i: usize = 0;
    assert(seqs_of(out_paths@) =~= Seq::<Seq<char>>::empty());
    while i < paths.len()
        invariant
            acc_models(ps, dirs@, rights@, g),
            ps == seqs_of(paths@),
            mask == file_mask_spec(abi),
            i <= paths.len(),
            out_tracks(abi, g, ps, i as int, seqs_of(out_paths@), out_rights@),
        decreases paths.len() - i,
    {
        let eff = if dirs[i] {
            rights[i]
        } else {
            rights[i] & mask
        };
        assert(eff == effective_rights(abi, g, ps[i as int]));
        if eff != 0 {
            let ghost s0 = seqs_of(out_paths@);
            let ghost r0 = out_rights@;
            let p = insert_sorted(&mut out_paths, &mut out_rights, paths[i].as_slice(), eff);
            proof {
                lemma_tracks_insert(abi, g, ps, i as int, s0, r0, p as int);
            }
        } else {
            proof {
                lemma_tracks_skip(abi, g, ps, i as int, seqs_of(out_paths@), out_rights@);
            }
        }
        i += 1;
    }
    let mut rules: Vec<PreparedRule> = Vec::new();
    let mut m: usize = 0;
    while m < out_paths.len()
        invariant
            m <= out_paths.len(),
            out_paths.len() == out_rights.len(),
            rules.len() == m,
            forall|j: int|
                0 <= j < m ==> rule_view(#[trigger] rules@[j]) == (
                    seqs_of(out_paths@)[j],
                    out_rights@[j],
                ),
        decreases out_paths.len() - m,
    {
        let path = string_of(out_paths[m].as_slice());
        rules.push(PreparedRule { path, allowed_access: out_rights[m] });
        m += 1;
    }
    let out = PreparedRuleset { abi, rules };
    proof {
        let v = out.rules_view();
        let s = seqs_of(out_paths@);
        assert(v.len() == s.len());
        assert forall|j: int| 0 <= j < v.len() implies (#[trigger] v[j]) == (
            s[j],
            out_rights@[j],
        ) by {
            assert(v[j] == rule_view(out.rules@[j]));
        }
        assert forall|q: Seq<char>| #![trigger has_path(g, q)] has_path(g, q) && effective_rights(
            abi,
            g,
            q,
        ) != 0 implies exists|j: int| 0 <= j < v.len() && (#[trigger] v[j]).0 == q by {
            let idx = choose|idx: int| 0 <= idx < ps.len() && ps[idx] == q;
            let j = choose|j: int| 0 <= j < s.len() && s[j] == ps[idx];
            assert(v[j].0 == q);
        }
        assert forall|m1: int, m2: int|
            0 <= m1 < v.len() && 0 <= m2 < v.len() && m1 != m2 implies (#[trigger] v[m1]).0 != (
            #[trigger] v[m2]).0 by {
            assert(s[m1] != s[m2]);
        }
        assert forall|m1: int, m2: int| 0 <= m1 < m2 < v.len() implies !path_lt(
            (#[trigger] v[m2]).0,
            (#[trigger] v[m1]).0,
        ) by {
            assert(!path_lt(s[m2], s[m1]));
        }
        assert forall|j: int| 0 <= j < v.len() implies has_path(g, (#[trigger] v[j]).0)
            && v[j].1 == effective_rights(abi, g, v[j].0) && v[j].1 != 0 by {
            assert(out_rights@[j] == effective_rights(abi, g, s[j]));
        }
    }
    out
}

/// Prepares rules for the ABI that the running kernel reported (`None`
/// where it has no Landlock).
pub fn prepare_ruleset(
    abi: Option<u32>,
    allow_write: &[PathFacts],
    allow_read: &[PathFacts],
    strip_read_on_write: bool,
) -> (r: Result<PreparedRuleset, LandlockError>)
    ensures
        match abi {
            None => r == Err::<PreparedRuleset, LandlockError>(LandlockError::Unsupported),
            Some(a) => r matches Ok(rs) && rs.abi_view() == a && prepared_exactly(
                a,
                all_grants(a, allow_write@, allow_read@, strip_read_on_write),
                rs.rules_view(),
            ),
        },
{
    match abi {
        None => Err(LandlockError::Unsupported),
        Some(a) => Ok(prepare_ruleset_for_abi(a, allow_write, allow_read, strip_read_on_write)),
    }
}


/// The ruleset attribute for ABI `abi`: the filesystem, network and scope
/// rights that ABI handles.
pub fn ruleset_attr_for_abi(abi: u32) -> (attr: LandlockRulesetAttr)
    ensures
        attr.handled_access_fs == fs_mask_spec(abi),
        attr.handled_access_net == (if abi >= 4 {
            3u64
        } else {
            0u64
        }),
        attr.handled_access_scope == (if abi >= 6 {
            3u64
        } else {
            0u64
        }),
{
    LandlockRulesetAttr {
        handled_access_fs: handled_fs_mask(abi),
        handled_access_net: handled_net_mask(abi),
        handled_access_scope: handled_scope_mask(abi),
    }
}

/// The ABI to retry ruleset creation with after the kernel refused ABI
/// `abi`: one lower where the refusal was `EINVAL` or `E2BIG` (`retryable`)
/// and a lower ABI exists; `None` where creation has failed for good.
pub fn degrade_abi(abi: u32, retryable: bool) -> (r: Option<u32>)
    ensures
        r == if retryable && abi > 1 {
            Some((abi - 1) as u32)
        } else {
            None::<u32>
        },
{
    if retryable && abi > 1 {
        Some(abi - 1)
    } else {
        None
    }
}

/// Rights granted to the terminal devices (ABI 5 and later): read, write
/// and device ioctls, and listing where the path is a directory.
pub fn pty_rights(is_dir: bool) -> (r: u64)
    ensures
        r == if is_dir {
            READ_FILE | WRITE_FILE | READ_DIR | IOCTL_DEV
        } else {
            READ_FILE | WRITE_FILE | IOCTL_DEV
        },
{
    if is_dir {
        READ_FILE | WRITE_FILE | READ_DIR | IOCTL_DEV
    } else {
        READ_FILE | WRITE_FILE | IOCTL_DEV
    }
}

/// The rights actually added for a rule on an opened path: all of them on a
/// directory, the file rights on anything else.
pub fn rule_access(abi: u32, is_dir: bool, allowed: u64) -> (r: u64)
    ensures
        r == if is_dir {
            allowed
        } else {
            allowed & file_mask_spec(abi)
        },
{
    if is_dir {
        allowed
    } else {
        allowed & file_mask(abi)
    }
}

/// A TCP port rule.
pub open spec fn port_rule(access: u64, port: u16) -> LandlockNetPortAttr {
    LandlockNetPortAttr { allowed_access: access, port: port as u64 }
}

/// The TCP port rules to add: none below ABI 4; else one bind rule per bind
/// port, then one connect rule per connect port, in order.
pub fn net_port_rules(abi: u32, bind_ports: &[u16], connect_ports: &[u16]) -> (rules: Vec<LandlockNetPortAttr>)
    ensures
        abi < 4 ==> rules@.len() == 0,
        abi >= 4 ==> rules@.len() == bind_ports@.len() + connect_ports@.len(),
        abi >= 4 ==> forall|i: int|
            0 <= i < bind_ports@.len() ==> #[trigger] rules@[i] == port_rule(LANDLOCK_ACCESS_NET_BIND_TCP, bind_ports@[i]),
        abi >= 4 ==> forall|j: int|
            0 <= j < connect_ports@.len() ==> #[trigger] rules@[bind_ports@.len() + j]
                == port_rule(LANDLOCK_ACCESS_NET_CONNECT_TCP, connect_ports@[j]),
{
    let mut rules: Vec<LandlockNetPortAttr> = Vec::new();
    if abi < 4 {
        return rules;
    }
    let mut i: usize = 0;
    while i < bind_ports.len()
        invariant
            i <= bind_ports.len(),
            rules@.len() == i,
            forall|k: int|
                0 <= k < i ==> #[trigger] rules@[k] == port_rule(LANDLOCK_ACCESS_NET_BIND_TCP, bind_ports@[k]),
        decreases bind_ports.len() - i,
    {
        rules.push(
            LandlockNetPortAttr {
                allowed_access: LANDLOCK_ACCESS_NET_BIND_TCP,
                port: bind_ports[i] as u64,
            },
        );
        i += 1;
    }
    let mut j: usize = 0;
    while j < connect_ports.len()
        invariant
            j <= connect_ports.len(),
            rules@.len() == bind_ports.len() + j,
            forall|k: int|
                0 <= k < bind_ports.len() ==> #[trigger] rules@[k] == port_rule(LANDLOCK_ACCESS_NET_BIND_TCP, bind_ports@[k]),
            forall|k: int|
                0 <= k < j ==> #[trigger] rules@[bind_ports.len() + k] == port_rule(LANDLOCK_ACCESS_NET_CONNECT_TCP, connect_ports@[k]),
        decreases connect_ports.len() - j,
    {
        rules.push(
            LandlockNetPortAttr {
                allowed_access: LANDLOCK_ACCESS_NET_CONNECT_TCP,
                port: connect_ports[j] as u64,
            },
        );
        j += 1;
    }
    rules
}

} // verus!
