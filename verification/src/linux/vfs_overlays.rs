//! Which secrets and sockets are hidden from the agent: the mandatory
//! secret paths and the dangerous Unix domain sockets.
use vstd::prelude::*;
use crate::paths::{join_relative, join_spec};
use crate::text::{chars_eq, chars_of, contains_run, decimal, decimal_chars, string_of};

verus! {

/// Secret paths masked in every full-tier session: `~/.ssh`, `~/.aws`,
/// `~/.gnupg`, `~/.env`, and the project's `.env`.
pub open spec fn mandatory_secrets_spec(home: Seq<char>, project_root: Option<Seq<char>>) -> Seq<Seq<char>> {
    let base = seq![
        join_spec(home, ".ssh"@),
        join_spec(home, ".aws"@),
        join_spec(home, ".gnupg"@),
        join_spec(home, ".env"@),
    ];
    match project_root {
        Some(r) => base.push(join_spec(r, ".env"@)),
        None => base,
    }
}

/// The mandatory secret paths, in masking order (each is masked where it
/// exists).
pub fn mandatory_secret_paths(home: &str, project_root: Option<&str>) -> (v: Vec<String>)
    ensures
        v@.map_values(|s: String| s@) == mandatory_secrets_spec(
            home@,
            match project_root {
                Some(r) => Some(r@),
                None => None,
            },
        ),
{
    let mut v: Vec<String> = Vec::new();
    v.push(join_relative(home, ".ssh"));
    v.push(join_relative(home, ".aws"));
    v.push(join_relative(home, ".gnupg"));
    v.push(join_relative(home, ".env"));
    if let Some(r) = project_root {
        v.push(join_relative(r, ".env"));
    }
    let ghost pr = match project_root {
        Some(r) => Some(r@),
        None => None,
    };
    assert(v@.map_values(|s: String| s@) =~= mandatory_secrets_spec(home@, pr));
    v
}

/// The per-user sockets of user `uid`.
pub open spec fn user_sockets(uid: Seq<char>) -> Seq<Seq<char>> {
    seq![
        "/run/user/"@ + uid + "/docker.sock"@,
        "/run/user/"@ + uid + "/podman/podman.sock"@,
        "/run/user/"@ + uid + "/gnupg/S.gpg-agent"@,
        "/run/user/"@ + uid + "/gnupg/S.gpg-agent.ssh"@,
    ]
}

/// The user ids whose sockets are masked: the real uid, then `SUDO_UID` and
/// `UID` where set, non-empty and not already listed.
pub open spec fn socket_uids(uid: u32, sudo_uid: Option<Seq<char>>, env_uid: Option<Seq<char>>) -> Seq<Seq<char>> {
    let a = seq![decimal(uid as nat)];
    let b = match sudo_uid {
        Some(s) => if s.len() > 0 && !a.contains(s) {
            a.push(s)
        } else {
            a
        },
        None => a,
    };
    match env_uid {
        Some(s) => if s.len() > 0 && !b.contains(s) {
            b.push(s)
        } else {
            b
        },
        None => b,
    }
}

/// `s` without repeats, first occurrences kept.
pub open spec fn dedup_first(s: Seq<Seq<char>>) -> Seq<Seq<char>>
    decreases s.len(),
{
    if s.len() == 0 {
        s
    } else {
        let prev = dedup_first(s.drop_last());
        if prev.contains(s.last()) {
            prev
        } else {
            prev.push(s.last())
        }
    }
}

/// Every socket path of the sockets list before removing repeats.
pub open spec fn socket_candidates(
    uid: u32,
    sudo_uid: Option<Seq<char>>,
    env_uid: Option<Seq<char>>,
    ssh_auth_sock: Option<Seq<char>>,
) -> Seq<Seq<char>> {
    let fixed = seq!["/var/run/docker.sock"@, "/run/docker.sock"@, "/run/podman/podman.sock"@];
    let uids = socket_uids(uid, sudo_uid, env_uid);
    let per_user = uids.map_values(|u: Seq<char>| user_sockets(u)).flatten();
    let all = fixed + per_user;
    match ssh_auth_sock {
        Some(s) => if s.len() > 0 {
            all.push(s)
        } else {
            all
        },
        None => all,
    }
}

fn push_unique(v: &mut Vec<String>, s: String)
    ensures
        final(v)@.map_values(|x: String| x@) == if old(v)@.map_values(|x: String| x@).contains(s@) {
            old(v)@.map_values(|x: String| x@)
        } else {
            old(v)@.map_values(|x: String| x@).push(s@)
        },
{
    let ghost before = v@.map_values(|x: String| x@);
    let sc = chars_of(s.as_str());
    let mut i: usize = 0;
    while i < v.len()
        invariant
            i <= v.len(),
            before == v@.map_values(|x: String| x@),
            sc@ == s@,
            forall|k: int| 0 <= k < i ==> before[k] != s@,
        decreases v.len() - i,
    {
        let c = chars_of(v[i].as_str());
        if chars_eq(c.as_slice(), sc.as_slice()) {
            assert(before[i as int] == s@);
            return;
        }
        i += 1;
    }
    v.push(s);
    assert(v@.map_values(|x: String| x@) =~= before.push(s@));
}

/// The dangerous Unix sockets to mask: the Docker and Podman daemon
/// sockets, each listed user's Docker, Podman and gpg-agent sockets, and
/// the ssh agent's socket where one is set; without repeats.
pub fn get_dangerous_unix_sockets(
    uid: u32,
    sudo_uid: Option<&str>,
    env_uid: Option<&str>,
    ssh_auth_sock: Option<&str>,
) -> (v: Vec<String>)
    ensures
        v@.map_values(|s: String| s@) == dedup_first(
            socket_candidates(
                uid,
                match sudo_uid {
                    Some(s) => Some(s@),
                    None => None,
                },
                match env_uid {
                    Some(s) => Some(s@),
                    None => None,
                },
                match ssh_auth_sock {
                    Some(s) => Some(s@),
                    None => None,
                },
            ),
        ),
{
    let ghost sv = match sudo_uid {
        Some(s) => Some(s@),
        None => None,
    };
    let ghost ev = match env_uid {
        Some(s) => Some(s@),
        None => None,
    };
    let ghost av = match ssh_auth_sock {
        Some(s) => Some(s@),
        None => None,
    };
    let mut cands: Vec<String> = Vec::new();
    cands.push("/var/run/docker.sock".to_owned());
    cands.push("/run/docker.sock".to_owned());
    cands.push("/run/podman/podman.sock".to_owned());
    let mut uids: Vec<Vec<char>> = Vec::new();
    uids.push(decimal_chars(uid as u64));
    let ghost a = seq![decimal(uid as nat)];
    assert(crate::text::seqs_of(uids@) =~= a);
    let ghost b = match sv {
        Some(x) => if x.len() > 0 && !a.contains(x) {
            a.push(x)
        } else {
            a
        },
        None => a,
    };
    if let Some(s) = sudo_uid {
        let c = chars_of(s);
        if c.len() > 0 && !crate::text::contains_piece(&uids, c.as_slice()) {
            uids.push(c);
            assert(crate::text::seqs_of(uids@) =~= a.push(s@));
        }
    }
    assert(crate::text::seqs_of(uids@) == b);
    let ghost uv = socket_uids(uid, sv, ev);
    if let Some(s) = env_uid {
        let c = chars_of(s);
        if c.len() > 0 && !crate::text::contains_piece(&uids, c.as_slice()) {
            uids.push(c);
            assert(crate::text::seqs_of(uids@) =~= b.push(s@));
        }
    }
    assert(crate::text::seqs_of(uids@) =~= uv);
    let ghost fixed = seq!["/var/run/docker.sock"@, "/run/docker.sock"@, "/run/podman/podman.sock"@];
    assert(cands@.map_values(|x: String| x@) =~= fixed);
    let mut i: usize = 0;
    assert(uv.take(0).map_values(|u: Seq<char>| user_sockets(u)).flatten() =~= Seq::<Seq<char>>::empty());
    while i < uids.len()
        invariant
            i <= uids.len(),
            crate::text::seqs_of(uids@) == uv,
            cands@.map_values(|x: String| x@) == fixed + uv.take(i as int).map_values(|u: Seq<char>| user_sockets(u)).flatten(),
        decreases uids.len() - i,
    {
        let ghost before = cands@.map_values(|x: String| x@);
        let u = uids[i].as_slice();
        assert(uv[i as int] == u@);
        let names = vec!["/docker.sock", "/podman/podman.sock", "/gnupg/S.gpg-agent", "/gnupg/S.gpg-agent.ssh"];
        let mut j: usize = 0;
        while j < 4
            invariant
                j <= 4,
                names@.len() == 4,
                names@[0]@ == "/docker.sock"@,
                names@[1]@ == "/podman/podman.sock"@,
                names@[2]@ == "/gnupg/S.gpg-agent"@,
                names@[3]@ == "/gnupg/S.gpg-agent.ssh"@,
                cands@.map_values(|x: String| x@) == before + user_sockets(u@).take(j as int),
            decreases 4 - j,
        {
            let mut p = chars_of("/run/user/");
            crate::text::append_chars(&mut p, u);
            let n = chars_of(names[j]);
            crate::text::append_chars(&mut p, n.as_slice());
            let ghost b2 = cands@.map_values(|x: String| x@);
            cands.push(string_of(p.as_slice()));
            assert(cands@.map_values(|x: String| x@) =~= b2.push(p@));
            assert(user_sockets(u@).take(j + 1) =~= user_sockets(u@).take(j as int).push(p@));
            j += 1;
        }
        proof {
            assert(user_sockets(u@).take(4) =~= user_sockets(u@));
            let m = |x: Seq<char>| user_sockets(x);
            assert(uv.take(i + 1) =~= uv.take(i as int).push(uv[i as int]));
            assert(uv.take(i as int).push(uv[i as int]).map_values(m) =~= uv.take(i as int).map_values(m).push(user_sockets(u@)));
            uv.take(i as int).map_values(m).lemma_flatten_push(user_sockets(u@));
        }
        i += 1;
    }
    assert(uv.take(uids.len() as int) =~= uv);
    if let Some(s) = ssh_auth_sock {
        if !s.is_empty() {
            let ghost b3 = cands@.map_values(|x: String| x@);
            cands.push(s.to_owned());
            assert(cands@.map_values(|x: String| x@) =~= b3.push(s@));
        }
    }
    let ghost all = socket_candidates(uid, sv, ev, av);
    assert(cands@.map_values(|x: String| x@) =~= all);
    let mut out: Vec<String> = Vec::new();
    let mut k: usize = 0;
    assert(all.take(0) =~= Seq::<Seq<char>>::empty());
    while k < cands.len()
        invariant
            k <= cands.len(),
            cands@.map_values(|x: String| x@) == all,
            out@.map_values(|x: String| x@) == dedup_first(all.take(k as int)),
        decreases cands.len() - k,
    {
        assert(all.take(k + 1).drop_last() =~= all.take(k as int));
        assert(all.take(k + 1).last() == cands@[k as int]@);
        push_unique(&mut out, cands[k].clone());
        k += 1;
    }
    assert(all.take(cands.len() as int) =~= all);
    out
}

/// Whether a failed socket mask may be skipped: without root, where the
/// kernel refused it for want of privilege.
pub open spec fn skippable_mask_error_spec(euid: u32, message: Seq<char>) -> bool {
    euid != 0 && (contains_run(message, "Operation not permitted"@) || contains_run(
        message,
        "Permission denied"@,
    ))
}

/// Whether a failed socket mask may be skipped.
pub fn skippable_mask_error(euid: u32, message: &str) -> (r: bool)
    ensures
        r == skippable_mask_error_spec(euid, message@),
{
    if euid == 0 {
        return false;
    }
    let m = chars_of(message);
    let a = chars_of("Operation not permitted");
    let b = chars_of("Permission denied");
    crate::text::chars_contains(m.as_slice(), a.as_slice()) || crate::text::chars_contains(m.as_slice(), b.as_slice())
}

} // verus!
