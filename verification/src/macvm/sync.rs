//! Workspace sync host <-> guest over rsync: the argv builders and the sync
//! marker, which must round-trip before the agent may run on the guest tree.
use vstd::prelude::*;
use crate::macvm::exec::{key_args, push_key_args, strings_view};
use crate::macvm::{MacVmConfig, GUEST_WORKSPACE};
use crate::text::{
    all_digits, append_chars, chars_of, chars_starts_with, decimal, decimal_chars, digits_value,
    ends_with, fields, is_ws, join_with, non_empty, parse_u64, parse_unsigned, seqs_of,
    split_whitespace, split_ws_all, starts_with, string_of, sub_chars, trim, trim_end_ws,
    trim_start_ws, trim_ws, unsigned_digits,
};

verus! {

/// Marker file written into the guest workspace after a push.
pub const MARKER_NAME: &'static str = ".vetto-sync";

/// The marker text: `v=1 files=<n> stamp=<secs>` and a newline.
pub open spec fn marker_spec(files: u64, stamp: u64) -> Seq<char> {
    marker_line(files, stamp).push('\n')
}

/// The marker line without its newline.
pub open spec fn marker_line(files: u64, stamp: u64) -> Seq<char> {
    seq!['v', '=', '1', ' '] + marker_body(files, stamp)
}

/// The two marker fields separated by a space.
pub open spec fn marker_body(files: u64, stamp: u64) -> Seq<char> {
    files_field(files) + seq![' '] + stamp_field(stamp)
}

/// `files=<n>`.
pub open spec fn files_field(files: u64) -> Seq<char> {
    seq!['f', 'i', 'l', 'e', 's', '='] + decimal(files as nat)
}

/// `stamp=<secs>`.
pub open spec fn stamp_field(stamp: u64) -> Seq<char> {
    seq!['s', 't', 'a', 'm', 'p', '='] + decimal(stamp as nat)
}

/// Formats the sync marker.
pub fn format_marker(files: u64, stamp: u64) -> (m: String)
    ensures
        m@ == marker_spec(files, stamp),
{
    let mut out: Vec<char> = Vec::new();
    let head = ['v', '=', '1', ' ', 'f', 'i', 'l', 'e', 's', '='];
    append_chars(&mut out, head.as_slice());
    let f = decimal_chars(files);
    append_chars(&mut out, f.as_slice());
    let mid = [' ', 's', 't', 'a', 'm', 'p', '='];
    append_chars(&mut out, mid.as_slice());
    let s = decimal_chars(stamp);
    append_chars(&mut out, s.as_slice());
    out.push('\n');
    assert(out@ =~= marker_spec(files, stamp));
    string_of(out.as_slice())
}

/// The value of the last field of `fs` that starts with `key`: `None` when
/// there is none or it does not parse.
pub open spec fn last_value(fs: Seq<Seq<char>>, key: Seq<char>) -> Option<u64>
    decreases fs.len(),
{
    if fs.len() == 0 {
        None
    } else if starts_with(fs.last(), key) {
        match parse_unsigned(fs.last().skip(key.len() as int), u64::MAX as int) {
            Some(v) => Some(v as u64),
            None => None,
        }
    } else {
        last_value(fs.drop_last(), key)
    }
}

/// What a marker text says: the file count and the stamp, when the trimmed
/// text starts with `v=1 ` and both fields parse.
pub open spec fn parse_marker_spec(text: Seq<char>) -> Option<(u64, u64)> {
    let l = trim_ws(text);
    if !starts_with(l, seq!['v', '=', '1', ' ']) {
        None
    } else {
        let fs = fields(l.skip(4));
        match (
            last_value(fs, seq!['f', 'i', 'l', 'e', 's', '=']),
            last_value(fs, seq!['s', 't', 'a', 'm', 'p', '=']),
        ) {
            (Some(f), Some(s)) => Some((f, s)),
            _ => None,
        }
    }
}

/// Parses the sync marker back, failing closed.
pub fn parse_marker(text: &str) -> (r: Result<(u64, u64), ()>)
    ensures
        match parse_marker_spec(text@) {
            Some(v) => r == Ok::<(u64, u64), ()>(v),
            None => r is Err,
        },
{
    let tc = chars_of(text);
    let l = trim(tc.as_slice());
    let v1 = ['v', '=', '1', ' '];
    assert(v1@ == seq!['v', '=', '1', ' ']);
    if !chars_starts_with(l.as_slice(), v1.as_slice()) {
        return Err(());
    }
    let rest = sub_chars(l.as_slice(), 4, l.len());
    assert(rest@ =~= l@.skip(4));
    let fs = split_whitespace(rest.as_slice());
    let ghost all = seqs_of(fs@);
    let fkey = ['f', 'i', 'l', 'e', 's', '='];
    let skey = ['s', 't', 'a', 'm', 'p', '='];
    assert(fkey@ == seq!['f', 'i', 'l', 'e', 's', '=']);
    assert(skey@ == seq!['s', 't', 'a', 'm', 'p', '=']);
    let mut files: Option<u64> = None;
    let mut stamp: Option<u64> = None;
    let mut i: usize = 0;
    assert(all.take(0) =~= Seq::<Seq<char>>::empty());
    while i < fs.len()
        invariant
            i <= fs.len(),
            all == seqs_of(fs@),
            fkey@ == seq!['f', 'i', 'l', 'e', 's', '='],
            skey@ == seq!['s', 't', 'a', 'm', 'p', '='],
            files == last_value(all.take(i as int), fkey@),
            stamp == last_value(all.take(i as int), skey@),
        decreases fs.len() - i,
    {
        let part = fs[i].as_slice();
        assert(all.take(i + 1).drop_last() =~= all.take(i as int));
        assert(all.take(i + 1).last() == part@);
        if chars_starts_with(part, fkey.as_slice()) {
            let v = sub_chars(part, 6, part.len());
            assert(v@ =~= part@.skip(6));
            files = parse_u64(v.as_slice());
            assert(!starts_with(part@, skey@)) by {
                assert(part@[0] == 'f');
            }
        } else if chars_starts_with(part, skey.as_slice()) {
            let v = sub_chars(part, 6, part.len());
            assert(v@ =~= part@.skip(6));
            stamp = parse_u64(v.as_slice());
        }
        i += 1;
    }
    assert(all.take(fs.len() as int) =~= all);
    match (files, stamp) {
        (Some(f), Some(s)) => Ok((f, s)),
        _ => Err(()),
    }
}

/// The decimal digits of `n` parse back to `n`.
pub proof fn lemma_decimal_parses(n: nat)
    ensures
        decimal(n).len() > 0,
        all_digits(decimal(n)),
        digits_value(decimal(n)) == n,
        decimal(n)[0] != '+',
        forall|i: int| 0 <= i < decimal(n).len() ==> !is_ws(#[trigger] decimal(n)[i]),
    decreases n,
{
    let c = ((48 + n % 10) as u8) as char;
    assert(c as int == 48 + n % 10);
    assert(crate::text::digit_value(c) == n % 10);
    if n < 10 {
        assert(decimal(n) == seq![c]);
        assert(seq![c].drop_last() =~= Seq::<char>::empty());
        assert(digits_value(seq![c]) == digits_value(Seq::<char>::empty()) * 10 + n % 10);
    } else {
        lemma_decimal_parses(n / 10);
        let d = decimal(n);
        assert(d == decimal(n / 10).push(c));
        assert(d.drop_last() =~= decimal(n / 10));
        assert(d.last() == c);
        assert(digits_value(d) == digits_value(decimal(n / 10)) * 10 + n % 10);
        assert forall|i: int| 0 <= i < d.len() implies crate::text::is_digit(#[trigger] d[i]) by {
            if i < d.len() - 1 {
                assert(d[i] == decimal(n / 10)[i]);
            }
        }
    }
}

proof fn lemma_split_ws_append_word(p: Seq<char>, y: Seq<char>)
    requires
        forall|i: int| 0 <= i < y.len() ==> !is_ws(#[trigger] y[i]),
    ensures
        split_ws_all(p + y) == split_ws_all(p).update(
            split_ws_all(p).len() - 1,
            split_ws_all(p).last() + y,
        ),
    decreases y.len(),
{
    crate::text::lemma_split_ws_nonempty(p);
    if y.len() == 0 {
        assert(p + y =~= p);
        assert(split_ws_all(p).last() + y =~= split_ws_all(p).last());
        assert(split_ws_all(p).update(split_ws_all(p).len() - 1, split_ws_all(p).last())
            =~= split_ws_all(p));
    } else {
        let y0 = y.drop_last();
        lemma_split_ws_append_word(p, y0);
        assert((p + y).drop_last() =~= p + y0);
        assert((p + y).last() == y.last());
        assert(!is_ws(y.last()));
        crate::text::lemma_split_ws_nonempty(p + y0);
        let prev = split_ws_all(p + y0);
        assert(split_ws_all(p + y) == prev.update(prev.len() - 1, prev.last().push(y.last())));
        assert((split_ws_all(p).last() + y0).push(y.last()) =~= split_ws_all(p).last() + y);
        assert(split_ws_all(p + y) =~= split_ws_all(p).update(
            split_ws_all(p).len() - 1,
            split_ws_all(p).last() + y,
        ));
    }
}

proof fn lemma_fields_two_words(a: Seq<char>, b: Seq<char>)
    requires
        a.len() > 0,
        b.len() > 0,
        forall|i: int| 0 <= i < a.len() ==> !is_ws(#[trigger] a[i]),
        forall|i: int| 0 <= i < b.len() ==> !is_ws(#[trigger] b[i]),
    ensures
        fields(a + seq![' '] + b) == seq![a, b],
{
    let e = Seq::<char>::empty();
    lemma_split_ws_append_word(e, a);
    assert(e + a =~= a);
    assert(split_ws_all(e) == seq![e]);
    assert(split_ws_all(a) =~= seq![a]);
    let sp = a + seq![' '];
    assert(sp.drop_last() =~= a);
    assert(is_ws(' '));
    assert(split_ws_all(sp) =~= seq![a, e]);
    lemma_split_ws_append_word(sp, b);
    assert(sp + b =~= a + seq![' '] + b);
    assert(split_ws_all(a + seq![' '] + b) =~= seq![a, b]);
    let parts = seq![a, b];
    assert(parts.drop_last() =~= seq![a]);
    assert(seq![a].drop_last() =~= Seq::<Seq<char>>::empty());
    assert(non_empty(Seq::<Seq<char>>::empty()) == Seq::<Seq<char>>::empty());
    assert(seq![a].last() == a);
    assert(non_empty(seq![a]) == non_empty(Seq::<Seq<char>>::empty()).push(a));
    assert(non_empty(seq![a]) =~= seq![a]);
    assert(parts.last() == b);
    assert(non_empty(parts) == non_empty(seq![a]).push(b));
    assert(non_empty(parts) =~= seq![a, b]);
}

proof fn lemma_marker_trim(files: u64, stamp: u64)
    ensures
        trim_ws(marker_spec(files, stamp)) == marker_line(files, stamp),
{
    lemma_decimal_parses(stamp as nat);
    let m = marker_spec(files, stamp);
    let line = marker_line(files, stamp);
    let ds = decimal(stamp as nat);
    assert(line[0] == 'v');
    assert(trim_start_ws(m) == m);
    assert(m.drop_last() =~= line);
    assert(line.last() == ds[ds.len() - 1]);
    assert(trim_end_ws(line) == line);
    assert(trim_end_ws(m) == trim_end_ws(line));
}

proof fn lemma_marker_fields(files: u64, stamp: u64)
    ensures
        fields(marker_line(files, stamp).skip(4)) == seq![files_field(files), stamp_field(stamp)],
{
    lemma_decimal_parses(files as nat);
    lemma_decimal_parses(stamp as nat);
    let line = marker_line(files, stamp);
    let ff = files_field(files);
    let sf = stamp_field(stamp);
    let df = decimal(files as nat);
    let ds = decimal(stamp as nat);
    assert(line.skip(4) =~= ff + seq![' '] + sf);
    assert forall|i: int| 0 <= i < ff.len() implies !is_ws(#[trigger] ff[i]) by {
        if i >= 6 {
            assert(ff[i] == df[i - 6]);
        }
    }
    assert forall|i: int| 0 <= i < sf.len() implies !is_ws(#[trigger] sf[i]) by {
        if i >= 6 {
            assert(sf[i] == ds[i - 6]);
        }
    }
    lemma_fields_two_words(ff, sf);
}

proof fn lemma_marker_values(files: u64, stamp: u64)
    ensures
        last_value(seq![files_field(files), stamp_field(stamp)], seq!['f', 'i', 'l', 'e', 's', '='])
            == Some(files),
        last_value(seq![files_field(files), stamp_field(stamp)], seq!['s', 't', 'a', 'm', 'p', '='])
            == Some(stamp),
{
    lemma_decimal_parses(files as nat);
    lemma_decimal_parses(stamp as nat);
    let ff = files_field(files);
    let sf = stamp_field(stamp);
    let df = decimal(files as nat);
    let ds = decimal(stamp as nat);
    let fs = seq![ff, sf];
    let fkey = seq!['f', 'i', 'l', 'e', 's', '='];
    let skey = seq!['s', 't', 'a', 'm', 'p', '='];
    assert(ff.take(6) =~= fkey);
    assert(ff.skip(6) =~= df);
    assert(sf.take(6) =~= skey);
    assert(sf.skip(6) =~= ds);
    assert(!starts_with(sf, fkey)) by {
        assert(sf.take(6)[0] != fkey[0]);
    }
    assert(fs.drop_last() =~= seq![ff]);
    assert(fs.last() == sf);
    assert(seq![ff].last() == ff);
    assert(unsigned_digits(df) == df);
    assert(unsigned_digits(ds) == ds);
    assert(last_value(seq![ff], fkey) == Some(files));
}

/// A formatted marker parses back to the values it was made from.
pub proof fn lemma_marker_round_trip(files: u64, stamp: u64)
    ensures
        parse_marker_spec(marker_spec(files, stamp)) == Some((files, stamp)),
{
    lemma_marker_trim(files, stamp);
    lemma_marker_fields(files, stamp);
    lemma_marker_values(files, stamp);
    let line = marker_line(files, stamp);
    assert(line.take(4) =~= seq!['v', '=', '1', ' ']);
}

/// The rsync flags: archive, delete, compress, partial files kept apart.
pub open spec fn rsync_flags() -> Seq<Seq<char>> {
    seq!["-az"@, "--delete"@, "--partial-dir=.vetto-partial"@]
}

/// The `ssh` transport string passed to `rsync -e`.
pub open spec fn ssh_cmd_spec(cfg: MacVmConfig) -> Seq<char> {
    join_with(
        seq!["ssh"@, "-o"@, "BatchMode=yes"@, "-o"@, "ConnectTimeout=10"@] + key_args(cfg.ssh_key),
        ' ',
    )
}

/// The `ssh` transport string passed to `rsync -e`.
pub fn ssh_cmd_string(cfg: &MacVmConfig) -> (s: String)
    ensures
        s@ == ssh_cmd_spec(*cfg),
{
    let mut parts: Vec<String> = Vec::new();
    parts.push("ssh".to_owned());
    parts.push("-o".to_owned());
    parts.push("BatchMode=yes".to_owned());
    parts.push("-o".to_owned());
    parts.push("ConnectTimeout=10".to_owned());
    let ghost head = strings_view(parts@);
    assert(head =~= seq!["ssh"@, "-o"@, "BatchMode=yes"@, "-o"@, "ConnectTimeout=10"@]);
    push_key_args(&mut parts, &cfg.ssh_key);
    let mut vs: Vec<Vec<char>> = Vec::new();
    let mut i: usize = 0;
    while i < parts.len()
        invariant
            i <= parts.len(),
            seqs_of(vs@) == strings_view(parts@).take(i as int),
        decreases parts.len() - i,
    {
        let ghost before = seqs_of(vs@);
        let c = chars_of(parts[i].as_str());
        vs.push(c);
        assert(seqs_of(vs@) =~= before.push(parts@[i as int]@));
        assert(strings_view(parts@).take(i + 1) =~= strings_view(parts@).take(i as int).push(
            parts@[i as int]@,
        ));
        assert(seqs_of(vs@) =~= strings_view(parts@).take(i + 1));
        i += 1;
    }
    assert(strings_view(parts@).take(parts.len() as int) =~= strings_view(parts@));
    let joined = crate::text::join_chars(&vs, ' ');
    string_of(joined.as_slice())
}

/// `<target>:<guest workspace>/`.
pub open spec fn remote_dir(target: Seq<char>) -> Seq<char> {
    target + seq![':'] + GUEST_WORKSPACE@ + seq!['/']
}

fn remote_dir_string(target: &str) -> (s: String)
    ensures
        s@ == remote_dir(target@),
{
    let mut out = chars_of(target);
    out.push(':');
    let ws = chars_of(GUEST_WORKSPACE);
    append_chars(&mut out, ws.as_slice());
    out.push('/');
    assert(out@ =~= remote_dir(target@));
    string_of(out.as_slice())
}

/// `s` with a trailing `/` added when missing.
pub open spec fn with_slash(s: Seq<char>) -> Seq<char> {
    if ends_with(s, seq!['/']) {
        s
    } else {
        s.push('/')
    }
}

/// The push argv (host to guest).
pub open spec fn push_spec(cfg: MacVmConfig, src: Seq<char>, target: Seq<char>) -> Seq<Seq<char>> {
    seq!["rsync"@] + rsync_flags() + seq![
        "--exclude"@,
        ".vetto-partial/"@,
        "-e"@,
        ssh_cmd_spec(cfg),
        with_slash(src),
        remote_dir(target),
    ]
}

fn push_flags(argv: &mut Vec<String>)
    ensures
        strings_view(final(argv)@) == strings_view(old(argv)@) + rsync_flags(),
{
    argv.push("-az".to_owned());
    argv.push("--delete".to_owned());
    argv.push("--partial-dir=.vetto-partial".to_owned());
    assert(strings_view(argv@) =~= strings_view(old(argv)@) + rsync_flags());
}

/// The rsync push argv (host to guest): `rsync <flags> --exclude
/// .vetto-partial/ -e <ssh> <src>/ <target>:<guest workspace>/`.
pub fn push_argv(cfg: &MacVmConfig, src: &str, target: &str) -> (argv: Vec<String>)
    ensures
        strings_view(argv@) == push_spec(*cfg, src@, target@),
        argv@.len() >= 2,
        argv@[argv@.len() - 1]@ == target@ + ":"@ + GUEST_WORKSPACE@ + "/"@,
        ends_with(argv@[argv@.len() - 2]@, "/"@) && (argv@[argv@.len() - 2]@ == src@ || argv@[argv@.len()
            - 2]@ == src@ + "/"@),
{
    let mut argv: Vec<String> = Vec::new();
    argv.push("rsync".to_owned());
    assert(strings_view(argv@) =~= seq!["rsync"@]);
    push_flags(&mut argv);
    let ghost v0 = strings_view(argv@);
    argv.push("--exclude".to_owned());
    argv.push(".vetto-partial/".to_owned());
    argv.push("-e".to_owned());
    let ssh = ssh_cmd_string(cfg);
    argv.push(ssh);
    assert(strings_view(argv@) =~= v0 + seq!["--exclude"@, ".vetto-partial/"@, "-e"@, ssh_cmd_spec(*cfg)]);
    let ghost v1 = strings_view(argv@);
    let mut s = chars_of(src);
    let slash = ['/'];
    assert(slash@ == seq!['/']);
    if !crate::text::chars_ends_with(s.as_slice(), slash.as_slice()) {
        s.push('/');
    }
    let s1 = string_of(s.as_slice());
    argv.push(s1);
    let rd = remote_dir_string(target);
    argv.push(rd);
    assert(strings_view(argv@) =~= v1 + seq![with_slash(src@), remote_dir(target@)]);
    assert(strings_view(argv@) =~= push_spec(*cfg, src@, target@));
    proof {
        lemma_push_and_pull_directions(*cfg, src@, target@);
        assert(strings_view(argv@)[argv@.len() - 1] == argv@[argv@.len() - 1]@);
        assert(strings_view(argv@)[argv@.len() - 2] == argv@[argv@.len() - 2]@);
    }
    argv
}

/// The pull argv (guest to host).
pub open spec fn pull_spec(cfg: MacVmConfig, dst: Seq<char>, target: Seq<char>) -> Seq<Seq<char>> {
    seq!["rsync"@] + rsync_flags() + seq![
        "--exclude"@,
        ".vetto-partial/"@,
        "--exclude"@,
        MARKER_NAME@,
        "-e"@,
        ssh_cmd_spec(cfg),
        remote_dir(target),
        dst,
    ]
}

/// The two transfers run in opposite directions: a push copies the host
/// tree (with a trailing `/`) into `<target>:<guest workspace>/`, and a pull
/// copies `<target>:<guest workspace>/` into the host destination.
pub proof fn lemma_push_and_pull_directions(cfg: MacVmConfig, host_dir: Seq<char>, target: Seq<char>)
    ensures
        ({
            let push = push_spec(cfg, host_dir, target);
            let pull = pull_spec(cfg, host_dir, target);
            &&& push.len() >= 2 && pull.len() >= 2
            &&& pull[pull.len() - 1] == host_dir
            &&& pull[pull.len() - 2] == target + ":"@ + GUEST_WORKSPACE@ + "/"@
            &&& push[push.len() - 1] == pull[pull.len() - 2]
            &&& ends_with(push[push.len() - 2], "/"@)
            &&& (push[push.len() - 2] == host_dir || push[push.len() - 2] == host_dir + "/"@)
        }),
{
    reveal_strlit(":");
    reveal_strlit("/");
    let push = push_spec(cfg, host_dir, target);
    let pull = pull_spec(cfg, host_dir, target);
    let rd = remote_dir(target);
    assert(target + ":"@ + GUEST_WORKSPACE@ + "/"@ =~= rd);
    let pull_tail = seq![
        "--exclude"@,
        ".vetto-partial/"@,
        "--exclude"@,
        MARKER_NAME@,
        "-e"@,
        ssh_cmd_spec(cfg),
        rd,
        host_dir,
    ];
    let push_tail = seq!["--exclude"@, ".vetto-partial/"@, "-e"@, ssh_cmd_spec(cfg), with_slash(host_dir), rd];
    assert(pull[pull.len() - 1] == pull_tail[7]);
    assert(pull[pull.len() - 2] == pull_tail[6]);
    assert(push[push.len() - 1] == push_tail[5]);
    assert(push[push.len() - 2] == push_tail[4]);
    assert("/"@ =~= seq!['/']);
    if ends_with(host_dir, seq!['/']) {
        assert(with_slash(host_dir) == host_dir);
    } else {
        assert(host_dir.push('/') =~= host_dir + "/"@);
        let t = host_dir.push('/');
        assert(t.skip(t.len() - 1) =~= seq!['/']);
        assert(with_slash(host_dir) == t);
    }
    assert(ends_with(push[push.len() - 2], "/"@));
    assert(push[push.len() - 1] == pull[pull.len() - 2]);
}

/// The rsync pull argv (guest to host); the marker stays in the guest.
pub fn pull_argv(cfg: &MacVmConfig, dst: &str, target: &str) -> (argv: Vec<String>)
    ensures
        strings_view(argv@) == pull_spec(*cfg, dst@, target@),
        argv@.len() >= 2,
        argv@[argv@.len() - 1]@ == dst@,
        argv@[argv@.len() - 2]@ == target@ + ":"@ + GUEST_WORKSPACE@ + "/"@,
{
    let mut argv: Vec<String> = Vec::new();
    argv.push("rsync".to_owned());
    assert(strings_view(argv@) =~= seq!["rsync"@]);
    push_flags(&mut argv);
    let ghost v0 = strings_view(argv@);
    argv.push("--exclude".to_owned());
    argv.push(".vetto-partial/".to_owned());
    argv.push("--exclude".to_owned());
    argv.push(MARKER_NAME.to_owned());
    argv.push("-e".to_owned());
    let ssh = ssh_cmd_string(cfg);
    argv.push(ssh);
    let rd = remote_dir_string(target);
    argv.push(rd);
    argv.push(dst.to_owned());
    assert(strings_view(argv@) =~= v0 + seq![
        "--exclude"@,
        ".vetto-partial/"@,
        "--exclude"@,
        MARKER_NAME@,
        "-e"@,
        ssh_cmd_spec(*cfg),
        remote_dir(target@),
        dst@,
    ]);
    assert(strings_view(argv@) =~= pull_spec(*cfg, dst@, target@));
    proof {
        lemma_push_and_pull_directions(*cfg, dst@, target@);
        assert(strings_view(argv@)[argv@.len() - 1] == argv@[argv@.len() - 1]@);
        assert(strings_view(argv@)[argv@.len() - 2] == argv@[argv@.len() - 2]@);
    }
    argv
}

} // verus!
