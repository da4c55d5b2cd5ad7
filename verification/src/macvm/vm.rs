//! VM lifecycle through the helper binary: status parsing and argv builders.
use vstd::prelude::*;
use crate::text::{chars_of, chars_starts_with, fields, split_whitespace, starts_with, string_of, sub_chars, trim, trim_ws};

verus! {

/// Parsed `helper status` output.
#[derive(Debug, Clone, PartialEq, Eq)]
pub struct VmStatus {
    /// Raw state (e.g. `running`, `stopped`).
    pub state: String,
    /// True only for the exact state `running`.
    pub running: bool,
    /// Guest IP when reported.
    pub ip: Option<String>,
}

/// The last non-blank `ip=` value among `fs`.
pub open spec fn last_ip(fs: Seq<Seq<char>>) -> Option<Seq<char>>
    decreases fs.len(),
{
    if fs.len() == 0 {
        None
    } else {
        let f = fs.last();
        if starts_with(f, seq!['i', 'p', '=']) && trim_ws(f.skip(3)).len() > 0 {
            Some(trim_ws(f.skip(3)))
        } else {
            last_ip(fs.drop_last())
        }
    }
}

/// What a status line says: `state=<state>[ ip=<ip>]`.
pub open spec fn status_spec(line: Seq<char>) -> Option<(Seq<char>, Option<Seq<char>>)> {
    let l = trim_ws(line);
    if !starts_with(l, "state="@) {
        None
    } else {
        let fs = fields(l.skip(6));
        if fs.len() == 0 {
            None
        } else {
            Some((fs[0], last_ip(fs.drop_first())))
        }
    }
}

/// Why a status line is refused.
#[derive(Debug, Clone, Copy, PartialEq, Eq, Structural)]
pub enum StatusError {
    /// The line does not start with `state=`.
    Malformed,
    /// The state is empty.
    EmptyState,
}

/// Parses one line of `helper status` output, failing closed.
pub fn parse_status_line(line: &str) -> (r: Result<VmStatus, StatusError>)
    ensures
        match status_spec(line@) {
            None => r is Err,
            Some((state, ip)) => r matches Ok(s) && s.state@ == state && s.running == (state
                == "running"@) && match s.ip {
                Some(a) => ip == Some(a@),
                None => ip is None,
            },
        },
{
    proof {
        reveal_strlit("state=");
    }
    let lc = chars_of(line);
    let l = trim(lc.as_slice());
    let prefix = chars_of("state=");
    if !chars_starts_with(l.as_slice(), prefix.as_slice()) {
        return Err(StatusError::Malformed);
    }
    let rest = sub_chars(l.as_slice(), 6, l.len());
    assert(rest@ =~= l@.skip(6));
    let fs = split_whitespace(rest.as_slice());
    if fs.len() == 0 {
        return Err(StatusError::EmptyState);
    }
    let state = string_of(fs[0].as_slice());
    let ghost all = crate::text::seqs_of(fs@);
    let ip_key = ['i', 'p', '='];
    assert(ip_key@ == seq!['i', 'p', '=']);
    let mut ip: Option<String> = None;
    let mut i: usize = 1;
    assert(all.drop_first().take(0) =~= Seq::<Seq<char>>::empty());
    while i < fs.len()
        invariant
            1 <= i <= fs.len(),
            all == crate::text::seqs_of(fs@),
            ip_key@ == seq!['i', 'p', '='],
            match ip {
                Some(a) => last_ip(all.drop_first().take(i - 1)) == Some(a@),
                None => last_ip(all.drop_first().take(i - 1)) is None,
            },
        decreases fs.len() - i,
    {
        let f = fs[i].as_slice();
        assert(all.drop_first().take(i as int).drop_last() =~= all.drop_first().take(i - 1));
        assert(all.drop_first().take(i as int).last() == f@);
        if chars_starts_with(f, ip_key.as_slice()) {
            let addr = sub_chars(f, 3, f.len());
            assert(addr@ =~= f@.skip(3));
            let t = trim(addr.as_slice());
            if t.len() > 0 {
                ip = Some(string_of(t.as_slice()));
            }
        }
        i += 1;
    }
    assert(all.drop_first().take(fs.len() - 1) =~= all.drop_first());
    let running_word = chars_of("running");
    let sc = chars_of(state.as_str());
    let running = crate::text::chars_eq(sc.as_slice(), running_word.as_slice());
    Ok(VmStatus { state, running, ip })
}

/// `[helper, word]`.
fn helper_argv(helper: &str, word: &str) -> (v: Vec<String>)
    ensures
        v@.len() == 2,
        v@[0]@ == helper@,
        v@[1]@ == word@,
{
    let mut v: Vec<String> = Vec::new();
    v.push(helper.to_owned());
    v.push(word.to_owned());
    v
}

/// `helper status`.
pub fn status_argv(helper: &str) -> (v: Vec<String>)
    ensures
        v@.len() == 2,
        v@[0]@ == helper@,
        v@[1]@ == "status"@,
{
    helper_argv(helper, "status")
}

/// `helper start`.
pub fn start_argv(helper: &str) -> (v: Vec<String>)
    ensures
        v@.len() == 2,
        v@[0]@ == helper@,
        v@[1]@ == "start"@,
{
    helper_argv(helper, "start")
}

/// `helper stop`.
pub fn stop_argv(helper: &str) -> (v: Vec<String>)
    ensures
        v@.len() == 2,
        v@[0]@ == helper@,
        v@[1]@ == "stop"@,
{
    helper_argv(helper, "stop")
}

} // verus!
