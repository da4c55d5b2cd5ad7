//! Process-tree facts read from `/proc/<pid>/status` bodies.
use vstd::prelude::*;
use crate::text::{
    chars_of, chars_starts_with, parse_u32, parse_unsigned, seqs_of, split_chars, split_on,
    starts_with, sub_chars, trim, trim_start_ws, trim_ws,
};

verus! {

/// The text after `key` on the first line (of `lines`) that starts with
/// `key` once leading white space is dropped.
pub open spec fn first_field(lines: Seq<Seq<char>>, key: Seq<char>) -> Option<Seq<char>>
    decreases lines.len(),
{
    if lines.len() == 0 {
        None
    } else if starts_with(trim_start_ws(lines[0]), key) {
        Some(trim_start_ws(lines[0]).skip(key.len() as int))
    } else {
        first_field(lines.drop_first(), key)
    }
}

/// The parent pid named by a status body: the `PPid:` field, trimmed and
/// parsed as a `u32` (`None` when absent or malformed).
pub open spec fn ppid_spec(status: Seq<char>) -> Option<u32> {
    match first_field(split_on(status, '\n'), seq!['P', 'P', 'i', 'd', ':']) {
        Some(rest) => match parse_unsigned(trim_ws(rest), u32::MAX as int) {
            Some(v) => Some(v as u32),
            None => None,
        },
        None => None,
    }
}

/// The process state letter named by a status body.
pub open spec fn state_spec(status: Seq<char>) -> Option<char> {
    match first_field(split_on(status, '\n'), seq!['S', 't', 'a', 't', 'e', ':']) {
        Some(rest) => if trim_start_ws(rest).len() > 0 {
            Some(trim_start_ws(rest)[0])
        } else {
            None
        },
        None => None,
    }
}

fn trim_start(s: &[char]) -> (out: Vec<char>)
    ensures
        out@ == trim_start_ws(s@),
{
    let mut i: usize = 0;
    assert(s@.skip(0) =~= s@);
    while i < s.len() && crate::text::is_whitespace(s[i])
        invariant
            i <= s.len(),
            trim_start_ws(s@) == trim_start_ws(s@.skip(i as int)),
        decreases s.len() - i,
    {
        assert(s@.skip(i as int).drop_first() =~= s@.skip(i + 1));
        i += 1;
    }
    assert(s@.skip(i as int) =~= s@.subrange(i as int, s.len() as int));
    sub_chars(s, i, s.len())
}

fn find_field(status: &str, key: &[char]) -> (r: Option<Vec<char>>)
    ensures
        match r {
            Some(v) => first_field(split_on(status@, '\n'), key@) == Some(v@),
            None => first_field(split_on(status@, '\n'), key@) is None,
        },
{
    let cs = chars_of(status);
    let lines = split_chars(cs.as_slice(), '\n');
    let ghost all = seqs_of(lines@);
    let mut i: usize = 0;
    assert(all.skip(0) =~= all);
    while i < lines.len()
        invariant
            i <= lines.len(),
            all == seqs_of(lines@),
            all == split_on(status@, '\n'),
            first_field(all, key@) == first_field(all.skip(i as int), key@),
        decreases lines.len() - i,
    {
        let line = trim_start(lines[i].as_slice());
        assert(all.skip(i as int)[0] == lines@[i as int]@);
        assert(all.skip(i as int).drop_first() =~= all.skip(i + 1));
        if chars_starts_with(line.as_slice(), key) {
            let rest = sub_chars(line.as_slice(), key.len(), line.len());
            assert(rest@ =~= line@.skip(key.len() as int));
            return Some(rest);
        }
        i += 1;
    }
    None
}

/// Parses the `PPid:` field out of a `/proc/<pid>/status` body.
pub fn ppid_from_status(status_text: &str) -> (r: Option<u32>)
    ensures
        r == ppid_spec(status_text@),
{
    let key = ['P', 'P', 'i', 'd', ':'];
    assert(key@ == seq!['P', 'P', 'i', 'd', ':']);
    match find_field(status_text, key.as_slice()) {
        Some(rest) => {
            let t = trim(rest.as_slice());
            parse_u32(t.as_slice())
        },
        None => None,
    }
}

/// Parses the single-letter process state (`State:\tZ (zombie)`).
pub fn state_letter(status_text: &str) -> (r: Option<char>)
    ensures
        r == state_spec(status_text@),
{
    let key = ['S', 't', 'a', 't', 'e', ':'];
    assert(key@ == seq!['S', 't', 'a', 't', 'e', ':']);
    match find_field(status_text, key.as_slice()) {
        Some(rest) => {
            let t = trim_start(rest.as_slice());
            if t.len() > 0 {
                Some(t[0])
            } else {
                None
            }
        },
        None => None,
    }
}

/// Whether the root process can no longer produce orphans, given its status
/// body (`None` when it could not be read) and this process's pid: it is
/// gone, its pid now belongs to a non-child, or it is a zombie.
pub fn root_settled(status: Option<&str>, me: u32) -> (r: bool)
    ensures
        r == match status {
            None => true,
            Some(s) => ppid_spec(s@) != Some(me) || state_spec(s@) == Some('Z'),
        },
{
    match status {
        None => true,
        Some(s) => {
            if ppid_from_status(s) != Some(me) {
                return true;
            }
            state_letter(s) == Some('Z')
        },
    }
}

/// A process's arguments from its `/proc/<pid>/cmdline`: the NUL-separated
/// pieces that are not empty.
pub fn cmdline_args(raw: &str) -> (v: Vec<String>)
    ensures
        v@.map_values(|x: String| x@) == crate::text::non_empty(crate::text::split_on(raw@, '\0')),
{
    let cs = crate::text::chars_of(raw);
    let parts = crate::text::split_chars(cs.as_slice(), '\0');
    let ghost ps = crate::text::seqs_of(parts@);
    let mut v: Vec<String> = Vec::new();
    let mut i: usize = 0;
    assert(ps.take(0) =~= Seq::<Seq<char>>::empty());
    while i < parts.len()
        invariant
            i <= parts.len(),
            ps == crate::text::seqs_of(parts@),
            v@.map_values(|x: String| x@) == crate::text::non_empty(ps.take(i as int)),
        decreases parts.len() - i,
    {
        assert(ps.take(i + 1).drop_last() =~= ps.take(i as int));
        assert(ps.take(i + 1).last() == parts@[i as int]@);
        if parts[i].len() > 0 {
            let ghost before = v@;
            v.push(crate::text::string_of(parts[i].as_slice()));
            assert(v@.map_values(|x: String| x@) =~= before.map_values(|x: String| x@).push(parts@[i as int]@));
        }
        i += 1;
    }
    assert(ps.take(parts.len() as int) =~= ps);
    v
}

} // verus!
