//! Unix path components (as `std::path::Path::components` yields them) and
//! the prefix test and ordering built on them.
use vstd::prelude::*;
use crate::text::{chars_eq, copy_chars, seqs_of, split_chars, split_on};

verus! {

/// Component kinds, in the order `Path` compares them.
pub const COMP_ROOT: u8 = 0;
pub const COMP_CUR: u8 = 1;
pub const COMP_PARENT: u8 = 2;
pub const COMP_NORMAL: u8 = 3;

/// The components that one `/`-separated segment contributes: none for an
/// empty segment or `.`, a parent for `..`, else the segment itself.
pub open spec fn segment_comps(g: Seq<char>) -> Seq<(u8, Seq<char>)> {
    if g.len() == 0 || g == seq!['.'] {
        Seq::empty()
    } else if g == seq!['.', '.'] {
        seq![(COMP_PARENT, Seq::empty())]
    } else {
        seq![(COMP_NORMAL, g)]
    }
}

/// The components of a run of segments.
pub open spec fn segments_comps(segs: Seq<Seq<char>>) -> Seq<(u8, Seq<char>)>
    decreases segs.len(),
{
    if segs.len() == 0 {
        Seq::empty()
    } else {
        segments_comps(segs.drop_last()) + segment_comps(segs.last())
    }
}

/// The components of the path `s`: the root for an absolute path, a leading
/// `.` of a relative path, then the segments with empty ones and `.` dropped.
pub open spec fn path_components(s: Seq<char>) -> Seq<(u8, Seq<char>)> {
    let absolute = s.len() > 0 && s[0] == '/';
    let segs = split_on(s, '/');
    let lead_cur = !absolute && segs.len() > 0 && segs[0] == seq!['.'];
    (if absolute {
        seq![(COMP_ROOT, Seq::empty())]
    } else {
        Seq::empty()
    }) + (if lead_cur {
        seq![(COMP_CUR, Seq::empty())]
    } else {
        Seq::empty()
    }) + segments_comps(segs)
}

/// The mathematical form of an exec component list.
pub open spec fn comps_view(v: Seq<(u8, Vec<char>)>) -> Seq<(u8, Seq<char>)> {
    v.map_values(|c: (u8, Vec<char>)| (c.0, c.1@))
}

proof fn lemma_split_first(s: Seq<char>)
    requires
        s.len() > 0,
        s[0] == '/',
    ensures
        split_on(s, '/').len() >= 2,
        split_on(s, '/')[0] == Seq::<char>::empty(),
    decreases s.len(),
{
    let prev = split_on(s.drop_last(), '/');
    if s.len() > 1 {
        lemma_split_first(s.drop_last());
        assert(s.drop_last()[0] == '/');
    } else {
        assert(s.drop_last() =~= Seq::<char>::empty());
        assert(prev == seq![Seq::<char>::empty()]);
    }
    assert(split_on(s, '/') == if s.last() == '/' {
        prev.push(Seq::empty())
    } else {
        prev.update(prev.len() - 1, prev.last().push(s.last()))
    });
}

proof fn lemma_split_len(s: Seq<char>)
    ensures
        split_on(s, '/').len() >= 1,
    decreases s.len(),
{
    if s.len() > 0 {
        lemma_split_len(s.drop_last());
    }
}

/// The components of the path `s`.
pub fn components(s: &[char]) -> (out: Vec<(u8, Vec<char>)>)
    ensures
        comps_view(out@) == path_components(s@),
{
    let segs = split_chars(s, '/');
    let absolute = s.len() > 0 && s[0] == '/';
    let dot = ['.'];
    let dotdot = ['.', '.'];
    assert(dot@ == seq!['.']);
    assert(dotdot@ == seq!['.', '.']);
    let lead_cur = !absolute && segs.len() > 0 && chars_eq(segs[0].as_slice(), dot.as_slice());
    let mut out: Vec<(u8, Vec<char>)> = Vec::new();
    if absolute {
        out.push((COMP_ROOT, Vec::new()));
    }
    if lead_cur {
        out.push((COMP_CUR, Vec::new()));
    }
    let ghost head = comps_view(out@);
    assert(head =~= (if absolute {
        seq![(COMP_ROOT, Seq::<char>::empty())]
    } else {
        Seq::empty()
    }) + (if lead_cur {
        seq![(COMP_CUR, Seq::<char>::empty())]
    } else {
        Seq::empty()
    }));
    let ghost all = seqs_of(segs@);
    let mut i: usize = 0;
    assert(segments_comps(all.take(0)) =~= Seq::<(u8, Seq<char>)>::empty());
    while i < segs.len()
        invariant
            i <= segs.len(),
            all == seqs_of(segs@),
            dot@ == seq!['.'],
            dotdot@ == seq!['.', '.'],
            comps_view(out@) == head + segments_comps(all.take(i as int)),
        decreases segs.len() - i,
    {
        let g = segs[i].as_slice();
        assert(all.take(i + 1).drop_last() =~= all.take(i as int));
        assert(all.take(i + 1).last() == g@);
        let ghost before = comps_view(out@);
        assert(segments_comps(all.take(i + 1)) == segments_comps(all.take(i as int)) + segment_comps(g@));
        if g.len() == 0 || chars_eq(g, dot.as_slice()) {
            assert(segment_comps(g@) =~= Seq::<(u8, Seq<char>)>::empty());
            assert(comps_view(out@) =~= before + segment_comps(g@));
        } else if chars_eq(g, dotdot.as_slice()) {
            out.push((COMP_PARENT, Vec::new()));
            assert(comps_view(out@) =~= before.push((COMP_PARENT, Seq::<char>::empty())));
            assert(segment_comps(g@) == seq![(COMP_PARENT, Seq::<char>::empty())]);
            assert(comps_view(out@) =~= before + segment_comps(g@));
        } else {
            let c = copy_chars(g);
            out.push((COMP_NORMAL, c));
            assert(comps_view(out@) =~= before.push((COMP_NORMAL, g@)));
            assert(segment_comps(g@) == seq![(COMP_NORMAL, g@)]);
            assert(comps_view(out@) =~= before + segment_comps(g@));
        }
        assert(comps_view(out@) =~= head + segments_comps(all.take(i + 1)));
        i += 1;
    }
    assert(all.take(segs.len() as int) =~= all);
    out
}

/// Whether `b` is a prefix of `a`, component by component.
pub open spec fn comps_prefix(a: Seq<(u8, Seq<char>)>, b: Seq<(u8, Seq<char>)>) -> bool {
    b.len() <= a.len() && a.take(b.len() as int) == b
}

/// `Path::starts_with`: the components of `base` begin those of `path`.
pub open spec fn path_starts_with(path: Seq<char>, base: Seq<char>) -> bool {
    comps_prefix(path_components(path), path_components(base))
}

fn comp_eq(a: &(u8, Vec<char>), b: &(u8, Vec<char>)) -> (r: bool)
    ensures
        r == ((a.0, a.1@) == (b.0, b.1@)),
{
    a.0 == b.0 && chars_eq(a.1.as_slice(), b.1.as_slice())
}

/// Whether the path `path` lies at or below `base` (component-wise).
pub fn starts_with_path(path: &[char], base: &[char]) -> (r: bool)
    ensures
        r == path_starts_with(path@, base@),
{
    let a = components(path);
    let b = components(base);
    if b.len() > a.len() {
        return false;
    }
    let mut i: usize = 0;
    while i < b.len()
        invariant
            b.len() <= a.len(),
            i <= b.len(),
            comps_view(a@) == path_components(path@),
            comps_view(b@) == path_components(base@),
            forall|k: int| 0 <= k < i ==> comps_view(a@)[k] == comps_view(b@)[k],
        decreases b.len() - i,
    {
        let same = comp_eq(&a[i], &b[i]);
        if !same {
            assert(comps_view(a@)[i as int] == (a@[i as int].0, a@[i as int].1@));
            assert(comps_view(b@)[i as int] == (b@[i as int].0, b@[i as int].1@));
            assert(comps_view(a@).take(b.len() as int)[i as int] != comps_view(b@)[i as int]);
            return false;
        }
        i += 1;
    }
    assert(comps_view(a@).take(b.len() as int) =~= comps_view(b@));
    true
}

/// Lexicographic order of character strings by code point.
pub open spec fn text_lt(a: Seq<char>, b: Seq<char>) -> bool
    decreases a.len(),
{
    if a.len() == 0 {
        b.len() > 0
    } else if b.len() == 0 {
        false
    } else if a[0] != b[0] {
        (a[0] as u32) < (b[0] as u32)
    } else {
        text_lt(a.drop_first(), b.drop_first())
    }
}

/// Order of single components: by kind, then normal components by text.
pub open spec fn comp_lt(a: (u8, Seq<char>), b: (u8, Seq<char>)) -> bool {
    a.0 < b.0 || (a.0 == b.0 && a.0 == COMP_NORMAL && text_lt(a.1, b.1))
}

/// Lexicographic order of component lists (`Ord for Path`).
pub open spec fn comps_lt(a: Seq<(u8, Seq<char>)>, b: Seq<(u8, Seq<char>)>) -> bool
    decreases a.len(),
{
    if a.len() == 0 {
        b.len() > 0
    } else if b.len() == 0 {
        false
    } else if a[0] != b[0] {
        comp_lt(a[0], b[0])
    } else {
        comps_lt(a.drop_first(), b.drop_first())
    }
}

/// Whether path `a` sorts before path `b`.
pub open spec fn path_lt(a: Seq<char>, b: Seq<char>) -> bool {
    comps_lt(path_components(a), path_components(b))
}

/// The text order is asymmetric.
pub proof fn lemma_text_lt_asym(a: Seq<char>, b: Seq<char>)
    ensures
        text_lt(a, b) ==> !text_lt(b, a),
    decreases a.len(),
{
    if a.len() > 0 && b.len() > 0 && a[0] == b[0] {
        lemma_text_lt_asym(a.drop_first(), b.drop_first());
    }
}

/// The component order is asymmetric.
pub proof fn lemma_comps_lt_asym(a: Seq<(u8, Seq<char>)>, b: Seq<(u8, Seq<char>)>)
    ensures
        comps_lt(a, b) ==> !comps_lt(b, a),
    decreases a.len(),
{
    if a.len() > 0 && b.len() > 0 {
        if a[0] == b[0] {
            lemma_comps_lt_asym(a.drop_first(), b.drop_first());
        } else {
            lemma_text_lt_asym(a[0].1, b[0].1);
        }
    }
}

/// The text order is transitive.
pub proof fn lemma_text_lt_trans(a: Seq<char>, b: Seq<char>, c: Seq<char>)
    requires
        text_lt(a, b),
        text_lt(b, c),
    ensures
        text_lt(a, c),
    decreases a.len(),
{
    if a.len() > 0 && a[0] == b[0] && b[0] == c[0] {
        lemma_text_lt_trans(a.drop_first(), b.drop_first(), c.drop_first());
    }
}

/// Two different texts are ordered one way or the other.
pub proof fn lemma_text_lt_total(a: Seq<char>, b: Seq<char>)
    ensures
        a != b ==> text_lt(a, b) || text_lt(b, a),
    decreases a.len(),
{
    if a.len() == 0 && b.len() == 0 {
        assert(a =~= b);
    } else if a.len() > 0 && b.len() > 0 && a[0] == b[0] {
        lemma_text_lt_total(a.drop_first(), b.drop_first());
        if a.drop_first() == b.drop_first() {
            assert(a.drop_first().len() == a.len() - 1);
            assert(b.drop_first().len() == b.len() - 1);
            assert forall|i: int| 0 <= i < a.len() implies a[i] == b[i] by {
                if i > 0 {
                    assert(a[i] == a.drop_first()[i - 1]);
                    assert(b[i] == b.drop_first()[i - 1]);
                }
            }
            assert(a =~= b);
        }
    } else if a.len() > 0 && b.len() > 0 {
        vstd::utf8::char_u32_cast(a[0], a[0] as u32);
        vstd::utf8::char_u32_cast(b[0], b[0] as u32);
    }
}

/// The component order is transitive.
pub proof fn lemma_comps_lt_trans(
    a: Seq<(u8, Seq<char>)>,
    b: Seq<(u8, Seq<char>)>,
    c: Seq<(u8, Seq<char>)>,
)
    requires
        comps_lt(a, b),
        comps_lt(b, c),
    ensures
        comps_lt(a, c),
    decreases a.len(),
{
    if a.len() > 0 {
        if a[0] == b[0] && b[0] == c[0] {
            lemma_comps_lt_trans(a.drop_first(), b.drop_first(), c.drop_first());
        } else if a[0] != b[0] && b[0] != c[0] {
            if a[0].0 == b[0].0 && b[0].0 == c[0].0 && a[0].0 == COMP_NORMAL {
                lemma_text_lt_trans(a[0].1, b[0].1, c[0].1);
            }
            if a[0] == c[0] {
                lemma_text_lt_asym(a[0].1, b[0].1);
            }
        }
    }
}

/// Path order is a strict order: asymmetric and transitive.
pub proof fn lemma_path_lt_strict_order(a: Seq<char>, b: Seq<char>, c: Seq<char>)
    ensures
        path_lt(a, b) ==> !path_lt(b, a),
        path_lt(a, b) && path_lt(b, c) ==> path_lt(a, c),
{
    lemma_comps_lt_asym(path_components(a), path_components(b));
    if path_lt(a, b) && path_lt(b, c) {
        lemma_comps_lt_trans(path_components(a), path_components(b), path_components(c));
    }
}

pub(crate) fn text_less(a: &[char], b: &[char]) -> (r: bool)
    ensures
        r == text_lt(a@, b@),
{
    let mut i: usize = 0;
    assert(a@.skip(0) =~= a@);
    assert(b@.skip(0) =~= b@);
    while i < a.len() && i < b.len() && a[i] == b[i]
        invariant
            i <= a.len(),
            i <= b.len(),
            text_lt(a@, b@) == text_lt(a@.skip(i as int), b@.skip(i as int)),
        decreases a.len() - i,
    {
        assert(a@.skip(i as int).drop_first() =~= a@.skip(i + 1));
        assert(b@.skip(i as int).drop_first() =~= b@.skip(i + 1));
        i += 1;
    }
    if i == a.len() {
        i < b.len()
    } else if i == b.len() {
        false
    } else {
        assert(a@.skip(i as int)[0] == a@[i as int]);
        assert(b@.skip(i as int)[0] == b@[i as int]);
        (a[i] as u32) < (b[i] as u32)
    }
}

/// Whether the component list `a` sorts before `b`.
pub fn comps_less(a: &Vec<(u8, Vec<char>)>, b: &Vec<(u8, Vec<char>)>) -> (r: bool)
    ensures
        r == comps_lt(comps_view(a@), comps_view(b@)),
{
    let ghost va = comps_view(a@);
    let ghost vb = comps_view(b@);
    let mut i: usize = 0;
    assert(va.skip(0) =~= va);
    assert(vb.skip(0) =~= vb);
    while i < a.len() && i < b.len() && comp_eq(&a[i], &b[i])
        invariant
            i <= a.len(),
            i <= b.len(),
            va == comps_view(a@),
            vb == comps_view(b@),
            comps_lt(va, vb) == comps_lt(va.skip(i as int), vb.skip(i as int)),
        decreases a.len() - i,
    {
        assert(va.skip(i as int).drop_first() =~= va.skip(i + 1));
        assert(vb.skip(i as int).drop_first() =~= vb.skip(i + 1));
        i += 1;
    }
    if i == a.len() {
        i < b.len()
    } else if i == b.len() {
        false
    } else {
        assert(va.skip(i as int)[0] == va[i as int]);
        assert(vb.skip(i as int)[0] == vb[i as int]);
        a[i].0 < b[i].0 || (a[i].0 == b[i].0 && a[i].0 == COMP_NORMAL && text_less(
            a[i].1.as_slice(),
            b[i].1.as_slice(),
        ))
    }
}

/// Whether path `a` sorts before path `b` (`Ord for Path`).
pub fn path_less(a: &[char], b: &[char]) -> (r: bool)
    ensures
        r == path_lt(a@, b@),
{
    let ca = components(a);
    let cb = components(b);
    comps_less(&ca, &cb)
}

/// `base` joined with the relative name `name`, as `Path::join` does it: a
/// separator in between unless `base` is empty or already ends with one.
pub open spec fn join_spec(base: Seq<char>, name: Seq<char>) -> Seq<char> {
    if base.len() == 0 || base.last() == '/' {
        base + name
    } else {
        base + seq!['/'] + name
    }
}

/// `base` joined with the relative name `name`.
pub fn join_relative(base: &str, name: &str) -> (r: String)
    ensures
        r@ == join_spec(base@, name@),
{
    let mut out = crate::text::chars_of(base);
    if out.len() > 0 && out[out.len() - 1] != '/' {
        out.push('/');
    }
    let n = crate::text::chars_of(name);
    crate::text::append_chars(&mut out, n.as_slice());
    crate::text::string_of(out.as_slice())
}

} // verus!
