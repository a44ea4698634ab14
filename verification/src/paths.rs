//! Paths compared as the file system sees them: by their components, so
//! that repeated separators, a trailing separator and inner "." segments
//! make no difference. A path is read in one of two styles: the Unix style,
//! where '/' separates, and the Windows style, where '\' separates too and a
//! path may start with a drive prefix such as "C:". The Windows style knows
//! no other prefix: a path that starts with a UNC or verbatim prefix
//! ("\\server\share", "\\?\") is read as a rooted path without one.
//!
//! On the components rest the parent, the file name, its stem and extension,
//! and the name that an entry gets inside an archive, each as the standard
//! library's `Path` gives it for paths of these forms.

use vstd::prelude::*;
use crate::ordering::{Precedence, compare_texts};
use crate::text::{chars_of, push_char};

verus! {

/// How paths are read.
#[derive(Clone, Copy, Debug, PartialEq, Eq, Structural)]
pub enum PathStyle {
    /// '/' separates components.
    Unix,
    /// '/' and '\' separate components, and a path may start with a drive
    /// prefix: a letter and ':'.
    Windows,
}

/// `c` separates components in `style`.
pub open spec fn is_separator(style: PathStyle, c: char) -> bool {
    c == '/' || (style == PathStyle::Windows && c == '\\')
}

/// `c` is an ASCII letter.
pub open spec fn is_drive_letter(c: char) -> bool {
    ('a' <= c && c <= 'z') || ('A' <= c && c <= 'Z')
}

/// The upper-case form of an ASCII letter; other characters stay.
pub open spec fn ascii_upper(c: char) -> char {
    if 'a' <= c && c <= 'z' {
        ((c as int) - 32) as char
    } else {
        c
    }
}

/// The length of the drive prefix that `p` starts with in `style`: 2 for a
/// letter and ':' in the Windows style, 0 otherwise.
pub open spec fn prefix_len(style: PathStyle, p: Seq<char>) -> int {
    if style == PathStyle::Windows && p.len() >= 2 && p[1] == ':' && is_drive_letter(p[0]) {
        2
    } else {
        0
    }
}

/// `p` after its drive prefix.
pub open spec fn path_body(style: PathStyle, p: Seq<char>) -> Seq<char> {
    p.subrange(prefix_len(style, p), p.len() as int)
}

/// A segment between separators that names something: not empty and not
/// ".".
pub open spec fn keeps_segment(seg: Seq<char>) -> bool {
    seg.len() > 0 && seg != seq!['.']
}

/// `done` followed by `seg` when the segment names something.
pub open spec fn add_segment(done: Seq<Seq<char>>, seg: Seq<char>) -> Seq<Seq<char>> {
    if keeps_segment(seg) {
        done.push(seg)
    } else {
        done
    }
}

/// Reading `p` from the left: the segments completed so far that name
/// something, and the segment in progress.
pub open spec fn split_state(style: PathStyle, p: Seq<char>) -> (Seq<Seq<char>>, Seq<char>)
    decreases p.len(),
{
    if p.len() == 0 {
        (seq![], seq![])
    } else {
        let (done, cur) = split_state(style, p.drop_last());
        if is_separator(style, p.last()) {
            (add_segment(done, cur), seq![])
        } else {
            (done, cur.push(p.last()))
        }
    }
}

/// The segments of `p` that name something, in order.
pub open spec fn named_segments(style: PathStyle, p: Seq<char>) -> Seq<Seq<char>> {
    add_segment(split_state(style, p).0, split_state(style, p).1)
}

/// `p` starts at a root (after its drive prefix).
pub open spec fn has_root(style: PathStyle, p: Seq<char>) -> bool {
    let b = path_body(style, p);
    b.len() > 0 && is_separator(style, b[0])
}

/// `p` is relative and starts with the current directory "." as its own
/// segment.
pub open spec fn leading_cur_dir(style: PathStyle, p: Seq<char>) -> bool {
    let b = path_body(style, p);
    !has_root(style, p) && b.len() > 0 && b[0] == '.' && (b.len() == 1 || is_separator(
        style,
        b[1],
    ))
}

/// The components that come before the named segments: the drive prefix
/// (its letter in upper case), the root "/", and a leading ".".
pub open spec fn head_components(style: PathStyle, p: Seq<char>) -> Seq<Seq<char>> {
    (if prefix_len(style, p) == 2 {
        seq![seq![ascii_upper(p[0]), ':']]
    } else {
        Seq::<Seq<char>>::empty()
    }) + (if has_root(style, p) {
        seq![seq!['/']]
    } else {
        Seq::<Seq<char>>::empty()
    }) + (if leading_cur_dir(style, p) {
        seq![seq!['.']]
    } else {
        Seq::<Seq<char>>::empty()
    })
}

/// The components of `p`: the drive prefix, the root, a leading ".", then
/// the segments that name something.
pub open spec fn spec_path_components(style: PathStyle, p: Seq<char>) -> Seq<Seq<char>> {
    head_components(style, p) + named_segments(style, path_body(style, p))
}

/// `a` and `b` are the same path: they have the same components.
pub open spec fn same_path(style: PathStyle, a: Seq<char>, b: Seq<char>) -> bool {
    spec_path_components(style, a) == spec_path_components(style, b)
}

/// Reading `p` from index `from` up to `to`: where the segments that name
/// something and are complete start and end, and where the segment in
/// progress starts.
pub open spec fn split_spans(style: PathStyle, p: Seq<char>, from: int, to: int) -> (Seq<(int, int)>, int)
    decreases to - from,
{
    if to <= from {
        (seq![], from)
    } else {
        let (done, cur) = split_spans(style, p, from, to - 1);
        if is_separator(style, p[to - 1]) {
            (
                if keeps_segment(p.subrange(cur, to - 1)) {
                    done.push((cur, to - 1))
                } else {
                    done
                },
                to,
            )
        } else {
            (done, cur)
        }
    }
}

/// Where each segment of `p` that names something starts and ends in `p`.
pub open spec fn named_spans(style: PathStyle, p: Seq<char>) -> Seq<(int, int)> {
    let (done, cur) = split_spans(style, p, prefix_len(style, p), p.len() as int);
    if keeps_segment(p.subrange(cur, p.len() as int)) {
        done.push((cur, p.len() as int))
    } else {
        done
    }
}

/// Where the drive prefix, the root and a leading "." stand in `p`.
pub open spec fn head_spans(style: PathStyle, p: Seq<char>) -> Seq<(int, int)> {
    let pl = prefix_len(style, p);
    (if pl == 2 {
        seq![(0int, 2int)]
    } else {
        Seq::<(int, int)>::empty()
    }) + (if has_root(style, p) {
        seq![(pl, pl + 1)]
    } else {
        Seq::<(int, int)>::empty()
    }) + (if leading_cur_dir(style, p) {
        seq![(pl, pl + 1)]
    } else {
        Seq::<(int, int)>::empty()
    })
}

/// Where each component of `p` starts and ends in `p`, in the order of
/// `spec_path_components`.
pub open spec fn component_spans(style: PathStyle, p: Seq<char>) -> Seq<(int, int)> {
    head_spans(style, p) + named_spans(style, p)
}

/// Every span lies in order within `lo..hi`.
pub open spec fn spans_within(sp: Seq<(int, int)>, lo: int, hi: int) -> bool {
    forall|k: int| 0 <= k < sp.len() ==> lo <= (#[trigger] sp[k]).0 <= sp[k].1 <= hi
}

/// No span starts after the end of a later one.
pub open spec fn spans_ordered(sp: Seq<(int, int)>) -> bool {
    forall|j: int, k: int| 0 <= j <= k < sp.len() ==> (#[trigger] sp[j]).0 <= (#[trigger] sp[k]).1
}

/// The spans found while reading follow the segments found while reading:
/// as many, each over the text of its segment, and the segment in progress
/// is the text from its start.
pub proof fn lemma_split_spans(style: PathStyle, p: Seq<char>, from: int, to: int)
    requires
        0 <= from <= to <= p.len(),
    ensures
        ({
            let (d, cur) = split_spans(style, p, from, to);
            let (sd, scur) = split_state(style, p.subrange(from, to));
            &&& from <= cur <= to
            &&& p.subrange(cur, to) == scur
            &&& d.len() == sd.len()
            &&& spans_within(d, from, cur)
            &&& spans_ordered(d)
            &&& forall|k: int| 0 <= k < d.len() ==> p.subrange(d[k].0, d[k].1) == #[trigger] sd[k]
            &&& forall|k: int|
                0 <= k < d.len() ==> named_segments(style, p.subrange(from, (#[trigger] d[k]).1))
                    == sd.take(k + 1)
        }),
    decreases to - from,
{
    if to > from {
        lemma_split_spans(style, p, from, to - 1);
        let q = p.subrange(from, to);
        assert(q.drop_last() =~= p.subrange(from, to - 1));
        assert(q.last() == p[to - 1]);
        let (d, cur) = split_spans(style, p, from, to - 1);
        let (sd, scur) = split_state(style, p.subrange(from, to - 1));
        if is_separator(style, p[to - 1]) {
            assert(p.subrange(cur, to - 1) == scur);
            assert(p.subrange(to, to) =~= Seq::<char>::empty());
            if keeps_segment(scur) {
                let nd = d.push((cur, to - 1));
                assert forall|j: int, k: int| 0 <= j <= k < nd.len() implies (#[trigger] nd[j]).0
                    <= (#[trigger] nd[k]).1 by {
                    if k < d.len() {
                        assert(nd[k] == d[k]);
                    }
                    if j < d.len() {
                        assert(nd[j] == d[j]);
                    }
                }
                let nsd = sd.push(scur);
                assert forall|k: int| 0 <= k < nd.len() implies p.subrange(nd[k].0, nd[k].1)
                    == #[trigger] nsd[k] by {
                    if k < d.len() {
                        assert(nd[k] == d[k]);
                        assert(nsd[k] == sd[k]);
                    }
                }
                assert forall|k: int| 0 <= k < nd.len() implies named_segments(
                    style,
                    p.subrange(from, (#[trigger] nd[k]).1),
                ) == nsd.take(k + 1) by {
                    if k < d.len() {
                        assert(nd[k] == d[k]);
                        assert(nsd.take(k + 1) =~= sd.take(k + 1));
                    } else {
                        assert(nsd.take(k + 1) =~= nsd);
                    }
                }
            }
        } else {
            assert(p.subrange(cur, to) =~= p.subrange(cur, to - 1).push(p[to - 1]));
        }
    } else {
        assert(p.subrange(from, to) =~= Seq::<char>::empty());
        assert(p.subrange(to, to) =~= Seq::<char>::empty());
    }
}

/// The spans of `p` match its components: one for each, all within `p` and
/// in order of their starts, and each segment that names something is the
/// text of its span.
pub proof fn lemma_component_spans(style: PathStyle, p: Seq<char>)
    ensures
        component_spans(style, p).len() == spec_path_components(style, p).len(),
        head_spans(style, p).len() == head_components(style, p).len(),
        spans_within(component_spans(style, p), 0, p.len() as int),
        forall|k: int|
            0 <= k < named_spans(style, p).len() ==> p.subrange(
                (#[trigger] named_spans(style, p)[k]).0,
                named_spans(style, p)[k].1,
            ) == named_segments(style, path_body(style, p))[k],
        spans_ordered(component_spans(style, p)),
{
    let pl = prefix_len(style, p);
    let n = p.len() as int;
    lemma_split_spans(style, p, pl, n);
    let body = path_body(style, p);
    let (d, cur) = split_spans(style, p, pl, n);
    let (sd, scur) = split_state(style, body);
    let ns = named_spans(style, p);
    let segs = named_segments(style, body);
    if keeps_segment(p.subrange(cur, n)) {
        assert forall|k: int| 0 <= k < ns.len() implies p.subrange(
            (#[trigger] ns[k]).0,
            ns[k].1,
        ) == segs[k] by {
            if k < d.len() {
                assert(ns[k] == d[k]);
                assert(segs[k] == sd[k]);
            }
        }
    }
    assert(spans_within(ns, pl, n));
    assert(spans_ordered(ns)) by {
        if keeps_segment(p.subrange(cur, n)) {
            assert forall|j: int, k: int| 0 <= j <= k < ns.len() implies (#[trigger] ns[j]).0 <= (
            #[trigger] ns[k]).1 by {
                if k < d.len() {
                    assert(ns[k] == d[k]);
                }
                if j < d.len() {
                    assert(ns[j] == d[j]);
                }
            }
        }
    }
    let hs = head_spans(style, p);
    assert(spans_within(hs, 0, n));
    assert(forall|i: int| 0 <= i < hs.len() ==> (#[trigger] hs[i]).0 <= pl);
    assert(hs.len() <= 2);
    assert(hs.len() == 2 ==> hs[0] == (0int, 2int) && hs[1] == (2int, 3int));
    assert(hs.len() == 1 ==> hs[0].0 <= hs[0].1);
    let sp = component_spans(style, p);
    assert forall|k: int| 0 <= k < sp.len() implies 0 <= (#[trigger] sp[k]).0 <= sp[k].1 <= n by {
        if k >= hs.len() {
            assert(sp[k] == ns[k - hs.len()]);
        }
    }
    assert forall|j: int, k: int| 0 <= j <= k < sp.len() implies (#[trigger] sp[j]).0 <= (
    #[trigger] sp[k]).1 by {
        if k >= hs.len() {
            assert(sp[k] == ns[k - hs.len()]);
            if j >= hs.len() {
                assert(sp[j] == ns[j - hs.len()]);
            } else {
                assert(sp[j] == hs[j]);
            }
        } else {
            assert(sp[k] == hs[k]);
            assert(sp[j] == hs[j]);
        }
    }
}

/// The texts of a list of components.
pub open spec fn component_views(v: Seq<Vec<char>>) -> Seq<Seq<char>> {
    v.map_values(|c: Vec<char>| c@)
}

/// A one-character component.
fn single(c: char) -> (v: Vec<char>)
    ensures
        v@ == seq![c],
{
    let mut v: Vec<char> = Vec::new();
    v.push(c);
    assert(v@ =~= seq![c]);
    v
}

/// Whether a segment names something.
fn keeps(seg: &Vec<char>) -> (r: bool)
    ensures
        r == keeps_segment(seg@),
{
    if seg.len() == 0 {
        false
    } else if seg.len() == 1 && seg[0] == '.' {
        assert(seg@ =~= seq!['.']);
        false
    } else {
        assert(seg@ != seq!['.']) by {
            if seg@.len() == 1 {
                assert(seg@[0] != seq!['.'][0]);
            }
        }
        true
    }
}

/// Whether `c` separates components in `style`.
fn separates(style: PathStyle, c: char) -> (r: bool)
    ensures
        r == is_separator(style, c),
{
    c == '/' || (style == PathStyle::Windows && c == '\\')
}

/// The upper-case form of an ASCII letter; other characters stay.
fn upper(c: char) -> (r: char)
    ensures
        r == ascii_upper(c),
{
    if 'a' <= c && c <= 'z' {
        let code: u32 = c as u32;
        let up: u8 = (code - 32) as u8;
        up as char
    } else {
        c
    }
}

/// The components of the path `p` read in `style`, in two parts: those
/// before the named segments, and the named segments.
fn split_path(p: &str, style: PathStyle) -> (r: (Vec<Vec<char>>, Vec<Vec<char>>))
    ensures
        component_views(r.0@) == head_components(style, p@),
        component_views(r.1@) == named_segments(style, path_body(style, p@)),
{
    let cs = chars_of(p);
    let n = cs.len();
    let mut out: Vec<Vec<char>> = Vec::new();
    let start: usize = if style == PathStyle::Windows && n >= 2 && cs[1] == ':' && (('a' <= cs[0]
        && cs[0] <= 'z') || ('A' <= cs[0] && cs[0] <= 'Z')) {
        2
    } else {
        0
    };
    assert(start == prefix_len(style, p@));
    let ghost body = path_body(style, p@);
    assert(body =~= p@.subrange(start as int, n as int));
    if start == 2 {
        let mut d: Vec<char> = Vec::new();
        d.push(upper(cs[0]));
        d.push(':');
        assert(d@ =~= seq![ascii_upper(p@[0]), ':']);
        out.push(d);
    }
    let root = start < n && separates(style, cs[start]);
    assert(root == has_root(style, p@));
    if root {
        out.push(single('/'));
    }
    let lead = !root && start < n && cs[start] == '.' && (start + 1 == n || separates(
        style,
        cs[start + 1],
    ));
    assert(lead == leading_cur_dir(style, p@));
    if lead {
        out.push(single('.'));
    }
    let ghost head = component_views(out@);
    assert(head =~= head_components(style, p@));
    let mut done: Vec<Vec<char>> = Vec::new();
    let mut cur: Vec<char> = Vec::new();
    let mut i: usize = start;
    while i < n
        invariant
            n == cs@.len(),
            cs@ == p@,
            start <= i <= n,
            (component_views(done@), cur@) == split_state(style, p@.subrange(start as int, i as int)),
        decreases n - i,
    {
        let ghost sub = p@.subrange(start as int, i + 1);
        assert(sub.drop_last() =~= p@.subrange(start as int, i as int));
        assert(sub.last() == p@[i as int]);
        let c = cs[i];
        if separates(style, c) {
            let ghost before = component_views(done@);
            if keeps(&cur) {
                let ghost seg = cur@;
                done.push(cur);
                assert(component_views(done@) =~= before.push(seg));
            }
            cur = Vec::new();
        } else {
            cur.push(c);
        }
        assert(cur@ == split_state(style, sub).1);
        i = i + 1;
    }
    let ghost before = component_views(done@);
    if keeps(&cur) {
        let ghost seg = cur@;
        done.push(cur);
        assert(component_views(done@) =~= before.push(seg));
    }
    assert(component_views(done@) == named_segments(style, body));
    (out, done)
}

/// The components of the path `p` read in `style`.
pub fn path_components(p: &str, style: PathStyle) -> (r: Vec<Vec<char>>)
    ensures
        component_views(r@) == spec_path_components(style, p@),
{
    let (mut out, mut named) = split_path(p, style);
    let ghost head = component_views(out@);
    let ghost rest = component_views(named@);
    out.append(&mut named);
    assert(component_views(out@) =~= head + rest);
    out
}

/// The spans of a list of index pairs, as integers.
pub open spec fn span_views(v: Seq<(usize, usize)>) -> Seq<(int, int)> {
    v.map_values(|x: (usize, usize)| (x.0 as int, x.1 as int))
}

/// Where each component of the path `p`, read in `style`, starts and ends.
fn spans_of(p: &str, style: PathStyle) -> (r: Vec<(usize, usize)>)
    ensures
        span_views(r@) == component_spans(style, p@),
{
    let cs = chars_of(p);
    let n = cs.len();
    let mut out: Vec<(usize, usize)> = Vec::new();
    let start: usize = if style == PathStyle::Windows && n >= 2 && cs[1] == ':' && (('a' <= cs[0]
        && cs[0] <= 'z') || ('A' <= cs[0] && cs[0] <= 'Z')) {
        2
    } else {
        0
    };
    assert(start == prefix_len(style, p@));
    if start == 2 {
        out.push((0, 2));
    }
    let root = start < n && separates(style, cs[start]);
    assert(root == has_root(style, p@));
    if root {
        out.push((start, start + 1));
    }
    let lead = !root && start < n && cs[start] == '.' && (start + 1 == n || separates(
        style,
        cs[start + 1],
    ));
    assert(lead == leading_cur_dir(style, p@));
    if lead {
        out.push((start, start + 1));
    }
    let ghost head = span_views(out@);
    assert(head =~= head_spans(style, p@));
    let mut done: Vec<(usize, usize)> = Vec::new();
    let mut cur: usize = start;
    let mut i: usize = start;
    while i < n
        invariant
            n == cs@.len(),
            cs@ == p@,
            start <= cur <= i <= n,
            (span_views(done@), cur as int) == split_spans(style, p@, start as int, i as int),
        decreases n - i,
    {
        proof {
            lemma_split_spans(style, p@, start as int, i as int);
        }
        let c = cs[i];
        if separates(style, c) {
            let ghost before = span_views(done@);
            let seg = slice_chars(&cs, cur, i);
            if keeps(&seg) {
                done.push((cur, i));
                assert(span_views(done@) =~= before.push((cur as int, i as int)));
            }
            cur = i + 1;
        }
        i = i + 1;
    }
    proof {
        lemma_split_spans(style, p@, start as int, n as int);
    }
    let ghost before = span_views(done@);
    let seg = slice_chars(&cs, cur, n);
    if keeps(&seg) {
        done.push((cur, n));
        assert(span_views(done@) =~= before.push((cur as int, n as int)));
    }
    assert(span_views(done@) == named_spans(style, p@));
    out.append(&mut done);
    assert(span_views(out@) =~= head + named_spans(style, p@));
    out
}

/// The characters of `cs` from `from` up to `to`.
fn slice_chars(cs: &Vec<char>, from: usize, to: usize) -> (r: Vec<char>)
    requires
        from <= to <= cs@.len(),
    ensures
        r@ == cs@.subrange(from as int, to as int),
{
    let mut r: Vec<char> = Vec::new();
    let mut i: usize = from;
    while i < to
        invariant
            from <= i <= to <= cs@.len(),
            r@ == cs@.subrange(from as int, i as int),
        decreases to - i,
    {
        r.push(cs[i]);
        assert(r@ =~= cs@.subrange(from as int, i + 1));
        i = i + 1;
    }
    r
}

/// The last component of `p` when it is a name (not "..", a root, a drive
/// prefix or a leading "."), as `Path::file_name` gives it.
pub open spec fn spec_file_name(style: PathStyle, p: Seq<char>) -> Option<Seq<char>> {
    let segs = named_segments(style, path_body(style, p));
    if segs.len() > 0 && segs.last() != seq!['.', '.'] {
        Some(segs.last())
    } else {
        None
    }
}

/// `p` has a parent: its last component is a segment that names something
/// or a leading ".", not a root or a drive prefix, and it has one at all.
pub open spec fn has_parent(style: PathStyle, p: Seq<char>) -> bool {
    named_segments(style, path_body(style, p)).len() > 0 || leading_cur_dir(style, p)
}

/// The components of the directory that the entries found under `source`
/// are named from: those of the parent of `source`, or those of `source`
/// itself when it has no parent.
pub open spec fn base_components(style: PathStyle, source: Seq<char>) -> Seq<Seq<char>> {
    let c = spec_path_components(style, source);
    if has_parent(style, source) {
        c.drop_last()
    } else {
        c
    }
}

/// The text of `p` from the start of its component `n` to the end of its
/// last component; empty when `p` has no component `n`.
pub open spec fn text_from_component(style: PathStyle, p: Seq<char>, n: int) -> Seq<char> {
    let sp = component_spans(style, p);
    if 0 <= n < sp.len() {
        p.subrange(sp[n].0, sp.last().1)
    } else {
        seq![]
    }
}

/// What is left of `p` once its leading components `prefix` are taken off,
/// as `Path::strip_prefix` leaves it; `None` when `p` does not start with
/// those components.
pub open spec fn spec_strip_components(style: PathStyle, p: Seq<char>, prefix: Seq<Seq<char>>) -> Option<Seq<char>> {
    let c = spec_path_components(style, p);
    if prefix.len() <= c.len() && c.subrange(0, prefix.len() as int) == prefix {
        Some(text_from_component(style, p, prefix.len() as int))
    } else {
        None
    }
}

/// The name that `entry`, found under the chosen directory `source`, gets
/// in an archive (before its separators are turned into '/'): `entry`
/// relative to the parent of `source`, or to `source` itself when it has
/// no parent.
pub open spec fn spec_name_under(style: PathStyle, source: Seq<char>, entry: Seq<char>) -> Option<Seq<char>> {
    spec_strip_components(style, entry, base_components(style, source))
}

/// The chosen directory itself is named in an archive by its last
/// component, as written in its path, whenever that component names
/// something.
pub proof fn lemma_chosen_directory_name(style: PathStyle, s: Seq<char>)
    requires
        named_segments(style, path_body(style, s)).len() > 0,
    ensures
        spec_name_under(style, s, s) == Some(named_segments(style, path_body(style, s)).last()),
{
    lemma_component_spans(style, s);
    let c = spec_path_components(style, s);
    let base = base_components(style, s);
    assert(c.subrange(0, base.len() as int) =~= base);
    let sp = component_spans(style, s);
    let hs = head_spans(style, s);
    let ns = named_spans(style, s);
    let segs = named_segments(style, path_body(style, s));
    assert(ns.len() == segs.len());
    assert(sp[sp.len() - 1] == ns[ns.len() - 1]);
    assert(s.subrange(ns[ns.len() - 1].0, ns[ns.len() - 1].1) == segs[segs.len() - 1]);
}

/// The text of `cs` from `from` up to `to`.
fn text_of(cs: &Vec<char>, from: usize, to: usize) -> (r: String)
    requires
        from <= to <= cs@.len(),
    ensures
        r@ == cs@.subrange(from as int, to as int),
{
    let mut r = String::new();
    let mut i: usize = from;
    while i < to
        invariant
            from <= i <= to <= cs@.len(),
            r@ == cs@.subrange(from as int, i as int),
        decreases to - i,
    {
        push_char(&mut r, cs[i]);
        assert(r@ =~= cs@.subrange(from as int, i + 1));
        i = i + 1;
    }
    r
}

/// The last component of the path `p`, read in `style`, when it is a name.
pub fn file_name(p: &str, style: PathStyle) -> (r: Option<String>)
    ensures
        r matches Some(n) ==> spec_file_name(style, p@) == Some(n@),
        r is None ==> spec_file_name(style, p@) is None,
{
    match file_name_chars(p, style) {
        Some(f) => Some(text_of(&f, 0, f.len())),
        None => None,
    }
}

/// Whether the path `p`, read in `style`, has a parent.
fn parent_exists(p: &str, style: PathStyle) -> (r: bool)
    ensures
        r == has_parent(style, p@),
{
    let (head, named) = split_path(p, style);
    let lead = head.len() > 0 && head[head.len() - 1].len() == 1 && head[head.len() - 1][0] == '.';
    assert(lead == leading_cur_dir(style, p@)) by {
        let h = head_components(style, p@);
        if leading_cur_dir(style, p@) {
            assert(h.last() =~= seq!['.']);
        } else if h.len() > 0 {
            assert(h.last() != seq!['.']) by {
                if has_root(style, p@) {
                    assert(h.last() =~= seq!['/']);
                    assert(h.last()[0] != seq!['.'][0]);
                } else {
                    assert(h.last().len() == 2);
                }
            }
        }
    }
    named.len() > 0 || lead
}

/// The parent of `p`, as `Path::parent` gives it: the text of `p` up to the
/// end of its next-to-last component (empty when it has one component
/// only), or `None` when `p` has no parent.
pub open spec fn spec_parent(style: PathStyle, p: Seq<char>) -> Option<Seq<char>> {
    if has_parent(style, p) {
        let sp = component_spans(style, p);
        Some(
            if sp.len() >= 2 {
                p.subrange(0, sp[sp.len() - 2].1)
            } else {
                seq![]
            },
        )
    } else {
        None
    }
}

/// No character of `seg` separates components in `style`.
pub open spec fn has_no_separator(style: PathStyle, seg: Seq<char>) -> bool {
    forall|i: int| 0 <= i < seg.len() ==> !is_separator(style, #[trigger] seg[i])
}

/// Every segment found in `b` names something and holds no separator, and
/// neither does the segment in progress.
pub proof fn lemma_segments_plain(style: PathStyle, b: Seq<char>)
    ensures
        forall|k: int|
            0 <= k < split_state(style, b).0.len() ==> keeps_segment(
                #[trigger] split_state(style, b).0[k],
            ) && has_no_separator(style, split_state(style, b).0[k]),
        has_no_separator(style, split_state(style, b).1),
        forall|k: int|
            0 <= k < named_segments(style, b).len() ==> keeps_segment(
                #[trigger] named_segments(style, b)[k],
            ) && has_no_separator(style, named_segments(style, b)[k]),
    decreases b.len(),
{
    if b.len() > 0 {
        lemma_segments_plain(style, b.drop_last());
        let (d, c) = split_state(style, b.drop_last());
        if !is_separator(style, b.last()) {
            let nc = c.push(b.last());
            assert forall|i: int| 0 <= i < nc.len() implies !is_separator(style, #[trigger] nc[i]) by {
                if i < c.len() {
                    assert(nc[i] == c[i]);
                }
            }
        } else {
            let nd = add_segment(d, c);
            assert forall|k: int| 0 <= k < nd.len() implies keeps_segment(#[trigger] nd[k])
                && has_no_separator(style, nd[k]) by {
                if k < d.len() {
                    assert(nd[k] == d[k]);
                }
            }
        }
    }
    let (d, c) = split_state(style, b);
    let ns = add_segment(d, c);
    assert forall|k: int| 0 <= k < ns.len() implies keeps_segment(#[trigger] ns[k])
        && has_no_separator(style, ns[k]) by {
        if k < d.len() {
            assert(ns[k] == d[k]);
        }
    }
}

/// A body of one separator, or of a lone ".", names nothing.
proof fn lemma_one_char_body(style: PathStyle, x: char)
    requires
        is_separator(style, x) || x == '.',
    ensures
        named_segments(style, seq![x]) == Seq::<Seq<char>>::empty(),
{
    let t = seq![x];
    let e = Seq::<char>::empty();
    let none = Seq::<Seq<char>>::empty();
    assert(t.drop_last() =~= e);
    assert(t.last() == x);
    assert(split_state(style, e) == (none, e));
    if is_separator(style, x) {
        assert(add_segment(none, e) == none);
        assert(split_state(style, t) == (none, e));
    } else {
        assert(e.push(x) =~= seq!['.']);
        assert(split_state(style, t) == (none, e.push(x)));
        assert(!keeps_segment(e.push(x)));
    }
}

/// Cutting `p` after the first character of its body or later, where that
/// body does not start with a lone ".", keeps the drive prefix, the root
/// and the leading "." of `p`, and leaves the cut body.
proof fn lemma_cut_keeps_head(style: PathStyle, p: Seq<char>, e: int)
    requires
        prefix_len(style, p) < e <= p.len(),
        e == prefix_len(style, p) + 1 ==> p[prefix_len(style, p)] != '.' || has_root(style, p)
            || leading_cur_dir(style, p),
    ensures
        prefix_len(style, p.subrange(0, e)) == prefix_len(style, p),
        path_body(style, p.subrange(0, e)) == p.subrange(prefix_len(style, p), e),
        head_components(style, p.subrange(0, e)) == head_components(style, p),
{
    let pl = prefix_len(style, p);
    let q = p.subrange(0, e);
    let b = path_body(style, p);
    assert(prefix_len(style, q) == pl) by {
        if q.len() >= 2 {
            assert(q[0] == p[0] && q[1] == p[1]);
        }
    }
    let bq = path_body(style, q);
    assert(bq =~= p.subrange(pl, e));
    assert(bq[0] == b[0]);
    assert(has_root(style, q) == has_root(style, p));
    assert(leading_cur_dir(style, q) == leading_cur_dir(style, p)) by {
        if bq.len() >= 2 {
            assert(bq[1] == b[1]);
        }
    }
    assert(head_components(style, q) == head_components(style, p)) by {
        if pl == 2 {
            assert(q[0] == p[0]);
        }
    }
}

/// The parent's case where the next-to-last component names something.
proof fn lemma_parent_of_named(style: PathStyle, p: Seq<char>)
    requires
        has_parent(style, p),
        named_segments(style, path_body(style, p)).len() >= 2,
    ensures
        spec_path_components(style, spec_parent(style, p)->0) == spec_path_components(
            style,
            p,
        ).drop_last(),
{
    lemma_component_spans(style, p);
    let pl = prefix_len(style, p);
    let n = p.len() as int;
    let b = path_body(style, p);
    let c = spec_path_components(style, p);
    let sp = component_spans(style, p);
    let ns = named_spans(style, p);
    let segs = named_segments(style, b);
    let h = head_components(style, p);
    let m = segs.len();
    assert(ns.len() == m);
    lemma_split_spans(style, p, pl, n);
    lemma_segments_plain(style, b);
    let (d, cur) = split_spans(style, p, pl, n);
    let (sd, scur) = split_state(style, b);
    let k = m - 2;
    assert(sp[sp.len() - 2] == ns[k]);
    assert(ns[k] == d[k]);
    let e = ns[k].1;
    let q = spec_parent(style, p)->0;
    assert(q == p.subrange(0, e));
    assert(named_segments(style, p.subrange(pl, e)) == sd.take(k + 1));
    assert(sd.take(k + 1) =~= segs.drop_last());
    assert(keeps_segment(segs[k]));
    assert(p.subrange(ns[k].0, e) == segs[k]);
    assert(e > ns[k].0 >= pl);
    assert(e == pl + 1 ==> p[pl] != '.') by {
        if e == pl + 1 {
            assert(segs[k] =~= seq![p[pl]]);
        }
    }
    lemma_cut_keeps_head(style, p, e);
    assert(spec_path_components(style, q) =~= c.drop_last());
}

/// The parent's case where the next-to-last component is the drive prefix.
proof fn lemma_parent_of_prefix(style: PathStyle, p: Seq<char>)
    requires
        has_parent(style, p),
        named_segments(style, path_body(style, p)).len() < 2,
        component_spans(style, p).len() >= 2,
        prefix_len(style, p) == 2,
        component_spans(style, p).len() == 2,
    ensures
        spec_path_components(style, spec_parent(style, p)->0) == spec_path_components(
            style,
            p,
        ).drop_last(),
{
    lemma_component_spans(style, p);
    let c = spec_path_components(style, p);
    let hs = head_spans(style, p);
    let sp = component_spans(style, p);
    let q = spec_parent(style, p)->0;
    assert(sp[0] == hs[0]);
    assert(hs[0] == (0int, 2int));
    assert(q =~= p.subrange(0, 2));
    assert(prefix_len(style, q) == 2);
    assert(path_body(style, q) =~= Seq::<char>::empty());
    assert(named_segments(style, path_body(style, q)) =~= Seq::<Seq<char>>::empty());
    assert(spec_path_components(style, q) =~= seq![seq![ascii_upper(p[0]), ':']]);
    assert(c.drop_last() =~= seq![seq![ascii_upper(p[0]), ':']]);
}

/// The parent's case where the next-to-last component is a root or a
/// leading ".".
proof fn lemma_parent_of_root_or_dot(style: PathStyle, p: Seq<char>)
    requires
        has_parent(style, p),
        named_segments(style, path_body(style, p)).len() == 1,
        has_root(style, p) || leading_cur_dir(style, p),
    ensures
        spec_path_components(style, spec_parent(style, p)->0) == spec_path_components(
            style,
            p,
        ).drop_last(),
{
    lemma_component_spans(style, p);
    let pl = prefix_len(style, p);
    let c = spec_path_components(style, p);
    let hs = head_spans(style, p);
    let sp = component_spans(style, p);
    let h = head_components(style, p);
    assert(c == h + named_segments(style, path_body(style, p)));
    assert(sp.len() - 2 == hs.len() - 1);
    assert(sp[sp.len() - 2] == hs[hs.len() - 1]);
    assert(hs[hs.len() - 1] == (pl, pl + 1));
    let q = spec_parent(style, p)->0;
    assert(q =~= p.subrange(0, pl + 1));
    lemma_cut_keeps_head(style, p, pl + 1);
    let bq = path_body(style, q);
    assert(bq =~= seq![p[pl]]);
    lemma_one_char_body(style, p[pl]);
    assert(spec_path_components(style, q) =~= c.drop_last());
}

/// The parent of a path has the path's components without the last one:
/// its drive prefix, its root and all its other components stay.
pub proof fn lemma_parent_components(style: PathStyle, p: Seq<char>)
    requires
        has_parent(style, p),
    ensures
        spec_parent(style, p) matches Some(q) && spec_path_components(style, q)
            == spec_path_components(style, p).drop_last(),
{
    lemma_component_spans(style, p);
    let c = spec_path_components(style, p);
    let sp = component_spans(style, p);
    let segs = named_segments(style, path_body(style, p));
    if sp.len() < 2 {
        let q = spec_parent(style, p)->0;
        assert(q =~= Seq::<char>::empty());
        assert(path_body(style, q) =~= Seq::<char>::empty());
        assert(spec_path_components(style, q) =~= Seq::<Seq<char>>::empty());
        assert(c.drop_last() =~= Seq::<Seq<char>>::empty());
    } else if segs.len() >= 2 {
        lemma_parent_of_named(style, p);
    } else if segs.len() == 1 && (has_root(style, p) || leading_cur_dir(style, p)) {
        lemma_parent_of_root_or_dot(style, p);
    } else {
        lemma_parent_of_prefix(style, p);
    }
}

/// The parent of the path `p`, read in `style`.
pub fn parent_path(p: &str, style: PathStyle) -> (r: Option<String>)
    ensures
        r matches Some(t) ==> spec_parent(style, p@) == Some(t@),
        r is None ==> spec_parent(style, p@) is None,
{
    if !parent_exists(p, style) {
        return None;
    }
    let sp = spans_of(p, style);
    proof {
        lemma_component_spans(style, p@);
    }
    if sp.len() < 2 {
        return Some(String::new());
    }
    let to = sp[sp.len() - 2].1;
    assert(span_views(sp@)[sp@.len() - 2].1 <= p@.len());
    let cs = chars_of(p);
    Some(text_of(&cs, 0, to))
}

/// Where the last '.' of `name` stands, or -1 when it has none.
pub open spec fn last_dot(name: Seq<char>) -> int
    decreases name.len(),
{
    if name.len() == 0 {
        -1
    } else if name.last() == '.' {
        name.len() - 1
    } else {
        last_dot(name.drop_last())
    }
}

/// The extension of the file name of `p`, as `Path::extension` gives it:
/// what follows its last '.', when that '.' is not its first character.
pub open spec fn spec_extension(style: PathStyle, p: Seq<char>) -> Option<Seq<char>> {
    match spec_file_name(style, p) {
        Some(f) => if last_dot(f) > 0 {
            Some(f.subrange(last_dot(f) + 1, f.len() as int))
        } else {
            None
        },
        None => None,
    }
}

/// The stem of the file name of `p`, as `Path::file_stem` gives it: what
/// comes before its last '.', or the whole name when it has no '.' after
/// its first character.
pub open spec fn spec_file_stem(style: PathStyle, p: Seq<char>) -> Option<Seq<char>> {
    match spec_file_name(style, p) {
        Some(f) => Some(
            if last_dot(f) > 0 {
                f.subrange(0, last_dot(f))
            } else {
                f
            },
        ),
        None => None,
    }
}

/// The last '.' of a text stands inside it, or there is none.
pub proof fn lemma_last_dot_bounds(name: Seq<char>)
    ensures
        -1 <= last_dot(name) < name.len(),
        last_dot(name) >= 0 ==> name[last_dot(name)] == '.',
        forall|i: int| last_dot(name) < i < name.len() ==> name[i] != '.',
    decreases name.len(),
{
    if name.len() > 0 && name.last() != '.' {
        lemma_last_dot_bounds(name.drop_last());
        assert forall|i: int| last_dot(name) < i < name.len() implies name[i] != '.' by {
            if i < name.len() - 1 {
                assert(name[i] == name.drop_last()[i]);
            }
        }
    }
}

/// The file name of a path, and so its stem, is not empty and holds no
/// separator of the style the path is read in; the stem is the start of
/// the file name, and the whole name when no '.' after its first character
/// starts an extension.
pub proof fn lemma_file_stem_plain(style: PathStyle, p: Seq<char>)
    ensures
        spec_file_name(style, p) matches Some(f) ==> f.len() > 0 && has_no_separator(style, f),
        spec_file_stem(style, p) is Some ==> ({
            let t = spec_file_stem(style, p)->0;
            let f = spec_file_name(style, p)->0;
            &&& t.len() > 0
            &&& has_no_separator(style, t)
            &&& t.len() <= f.len()
            &&& f.subrange(0, t.len() as int) == t
            &&& spec_extension(style, p) is None ==> t == f
            &&& spec_extension(style, p) is Some ==> f == t + seq!['.'] + spec_extension(
                style,
                p,
            )->0
        }),
        spec_file_stem(style, p) is Some <==> spec_file_name(style, p) is Some,
{
    let segs = named_segments(style, path_body(style, p));
    lemma_segments_plain(style, path_body(style, p));
    if spec_file_name(style, p) is Some {
        let f = segs.last();
        assert(keeps_segment(segs[segs.len() - 1]));
        lemma_last_dot_bounds(f);
        let ld = last_dot(f);
        if ld > 0 {
            let t = f.subrange(0, ld);
            assert forall|i: int| 0 <= i < t.len() implies !is_separator(style, #[trigger] t[i]) by {
                assert(t[i] == f[i]);
            }
            assert(t.subrange(0, t.len() as int) =~= t);
            assert(f =~= t + seq!['.'] + f.subrange(ld + 1, f.len() as int));
        } else {
            assert(f.subrange(0, f.len() as int) =~= f);
        }
    }
}

/// Where the last '.' of `name` stands.
fn find_last_dot(name: &Vec<char>) -> (r: Option<usize>)
    ensures
        r matches Some(i) ==> i == last_dot(name@) && i < name@.len(),
        r is None ==> last_dot(name@) == -1,
{
    let mut i: usize = name.len();
    assert(name@.subrange(0, i as int) =~= name@);
    while i > 0
        invariant
            i <= name@.len(),
            last_dot(name@) == last_dot(name@.subrange(0, i as int)),
        decreases i,
    {
        let ghost sub = name@.subrange(0, i as int);
        assert(sub.drop_last() =~= name@.subrange(0, i - 1));
        if name[i - 1] == '.' {
            return Some(i - 1);
        }
        i = i - 1;
    }
    assert(name@.subrange(0, 0) =~= Seq::<char>::empty());
    None
}

/// The file name of `p` in characters, when it has one.
fn file_name_chars(p: &str, style: PathStyle) -> (r: Option<Vec<char>>)
    ensures
        r matches Some(n) ==> spec_file_name(style, p@) == Some(n@),
        r is None ==> spec_file_name(style, p@) is None,
{
    let (_head, named) = split_path(p, style);
    let ghost segs = component_views(named@);
    if named.len() == 0 {
        return None;
    }
    let last = named[named.len() - 1].clone();
    assert(segs.last() == last@);
    if last.len() == 2 && last[0] == '.' && last[1] == '.' {
        assert(last@ =~= seq!['.', '.']);
        return None;
    }
    assert(last@ != seq!['.', '.']) by {
        if last@.len() == 2 {
            assert(last@[0] != '.' || last@[1] != '.');
        }
    }
    Some(last)
}

/// The extension of the file name of the path `p`, read in `style`.
pub fn extension(p: &str, style: PathStyle) -> (r: Option<String>)
    ensures
        r matches Some(t) ==> spec_extension(style, p@) == Some(t@),
        r is None ==> spec_extension(style, p@) is None,
{
    match file_name_chars(p, style) {
        Some(f) => match find_last_dot(&f) {
            Some(i) => if i > 0 {
                let n = f.len();
                assert(i < n);
                Some(text_of(&f, i + 1, n))
            } else {
                None
            },
            None => None,
        },
        None => None,
    }
}

/// The stem of the file name of the path `p`, read in `style`.
pub fn file_stem(p: &str, style: PathStyle) -> (r: Option<String>)
    ensures
        r matches Some(t) ==> spec_file_stem(style, p@) == Some(t@),
        r is None ==> spec_file_stem(style, p@) is None,
{
    match file_name_chars(p, style) {
        Some(f) => match find_last_dot(&f) {
            Some(i) => if i > 0 {
                Some(text_of(&f, 0, i))
            } else {
                Some(text_of(&f, 0, f.len()))
            },
            None => Some(text_of(&f, 0, f.len())),
        },
        None => None,
    }
}

/// The name that `entry`, found under the chosen directory `source`, gets
/// in an archive before its separators are turned into '/': `entry`
/// relative to the parent of `source` (to `source` itself when it has no
/// parent), or `None` when `entry` does not lie there.
pub fn name_under(source: &str, entry: &str, style: PathStyle) -> (r: Option<String>)
    ensures
        r matches Some(t) ==> spec_name_under(style, source@, entry@) == Some(t@),
        r is None ==> spec_name_under(style, source@, entry@) is None,
{
    let parent = parent_exists(source, style);
    let sc = path_components(source, style);
    let ghost base = base_components(style, source@);
    let n_base: usize = if parent {
        sc.len() - 1
    } else {
        sc.len()
    };
    assert(n_base == base.len());
    let ec = path_components(entry, style);
    let ghost ecv = component_views(ec@);
    assert(ecv.len() == ec@.len());
    if n_base > ec.len() {
        return None;
    }
    let mut k: usize = 0;
    while k < n_base
        invariant
            component_views(sc@) == spec_path_components(style, source@),
            ecv == component_views(ec@),
            ecv == spec_path_components(style, entry@),
            base == base_components(style, source@),
            n_base <= sc@.len(),
            n_base <= ec@.len(),
            n_base == base.len(),
            base == (if parent { component_views(sc@).drop_last() } else { component_views(sc@) }),
            k <= n_base,
            forall|j: int| 0 <= j < k ==> ecv[j] == base[j],
        decreases n_base - k,
    {
        if compare_texts(&sc[k], &ec[k]) != Precedence::Same {
            assert(ecv.subrange(0, n_base as int)[k as int] != base[k as int]);
            return None;
        }
        k = k + 1;
    }
    assert(ecv.subrange(0, n_base as int) =~= base);
    let sp = spans_of(entry, style);
    proof {
        lemma_component_spans(style, entry@);
    }
    if n_base == ec.len() {
        return Some(String::new());
    }
    let last = sp.len() - 1;
    let from = sp[n_base].0;
    let to = sp[last].1;
    assert(span_views(sp@)[n_base as int].0 <= span_views(sp@)[last as int].1);
    assert(span_views(sp@)[last as int].1 <= entry@.len());
    let cs = chars_of(entry);
    Some(text_of(&cs, from, to))
}

/// Whether `a` and `b`, read in `style`, are the same path, component by
/// component.
pub fn paths_equal(a: &str, b: &str, style: PathStyle) -> (r: bool)
    ensures
        r == same_path(style, a@, b@),
{
    let ca = path_components(a, style);
    let cb = path_components(b, style);
    if ca.len() != cb.len() {
        assert(component_views(ca@).len() != component_views(cb@).len());
        return false;
    }
    let mut i: usize = 0;
    while i < ca.len()
        invariant
            component_views(ca@) == spec_path_components(style, a@),
            component_views(cb@) == spec_path_components(style, b@),
            ca@.len() == cb@.len(),
            i <= ca@.len(),
            forall|k: int| 0 <= k < i ==> ca@[k]@ == cb@[k]@,
        decreases ca@.len() - i,
    {
        if compare_texts(&ca[i], &cb[i]) != Precedence::Same {
            assert(component_views(ca@)[i as int] != component_views(cb@)[i as int]);
            return false;
        }
        i = i + 1;
    }
    assert(component_views(ca@) =~= component_views(cb@));
    true
}

} // verus!
