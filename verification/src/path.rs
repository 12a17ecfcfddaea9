//! Unix paths as byte strings, with the meaning that std's `Path` gives them:
//! components, prefix tests, joining, parents, file names and prefix stripping.
use vstd::prelude::*;
use crate::bytes::{append_bytes, bytes_equal, copy_bytes};

verus! {

/// The path separator, `/`.
pub const SLASH: u8 = 47;

/// The byte `.`.
pub const DOT: u8 = 46;

/// One component of a path.
pub enum Component {
    RootDir,
    CurDir,
    ParentDir,
    Normal(Seq<u8>),
}

/// A segment between separators that yields no component: empty or `.`.
pub open spec fn is_junk_segment(s: Seq<u8>) -> bool {
    s.len() == 0 || (s.len() == 1 && s[0] == DOT)
}

/// The path begins with the root `/`.
pub open spec fn is_rooted(p: Seq<u8>) -> bool {
    p.len() > 0 && p[0] == SLASH
}

/// A relative path that begins with the component `.`.
pub open spec fn has_cur_dir_head(p: Seq<u8>) -> bool {
    !is_rooted(p) && p.len() > 0 && p[0] == DOT && (p.len() == 1 || p[1] == SLASH)
}

/// How many bytes the leading component (root or `.`) takes.
pub open spec fn head_len(p: Seq<u8>) -> int {
    if is_rooted(p) || has_cur_dir_head(p) {
        1
    } else {
        0
    }
}

/// Scans `p[..i]`: the spans `(start, end)` of the non-junk segments closed by a
/// separator so far, and the start of the segment still open.
pub open spec fn scan_segments(p: Seq<u8>, i: nat) -> (Seq<(int, int)>, int)
    decreases i,
{
    if i == 0 || i > p.len() {
        (Seq::empty(), 0)
    } else {
        let prev = scan_segments(p, (i - 1) as nat);
        if p[i - 1] == SLASH {
            let seg = p.subrange(prev.1, i - 1);
            (
                if is_junk_segment(seg) {
                    prev.0
                } else {
                    prev.0.push((prev.1, i - 1))
                },
                i as int,
            )
        } else {
            prev
        }
    }
}

/// The spans of all non-junk segments of `p`, in order.
pub open spec fn body_spans(p: Seq<u8>) -> Seq<(int, int)> {
    let sc = scan_segments(p, p.len());
    if is_junk_segment(p.subrange(sc.1, p.len() as int)) {
        sc.0
    } else {
        sc.0.push((sc.1, p.len() as int))
    }
}

/// The component that a non-junk segment yields.
pub open spec fn segment_component(s: Seq<u8>) -> Component {
    if s.len() == 2 && s[0] == DOT && s[1] == DOT {
        Component::ParentDir
    } else {
        Component::Normal(s)
    }
}

/// The leading component, if any.
pub open spec fn head_components(p: Seq<u8>) -> Seq<Component> {
    if is_rooted(p) {
        seq![Component::RootDir]
    } else if has_cur_dir_head(p) {
        seq![Component::CurDir]
    } else {
        Seq::empty()
    }
}

/// The components of a path, as `Path::components` yields them.
pub open spec fn components(p: Seq<u8>) -> Seq<Component> {
    let spans = body_spans(p);
    head_components(p) + Seq::new(
        spans.len(),
        |i: int| segment_component(p.subrange(spans[i].0, spans[i].1)),
    )
}

/// `Path::starts_with`: the components of `base` are a prefix of those of `p`.
pub open spec fn path_starts_with_spec(p: Seq<u8>, base: Seq<u8>) -> bool {
    let cb = components(base);
    let cp = components(p);
    cb.len() <= cp.len() && cp.subrange(0, cb.len() as int) == cb
}

/// `Path::join`: an absolute `rel` replaces `base`; otherwise `rel` is appended,
/// with a separator in between where `base` is non-empty and does not end in one.
pub open spec fn path_join_spec(base: Seq<u8>, rel: Seq<u8>) -> Seq<u8> {
    if is_rooted(rel) {
        rel
    } else if base.len() > 0 && base.last() != SLASH {
        base + seq![SLASH] + rel
    } else {
        base + rel
    }
}

/// `Path::file_name`: the last component, where it is a normal one.
pub open spec fn path_file_name_spec(p: Seq<u8>) -> Option<Seq<u8>> {
    let c = components(p);
    if c.len() > 0 && c.last() is Normal {
        Some(c.last()->Normal_0)
    } else {
        None
    }
}

/// Removes trailing separators and `.` segments, never below byte `lo`.
pub open spec fn trim_trailing(p: Seq<u8>, lo: int) -> Seq<u8>
    decreases p.len(),
{
    if p.len() <= lo || p.len() == 0 {
        p
    } else if p.last() == SLASH {
        trim_trailing(p.drop_last(), lo)
    } else if p.last() == DOT && (p.len() - 1 == lo || p[p.len() - 2] == SLASH) {
        trim_trailing(p.drop_last(), lo)
    } else {
        p
    }
}

/// Removes leading separators and `.` segments.
pub open spec fn trim_leading(p: Seq<u8>) -> Seq<u8>
    decreases p.len(),
{
    if p.len() == 0 {
        p
    } else if p[0] == SLASH {
        trim_leading(p.drop_first())
    } else if p[0] == DOT && (p.len() == 1 || p[1] == SLASH) {
        trim_leading(p.drop_first())
    } else {
        p
    }
}

/// `Path::parent`: the path without its last component; none for the root and
/// for a path without components.
pub open spec fn path_parent_spec(p: Seq<u8>) -> Option<Seq<u8>> {
    let lo = head_len(p);
    let spans = body_spans(p);
    if spans.len() > 0 {
        let s = spans.last().0;
        let cut = if s > lo { s - 1 } else { s };
        Some(trim_trailing(p.subrange(0, cut), lo))
    } else if has_cur_dir_head(p) {
        Some(Seq::empty())
    } else {
        None
    }
}

/// The number of bytes the component iterator of `p` has moved past after
/// yielding `k >= 1` components from the front.
pub open spec fn consumed_after(p: Seq<u8>, k: int) -> int {
    let h = head_len(p);
    if k <= h {
        1
    } else {
        let sp = body_spans(p)[k - h - 1];
        if sp.1 < p.len() {
            sp.1 + 1
        } else {
            sp.1
        }
    }
}

/// `Path::strip_prefix`: where `base` is a component prefix of `p`, what follows it.
pub open spec fn path_strip_prefix_spec(p: Seq<u8>, base: Seq<u8>) -> Option<Seq<u8>> {
    if !path_starts_with_spec(p, base) {
        None
    } else {
        let k = components(base).len() as int;
        if k == 0 {
            Some(trim_trailing(p, head_len(p)))
        } else {
            Some(trim_trailing(trim_leading(p.subrange(consumed_after(p, k), p.len() as int)), 0))
        }
    }
}

// ------------------------------------------------------------------------
// Facts about the scan

/// Where the scan stands after `i` bytes: every span closed so far is non-empty,
/// starts the path or follows a separator, and ends at a separator before the
/// open segment.
pub proof fn lemma_scan_bounds(p: Seq<u8>, i: nat)
    requires
        i <= p.len(),
    ensures
        0 <= scan_segments(p, i).1 <= i,
        scan_segments(p, i).1 == 0 || p[scan_segments(p, i).1 - 1] == SLASH,
        forall|k: int|
            #![trigger scan_segments(p, i).0[k]]
            0 <= k < scan_segments(p, i).0.len() ==> {
                let sp = scan_segments(p, i).0[k];
                &&& 0 <= sp.0 < sp.1 < scan_segments(p, i).1
                &&& p[sp.1] == SLASH
                &&& (sp.0 == 0 || p[sp.0 - 1] == SLASH)
                &&& !is_junk_segment(p.subrange(sp.0, sp.1))
            },
    decreases i,
{
    if i > 0 {
        lemma_scan_bounds(p, (i - 1) as nat);
    }
}

/// Every span of `body_spans` is a non-empty, non-junk segment of `p` bounded
/// by separators or the ends of `p`.
pub proof fn lemma_body_spans_bounds(p: Seq<u8>)
    ensures
        forall|k: int|
            #![trigger body_spans(p)[k]]
            0 <= k < body_spans(p).len() ==> {
                let sp = body_spans(p)[k];
                &&& 0 <= sp.0 < sp.1 <= p.len()
                &&& (sp.1 == p.len() || p[sp.1] == SLASH)
                &&& (sp.0 == 0 || p[sp.0 - 1] == SLASH)
                &&& !is_junk_segment(p.subrange(sp.0, sp.1))
            },
{
    lemma_scan_bounds(p, p.len());
    let sc = scan_segments(p, p.len());
    assert forall|k: int| #![trigger body_spans(p)[k]] 0 <= k < body_spans(p).len() implies {
        let sp = body_spans(p)[k];
        &&& 0 <= sp.0 < sp.1 <= p.len()
        &&& (sp.1 == p.len() || p[sp.1] == SLASH)
        &&& (sp.0 == 0 || p[sp.0 - 1] == SLASH)
        &&& !is_junk_segment(p.subrange(sp.0, sp.1))
    } by {
        if k < sc.0.len() {
            let ghost _span = sc.0[k];
        }
    }
}

// ------------------------------------------------------------------------
// Executable path operations

/// Whether `p[start..end]` is a junk segment.
fn is_junk_range(p: &[u8], start: usize, end: usize) -> (r: bool)
    requires
        start <= end <= p@.len(),
    ensures
        r == is_junk_segment(p@.subrange(start as int, end as int)),
{
    end == start || (end - start == 1 && p[start] == DOT)
}

/// The spans of the non-junk segments of `p`.
fn body_spans_exec(p: &[u8]) -> (r: Vec<(usize, usize)>)
    ensures
        r@.len() == body_spans(p@).len(),
        forall|k: int|
            0 <= k < r@.len() ==> r@[k].0 == body_spans(p@)[k].0 && r@[k].1 == body_spans(
                p@,
            )[k].1,
{
    let mut spans: Vec<(usize, usize)> = Vec::new();
    let mut st: usize = 0;
    let mut i: usize = 0;
    while i < p.len()
        invariant
            0 <= i <= p@.len(),
            st == scan_segments(p@, i as nat).1,
            spans@.len() == scan_segments(p@, i as nat).0.len(),
            forall|k: int|
                0 <= k < spans@.len() ==> spans@[k].0 == scan_segments(p@, i as nat).0[k].0
                    && spans@[k].1 == scan_segments(p@, i as nat).0[k].1,
        decreases p@.len() - i,
    {
        proof {
            lemma_scan_bounds(p@, i as nat);
        }
        if p[i] == SLASH {
            if !is_junk_range(p, st, i) {
                spans.push((st, i));
            }
            st = i + 1;
        }
        i += 1;
    }
    proof {
        lemma_scan_bounds(p@, p@.len());
    }
    if !is_junk_range(p, st, p.len()) {
        spans.push((st, p.len()));
    }
    spans
}

/// A component of a path, with normal components given by their byte range.
#[derive(Clone, Copy)]
pub enum ComponentRef {
    Root,
    Cur,
    Parent,
    Normal(usize, usize),
}

/// The component that a reference denotes within `p`.
pub open spec fn component_of(c: ComponentRef, p: Seq<u8>) -> Component {
    match c {
        ComponentRef::Root => Component::RootDir,
        ComponentRef::Cur => Component::CurDir,
        ComponentRef::Parent => Component::ParentDir,
        ComponentRef::Normal(s, e) => Component::Normal(p.subrange(s as int, e as int)),
    }
}

/// A reference is well-formed within `p` when its byte range lies in `p`.
pub open spec fn component_ref_wf(c: ComponentRef, p: Seq<u8>) -> bool {
    match c {
        ComponentRef::Normal(s, e) => s <= e <= p.len(),
        _ => true,
    }
}

/// The components of `p`, by reference.
fn component_refs(p: &[u8]) -> (r: Vec<ComponentRef>)
    ensures
        r@.len() == components(p@).len(),
        forall|k: int|
            0 <= k < r@.len() ==> component_ref_wf(#[trigger] r@[k], p@) && component_of(
                r@[k],
                p@,
            ) == components(p@)[k],
{
    let spans = body_spans_exec(p);
    proof {
        lemma_body_spans_bounds(p@);
    }
    let mut r: Vec<ComponentRef> = Vec::new();
    let rooted = p.len() > 0 && p[0] == SLASH;
    let cur = !rooted && p.len() > 0 && p[0] == DOT && (p.len() == 1 || p[1] == SLASH);
    if rooted {
        r.push(ComponentRef::Root);
    } else if cur {
        r.push(ComponentRef::Cur);
    }
    let ghost h = r@.len();
    assert(h == head_components(p@).len());
    let mut i: usize = 0;
    while i < spans.len()
        invariant
            0 <= i <= spans@.len(),
            spans@.len() == body_spans(p@).len(),
            forall|k: int|
                0 <= k < spans@.len() ==> spans@[k].0 == body_spans(p@)[k].0 && spans@[k].1
                    == body_spans(p@)[k].1,
            forall|k: int|
                #![trigger body_spans(p@)[k]]
                0 <= k < body_spans(p@).len() ==> {
                    let sp = body_spans(p@)[k];
                    &&& 0 <= sp.0 < sp.1 <= p@.len()
                },
            h == head_components(p@).len(),
            r@.len() == h + i,
            forall|k: int|
                0 <= k < r@.len() ==> component_ref_wf(#[trigger] r@[k], p@) && component_of(
                    r@[k],
                    p@,
                ) == components(p@)[k],
        decreases spans@.len() - i,
    {
        let (s, e) = spans[i];
        let ghost _span = body_spans(p@)[i as int];
        if e - s == 2 && p[s] == DOT && p[s + 1] == DOT {
            r.push(ComponentRef::Parent);
        } else {
            r.push(ComponentRef::Normal(s, e));
        }
        i += 1;
    }
    r
}

/// Whether two component references denote the same component.
fn component_eq(pa: &[u8], a: ComponentRef, pb: &[u8], b: ComponentRef) -> (r: bool)
    requires
        component_ref_wf(a, pa@),
        component_ref_wf(b, pb@),
    ensures
        r == (component_of(a, pa@) == component_of(b, pb@)),
{
    match (a, b) {
        (ComponentRef::Root, ComponentRef::Root) => true,
        (ComponentRef::Cur, ComponentRef::Cur) => true,
        (ComponentRef::Parent, ComponentRef::Parent) => true,
        (ComponentRef::Normal(s1, e1), ComponentRef::Normal(s2, e2)) => {
            let x = vstd::slice::slice_subrange(pa, s1, e1);
            let y = vstd::slice::slice_subrange(pb, s2, e2);
            let eq = bytes_equal(x, y);
            proof {
                if !eq {
                    assert(component_of(a, pa@) != component_of(b, pb@));
                }
            }
            eq
        },
        _ => false,
    }
}

/// `Path::starts_with`.
pub fn path_starts_with(p: &[u8], base: &[u8]) -> (r: bool)
    ensures
        r == path_starts_with_spec(p@, base@),
{
    let cp = component_refs(p);
    let cb = component_refs(base);
    if cb.len() > cp.len() {
        return false;
    }
    let mut j: usize = 0;
    while j < cb.len()
        invariant
            cb@.len() <= cp@.len(),
            cp@.len() == components(p@).len(),
            cb@.len() == components(base@).len(),
            forall|k: int|
                0 <= k < cp@.len() ==> component_ref_wf(#[trigger] cp@[k], p@) && component_of(
                    cp@[k],
                    p@,
                ) == components(p@)[k],
            forall|k: int|
                0 <= k < cb@.len() ==> component_ref_wf(#[trigger] cb@[k], base@)
                    && component_of(cb@[k], base@) == components(base@)[k],
            0 <= j <= cb@.len(),
            forall|k: int| 0 <= k < j ==> components(p@)[k] == components(base@)[k],
        decreases cb@.len() - j,
    {
        let ghost _component = cp@[j as int];
        let ghost _component = cb@[j as int];
        if !component_eq(p, cp[j], base, cb[j]) {
            assert(components(p@).subrange(0, components(base@).len() as int)[j as int]
                != components(base@)[j as int]);
            return false;
        }
        j += 1;
    }
    assert(components(p@).subrange(0, components(base@).len() as int) =~= components(base@));
    true
}

/// `Path::join`.
pub fn path_join(base: &[u8], rel: &[u8]) -> (r: Vec<u8>)
    ensures
        r@ == path_join_spec(base@, rel@),
{
    if rel.len() > 0 && rel[0] == SLASH {
        return copy_bytes(rel);
    }
    let mut out = copy_bytes(base);
    if base.len() > 0 && base[base.len() - 1] != SLASH {
        out.push(SLASH);
    }
    append_bytes(&mut out, rel);
    out
}

/// `Path::file_name`.
pub fn path_file_name(p: &[u8]) -> (r: Option<Vec<u8>>)
    ensures
        match r {
            Some(v) => path_file_name_spec(p@) == Some(v@),
            None => path_file_name_spec(p@) is None,
        },
{
    let c = component_refs(p);
    if c.len() == 0 {
        return None;
    }
    let last = c[c.len() - 1];
    let ghost _component = c@[c@.len() - 1];
    match last {
        ComponentRef::Normal(s, e) => Some(copy_bytes(vstd::slice::slice_subrange(p, s, e))),
        _ => None,
    }
}

/// The length of `p[..end]` with trailing separators and `.` segments removed,
/// never going below `lo`.
fn trim_trailing_len(p: &[u8], end: usize, lo: usize) -> (r: usize)
    requires
        end <= p@.len(),
    ensures
        r <= end,
        trim_trailing(p@.subrange(0, end as int), lo as int) == p@.subrange(0, r as int),
{
    let mut n = end;
    while n > lo && n > 0 && (p[n - 1] == SLASH || (p[n - 1] == DOT && (n - 1 == lo || (n >= 2
        && p[n - 2] == SLASH))))
        invariant
            n <= end <= p@.len(),
            trim_trailing(p@.subrange(0, end as int), lo as int) == trim_trailing(
                p@.subrange(0, n as int),
                lo as int,
            ),
        decreases n,
    {
        assert(p@.subrange(0, n as int).drop_last() =~= p@.subrange(0, n - 1));
        n -= 1;
    }
    n
}

/// The start of `p[start..]` with leading separators and `.` segments removed.
fn trim_leading_start(p: &[u8], start: usize) -> (r: usize)
    requires
        start <= p@.len(),
    ensures
        start <= r <= p@.len(),
        trim_leading(p@.subrange(start as int, p@.len() as int)) == p@.subrange(
            r as int,
            p@.len() as int,
        ),
{
    let mut n = start;
    while n < p.len() && (p[n] == SLASH || (p[n] == DOT && (n + 1 == p.len() || p[n + 1]
        == SLASH)))
        invariant
            start <= n <= p@.len(),
            trim_leading(p@.subrange(start as int, p@.len() as int)) == trim_leading(
                p@.subrange(n as int, p@.len() as int),
            ),
        decreases p@.len() - n,
    {
        assert(p@.subrange(n as int, p@.len() as int).drop_first() =~= p@.subrange(
            n + 1,
            p@.len() as int,
        ));
        n += 1;
    }
    n
}

/// `Path::parent`.
pub fn path_parent(p: &[u8]) -> (r: Option<Vec<u8>>)
    ensures
        match r {
            Some(v) => path_parent_spec(p@) == Some(v@),
            None => path_parent_spec(p@) is None,
        },
{
    let rooted = p.len() > 0 && p[0] == SLASH;
    let cur = !rooted && p.len() > 0 && p[0] == DOT && (p.len() == 1 || p[1] == SLASH);
    let lo: usize = if rooted || cur {
        1
    } else {
        0
    };
    let spans = body_spans_exec(p);
    proof {
        lemma_body_spans_bounds(p@);
    }
    if spans.len() > 0 {
        let (s, _e) = spans[spans.len() - 1];
        let ghost _span = body_spans(p@)[body_spans(p@).len() - 1];
        let cut = if s > lo {
            s - 1
        } else {
            s
        };
        let n = trim_trailing_len(p, cut, lo);
        Some(copy_bytes(vstd::slice::slice_subrange(p, 0, n)))
    } else if cur {
        Some(Vec::new())
    } else {
        None
    }
}

/// `Path::strip_prefix`.
pub fn path_strip_prefix(p: &[u8], base: &[u8]) -> (r: Option<Vec<u8>>)
    ensures
        match r {
            Some(v) => path_strip_prefix_spec(p@, base@) == Some(v@),
            None => path_strip_prefix_spec(p@, base@) is None,
        },
{
    if !path_starts_with(p, base) {
        return None;
    }
    let cb = component_refs(base);
    let k = cb.len();
    let rooted = p.len() > 0 && p[0] == SLASH;
    let cur = !rooted && p.len() > 0 && p[0] == DOT && (p.len() == 1 || p[1] == SLASH);
    let h: usize = if rooted || cur {
        1
    } else {
        0
    };
    if k == 0 {
        let n = trim_trailing_len(p, p.len(), h);
        assert(p@.subrange(0, p@.len() as int) =~= p@);
        return Some(copy_bytes(vstd::slice::slice_subrange(p, 0, n)));
    }
    let spans = body_spans_exec(p);
    proof {
        lemma_body_spans_bounds(p@);
        assert(components(p@).len() == head_components(p@).len() + body_spans(p@).len());
    }
    let consumed: usize = if k <= h {
        1
    } else {
        let (_s, e) = spans[k - h - 1];
        let ghost _span = body_spans(p@)[k - h - 1];
        if e < p.len() {
            e + 1
        } else {
            e
        }
    };
    let start = trim_leading_start(p, consumed);
    let n = trim_trailing_len(vstd::slice::slice_subrange(p, start, p.len()), p.len() - start, 0);
    let rest = vstd::slice::slice_subrange(p, start, p.len());
    assert(rest@.subrange(0, rest@.len() as int) =~= rest@);
    Some(copy_bytes(vstd::slice::slice_subrange(rest, 0, n)))
}

/// Path equality as std's `Path` defines it: the same components.
pub fn path_eq(a: &[u8], b: &[u8]) -> (r: bool)
    ensures
        r == (components(a@) == components(b@)),
{
    let ca = component_refs(a);
    let cb = component_refs(b);
    if ca.len() != cb.len() {
        return false;
    }
    let mut j: usize = 0;
    while j < ca.len()
        invariant
            ca@.len() == cb@.len(),
            ca@.len() == components(a@).len(),
            cb@.len() == components(b@).len(),
            forall|k: int|
                0 <= k < ca@.len() ==> component_ref_wf(#[trigger] ca@[k], a@) && component_of(
                    ca@[k],
                    a@,
                ) == components(a@)[k],
            forall|k: int|
                0 <= k < cb@.len() ==> component_ref_wf(#[trigger] cb@[k], b@) && component_of(
                    cb@[k],
                    b@,
                ) == components(b@)[k],
            0 <= j <= ca@.len(),
            forall|k: int| 0 <= k < j ==> components(a@)[k] == components(b@)[k],
        decreases ca@.len() - j,
    {
        let ghost _component = ca@[j as int];
        let ghost _component = cb@[j as int];
        if !component_eq(a, ca[j], b, cb[j]) {
            return false;
        }
        j += 1;
    }
    assert(components(a@) =~= components(b@));
    true
}

// ------------------------------------------------------------------------
// Laws of paths

/// The scan of the first `i` bytes depends on those bytes alone.
proof fn lemma_scan_prefix(p: Seq<u8>, q: Seq<u8>, i: nat)
    requires
        i <= p.len(),
        i <= q.len(),
        p.subrange(0, i as int) == q.subrange(0, i as int),
    ensures
        scan_segments(p, i) == scan_segments(q, i),
    decreases i,
{
    if i > 0 {
        assert(p.subrange(0, i - 1) =~= p.subrange(0, i as int).subrange(0, i - 1));
        assert(q.subrange(0, i - 1) =~= q.subrange(0, i as int).subrange(0, i - 1));
        lemma_scan_prefix(p, q, (i - 1) as nat);
        lemma_scan_bounds(p, (i - 1) as nat);
        assert(p[i - 1] == p.subrange(0, i as int)[i - 1]);
        assert(q[i - 1] == q.subrange(0, i as int)[i - 1]);
        let st = scan_segments(p, (i - 1) as nat).1;
        assert(p.subrange(st, i - 1) =~= p.subrange(0, i as int).subrange(st, i - 1));
        assert(q.subrange(st, i - 1) =~= q.subrange(0, i as int).subrange(st, i - 1));
    }
}

/// Scanning further only appends spans.
proof fn lemma_scan_monotone(p: Seq<u8>, i: nat, k: nat)
    requires
        i <= k <= p.len(),
    ensures
        scan_segments(p, i).0.len() <= scan_segments(p, k).0.len(),
        scan_segments(p, k).0.subrange(0, scan_segments(p, i).0.len() as int) == scan_segments(
            p,
            i,
        ).0,
    decreases k,
{
    if k > i {
        lemma_scan_monotone(p, i, (k - 1) as nat);
        let a = scan_segments(p, i).0;
        let b = scan_segments(p, (k - 1) as nat).0;
        let c = scan_segments(p, k).0;
        assert(c.subrange(0, a.len() as int) =~= a) by {
            assert forall|x: int| #![auto] 0 <= x < a.len() implies c.subrange(0, a.len() as int)[x]
                == a[x] by {
                assert(b.subrange(0, a.len() as int)[x] == a[x]);
                assert(c[x] == b[x]);
            }
        }
    } else {
        assert(scan_segments(p, k).0.subrange(0, scan_segments(p, k).0.len() as int)
            =~= scan_segments(p, k).0);
    }
}

/// A path without components: the empty path.
proof fn lemma_empty_components()
    ensures
        components(Seq::<u8>::empty()).len() == 0,
{
    let e = Seq::<u8>::empty();
    assert(e.subrange(0, 0) =~= e);
    assert(body_spans(e) =~= Seq::<(int, int)>::empty());
}

/// Appending a relative path to a path keeps its components in front.
pub proof fn lemma_join_keeps_components(base: Seq<u8>, rel: Seq<u8>)
    requires
        !is_rooted(rel),
    ensures
        ({
            let cb = components(base);
            let cj = components(path_join_spec(base, rel));
            &&& cb.len() <= cj.len()
            &&& cj.subrange(0, cb.len() as int) == cb
        }),
        base.len() > 0 ==> {
            let bs = body_spans(base);
            let js = body_spans(path_join_spec(base, rel));
            &&& head_len(path_join_spec(base, rel)) == head_len(base)
            &&& bs.len() <= js.len()
            &&& forall|x: int| 0 <= x < bs.len() ==> #[trigger] js[x] == bs[x]
        },
{
    let j = path_join_spec(base, rel);
    if base.len() == 0 {
        lemma_empty_components();
        assert(components(j).subrange(0, 0) =~= components(base));
        return;
    }
    let n = base.len();
    let sep_added = base.last() != SLASH;
    let m: nat = if sep_added {
        (n + 1) as nat
    } else {
        n
    };
    assert(j.subrange(0, n as int) =~= base);
    assert(base.subrange(0, n as int) =~= base);
    lemma_scan_prefix(j, base, n);
    lemma_scan_bounds(base, n);
    lemma_scan_bounds(j, j.len());
    let sc = scan_segments(base, n);
    if sep_added {
        assert(j[n as int] == SLASH);
        assert(j.subrange(sc.1, n as int) =~= base.subrange(sc.1, n as int));
        assert(scan_segments(j, m).0 == body_spans(base));
    } else {
        assert(base[n - 1] == SLASH);
        assert(sc.1 == n);
        assert(base.subrange(n as int, n as int) =~= Seq::<u8>::empty());
        assert(scan_segments(j, m).0 == body_spans(base));
    }
    lemma_scan_monotone(j, m, j.len());
    let bs = body_spans(base);
    let js = body_spans(j);
    let full = scan_segments(j, j.len()).0;
    assert(bs.len() <= js.len());
    assert forall|x: int| #![auto] 0 <= x < bs.len() implies js[x] == bs[x] by {
        assert(full.subrange(0, bs.len() as int)[x] == bs[x]);
        assert(js[x] == full[x]);
    }
    lemma_body_spans_bounds(base);
    assert(head_components(j) == head_components(base) && head_len(j) == head_len(base)) by {
        if n >= 2 {
            assert(j[0] == base[0] && j[1] == base[1]);
        } else {
            assert(j[0] == base[0]);
        }
    }
    let cb = components(base);
    let cj = components(j);
    let h = head_components(base).len();
    assert(cj.subrange(0, cb.len() as int) =~= cb) by {
        assert forall|x: int| #![auto] 0 <= x < cb.len() implies cj.subrange(0, cb.len() as int)[x]
            == cb[x] by {
            if x >= h {
                let sp = bs[x - h];
                let _span = bs[x - h];
                assert(j.subrange(sp.0, sp.1) =~= base.subrange(sp.0, sp.1)) by {
                    assert forall|y: int| #![auto] 0 <= y < sp.1 - sp.0 implies j.subrange(sp.0, sp.1)[y]
                        == base.subrange(sp.0, sp.1)[y] by {
                        assert(j[sp.0 + y] == j.subrange(0, n as int)[sp.0 + y]);
                    }
                }
            }
        }
    }
}

/// Every path lies under itself.
pub proof fn law_starts_with_reflexive(p: Seq<u8>)
    ensures
        path_starts_with_spec(p, p),
{
    assert(components(p).subrange(0, components(p).len() as int) =~= components(p));
}

/// Lying under a path is transitive.
pub proof fn law_starts_with_transitive(a: Seq<u8>, b: Seq<u8>, c: Seq<u8>)
    requires
        path_starts_with_spec(a, b),
        path_starts_with_spec(b, c),
    ensures
        path_starts_with_spec(a, c),
{
    let ca = components(a);
    let cb = components(b);
    let cc = components(c);
    assert(ca.subrange(0, cc.len() as int) =~= cc) by {
        assert forall|x: int| #![auto] 0 <= x < cc.len() implies ca.subrange(0, cc.len() as int)[x]
            == cc[x] by {
            assert(ca.subrange(0, cb.len() as int)[x] == cb[x]);
            assert(cb.subrange(0, cc.len() as int)[x] == cc[x]);
        }
    }
}

/// A path joined with a relative path lies under it.
pub proof fn law_join_relative_stays_under(base: Seq<u8>, rel: Seq<u8>)
    requires
        !is_rooted(rel),
    ensures
        path_starts_with_spec(path_join_spec(base, rel), base),
{
    lemma_join_keeps_components(base, rel);
}

/// A path whose last segment yields a component: it does not end in `/` or in
/// a `.` segment.
pub open spec fn ends_in_component(p: Seq<u8>) -> bool {
    &&& p.len() > 0
    &&& p.last() != SLASH
    &&& !(p.last() == DOT && (p.len() == 1 || p[p.len() - 2] == SLASH))
}

/// A relative path whose first segment yields a component: it does not begin
/// with `/` or with a `.` segment.
pub open spec fn starts_in_component(p: Seq<u8>) -> bool {
    &&& p.len() > 0
    &&& p[0] != SLASH
    &&& !(p[0] == DOT && (p.len() == 1 || p[1] == SLASH))
}

/// A single file name: non-empty, without separator, and not `.`.
pub open spec fn is_plain_name(n: Seq<u8>) -> bool {
    &&& n.len() > 0
    &&& forall|i: int| 0 <= i < n.len() ==> #[trigger] n[i] != SLASH
    &&& !(n.len() == 1 && n[0] == DOT)
}

/// Bytes without a separator leave the scan where it was.
proof fn lemma_scan_no_slash(p: Seq<u8>, i: nat, k: nat)
    requires
        i <= k <= p.len(),
        forall|x: int| i <= x < k ==> #[trigger] p[x] != SLASH,
    ensures
        scan_segments(p, k) == scan_segments(p, i),
    decreases k,
{
    if k > i {
        lemma_scan_no_slash(p, i, (k - 1) as nat);
    }
}

/// Where the last segment of a path yields a component, that segment is the
/// last span, ending at the end of the path.
proof fn lemma_last_span(p: Seq<u8>)
    requires
        ends_in_component(p),
    ensures
        body_spans(p).len() > 0,
        body_spans(p).last().1 == p.len(),
{
    lemma_scan_bounds(p, p.len());
    let sc = scan_segments(p, p.len());
    assert(sc.1 < p.len());
    let seg = p.subrange(sc.1, p.len() as int);
    assert(!is_junk_segment(seg)) by {
        if seg.len() == 1 {
            assert(seg[0] == p.last());
        }
    }
}

/// Stripping a path from the front of `base/rel` leaves `rel`, where `base`
/// ends in a component and `rel` begins and ends in one.
pub proof fn lemma_strip_prefix_of_join(base: Seq<u8>, rel: Seq<u8>)
    requires
        ends_in_component(base),
        starts_in_component(rel),
        ends_in_component(rel),
    ensures
        path_strip_prefix_spec(base + seq![SLASH] + rel, base) == Some(rel),
{
    let p = base + seq![SLASH] + rel;
    assert(path_join_spec(base, rel) == p);
    lemma_join_keeps_components(base, rel);
    lemma_last_span(base);
    lemma_body_spans_bounds(base);
    let n = base.len() as int;
    let h = head_len(base);
    let bs = body_spans(base);
    let k = components(base).len() as int;
    assert(k == head_components(base).len() + bs.len());
    assert(head_components(base).len() == h);
    assert(k > h);
    let sp = body_spans(p)[k - h - 1];
    assert(sp == bs[bs.len() - 1]);
    assert(sp.1 == n);
    assert(consumed_after(p, k) == n + 1);
    assert(p.subrange(n + 1, p.len() as int) =~= rel);
    assert(trim_leading(rel) == rel);
    assert(trim_trailing(rel, 0) == rel);
}

/// The parent of `dir/name` is `dir`, where `dir` begins and ends in a
/// component and `name` is a single file name.
pub proof fn lemma_parent_of_join(dir: Seq<u8>, name: Seq<u8>)
    requires
        starts_in_component(dir),
        ends_in_component(dir),
        is_plain_name(name),
    ensures
        path_parent_spec(dir + seq![SLASH] + name) == Some(dir),
{
    let p = dir + seq![SLASH] + name;
    let m = dir.len() + 1;
    assert(p[0] == dir[0]);
    assert(p.len() == m + name.len());
    if dir.len() >= 2 {
        assert(p[1] == dir[1]);
    }
    assert(head_len(p) == 0);
    assert(p[m - 1] == SLASH);
    assert(scan_segments(p, m as nat).1 == m);
    assert forall|x: int| m <= x < p.len() implies #[trigger] p[x] != SLASH by {
        assert(p[x] == name[x - m]);
    }
    lemma_scan_no_slash(p, m as nat, p.len());
    assert(p.subrange(m as int, p.len() as int) =~= name);
    let spans = body_spans(p);
    assert(spans.last() == (m as int, p.len() as int));
    assert(p.subrange(0, m - 1) =~= dir);
    assert(trim_trailing(dir, 0) == dir);
}

} // verus!
