//! Path names as system calls see them: normalising `.`, `..` and repeated
//! slashes, and resolving a name against a working directory.
use vstd::prelude::*;

verus! {

pub const SLASH: u8 = 0x2F;
pub const DOT: u8 = 0x2E;

/// The component list after one more component `seg`: empty components
/// and `.` change nothing, `..` drops the last component (if any), any
/// other name is appended.
pub open spec fn apply_segment(parts: Seq<Seq<u8>>, seg: Seq<u8>) -> Seq<Seq<u8>> {
    if seg.len() == 0 || seg == seq![DOT] {
        parts
    } else if seg == seq![DOT, DOT] {
        if parts.len() > 0 { parts.drop_last() } else { parts }
    } else {
        parts.push(seg)
    }
}

/// Components gathered from the first `n` bytes of `p`, and the
/// component being read.
pub open spec fn scan_path(p: Seq<u8>, n: int) -> (Seq<Seq<u8>>, Seq<u8>)
    decreases n,
{
    if n <= 0 {
        (Seq::empty(), Seq::empty())
    } else {
        let (parts, cur) = scan_path(p, n - 1);
        if p[n - 1] == SLASH {
            (apply_segment(parts, cur), Seq::empty())
        } else {
            (parts, cur.push(p[n - 1]))
        }
    }
}

/// The components of `p` once `.`, `..` and empty ones are resolved.
pub open spec fn path_parts(p: Seq<u8>) -> Seq<Seq<u8>> {
    let (parts, cur) = scan_path(p, p.len() as int);
    apply_segment(parts, cur)
}

/// `/a/b/c` for components `a`, `b`, `c`; empty for none.
pub open spec fn slash_join(parts: Seq<Seq<u8>>) -> Seq<u8>
    decreases parts.len(),
{
    if parts.len() == 0 {
        Seq::empty()
    } else {
        slash_join(parts.drop_last()).push(SLASH) + parts.last()
    }
}

/// The normal form of `p`: `/` followed by its resolved components.
pub open spec fn spec_normalize(p: Seq<u8>) -> Seq<u8> {
    let parts = path_parts(p);
    if parts.len() == 0 { seq![SLASH] } else { slash_join(parts) }
}

fn is_dot(path: &[u8], start: usize, end: usize) -> (r: bool)
    requires
        start <= end <= path@.len(),
    ensures
        r == (path@.subrange(start as int, end as int) == seq![DOT]),
{
    if end - start == 1 && path[start] == DOT {
        assert(path@.subrange(start as int, end as int) =~= seq![DOT]);
        true
    } else {
        let ghost sub = path@.subrange(start as int, end as int);
        assert(sub != seq![DOT]) by {
            if sub == seq![DOT] {
                assert(sub.len() == 1);
                assert(sub[0] == path@[start as int]);
                assert(seq![DOT][0] == DOT);
            }
        }
        false
    }
}

fn is_dot_dot(path: &[u8], start: usize, end: usize) -> (r: bool)
    requires
        start <= end <= path@.len(),
    ensures
        r == (path@.subrange(start as int, end as int) == seq![DOT, DOT]),
{
    if end - start == 2 && path[start] == DOT && path[start + 1] == DOT {
        assert(path@.subrange(start as int, end as int) =~= seq![DOT, DOT]);
        true
    } else {
        let ghost sub = path@.subrange(start as int, end as int);
        assert(sub != seq![DOT, DOT]) by {
            if sub == seq![DOT, DOT] {
                assert(sub.len() == 2);
                assert(sub[0] == path@[start as int]);
                assert(sub[1] == path@[start + 1]);
                assert(seq![DOT, DOT][0] == DOT);
                assert(seq![DOT, DOT][1] == DOT);
            }
        }
        false
    }
}

/// The byte ranges `rs` of `p`, as components.
pub open spec fn ranges_of(p: Seq<u8>, rs: Seq<(usize, usize)>) -> Seq<Seq<u8>> {
    Seq::new(rs.len(), |k: int| p.subrange(rs[k].0 as int, rs[k].1 as int))
}

/// Apply the component `path[start..end]` to the component ranges.
fn apply_range(path: &[u8], parts: &mut Vec<(usize, usize)>, start: usize, end: usize)
    requires
        start <= end <= path@.len(),
        forall|k: int| 0 <= k < old(parts)@.len() ==> (#[trigger] old(parts)@[k]).0 <= old(parts)@[k].1 <= path@.len(),
    ensures
        ranges_of(path@, final(parts)@) == apply_segment(ranges_of(path@, old(parts)@), path@.subrange(start as int, end as int)),
        forall|k: int| 0 <= k < final(parts)@.len() ==> (#[trigger] final(parts)@[k]).0 <= final(parts)@[k].1 <= path@.len(),
{
    let ghost before = ranges_of(path@, parts@);
    let ghost seg = path@.subrange(start as int, end as int);
    if start == end || is_dot(path, start, end) {
        assert(seg.len() == 0 || seg == seq![DOT]);
    } else if is_dot_dot(path, start, end) {
        assert(seg != seq![DOT]) by {
            if seg == seq![DOT] {
                assert(seg.len() == 1);
            }
        }
        if parts.len() > 0 {
            parts.pop();
            assert(ranges_of(path@, parts@) =~= before.drop_last());
        }
    } else {
        parts.push((start, end));
        assert(ranges_of(path@, parts@) =~= before.push(seg));
    }
}

/// normalize_path: the absolute, normal form of `path` (see
/// [`spec_normalize`]).
pub fn normalize_path(path: &[u8]) -> (r: Vec<u8>)
    ensures
        r@ == spec_normalize(path@),
{
    let mut parts: Vec<(usize, usize)> = Vec::new();
    let mut start: usize = 0;
    let mut i: usize = 0;
    while i < path.len()
        invariant
            0 <= start <= i <= path@.len(),
            forall|k: int| 0 <= k < parts@.len() ==> (#[trigger] parts@[k]).0 <= parts@[k].1 <= path@.len(),
            ranges_of(path@, parts@) == scan_path(path@, i as int).0,
            path@.subrange(start as int, i as int) == scan_path(path@, i as int).1,
        decreases path@.len() - i,
    {
        if path[i] == SLASH {
            apply_range(path, &mut parts, start, i);
            start = i + 1;
            assert(path@.subrange(start as int, i + 1) =~= Seq::<u8>::empty());
        } else {
            assert(path@.subrange(start as int, i + 1) =~= path@.subrange(start as int, i as int).push(path@[i as int]));
        }
        i = i + 1;
    }
    apply_range(path, &mut parts, start, i);
    let ghost ps = ranges_of(path@, parts@);
    assert(ps == path_parts(path@));
    let mut out: Vec<u8> = Vec::new();
    if parts.len() == 0 {
        out.push(SLASH);
        assert(out@ =~= seq![SLASH]);
        return out;
    }
    let mut k: usize = 0;
    while k < parts.len()
        invariant
            k <= parts@.len(),
            ps == ranges_of(path@, parts@),
            forall|j: int| 0 <= j < parts@.len() ==> (#[trigger] parts@[j]).0 <= parts@[j].1 <= path@.len(),
            out@ == slash_join(ps.subrange(0, k as int)),
        decreases parts@.len() - k,
    {
        let (a, b) = parts[k];
        out.push(SLASH);
        let mut x: usize = a;
        let ghost base = out@;
        while x < b
            invariant
                a <= x <= b <= path@.len(),
                out@ == base + path@.subrange(a as int, x as int),
            decreases b - x,
        {
            out.push(path[x]);
            x = x + 1;
            assert(out@ =~= base + path@.subrange(a as int, x as int));
        }
        proof {
            assert(ps.subrange(0, k + 1).drop_last() =~= ps.subrange(0, k as int));
            assert(ps.subrange(0, k + 1).last() == ps[k as int]);
            assert(ps[k as int] == path@.subrange(a as int, b as int));
        }
        k = k + 1;
    }
    assert(ps.subrange(0, ps.len() as int) =~= ps);
    out
}

/// The name `path` resolved against the working directory `cwd`.
pub open spec fn spec_resolve_path(cwd: Seq<u8>, path: Seq<u8>) -> Seq<u8> {
    if path.len() > 0 && path[0] == SLASH {
        spec_normalize(path)
    } else if cwd == seq![SLASH] {
        spec_normalize(seq![SLASH] + path)
    } else {
        spec_normalize(cwd + seq![SLASH] + path)
    }
}

/// Resolve `path` for a task whose working directory is `cwd`: absolute
/// names are only normalised, relative ones are taken from `cwd`.
pub fn resolve_task_path(cwd: &[u8], path: &[u8]) -> (r: Vec<u8>)
    ensures
        r@ == spec_resolve_path(cwd@, path@),
{
    if path.len() > 0 && path[0] == SLASH {
        return normalize_path(path);
    }
    let mut full: Vec<u8> = Vec::new();
    let root = cwd.len() == 1 && cwd[0] == SLASH;
    proof {
        if cwd@ == seq![SLASH] {
            assert(cwd@.len() == 1 && cwd@[0] == SLASH);
        }
        if root {
            assert(cwd@ =~= seq![SLASH]);
        }
    }
    if !root {
        let mut i: usize = 0;
        while i < cwd.len()
            invariant
                i <= cwd@.len(),
                full@ == cwd@.subrange(0, i as int),
            decreases cwd@.len() - i,
        {
            full.push(cwd[i]);
            i = i + 1;
            assert(full@ =~= cwd@.subrange(0, i as int));
        }
        assert(cwd@.subrange(0, cwd@.len() as int) =~= cwd@);
    }
    let ghost prefix = full@;
    full.push(SLASH);
    let mut j: usize = 0;
    while j < path.len()
        invariant
            j <= path@.len(),
            full@ == prefix + seq![SLASH] + path@.subrange(0, j as int),
        decreases path@.len() - j,
    {
        full.push(path[j]);
        j = j + 1;
        assert(full@ =~= prefix + seq![SLASH] + path@.subrange(0, j as int));
    }
    assert(path@.subrange(0, path@.len() as int) =~= path@);
    if root {
        assert(full@ =~= seq![SLASH] + path@);
    }
    normalize_path(full.as_slice())
}


/// A component as normalisation leaves it: non-empty, not `.` or `..`, no
/// slash in it.
pub open spec fn clean_part(c: Seq<u8>) -> bool {
    &&& c.len() > 0
    &&& c != seq![DOT]
    &&& c != seq![DOT, DOT]
    &&& forall|i: int| 0 <= i < c.len() ==> c[i] != SLASH
}

proof fn lemma_scan_clean(p: Seq<u8>, n: int)
    requires
        0 <= n <= p.len(),
    ensures
        forall|k: int| 0 <= k < scan_path(p, n).0.len() ==> clean_part(#[trigger] scan_path(p, n).0[k]),
        forall|i: int| 0 <= i < scan_path(p, n).1.len() ==> scan_path(p, n).1[i] != SLASH,
    decreases n,
{
    if n > 0 {
        lemma_scan_clean(p, n - 1);
        let (parts, cur) = scan_path(p, n - 1);
        if p[n - 1] == SLASH {
            let np = apply_segment(parts, cur);
            assert forall|k: int| 0 <= k < np.len() implies clean_part(#[trigger] np[k]) by {
                if cur.len() == 0 || cur == seq![DOT] {
                } else if cur == seq![DOT, DOT] {
                    if parts.len() > 0 {
                        assert(np[k] == parts[k]);
                    }
                } else {
                    if k < parts.len() {
                        assert(np[k] == parts[k]);
                    }
                }
            }
        } else {
            let nc = cur.push(p[n - 1]);
            assert forall|i: int| 0 <= i < nc.len() implies nc[i] != SLASH by {
                if i < cur.len() {
                    assert(nc[i] == cur[i]);
                }
            }
        }
    }
}

/// Every component of a normalised path is clean.
pub proof fn lemma_path_parts_clean(p: Seq<u8>)
    ensures
        forall|k: int| 0 <= k < path_parts(p).len() ==> clean_part(#[trigger] path_parts(p)[k]),
{
    lemma_scan_clean(p, p.len() as int);
    let (parts, cur) = scan_path(p, p.len() as int);
    let np = path_parts(p);
    assert forall|k: int| 0 <= k < np.len() implies clean_part(#[trigger] np[k]) by {
        if cur.len() == 0 || cur == seq![DOT] {
        } else if cur == seq![DOT, DOT] {
            if parts.len() > 0 {
                assert(np[k] == parts[k]);
            }
        } else {
            if k < parts.len() {
                assert(np[k] == parts[k]);
            }
        }
    }
}

/// Scanning only looks at the bytes it has passed.
proof fn lemma_scan_prefix(p: Seq<u8>, q: Seq<u8>, n: int)
    requires
        0 <= n <= p.len(),
    ensures
        scan_path(p + q, n) == scan_path(p, n),
    decreases n,
{
    if n > 0 {
        lemma_scan_prefix(p, q, n - 1);
        assert((p + q)[n - 1] == p[n - 1]);
    }
}

/// Bytes without a slash only extend the component being read.
proof fn lemma_scan_word(p: Seq<u8>, w: Seq<u8>)
    requires
        forall|i: int| 0 <= i < w.len() ==> w[i] != SLASH,
    ensures
        scan_path(p + w, (p.len() + w.len()) as int) == (scan_path(p, p.len() as int).0, scan_path(p, p.len() as int).1 + w),
    decreases w.len(),
{
    if w.len() == 0 {
        assert(p + w =~= p);
        assert(scan_path(p, p.len() as int).1 + w =~= scan_path(p, p.len() as int).1);
    } else {
        let w1 = w.drop_last();
        lemma_scan_word(p, w1);
        lemma_scan_prefix(p + w1, seq![w.last()], (p.len() + w1.len()) as int);
        assert(p + w1 + seq![w.last()] =~= p + w);
        assert((p + w)[(p.len() + w.len() - 1) as int] == w.last());
        assert(scan_path(p, p.len() as int).1 + w1 + seq![w.last()] =~= scan_path(p, p.len() as int).1 + w);
        assert((scan_path(p, p.len() as int).1 + w1).push(w.last()) =~= scan_path(p, p.len() as int).1 + w);
    }
}

/// Scanning `/a/b/c` stops with `a`, `b` gathered and `c` being read.
proof fn lemma_scan_slash_join(ps: Seq<Seq<u8>>)
    requires
        ps.len() > 0,
        forall|k: int| 0 <= k < ps.len() ==> clean_part(#[trigger] ps[k]),
    ensures
        scan_path(slash_join(ps), slash_join(ps).len() as int) == (ps.drop_last(), ps.last()),
    decreases ps.len(),
{
    let q = slash_join(ps.drop_last());
    let last = ps.last();
    assert(clean_part(ps[ps.len() - 1]));
    let head = q.push(SLASH);
    assert(slash_join(ps) == head + last);
    lemma_scan_word(head, last);
    lemma_scan_prefix(q, seq![SLASH], q.len() as int);
    assert(q + seq![SLASH] =~= head);
    assert(head[q.len() as int] == SLASH);
    if ps.len() == 1 {
        assert(q =~= Seq::<u8>::empty());
        assert(scan_path(head, 1) == (apply_segment(Seq::empty(), Seq::empty()), Seq::<u8>::empty()));
        assert(Seq::<u8>::empty() + last =~= last);
        assert(ps.drop_last() =~= Seq::<Seq<u8>>::empty());
    } else {
        let pre = ps.drop_last();
        assert forall|k: int| 0 <= k < pre.len() implies clean_part(#[trigger] pre[k]) by {
            assert(pre[k] == ps[k]);
        }
        lemma_scan_slash_join(pre);
        assert(clean_part(pre.last()));
        assert(pre.last() != seq![DOT] && pre.last() != seq![DOT, DOT] && pre.last().len() > 0);
        assert(apply_segment(pre.drop_last(), pre.last()) =~= pre);
        assert(Seq::<u8>::empty() + last =~= last);
    }
}

/// Normalising is idempotent, and its result is absolute.
pub proof fn law_normalize_idempotent(p: Seq<u8>)
    ensures
        spec_normalize(spec_normalize(p)) == spec_normalize(p),
        spec_normalize(p).len() > 0 && spec_normalize(p)[0] == SLASH,
{
    let ps = path_parts(p);
    lemma_path_parts_clean(p);
    if ps.len() == 0 {
        let r = seq![SLASH];
        assert(r[0] == SLASH);
        assert(scan_path(r, 0) == (Seq::<Seq<u8>>::empty(), Seq::<u8>::empty()));
        assert(scan_path(r, 1) == (apply_segment(Seq::empty(), Seq::empty()), Seq::<u8>::empty()));
        assert(path_parts(r) =~= Seq::<Seq<u8>>::empty());
    } else {
        let j = slash_join(ps);
        lemma_scan_slash_join(ps);
        let last = ps.last();
        assert(clean_part(ps[ps.len() - 1]));
        assert(apply_segment(ps.drop_last(), last) =~= ps);
        assert(path_parts(j) == ps);
        lemma_slash_join_starts(ps);
    }
}

proof fn lemma_slash_join_starts(ps: Seq<Seq<u8>>)
    requires
        ps.len() > 0,
    ensures
        slash_join(ps).len() > 0,
        slash_join(ps)[0] == SLASH,
    decreases ps.len(),
{
    let q = slash_join(ps.drop_last());
    if ps.len() == 1 {
        assert(q =~= Seq::<u8>::empty());
        assert(slash_join(ps)[0] == q.push(SLASH)[0]);
    } else {
        lemma_slash_join_starts(ps.drop_last());
        assert(slash_join(ps)[0] == q.push(SLASH)[0]);
    }
}

} // verus!
