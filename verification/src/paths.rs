//! Lexical path handling with Unix separators: splitting a path into its
//! components, joining paths, and computing the relative path from one
//! directory to another.
use vstd::prelude::*;

use crate::text::push_char;

verus! {

/// The segments of `p` between `/` separators, empty segments included.
pub open spec fn segments(p: Seq<char>) -> Seq<Seq<char>>
    decreases p.len(),
{
    if p.len() == 0 {
        seq![Seq::empty()]
    } else {
        let s = segments(p.drop_last());
        if p.last() == '/' {
            s.push(Seq::empty())
        } else {
            s.update(s.len() - 1, s.last().push(p.last()))
        }
    }
}

/// A segment that becomes a component of its own: not empty and not `.`.
pub open spec fn is_named_segment(seg: Seq<char>) -> bool {
    seg.len() > 0 && seg != seq!['.']
}

/// The component a path starts with before its named segments: the root
/// `/` for an absolute path, `.` for a relative path written `.` or `./...`.
pub open spec fn leading_components(p: Seq<char>) -> Seq<Seq<char>> {
    if p.len() > 0 && p[0] == '/' {
        seq![seq!['/']]
    } else if p == seq!['.'] || (p.len() >= 2 && p[0] == '.' && p[1] == '/') {
        seq![seq!['.']]
    } else {
        seq![]
    }
}

/// The components of a path, as a path-component iterator yields them: an
/// optional root or current-directory marker, then every named segment.
/// Repeated separators, trailing separators and inner `.` segments vanish.
pub open spec fn components(p: Seq<char>) -> Seq<Seq<char>> {
    leading_components(p) + segments(p).filter(|s: Seq<char>| is_named_segment(s))
}

/// Appending one component to a path buffer: an absolute component replaces
/// the buffer, otherwise a separator is inserted when needed.
pub open spec fn path_push(buf: Seq<char>, part: Seq<char>) -> Seq<char> {
    if part.len() > 0 && part[0] == '/' {
        part
    } else if buf.len() == 0 || buf.last() == '/' {
        buf + part
    } else {
        buf + seq!['/'] + part
    }
}

/// Appending every component of `parts` in order.
pub open spec fn push_all(buf: Seq<char>, parts: Seq<Seq<char>>) -> Seq<char>
    decreases parts.len(),
{
    if parts.len() == 0 {
        buf
    } else {
        path_push(push_all(buf, parts.drop_last()), parts.last())
    }
}

/// Length of the longest common prefix of two component sequences.
pub open spec fn common_prefix_len(a: Seq<Seq<char>>, b: Seq<Seq<char>>) -> nat
    decreases a.len(),
{
    if a.len() == 0 || b.len() == 0 || a[0] != b[0] {
        0
    } else {
        1 + common_prefix_len(a.drop_first(), b.drop_first())
    }
}

/// `n` parent-directory components.
pub open spec fn ups(n: nat) -> Seq<Seq<char>> {
    Seq::new(n, |_i: int| seq!['.', '.'])
}

/// The relative path from directory `from_dir` to `to`: one `..` for every
/// component of `from_dir` past the common prefix, then the rest of `to`.
pub open spec fn relative_path_spec(from_dir: Seq<char>, to: Seq<char>) -> Seq<char> {
    push_all(Seq::empty(), relative_components(from_dir, to))
}

/// The components of the relative path from `from_dir` to `to`.
pub open spec fn relative_components(from_dir: Seq<char>, to: Seq<char>) -> Seq<Seq<char>> {
    let f = components(from_dir);
    let t = components(to);
    let k = common_prefix_len(f, t);
    ups((f.len() - k) as nat) + t.skip(k as int)
}

/// The parent-directory component `..`.
pub open spec fn parent_component() -> Seq<char> {
    seq!['.', '.']
}

/// Following the components `rel` from the directory whose components are
/// `base`: `..` goes up one level, any other component goes down into it.
pub open spec fn walk(base: Seq<Seq<char>>, rel: Seq<Seq<char>>) -> Seq<Seq<char>>
    decreases rel.len(),
{
    if rel.len() == 0 {
        base
    } else {
        let b = walk(base, rel.drop_last());
        if rel.last() == parent_component() {
            b.drop_last()
        } else {
            b.push(rel.last())
        }
    }
}

/// Joining `rel` onto `base` as a path buffer push does.
pub open spec fn join_spec(base: Seq<char>, rel: Seq<char>) -> Seq<char> {
    path_push(base, rel)
}

proof fn lemma_segments_nonempty(p: Seq<char>)
    ensures
        segments(p).len() >= 1,
    decreases p.len(),
{
    if p.len() > 0 {
        lemma_segments_nonempty(p.drop_last());
    }
}

proof fn lemma_common_prefix_len(a: Seq<Seq<char>>, b: Seq<Seq<char>>, k: int)
    requires
        0 <= k <= a.len(),
        k <= b.len(),
        forall|j: int| 0 <= j < k ==> a[j] == b[j],
        k == a.len() || k == b.len() || a[k] != b[k],
    ensures
        common_prefix_len(a, b) == k,
    decreases k,
{
    if k > 0 {
        assert(a[0] == b[0]);
        lemma_common_prefix_len(a.drop_first(), b.drop_first(), k - 1);
    }
}

/// Copies a string into a fresh `String`.
fn copy_string(s: &String) -> (r: String)
    ensures
        r@ == s@,
{
    s.clone()
}

/// Appends `part` to the path buffer `buf` (a path buffer push).
pub fn push_component(buf: &mut String, part: &str)
    ensures
        final(buf)@ == path_push(old(buf)@, part@),
{
    let pc = crate::text::chars_of(part);
    if pc.len() > 0 && pc[0] == '/' {
        let mut r = String::new();
        r.append(part);
        *buf = r;
        return;
    }
    let bc = crate::text::chars_of(buf.as_str());
    if bc.len() == 0 || bc[bc.len() - 1] == '/' {
        buf.append(part);
    } else {
        push_char(buf, '/');
        buf.append(part);
        assert(final(buf)@ =~= old(buf)@ + seq!['/'] + part@);
    }
}

/// Joins `rel` onto `base` (a path buffer push): an absolute `rel` replaces
/// `base`, otherwise the two are separated by one `/`.
pub fn join_path(base: &str, rel: &str) -> (r: String)
    ensures
        r@ == join_spec(base@, rel@),
{
    let mut r = String::new();
    r.append(base);
    push_component(&mut r, rel);
    r
}

/// Whether a segment becomes a component of its own (see [`is_named_segment`]).
fn named_segment(seg: &str) -> (b: bool)
    ensures
        b == is_named_segment(seg@),
{
    let cs = crate::text::chars_of(seg);
    if cs.len() == 0 {
        return false;
    }
    if cs.len() == 1 && cs[0] == '.' {
        assert(seg@ =~= seq!['.']);
        return false;
    }
    assert(seg@.len() != 1 || seg@[0] != '.');
    assert(seg@ != seq!['.']);
    true
}

/// Splits a path into its components (see [`components`]).
pub fn path_components(p: &str) -> (r: Vec<String>)
    ensures
        r@.map_values(|s: String| s@) == components(p@),
{
    let cs = crate::text::chars_of(p);
    let mut done: Vec<String> = Vec::new();
    let ghost lead = leading_components(p@);
    if cs.len() > 0 && cs[0] == '/' {
        let mut root = String::new();
        push_char(&mut root, '/');
        done.push(root);
    } else if (cs.len() == 1 && cs[0] == '.') || (cs.len() >= 2 && cs[0] == '.' && cs[1] == '/') {
        let mut cur = String::new();
        push_char(&mut cur, '.');
        done.push(cur);
        assert(cs.len() == 1 ==> p@ =~= seq!['.']);
    }
    assert(done@.map_values(|s: String| s@) =~= lead);
    let mut cur = String::new();
    let mut i: usize = 0;
    proof {
        assert(p@.take(0) =~= Seq::<char>::empty());
        assert(segments(p@.take(0)).drop_last() =~= Seq::<Seq<char>>::empty());
        assert(Seq::<Seq<char>>::empty().filter(|s: Seq<char>| is_named_segment(s)) =~= Seq::<
            Seq<char>,
        >::empty()) by {
            reveal(Seq::filter);
        }
        assert(lead + Seq::<Seq<char>>::empty() =~= lead);
    }
    while i < cs.len()
        invariant
            cs@ == p@,
            i <= cs.len(),
            lead == leading_components(p@),
            segments(p@.take(i as int)).len() >= 1,
            cur@ == segments(p@.take(i as int)).last(),
            done@.map_values(|s: String| s@) == lead + segments(p@.take(i as int)).drop_last().filter(
                |s: Seq<char>| is_named_segment(s),
            ),
        decreases cs.len() - i,
    {
        let c = cs[i];
        let ghost pre = p@.take(i as int);
        let ghost segs = segments(pre);
        let ghost next = p@.take(i + 1);
        proof {
            assert(next.drop_last() =~= pre);
            assert(next.last() == c);
            lemma_segments_nonempty(next);
        }
        if c == '/' {
            let ghost old_done = done@.map_values(|s: String| s@);
            proof {
                assert(segments(next) == segs.push(Seq::empty()));
                assert(segments(next).drop_last() =~= segs);
                assert(segs =~= segs.drop_last().push(segs.last()));
                segs.drop_last().lemma_filter_push(segs.last(), |s: Seq<char>| is_named_segment(s));
            }
            if named_segment(cur.as_str()) {
                let piece = copy_string(&cur);
                done.push(piece);
                proof {
                    assert(done@.map_values(|s: String| s@) =~= old_done.push(cur@));
                }
            }
            cur = String::new();
            proof {
                assert(cur@ =~= segments(next).last());
            }
        } else {
            push_char(&mut cur, c);
            proof {
                assert(segments(next) == segs.update(segs.len() - 1, segs.last().push(c)));
                assert(segments(next).drop_last() =~= segs.drop_last());
            }
        }
        i = i + 1;
    }
    proof {
        assert(p@.take(cs.len() as int) =~= p@);
    }
    let ghost segs = segments(p@);
    let ghost old_done = done@.map_values(|s: String| s@);
    proof {
        assert(segs =~= segs.drop_last().push(segs.last()));
        segs.drop_last().lemma_filter_push(segs.last(), |s: Seq<char>| is_named_segment(s));
    }
    if named_segment(cur.as_str()) {
        done.push(cur);
        proof {
            assert(done@.map_values(|s: String| s@) =~= old_done.push(segs.last()));
            assert(lead + segs.drop_last().filter(|s: Seq<char>| is_named_segment(s)).push(segs.last())
                =~= (lead + segs.drop_last().filter(|s: Seq<char>| is_named_segment(s))).push(segs.last()));
        }
    }
    done
}

/// The relative path from directory `from_dir` to `to`, computed from their
/// components without touching the filesystem: as many `..` as `from_dir` has
/// components beyond the common prefix, followed by the remaining components
/// of `to`. Both paths are expected to be absolute, or both relative.
pub fn relative_path(from_dir: &str, to: &str) -> (r: Option<String>)
    ensures
        r is Some,
        r matches Some(s) ==> s@ == relative_path_spec(from_dir@, to@),
{
    let from = path_components(from_dir);
    let tos = path_components(to);
    let ghost f = components(from_dir@);
    let ghost t = components(to@);
    proof {
        assert(from@.len() == f.len());
        assert(tos@.len() == t.len());
    }
    let mut common: usize = 0;
    while common < from.len() && common < tos.len() && from[common] == tos[common]
        invariant
            from@.map_values(|s: String| s@) == f,
            tos@.map_values(|s: String| s@) == t,
            common <= from.len(),
            common <= tos.len(),
            forall|j: int| 0 <= j < common ==> f[j] == t[j],
        decreases from.len() - common,
    {
        proof {
            assert(f[common as int] == from@[common as int]@);
            assert(t[common as int] == tos@[common as int]@);
        }
        common = common + 1;
    }
    proof {
        if common < from.len() && common < tos.len() {
            assert(f[common as int] == from@[common as int]@);
            assert(t[common as int] == tos@[common as int]@);
        }
        lemma_common_prefix_len(f, t, common as int);
    }
    let ghost parts = ups((f.len() - common) as nat) + t.skip(common as int);
    let up = from.len() - common;
    let mut out = String::new();
    let mut i: usize = 0;
    while i < up
        invariant
            up == f.len() - common,
            i <= up,
            parts == ups((f.len() - common) as nat) + t.skip(common as int),
            out@ == push_all(Seq::empty(), parts.take(i as int)),
        decreases up - i,
    {
        proof {
            assert(parts.take(i + 1).drop_last() =~= parts.take(i as int));
            assert(parts.take(i + 1).last() == seq!['.', '.']);
        }
        push_component(&mut out, "..");
        proof {
            reveal_strlit("..");
            assert(".."@ =~= seq!['.', '.']);
        }
        i = i + 1;
    }
    let mut j: usize = common;
    while j < tos.len()
        invariant
            tos@.map_values(|s: String| s@) == t,
            up == f.len() - common,
            common <= j <= tos.len(),
            parts == ups((f.len() - common) as nat) + t.skip(common as int),
            out@ == push_all(Seq::empty(), parts.take(up + (j - common))),
        decreases tos.len() - j,
    {
        let ghost k: int = up + (j - common);
        proof {
            assert(parts.take(k + 1).drop_last() =~= parts.take(k as int));
            assert(parts.take(k + 1).last() == t[j as int]);
            assert(t[j as int] == tos@[j as int]@);
        }
        push_component(&mut out, tos[j].as_str());
        j = j + 1;
    }
    proof {
        assert(parts.take(up + (tos.len() - common)) =~= parts);
    }
    Some(out)
}

proof fn lemma_walk_concat(base: Seq<Seq<char>>, a: Seq<Seq<char>>, b: Seq<Seq<char>>)
    ensures
        walk(base, a + b) == walk(walk(base, a), b),
    decreases b.len(),
{
    if b.len() == 0 {
        assert(a + b =~= a);
    } else {
        assert((a + b).drop_last() =~= a + b.drop_last());
        assert((a + b).last() == b.last());
        lemma_walk_concat(base, a, b.drop_last());
    }
}

proof fn lemma_walk_ups(base: Seq<Seq<char>>, m: nat)
    requires
        m <= base.len(),
    ensures
        walk(base, ups(m)) == base.take(base.len() - m),
    decreases m,
{
    if m == 0 {
        assert(ups(0) =~= Seq::<Seq<char>>::empty());
        assert(base.take(base.len() as int) =~= base);
    } else {
        assert(ups(m).drop_last() =~= ups((m - 1) as nat));
        assert(ups(m).last() == parent_component());
        lemma_walk_ups(base, (m - 1) as nat);
        assert(base.take(base.len() - (m - 1)).drop_last() =~= base.take(base.len() - m));
    }
}

proof fn lemma_walk_down(base: Seq<Seq<char>>, rel: Seq<Seq<char>>)
    requires
        forall|i: int| 0 <= i < rel.len() ==> #[trigger] rel[i] != parent_component(),
    ensures
        walk(base, rel) == base + rel,
    decreases rel.len(),
{
    if rel.len() == 0 {
        assert(base + rel =~= base);
    } else {
        assert(rel.last() == rel[rel.len() - 1]);
        lemma_walk_down(base, rel.drop_last());
        assert(base + rel =~= (base + rel.drop_last()).push(rel.last()));
    }
}

proof fn lemma_common_prefix(a: Seq<Seq<char>>, b: Seq<Seq<char>>)
    ensures
        common_prefix_len(a, b) <= a.len(),
        common_prefix_len(a, b) <= b.len(),
        forall|j: int| 0 <= j < common_prefix_len(a, b) ==> a[j] == b[j],
    decreases a.len(),
{
    if !(a.len() == 0 || b.len() == 0 || a[0] != b[0]) {
        lemma_common_prefix(a.drop_first(), b.drop_first());
        assert forall|j: int| 0 <= j < common_prefix_len(a, b) implies a[j] == b[j] by {
            if j > 0 {
                assert(a[j] == a.drop_first()[j - 1]);
                assert(b[j] == b.drop_first()[j - 1]);
            }
        }
    }
}

/// The relative path leads from `from_dir` to `to`: following its
/// components from the components of `from_dir` arrives at the components of
/// `to`, provided `to` itself does not climb with `..`.
pub proof fn lemma_relative_path_reaches_target(from_dir: Seq<char>, to: Seq<char>)
    requires
        forall|i: int|
            0 <= i < components(to).len() ==> #[trigger] components(to)[i] != parent_component(),
    ensures
        walk(components(from_dir), relative_components(from_dir, to)) == components(to),
{
    let f = components(from_dir);
    let t = components(to);
    let k = common_prefix_len(f, t);
    lemma_common_prefix(f, t);
    lemma_walk_concat(f, ups((f.len() - k) as nat), t.skip(k as int));
    lemma_walk_ups(f, (f.len() - k) as nat);
    assert forall|i: int| 0 <= i < t.skip(k as int).len() implies #[trigger] t.skip(k as int)[i]
        != parent_component() by {
        assert(t.skip(k as int)[i] == t[i + k]);
    }
    lemma_walk_down(f.take(k as int), t.skip(k as int));
    assert(f.take(k as int) + t.skip(k as int) =~= t);
}

/// `q` holds no separator.
pub open spec fn slash_free(q: Seq<char>) -> bool {
    forall|j: int| 0 <= j < q.len() ==> q[j] != '/'
}

/// A component a relative path is written with: not empty, not `.`, without
/// a separator.
pub open spec fn plain_part(q: Seq<char>) -> bool {
    q.len() > 0 && q != seq!['.'] && slash_free(q)
}

/// A path none of whose components is `.` or `..`.
pub open spec fn plain_path(p: Seq<char>) -> bool {
    forall|i: int|
        0 <= i < components(p).len() ==> #[trigger] components(p)[i] != seq!['.'] && components(p)[i]
            != parent_component()
}

/// A path that starts at the root.
pub open spec fn is_absolute(p: Seq<char>) -> bool {
    p.len() > 0 && p[0] == '/'
}

proof fn lemma_segments_slash_free(p: Seq<char>)
    ensures
        forall|i: int| 0 <= i < segments(p).len() ==> slash_free(#[trigger] segments(p)[i]),
    decreases p.len(),
{
    if p.len() > 0 {
        lemma_segments_slash_free(p.drop_last());
        lemma_segments_nonempty(p.drop_last());
        let s = segments(p.drop_last());
        if p.last() != '/' {
            let q = s.last().push(p.last());
            assert(slash_free(s[s.len() - 1]));
            assert forall|j: int| 0 <= j < q.len() implies q[j] != '/' by {
                if j < q.len() - 1 {
                    assert(q[j] == s.last()[j]);
                }
            }
            assert forall|i: int| 0 <= i < segments(p).len() implies slash_free(#[trigger] segments(p)[i]) by {
                if i == s.len() - 1 {
                    assert(segments(p)[i] == q);
                } else {
                    assert(segments(p)[i] == s[i]);
                }
            }
        } else {
            assert forall|i: int| 0 <= i < segments(p).len() implies slash_free(#[trigger] segments(p)[i]) by {
                if i < s.len() {
                    assert(segments(p)[i] == s[i]);
                } else {
                    assert(segments(p)[i] =~= Seq::<char>::empty());
                }
            }
        }
    }
}

proof fn lemma_segments_single(q: Seq<char>)
    requires
        slash_free(q),
    ensures
        segments(q) == seq![q],
    decreases q.len(),
{
    if q.len() > 0 {
        assert(slash_free(q.drop_last())) by {
            assert forall|j: int| 0 <= j < q.drop_last().len() implies q.drop_last()[j] != '/' by {
                assert(q.drop_last()[j] == q[j]);
            }
        }
        lemma_segments_single(q.drop_last());
        assert(q[q.len() - 1] != '/');
        assert(q.drop_last().push(q.last()) =~= q);
        assert(segments(q) =~= seq![q]);
    } else {
        assert(q =~= Seq::<char>::empty());
    }
}

proof fn lemma_segments_split(a: Seq<char>, b: Seq<char>)
    ensures
        segments(a + seq!['/'] + b) == segments(a) + segments(b),
    decreases b.len(),
{
    let p = a + seq!['/'] + b;
    if b.len() == 0 {
        assert(p.drop_last() =~= a);
        assert(p.last() == '/');
        assert(segments(b) == seq![Seq::<char>::empty()]);
        assert(segments(p) =~= segments(a) + segments(b));
    } else {
        lemma_segments_split(a, b.drop_last());
        assert(p.drop_last() =~= a + seq!['/'] + b.drop_last());
        assert(p.last() == b.last());
        lemma_segments_nonempty(b.drop_last());
        lemma_segments_nonempty(a);
        let sa = segments(a);
        let sb = segments(b.drop_last());
        if b.last() == '/' {
            assert(segments(p) =~= sa + sb.push(Seq::empty()));
            assert(segments(b) == sb.push(Seq::empty()));
            assert(sa + sb.push(Seq::empty()) =~= sa + segments(b));
        } else {
            let s = sa + sb;
            assert(segments(p) == s.update(s.len() - 1, s.last().push(b.last())));
            assert(segments(b) == sb.update(sb.len() - 1, sb.last().push(b.last())));
            assert(s.last() == sb.last());
            assert(s.update(s.len() - 1, s.last().push(b.last())) =~= sa + sb.update(
                sb.len() - 1,
                sb.last().push(b.last()),
            ));
        }
    }
}

proof fn lemma_filter_keeps_all(s: Seq<Seq<char>>, p: spec_fn(Seq<char>) -> bool)
    requires
        forall|i: int| 0 <= i < s.len() ==> p(#[trigger] s[i]),
    ensures
        s.filter(p) == s,
    decreases s.len(),
{
    if s.len() == 0 {
        assert(s.filter(p) =~= s) by {
            reveal(Seq::filter);
        }
    } else {
        assert forall|i: int| 0 <= i < s.drop_last().len() implies p(#[trigger] s.drop_last()[i]) by {
            assert(s.drop_last()[i] == s[i]);
        }
        lemma_filter_keeps_all(s.drop_last(), p);
        assert(s =~= s.drop_last().push(s.last()));
        s.drop_last().lemma_filter_push(s.last(), p);
        assert(p(s[s.len() - 1]));
    }
}

/// Writing plain components one after the other gives a path whose
/// segments are those components, which starts with the first of them and
/// does not end with a separator.
proof fn lemma_push_all_plain(parts: Seq<Seq<char>>)
    requires
        forall|i: int| 0 <= i < parts.len() ==> plain_part(#[trigger] parts[i]),
    ensures
        parts.len() == 0 ==> push_all(Seq::empty(), parts) == Seq::<char>::empty(),
        parts.len() > 0 ==> segments(push_all(Seq::empty(), parts)) == parts,
        parts.len() > 0 ==> push_all(Seq::empty(), parts).len() >= parts[0].len(),
        parts.len() > 0 ==> push_all(Seq::empty(), parts).take(parts[0].len() as int) == parts[0],
        parts.len() > 0 ==> push_all(Seq::empty(), parts).last() != '/',
    decreases parts.len(),
{
    if parts.len() > 0 {
        let q = parts.last();
        let prev = parts.drop_last();
        assert forall|i: int| 0 <= i < prev.len() implies plain_part(#[trigger] prev[i]) by {
            assert(prev[i] == parts[i]);
        }
        lemma_push_all_plain(prev);
        let b = push_all(Seq::empty(), prev);
        assert(plain_part(parts[parts.len() - 1]));
        lemma_segments_single(q);
        assert(q[0] != '/');
        assert(q[q.len() - 1] != '/');
        if prev.len() == 0 {
            assert(b =~= Seq::<char>::empty());
            assert(push_all(Seq::empty(), parts) == q);
            assert(parts =~= seq![q]);
            assert(q.take(q.len() as int) =~= q);
        } else {
            assert(prev[0] == parts[0]);
            assert(plain_part(parts[0]));
            assert(b.len() > 0);
            assert(push_all(Seq::empty(), parts) == b + seq!['/'] + q);
            lemma_segments_split(b, q);
            assert(parts =~= prev + seq![q]);
            assert((b + seq!['/'] + q).take(parts[0].len() as int) =~= b.take(parts[0].len() as int));
        }
    }
}

/// A path joined onto a non-empty path `a` keeps the leading component of
/// `a`, when a separator comes between them.
proof fn lemma_leading_extend(a: Seq<char>, x: Seq<char>)
    requires
        a.len() > 0,
        x.len() > 0,
        a.last() != '/' ==> x[0] == '/',
    ensures
        leading_components(a + x) == leading_components(a),
{
    let p = a + x;
    assert(p[0] == a[0]);
    if a.len() >= 2 {
        assert(p[1] == a[1]);
    } else {
        assert(p[1] == x[0]);
        assert(a.last() == a[0]);
    }
    if a =~= seq!['.'] {
        assert(p.len() >= 2);
    }
    if p =~= seq!['.'] {
        assert(false);
    }
}

/// Joining plain components onto `a` appends them to the components of `a`.
proof fn lemma_components_join(a: Seq<char>, parts: Seq<Seq<char>>)
    requires
        forall|i: int| 0 <= i < parts.len() ==> plain_part(#[trigger] parts[i]),
    ensures
        components(join_spec(a, push_all(Seq::empty(), parts))) == components(a) + parts,
{
    let named = |s: Seq<char>| is_named_segment(s);
    let rel = push_all(Seq::empty(), parts);
    let j = join_spec(a, rel);
    lemma_push_all_plain(parts);
    assert forall|i: int| 0 <= i < parts.len() implies named(#[trigger] parts[i]) by {
        assert(plain_part(parts[i]));
    }
    lemma_filter_keeps_all(parts, named);
    let empty_seg = seq![Seq::<char>::empty()];
    assert(empty_seg.filter(named) =~= Seq::<Seq<char>>::empty()) by {
        reveal(Seq::filter);
        assert(!named(Seq::<char>::empty()));
        Seq::<Seq<char>>::empty().lemma_filter_push(Seq::<char>::empty(), named);
        assert(Seq::<Seq<char>>::empty().filter(named) =~= Seq::<Seq<char>>::empty());
        assert(Seq::<Seq<char>>::empty().push(Seq::<char>::empty()) =~= empty_seg);
    }
    if parts.len() > 0 {
        assert(rel.take(parts[0].len() as int)[0] == rel[0]);
        assert(parts[0][0] == rel[0]);
        assert(plain_part(parts[0]));
    }
    if a.len() == 0 {
        if parts.len() == 0 {
            assert(j =~= Seq::<char>::empty());
        } else {
            assert(j =~= rel);
            assert(leading_components(rel) =~= Seq::<Seq<char>>::empty()) by {
                if rel.len() >= 2 {
                    if parts[0].len() >= 2 {
                        assert(rel[1] == rel.take(parts[0].len() as int)[1]);
                        assert(rel[1] == parts[0][1]);
                    } else {
                        assert(parts[0].len() == 1);
                        if rel[0] == '.' {
                            assert(parts[0] =~= seq!['.']);
                        }
                    }
                }
                if rel =~= seq!['.'] {
                    assert(parts[0].len() <= 1);
                    assert(parts[0] =~= seq!['.']);
                }
            }
        }
        assert(segments(a) == seq![Seq::<char>::empty()]);
        assert(leading_components(a) =~= Seq::<Seq<char>>::empty());
        assert(components(a) =~= Seq::<Seq<char>>::empty());
        assert(segments(Seq::<char>::empty()) == empty_seg);
        assert(components(j) =~= components(a) + parts);
    } else if a.last() == '/' {
        let a0 = a.drop_last();
        assert(a =~= a0 + seq!['/'] + Seq::<char>::empty());
        lemma_segments_split(a0, Seq::<char>::empty());
        assert(segments(Seq::<char>::empty()) == empty_seg);
        Seq::filter_distributes_over_add(segments(a0), empty_seg, named);
        if parts.len() == 0 {
            assert(j =~= a);
        } else {
            assert(j =~= a0 + seq!['/'] + rel);
            lemma_segments_split(a0, rel);
            Seq::filter_distributes_over_add(segments(a0), parts, named);
            assert(j =~= a + rel);
            lemma_leading_extend(a, rel);
        }
        assert(components(j) =~= components(a) + parts);
    } else {
        let x = seq!['/'] + rel;
        assert(j =~= a + seq!['/'] + rel);
        assert(j =~= a + x);
        lemma_leading_extend(a, x);
        lemma_segments_split(a, rel);
        if parts.len() == 0 {
            assert(segments(rel) == empty_seg);
            Seq::filter_distributes_over_add(segments(a), empty_seg, named);
        } else {
            Seq::filter_distributes_over_add(segments(a), parts, named);
        }
        assert(components(j) =~= components(a) + parts);
    }
}

/// The relative path leads from `from_dir` to `to`, as a string: joined onto
/// `from_dir`, then read with each `..` taking back the component before it,
/// it gives the components of `to`. This holds where both paths are absolute
/// or both relative, and neither has a `.` or `..` component.
pub proof fn lemma_joined_relative_path_reaches_target(from_dir: Seq<char>, to: Seq<char>)
    requires
        plain_path(from_dir),
        plain_path(to),
        is_absolute(from_dir) == is_absolute(to),
    ensures
        walk(Seq::empty(), components(join_spec(from_dir, relative_path_spec(from_dir, to)))) == components(
            to,
        ),
{
    let named = |s: Seq<char>| is_named_segment(s);
    let f = components(from_dir);
    let t = components(to);
    let k = common_prefix_len(f, t);
    lemma_common_prefix(f, t);
    let m = (f.len() - k) as nat;
    let parts = relative_components(from_dir, to);
    assert(parts == ups(m) + t.skip(k as int));
    lemma_segments_slash_free(to);
    let segs = segments(to).filter(named);
    assert forall|i: int| 0 <= i < segs.len() implies plain_part(#[trigger] segs[i]) by {
        segments(to).lemma_filter_pred(named, i);
        assert(segs.contains(segs[i]));
        segments(to).lemma_filter_contains_rev(named, segs[i]);
        let w = choose|w: int| 0 <= w < segments(to).len() && segments(to)[w] == segs[i];
        assert(slash_free(segments(to)[w]));
    }
    if is_absolute(to) {
        assert(leading_components(to) == seq![seq!['/']]);
        assert(leading_components(from_dir) == seq![seq!['/']]);
        assert(t[0] == seq!['/']);
        assert(f[0] == seq!['/']);
        assert(k >= 1);
        assert forall|j: int| 1 <= j < t.len() implies plain_part(#[trigger] t[j]) by {
            assert(t[j] == segs[j - 1]);
        }
    } else {
        if leading_components(to).len() > 0 {
            assert(t[0] == seq!['.']);
            assert(false);
        }
        assert(leading_components(to) =~= Seq::<Seq<char>>::empty());
        assert(t =~= segs);
    }
    assert forall|i: int| 0 <= i < parts.len() implies plain_part(#[trigger] parts[i]) by {
        if i < m {
            assert(parts[i] == seq!['.', '.']);
            let q = seq!['.', '.'];
            assert(q != seq!['.']) by {
                assert(q.len() != 1);
            }
        } else {
            assert(parts[i] == t[i - m + k]);
        }
    }
    lemma_components_join(from_dir, parts);
    assert forall|i: int| 0 <= i < f.len() implies #[trigger] f[i] != parent_component() by {}
    lemma_walk_down(Seq::empty(), f);
    assert(Seq::<Seq<char>>::empty() + f =~= f);
    lemma_walk_concat(Seq::empty(), f, parts);
    assert forall|i: int| 0 <= i < t.len() implies #[trigger] t[i] != parent_component() by {}
    lemma_relative_path_reaches_target(from_dir, to);
}

} // verus!
