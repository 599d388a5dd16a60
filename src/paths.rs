//! Paths as text: joining, splitting into segments, and the prefix relation
//! between paths, segment by segment.
use vstd::prelude::*;

verus! {

/// `b` appended to `a` as a path: an absolute `b` replaces `a`, and a
/// separator is put between the two where `a` lacks one.
pub open spec fn joined(a: Seq<char>, b: Seq<char>) -> Seq<char> {
    if b.len() > 0 && b[0] == '/' {
        b
    } else if a.len() == 0 {
        b
    } else if a[a.len() - 1] == '/' {
        a + b
    } else {
        a + seq!['/'] + b
    }
}

/// `b` appended to `a` as a path.
pub fn join(a: &str, b: &str) -> (r: String)
    ensures
        r@ == joined(a@, b@),
{
    let nb = b.unicode_len();
    if nb > 0 && b.get_char(0) == '/' {
        return b.to_string();
    }
    let na = a.unicode_len();
    if na == 0 {
        return b.to_string();
    }
    let mut r = a.to_string();
    if a.get_char(na - 1) != '/' {
        r.append("/");
        proof {
            reveal_strlit("/");
        }
    }
    r.append(b);
    r
}

pub open spec fn is_absolute(s: Seq<char>) -> bool {
    s.len() > 0 && s[0] == '/'
}

/// The segment under construction joins the finished ones, unless it is
/// empty, or is `.` anywhere but at the start of a relative path.
pub open spec fn flush(done: Seq<Seq<char>>, cur: Seq<char>, abs: bool) -> Seq<Seq<char>> {
    if cur.len() == 0 || (cur == seq!['.'] && (done.len() > 0 || abs)) {
        done
    } else {
        done.push(cur)
    }
}

/// The finished segments of a path, and the one under construction.
pub open spec fn segment_state(s: Seq<char>, abs: bool) -> (Seq<Seq<char>>, Seq<char>)
    decreases s.len(),
{
    if s.len() == 0 {
        (Seq::empty(), Seq::empty())
    } else {
        let (done, cur) = segment_state(s.drop_last(), abs);
        if s.last() == '/' {
            (flush(done, cur, abs), Seq::empty())
        } else {
            (done, cur.push(s.last()))
        }
    }
}

/// The segments of a path: the parts between separators, with empty parts
/// left out, and `.` parts too but for a leading one of a relative path.
pub open spec fn segments(s: Seq<char>) -> Seq<Seq<char>> {
    let st = segment_state(s, is_absolute(s));
    flush(st.0, st.1, is_absolute(s))
}

/// Whether path `p` lies at or under path `base`: the empty path is a
/// prefix of every path; otherwise both are absolute or both relative, and
/// the segments of `base` start those of `p`.
pub open spec fn path_under(p: Seq<char>, base: Seq<char>) -> bool {
    base.len() == 0 || (is_absolute(p) == is_absolute(base) && segments(base).len() <= segments(
        p,
    ).len() && segments(p).take(segments(base).len() as int) == segments(base))
}

/// The segments of a path.
pub fn split_segments(s: &str) -> (r: Vec<String>)
    ensures
        r@.map_values(|x: String| x@) == segments(s@),
{
    let n = s.unicode_len();
    let abs = n > 0 && s.get_char(0) == '/';
    let mut done: Vec<String> = Vec::new();
    let mut cur = String::new();
    let mut i: usize = 0;
    while i < n
        invariant
            n == s@.len(),
            i <= n,
            abs == is_absolute(s@),
            done@.map_values(|x: String| x@) == segment_state(s@.take(i as int), abs).0,
            cur@ == segment_state(s@.take(i as int), abs).1,
        decreases n - i,
    {
        let c = s.get_char(i);
        proof {
            assert(s@.take(i + 1).drop_last() =~= s@.take(i as int));
        }
        if c == '/' {
            push_segment(&mut done, cur, abs);
            cur = String::new();
        } else {
            let mut one = String::new();
            one.append(s.substring_char(i, i + 1));
            proof {
                assert(s@.subrange(i as int, i + 1) =~= seq![c]);
            }
            cur.append(one.as_str());
            assert(cur@ =~= segment_state(s@.take(i as int), abs).1.push(c));
        }
        i = i + 1;
    }
    assert(s@.take(n as int) =~= s@);
    push_segment(&mut done, cur, abs);
    done
}

/// Adds a finished segment unless `flush` leaves it out.
fn push_segment(done: &mut Vec<String>, cur: String, abs: bool)
    ensures
        final(done)@.map_values(|x: String| x@) == flush(
            old(done)@.map_values(|x: String| x@),
            cur@,
            abs,
        ),
{
    let ghost before = done@;
    let n = cur.unicode_len();
    let is_dot = n == 1 && cur.as_str().get_char(0) == '.';
    if is_dot {
        assert(cur@ =~= seq!['.']);
    }
    if n == 0 || (is_dot && (done.len() > 0 || abs)) {
        return;
    }
    done.push(cur);
    assert(done@.map_values(|x: String| x@) =~= before.map_values(|x: String| x@).push(cur@));
}

/// Whether path `p` lies at or under path `base`.
pub fn is_under(p: &str, base: &str) -> (r: bool)
    ensures
        r == path_under(p@, base@),
{
    if base.unicode_len() == 0 {
        return true;
    }
    let abs_p = p.unicode_len() > 0 && p.get_char(0) == '/';
    let abs_b = base.unicode_len() > 0 && base.get_char(0) == '/';
    if abs_p != abs_b {
        return false;
    }
    let ps = split_segments(p);
    let bs = split_segments(base);
    let ghost pv = ps@.map_values(|x: String| x@);
    let ghost bv = bs@.map_values(|x: String| x@);
    if bs.len() > ps.len() {
        return false;
    }
    let mut i: usize = 0;
    while i < bs.len()
        invariant
            bs.len() <= ps.len(),
            pv == ps@.map_values(|x: String| x@),
            bv == bs@.map_values(|x: String| x@),
            pv == segments(p@),
            bv == segments(base@),
            is_absolute(p@) == is_absolute(base@),
            i <= bs.len(),
            forall|j: int| 0 <= j < i ==> pv[j] == bv[j],
        decreases bs.len() - i,
    {
        assert(pv[i as int] == ps@[i as int]@ && bv[i as int] == bs@[i as int]@);
        if ps[i] != bs[i] {
            assert(pv.take(bv.len() as int)[i as int] != bv[i as int]);
            return false;
        }
        i = i + 1;
    }
    assert(pv.take(bv.len() as int) =~= bv);
    true
}


/// Finished segments are never taken back as a path grows.
proof fn lemma_done_grows(s: Seq<char>, t: Seq<char>, abs: bool)
    ensures
        segment_state(s + t, abs).0.len() >= segment_state(s, abs).0.len(),
        segment_state(s + t, abs).0.take(segment_state(s, abs).0.len() as int)
            == segment_state(s, abs).0,
    decreases t.len(),
{
    if t.len() == 0 {
        assert(s + t =~= s);
        assert(segment_state(s, abs).0.take(segment_state(s, abs).0.len() as int) =~= segment_state(
            s,
            abs,
        ).0);
    } else {
        lemma_done_grows(s, t.drop_last(), abs);
        assert((s + t).drop_last() =~= s + t.drop_last());
        let d0 = segment_state(s, abs).0;
        let d1 = segment_state(s + t.drop_last(), abs).0;
        let d2 = segment_state(s + t, abs).0;
        assert(d2 == d1 || d2 == d1.push(segment_state(s + t.drop_last(), abs).1));
        assert(d2.take(d0.len() as int) =~= d1.take(d0.len() as int));
    }
}

/// The segments of a path are the finished ones once a separator ends it.
proof fn lemma_segments_with_separator(a: Seq<char>, abs: bool)
    requires
        a.len() > 0,
        is_absolute(a) == abs,
    ensures
        ({
            let s = if a[a.len() - 1] == '/' {
                a
            } else {
                a + seq!['/']
            };
            segment_state(s, abs).0 == segments(a)
        }),
{
    if a[a.len() - 1] == '/' {
        assert(a.drop_last().push(a.last()) =~= a);
    } else {
        assert((a + seq!['/']).drop_last() =~= a);
    }
}

/// A relative path joined to a nonempty base lies under that base.
pub proof fn lemma_join_under(a: Seq<char>, b: Seq<char>)
    requires
        !is_absolute(b),
    ensures
        path_under(joined(a, b), a),
{
    if a.len() > 0 {
        let abs = is_absolute(a);
        let s = if a[a.len() - 1] == '/' {
            a
        } else {
            a + seq!['/']
        };
        lemma_segments_with_separator(a, abs);
        let j = joined(a, b);
        if a[a.len() - 1] == '/' {
            assert(j =~= s + b);
        } else {
            assert(j =~= s + b);
        }
        assert(is_absolute(j) == abs);
        lemma_done_grows(s, b, abs);
        let st = segment_state(j, abs);
        let segs = segments(a);
        assert(st.0.take(segs.len() as int) == segs);
        let full = flush(st.0, st.1, abs);
        assert(full.take(segs.len() as int) =~= st.0.take(segs.len() as int));
    }
}

/// Lying under a path that lies under a base is lying under the base.
pub proof fn lemma_under_trans(p: Seq<char>, q: Seq<char>, base: Seq<char>)
    requires
        path_under(p, q),
        path_under(q, base),
        q.len() > 0,
    ensures
        path_under(p, base),
{
    if base.len() > 0 {
        let n = segments(base).len() as int;
        assert(segments(p).take(n) =~= segments(p).take(segments(q).len() as int).take(n));
    }
}

} // verus!
