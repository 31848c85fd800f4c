//! Lexical normalization of a relative path: empty and `.` segments are
//! dropped, and each `..` takes away the segment before it.
use vstd::prelude::*;
use crate::text::push_span;

verus! {

/// The segments of `s` between its `/`s (one empty segment for empty `s`).
pub open spec fn split_segments(s: Seq<char>) -> Seq<Seq<char>>
    decreases s.len(),
{
    if s.len() == 0 {
        seq![Seq::empty()]
    } else {
        let r = split_segments(s.drop_last());
        if s.last() == '/' {
            r.push(Seq::empty())
        } else {
            r.update(r.len() - 1, r.last().push(s.last()))
        }
    }
}

/// A segment that names the directory it stands in: empty, or `.`.
pub open spec fn is_current(seg: Seq<char>) -> bool {
    seg.len() == 0 || seg == seq!['.']
}

/// The segment `..`.
pub open spec fn is_parent(seg: Seq<char>) -> bool {
    seg == seq!['.', '.']
}

/// The kept segments after one more segment; `None` once a `..` has climbed
/// above the start.
pub open spec fn apply_segment(kept: Option<Seq<Seq<char>>>, seg: Seq<char>) -> Option<
    Seq<Seq<char>>,
> {
    match kept {
        None => None,
        Some(k) => if is_current(seg) {
            Some(k)
        } else if is_parent(seg) {
            if k.len() == 0 {
                None
            } else {
                Some(k.drop_last())
            }
        } else {
            Some(k.push(seg))
        },
    }
}

/// The segments kept after applying `segs` in order from the start.
pub open spec fn normalize(segs: Seq<Seq<char>>) -> Option<Seq<Seq<char>>>
    decreases segs.len(),
{
    if segs.len() == 0 {
        Some(Seq::empty())
    } else {
        apply_segment(normalize(segs.drop_last()), segs.last())
    }
}

/// `segs` joined with `/` between them.
pub open spec fn unsplit(segs: Seq<Seq<char>>) -> Seq<char>
    decreases segs.len(),
{
    if segs.len() == 0 {
        Seq::empty()
    } else if segs.len() == 1 {
        segs[0]
    } else {
        unsplit(segs.drop_last()) + seq!['/'] + segs.last()
    }
}

/// `rel` with its `.`, empty and `..` segments worked out, or `None` when a
/// `..` climbs above where `rel` starts.
pub open spec fn normalized(rel: Seq<char>) -> Option<Seq<char>> {
    match normalize(split_segments(rel)) {
        Some(k) => Some(unsplit(k)),
        None => None,
    }
}

/// Every segment kept by `normalize` is an ordinary name: not empty, `.` or `..`.
pub proof fn lemma_normalize_plain(segs: Seq<Seq<char>>)
    ensures
        normalize(segs) matches Some(k) ==> forall|j: int|
            0 <= j < k.len() ==> !is_current(#[trigger] k[j]) && !is_parent(k[j]),
    decreases segs.len(),
{
    if segs.len() > 0 {
        lemma_normalize_plain(segs.drop_last());
    }
}

proof fn lemma_split_last(s: Seq<char>, k: int)
    requires
        0 <= k <= s.len(),
        forall|i: int| k <= i < s.len() ==> s[i] != '/',
        k == 0 || s[k - 1] == '/',
    ensures
        split_segments(s) == (if k == 0 {
            Seq::<Seq<char>>::empty()
        } else {
            split_segments(s.subrange(0, k - 1))
        }).push(s.subrange(k, s.len() as int)),
    decreases s.len(),
{
    if s.len() == 0 {
        assert(s.subrange(0, 0) =~= Seq::<char>::empty());
        assert(split_segments(s) =~= Seq::<Seq<char>>::empty().push(s.subrange(0, 0)));
    } else if k == s.len() {
        assert(s.drop_last() =~= s.subrange(0, k - 1));
        assert(s.subrange(k, k) =~= Seq::<char>::empty());
    } else {
        lemma_split_last(s.drop_last(), k);
        if k > 0 {
            assert(s.drop_last().subrange(0, k - 1) =~= s.subrange(0, k - 1));
        }
        assert(s.drop_last().subrange(k, s.len() - 1).push(s.last()) =~= s.subrange(
            k,
            s.len() as int,
        ));
        let p = if k == 0 {
            Seq::<Seq<char>>::empty()
        } else {
            split_segments(s.subrange(0, k - 1))
        };
        let r = split_segments(s.drop_last());
        assert(r.update(r.len() - 1, r.last().push(s.last())) =~= p.push(
            s.subrange(k, s.len() as int),
        ));
    }
}

/// The text of each span of `t`.
pub open spec fn spans_view(t: Seq<char>, spans: Seq<(usize, usize)>) -> Seq<Seq<char>> {
    Seq::new(spans.len(), |j: int| t.subrange(spans[j].0 as int, spans[j].1 as int))
}

/// Whether every span lies within `t`.
pub open spec fn spans_within(t: Seq<char>, spans: Seq<(usize, usize)>) -> bool {
    forall|j: int| 0 <= j < spans.len() ==> #[trigger] spans[j].0 <= spans[j].1 <= t.len()
}

/// Applies the segment `t[a..b]` to the kept spans; `false` when it is a `..`
/// with nothing left to take away.
fn apply_span(t: &Vec<char>, kept: &mut Vec<(usize, usize)>, a: usize, b: usize) -> (ok: bool)
    requires
        a <= b <= t@.len(),
        spans_within(t@, old(kept)@),
    ensures
        spans_within(t@, final(kept)@),
        apply_segment(Some(spans_view(t@, old(kept)@)), t@.subrange(a as int, b as int)) == (if ok {
            Some(spans_view(t@, final(kept)@))
        } else {
            None
        }),
{
    let ghost seg = t@.subrange(a as int, b as int);
    let n = b - a;
    if n == 0 || (n == 1 && t[a] == '.') {
        if n == 1 {
            assert(seg =~= seq!['.']);
        }
        true
    } else if n == 2 && t[a] == '.' && t[a + 1] == '.' {
        assert(seg =~= seq!['.', '.']);
        assert(seg != seq!['.']);
        if kept.len() == 0 {
            false
        } else {
            kept.pop();
            assert(spans_view(t@, kept@) =~= spans_view(t@, old(kept)@).drop_last());
            true
        }
    } else {
        assert(seg.len() != 1 || seg[0] != '.');
        assert(!is_current(seg));
        assert(seg.len() != 2 || seg[0] != '.' || seg[1] != '.');
        assert(!is_parent(seg));
        kept.push((a, b));
        assert(spans_view(t@, kept@) =~= spans_view(t@, old(kept)@).push(seg));
        true
    }
}

/// `t[from..to]` normalized, or `None` when a `..` climbs above its start.
pub fn normalize_span(t: &Vec<char>, from: usize, to: usize) -> (r: Option<Vec<char>>)
    requires
        from <= to <= t@.len(),
    ensures
        r matches Some(p) ==> normalized(t@.subrange(from as int, to as int)) == Some(p@),
        r is None ==> normalized(t@.subrange(from as int, to as int)) is None,
{
    let ghost rel = t@.subrange(from as int, to as int);
    let mut kept: Vec<(usize, usize)> = Vec::new();
    let mut ok = true;
    let mut seg_start: usize = from;
    let mut i: usize = from;
    while i < to
        invariant
            from <= seg_start <= i <= to <= t@.len(),
            rel == t@.subrange(from as int, to as int),
            forall|k: int| seg_start <= k < i ==> t@[k] != '/',
            seg_start == from || t@[seg_start - 1] == '/',
            spans_within(t@, kept@),
            normalize(
                if seg_start == from {
                    Seq::<Seq<char>>::empty()
                } else {
                    split_segments(rel.subrange(0, seg_start - from - 1))
                },
            ) == (if ok {
                Some(spans_view(t@, kept@))
            } else {
                None
            }),
        decreases to - i,
    {
        if t[i] == '/' {
            let ghost done = if seg_start == from {
                Seq::<Seq<char>>::empty()
            } else {
                split_segments(rel.subrange(0, seg_start - from - 1))
            };
            let ghost s = rel.subrange(0, i - from);
            proof {
                assert forall|k: int| seg_start - from <= k < s.len() implies s[k] != '/' by {
                    assert(s[k] == t@[from + k]);
                }
                if seg_start > from {
                    assert(s[seg_start - from - 1] == t@[seg_start - 1]);
                    assert(s.subrange(0, seg_start - from - 1) =~= rel.subrange(0, seg_start - from - 1));
                }
                lemma_split_last(s, seg_start - from);
                assert(s.subrange(seg_start - from, s.len() as int) =~= t@.subrange(
                    seg_start as int,
                    i as int,
                ));
            }
            assert(split_segments(s) == done.push(t@.subrange(seg_start as int, i as int)));
            assert(done.push(t@.subrange(seg_start as int, i as int)).drop_last() =~= done);
            if ok {
                ok = apply_span(t, &mut kept, seg_start, i);
            }
            seg_start = i + 1;
            assert(rel.subrange(0, seg_start - from - 1) == s);
        }
        i = i + 1;
    }
    proof {
        assert forall|k: int| seg_start - from <= k < rel.len() implies rel[k] != '/' by {
            assert(rel[k] == t@[from + k]);
        }
        if seg_start > from {
            assert(rel[seg_start - from - 1] == t@[seg_start - 1]);
        }
        lemma_split_last(rel, seg_start - from);
        assert(rel.subrange(seg_start - from, rel.len() as int) =~= t@.subrange(
            seg_start as int,
            to as int,
        ));
    }
    let ghost done = if seg_start == from {
        Seq::<Seq<char>>::empty()
    } else {
        split_segments(rel.subrange(0, seg_start - from - 1))
    };
    assert(split_segments(rel) == done.push(t@.subrange(seg_start as int, to as int)));
    assert(done.push(t@.subrange(seg_start as int, to as int)).drop_last() =~= done);
    if ok {
        ok = apply_span(t, &mut kept, seg_start, to);
    }
    if !ok {
        return None;
    }
    let ghost segs = spans_view(t@, kept@);
    let mut out: Vec<char> = Vec::new();
    let mut j: usize = 0;
    while j < kept.len()
        invariant
            j <= kept@.len(),
            spans_within(t@, kept@),
            segs == spans_view(t@, kept@),
            out@ == unsplit(segs.take(j as int)),
        decreases kept@.len() - j,
    {
        let (a, b) = kept[j];
        assert(segs.take(j + 1).drop_last() =~= segs.take(j as int));
        if j > 0 {
            out.push('/');
        } else {
            assert(out@ =~= Seq::<char>::empty());
        }
        push_span(&mut out, t, a, b);
        assert(segs[j as int] == t@.subrange(a as int, b as int));
        if j == 0 {
            assert(out@ =~= segs.take(1)[0]);
        } else {
            assert(out@ =~= unsplit(segs.take(j as int)) + seq!['/'] + segs.take(j + 1).last());
        }
        j = j + 1;
    }
    assert(segs.take(kept@.len() as int) =~= segs);
    Some(out)
}

} // verus!
