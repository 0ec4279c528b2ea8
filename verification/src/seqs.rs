//! Splitting and joining of character sequences, with exact specifications.

use vstd::prelude::*;

verus! {

/// The views of the elements of a sequence, in order.
pub open spec fn seq_views<T: View>(s: Seq<T>) -> Seq<T::V> {
    Seq::new(s.len(), |i: int| s[i]@)
}

/// Splits a character sequence at every occurrence of `sep`.  The result
/// always holds at least one part; separators are not kept.
pub open spec fn spec_split_on(sep: char, s: Seq<char>) -> Seq<Seq<char>>
    decreases s.len(),
{
    if s.len() == 0 {
        seq![Seq::<char>::empty()]
    } else {
        let r = spec_split_on(sep, s.drop_last());
        if s.last() == sep {
            r.push(Seq::<char>::empty())
        } else {
            r.update(r.len() - 1, r.last().push(s.last()))
        }
    }
}

pub proof fn lemma_split_on_nonempty(sep: char, s: Seq<char>)
    ensures
        spec_split_on(sep, s).len() >= 1,
    decreases s.len(),
{
    if s.len() > 0 {
        lemma_split_on_nonempty(sep, s.drop_last());
    }
}

/// Splits a character vector at every occurrence of `sep`.
pub fn split_chars(v: &Vec<char>, sep: char) -> (r: Vec<Vec<char>>)
    ensures
        seq_views(r@) == spec_split_on(sep, v@),
        r@.len() >= 1,
{
    let mut r: Vec<Vec<char>> = Vec::new();
    let mut cur: Vec<char> = Vec::new();
    let mut i: usize = 0;
    assert(v@.take(0) =~= Seq::<char>::empty());
    assert(seq_views(r@).push(cur@) =~= spec_split_on(sep, v@.take(0)));
    while i < v.len()
        invariant
            i <= v@.len(),
            spec_split_on(sep, v@.take(i as int)) =~= seq_views(r@).push(cur@),
        decreases v@.len() - i,
    {
        proof {
            assert(v@.take(i + 1).drop_last() =~= v@.take(i as int));
            assert(v@.take(i + 1).last() == v@[i as int]);
            lemma_split_on_nonempty(sep, v@.take(i as int));
        }
        let ghost old_r = r@;
        let ghost old_cur = cur@;
        if v[i] == sep {
            r.push(cur);
            cur = Vec::new();
            assert(seq_views(r@) =~= seq_views(old_r).push(old_cur));
            assert(spec_split_on(sep, v@.take(i + 1)) =~= seq_views(r@).push(cur@));
        } else {
            cur.push(v[i]);
            assert(spec_split_on(sep, v@.take(i + 1)) =~= (seq_views(old_r).push(
                old_cur,
            )).update((seq_views(old_r).push(old_cur)).len() - 1, old_cur.push(v@[i as int])));
            assert((seq_views(old_r).push(old_cur)).update(
                (seq_views(old_r).push(old_cur)).len() - 1,
                old_cur.push(v@[i as int]),
            ) =~= seq_views(r@).push(cur@));
        }
        i = i + 1;
    }
    assert(v@.take(v@.len() as int) =~= v@);
    r.push(cur);
    assert(seq_views(r@) =~= spec_split_on(sep, v@));
    r
}

/// Copies the characters of `v` between `a` (included) and `b` (excluded).
pub fn subrange_vec(v: &Vec<char>, a: usize, b: usize) -> (r: Vec<char>)
    requires
        a <= b <= v@.len(),
    ensures
        r@ == v@.subrange(a as int, b as int),
{
    let mut r: Vec<char> = Vec::new();
    let mut i: usize = a;
    while i < b
        invariant
            a <= i <= b <= v@.len(),
            r@ == v@.subrange(a as int, i as int),
        decreases b - i,
    {
        assert(v@.subrange(a as int, (i + 1) as int) =~= v@.subrange(a as int, i as int).push(
            v@[i as int],
        ));
        r.push(v[i]);
        i = i + 1;
    }
    r
}

/// Joins parts with `sep` between neighbouring parts.
pub open spec fn spec_join(parts: Seq<Seq<char>>, sep: char) -> Seq<char>
    decreases parts.len(),
{
    if parts.len() == 0 {
        Seq::<char>::empty()
    } else if parts.len() == 1 {
        parts[0]
    } else {
        spec_join(parts.drop_last(), sep) + seq![sep] + parts.last()
    }
}

/// Joins character vectors with `sep` between neighbouring parts.
pub fn join_chars(v: &Vec<Vec<char>>, sep: char) -> (r: Vec<char>)
    ensures
        r@ == spec_join(seq_views(v@), sep),
{
    let mut r: Vec<char> = Vec::new();
    let mut i: usize = 0;
    assert(seq_views(v@).take(0) =~= Seq::<Seq<char>>::empty());
    while i < v.len()
        invariant
            i <= v@.len(),
            r@ == spec_join(seq_views(v@).take(i as int), sep),
        decreases v@.len() - i,
    {
        proof {
            assert(seq_views(v@).take(i + 1).drop_last() =~= seq_views(v@).take(i as int));
            assert(seq_views(v@).take(i + 1).last() == v@[i as int]@);
        }
        if i > 0 {
            r.push(sep);
        }
        let mut j: usize = 0;
        let ghost base = r@;
        while j < v[i].len()
            invariant
                j <= v@[i as int]@.len(),
                i < v@.len(),
                r@ == base + v@[i as int]@.take(j as int),
            decreases v@[i as int]@.len() - j,
        {
            assert(v@[i as int]@.take(j + 1) =~= v@[i as int]@.take(j as int).push(
                v@[i as int]@[j as int],
            ));
            let c = v[i][j];
            r.push(c);
            j = j + 1;
        }
        assert(v@[i as int]@.take(v@[i as int]@.len() as int) =~= v@[i as int]@);
        proof {
            if i == 0 {
                assert(r@ =~= spec_join(seq_views(v@).take(i + 1), sep));
            } else {
                assert(r@ =~= spec_join(seq_views(v@).take(i + 1), sep));
            }
        }
        i = i + 1;
    }
    assert(seq_views(v@).take(v@.len() as int) =~= seq_views(v@));
    r
}

/// Keeps only the non-empty parts, in order.
pub open spec fn spec_filter_nonempty(parts: Seq<Seq<char>>) -> Seq<Seq<char>>
    decreases parts.len(),
{
    if parts.len() == 0 {
        Seq::<Seq<char>>::empty()
    } else {
        let r = spec_filter_nonempty(parts.drop_last());
        if parts.last().len() > 0 {
            r.push(parts.last())
        } else {
            r
        }
    }
}

/// Keeps only the non-empty parts, in order.
pub fn filter_nonempty(v: Vec<Vec<char>>) -> (r: Vec<Vec<char>>)
    ensures
        seq_views(r@) == spec_filter_nonempty(seq_views(v@)),
{
    let mut r: Vec<Vec<char>> = Vec::new();
    let mut i: usize = 0;
    assert(seq_views(v@).take(0) =~= Seq::<Seq<char>>::empty());
    assert(seq_views(r@) =~= spec_filter_nonempty(seq_views(v@).take(0)));
    let n = v.len();
    let mut v = v;
    let ghost v0 = v@;
    let mut out_idx: usize = 0;
    while out_idx < n
        invariant
            out_idx <= v0.len(),
            n == v0.len(),
            v@ == v0,
            seq_views(r@) =~= spec_filter_nonempty(seq_views(v0).take(out_idx as int)),
        decreases n - out_idx,
    {
        proof {
            assert(seq_views(v0).take(out_idx + 1).drop_last() =~= seq_views(v0).take(
                out_idx as int,
            ));
            assert(seq_views(v0).take(out_idx + 1).last() == v0[out_idx as int]@);
        }
        if v[out_idx].len() > 0 {
            let ghost old_r = seq_views(r@);
            let mut part: Vec<char> = Vec::new();
            let mut j: usize = 0;
            while j < v[out_idx].len()
                invariant
                    out_idx < v0.len(),
                    v@ == v0,
                    j <= v0[out_idx as int]@.len(),
                    part@ == v0[out_idx as int]@.take(j as int),
                decreases v0[out_idx as int]@.len() - j,
            {
                assert(v0[out_idx as int]@.take(j + 1) =~= v0[out_idx as int]@.take(
                    j as int,
                ).push(v0[out_idx as int]@[j as int]));
                let c = v[out_idx][j];
                part.push(c);
                j = j + 1;
            }
            assert(v0[out_idx as int]@.take(v0[out_idx as int]@.len() as int) =~= v0[
                out_idx as int
            ]@);
            r.push(part);
            assert(seq_views(r@) =~= old_r.push(v0[out_idx as int]@));
        }
        out_idx = out_idx + 1;
    }
    assert(seq_views(v0).take(v0.len() as int) =~= seq_views(v0));
    r
}

} // verus!
