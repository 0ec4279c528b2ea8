//! Line-ending normalization and the splitter: the input text becomes an
//! ordered sequence of per-tree slices, where trees are separated by one
//! or more fully blank lines.  Each slice keeps the index of its first
//! line so diagnostics can report absolute positions.

use vstd::prelude::*;

use crate::seqs::{seq_views, subrange_vec};

verus! {

/// The input with `\r\n` and lone `\r` both replaced by `\n`.
pub open spec fn spec_normalize(t: Seq<char>) -> Seq<char>
    decreases t.len(),
{
    if t.len() == 0 {
        Seq::<char>::empty()
    } else if t[0] == '\r' && t.len() >= 2 && t[1] == '\n' {
        seq!['\n'] + spec_normalize(t.subrange(2, t.len() as int))
    } else if t[0] == '\r' {
        seq!['\n'] + spec_normalize(t.subrange(1, t.len() as int))
    } else {
        seq![t[0]] + spec_normalize(t.subrange(1, t.len() as int))
    }
}

/// Unifies line endings to `\n`.
pub fn normalize(t: &Vec<char>) -> (r: Vec<char>)
    ensures
        r@ == spec_normalize(t@),
{
    let len = t.len();
    let mut r: Vec<char> = Vec::new();
    let mut i: usize = 0;
    assert(t@.subrange(0, len as int) =~= t@);
    while i < len
        invariant
            i <= len,
            len == t@.len(),
            spec_normalize(t@) == r@ + spec_normalize(t@.subrange(i as int, len as int)),
        decreases len - i,
    {
        let ghost suf = t@.subrange(i as int, len as int);
        let ghost old_r = r@;
        if t[i] == '\r' && i + 1 < len && t[i + 1] == '\n' {
            proof {
                assert(suf.subrange(2, suf.len() as int) =~= t@.subrange(i + 2, len as int));
            }
            r.push('\n');
            proof {
                assert(old_r + (seq!['\n'] + spec_normalize(t@.subrange(i + 2, len as int)))
                    =~= r@ + spec_normalize(t@.subrange(i + 2, len as int)));
            }
            i = i + 2;
        } else if t[i] == '\r' {
            proof {
                assert(suf.subrange(1, suf.len() as int) =~= t@.subrange(i + 1, len as int));
            }
            r.push('\n');
            proof {
                assert(old_r + (seq!['\n'] + spec_normalize(t@.subrange(i + 1, len as int)))
                    =~= r@ + spec_normalize(t@.subrange(i + 1, len as int)));
            }
            i = i + 1;
        } else {
            proof {
                assert(suf.subrange(1, suf.len() as int) =~= t@.subrange(i + 1, len as int));
            }
            r.push(t[i]);
            proof {
                assert(old_r + (seq![t@[i as int]] + spec_normalize(
                    t@.subrange(i + 1, len as int),
                )) =~= r@ + spec_normalize(t@.subrange(i + 1, len as int)));
            }
            i = i + 1;
        }
    }
    assert(spec_normalize(t@.subrange(len as int, len as int)) == Seq::<char>::empty());
    assert(r@ + Seq::<char>::empty() =~= r@);
    r
}

/// A fully blank line: every character is a space or a tab.
pub open spec fn spec_is_blank(l: Seq<char>) -> bool {
    forall|i: int| 0 <= i < l.len() ==> l[i] == ' ' || l[i] == '\t'
}

/// Whether a line is fully blank.
pub fn is_blank(l: &Vec<char>) -> (r: bool)
    ensures
        r == spec_is_blank(l@),
{
    let mut i: usize = 0;
    while i < l.len()
        invariant
            i <= l@.len(),
            forall|j: int| 0 <= j < i ==> l@[j] == ' ' || l@[j] == '\t',
        decreases l@.len() - i,
    {
        if !(l[i] == ' ' || l[i] == '\t') {
            return false;
        }
        i = i + 1;
    }
    true
}

/// The length of the maximal non-blank prefix.
pub open spec fn spec_run_len(lines: Seq<Seq<char>>) -> nat
    decreases lines.len(),
{
    if lines.len() == 0 || spec_is_blank(lines[0]) {
        0
    } else {
        1 + spec_run_len(lines.subrange(1, lines.len() as int))
    }
}

/// The mathematical shape of one tree slice: the index of its first line
/// in the whole input, and its lines.
pub struct TreeSliceV {
    pub start: usize,
    pub lines: Seq<Seq<char>>,
}

/// One tree's contiguous lines, with the index of the first one.
pub struct TreeSlice {
    pub start: usize,
    pub lines: Vec<Vec<char>>,
}

impl View for TreeSlice {
    type V = TreeSliceV;

    open spec fn view(&self) -> TreeSliceV {
        TreeSliceV { start: self.start, lines: seq_views(self.lines@) }
    }
}

/// The slices of maximal runs of non-blank lines, in order; `base` is the
/// index of `lines[0]` in the whole input.
pub open spec fn spec_split_trees(lines: Seq<Seq<char>>, base: usize) -> Seq<TreeSliceV>
    decreases lines.len(),
{
    if lines.len() == 0 {
        Seq::<TreeSliceV>::empty()
    } else if spec_is_blank(lines[0]) {
        spec_split_trees(lines.subrange(1, lines.len() as int), (base + 1) as usize)
    } else {
        let n = spec_run_len(lines) as int;
        let m = if n <= lines.len() {
            n
        } else {
            lines.len() as int
        };
        seq![TreeSliceV { start: base, lines: lines.subrange(0, m) }] + spec_split_trees(
            lines.subrange(m, lines.len() as int),
            (base + m) as usize,
        )
    }
}

pub proof fn lemma_run_len_le(lines: Seq<Seq<char>>)
    ensures
        spec_run_len(lines) <= lines.len(),
    decreases lines.len(),
{
    if lines.len() > 0 && !spec_is_blank(lines[0]) {
        lemma_run_len_le(lines.subrange(1, lines.len() as int));
    }
}

/// Splits the input's lines into per-tree slices separated by blank lines.
pub fn split_trees(lines: &Vec<Vec<char>>) -> (r: Vec<TreeSlice>)
    ensures
        seq_views(r@) == spec_split_trees(seq_views(lines@), 0),
        forall|k: int|
            0 <= k < r@.len() ==> #[trigger] r@[k]@.start + r@[k]@.lines.len() <= lines@.len(),
{
    let ghost all = seq_views(lines@);
    let len = lines.len();
    let mut out: Vec<TreeSlice> = Vec::new();
    let mut i: usize = 0;
    assert(all.subrange(0, len as int) =~= all);
    while i < len
        invariant
            i <= len,
            len == lines@.len(),
            all == seq_views(lines@),
            spec_split_trees(all, 0) == seq_views(out@) + spec_split_trees(
                all.subrange(i as int, len as int),
                i,
            ),
            forall|k: int|
                0 <= k < out@.len() ==> #[trigger] out@[k]@.start + out@[k]@.lines.len() <= len,
        decreases len - i,
    {
        let ghost suf = all.subrange(i as int, len as int);
        proof {
            assert(suf[0] == all[i as int]);
        }
        if is_blank(&lines[i]) {
            proof {
                assert(suf.subrange(1, suf.len() as int) =~= all.subrange(i + 1, len as int));
            }
            i = i + 1;
        } else {
            let start = i;
            let mut cur: Vec<Vec<char>> = Vec::new();
            while i < len && !is_blank(&lines[i])
                invariant
                    start <= i <= len,
                    len == lines@.len(),
                    all == seq_views(lines@),
                    seq_views(cur@) =~= all.subrange(start as int, i as int),
                    spec_run_len(all.subrange(start as int, len as int)) == (i - start)
                        + spec_run_len(all.subrange(i as int, len as int)),
                decreases len - i,
            {
                let ghost isuf = all.subrange(i as int, len as int);
                proof {
                    assert(isuf[0] == all[i as int]);
                    assert(isuf.subrange(1, isuf.len() as int) =~= all.subrange(
                        i + 1,
                        len as int,
                    ));
                }
                let line_len = lines[i].len();
                let copy = subrange_vec(&lines[i], 0, line_len);
                assert(copy@ =~= all[i as int]);
                let ghost old_cur = seq_views(cur@);
                cur.push(copy);
                proof {
                    assert(seq_views(cur@) =~= old_cur.push(all[i as int]));
                    assert(seq_views(cur@) =~= all.subrange(start as int, i + 1));
                }
                i = i + 1;
            }
            proof {
                assert(spec_run_len(all.subrange(i as int, len as int)) == 0);
                assert(spec_run_len(all.subrange(start as int, len as int)) == i - start);
            }
            let ghost old_out = seq_views(out@);
            out.push(TreeSlice { start, lines: cur });
            proof {
                let ssuf = all.subrange(start as int, len as int);
                lemma_run_len_le(ssuf);
                assert(ssuf.subrange(0, (i - start) as int) =~= all.subrange(
                    start as int,
                    i as int,
                ));
                assert(ssuf.subrange((i - start) as int, ssuf.len() as int) =~= all.subrange(
                    i as int,
                    len as int,
                ));
                assert(seq_views(out@) =~= old_out.push(
                    TreeSliceV { start, lines: all.subrange(start as int, i as int) },
                ));
                assert(old_out + (seq![
                    TreeSliceV { start, lines: all.subrange(start as int, i as int) },
                ] + spec_split_trees(all.subrange(i as int, len as int), i)) =~= seq_views(out@)
                    + spec_split_trees(all.subrange(i as int, len as int), i));
            }
        }
    }
    assert(spec_split_trees(all.subrange(len as int, len as int), len) =~= Seq::<
        TreeSliceV,
    >::empty());
    assert(seq_views(out@) + Seq::<TreeSliceV>::empty() =~= seq_views(out@));
    out
}

} // verus!
