//! The combiner: merges the per-tree representations of a multi-root
//! input into one, tracking module-name consistency across roots in
//! source order.  Contexts are appended in root order; a module-name
//! mismatch is terminal and reported with the expected and the offending
//! name.

use vstd::prelude::*;

use crate::error::{TranslateError, TranslateErrorV};
use crate::hir::{Hir, HirContext, HirContextV, HirV};
use crate::seqs::seq_views;

verus! {

/// What combining yields after the first representation seeded the module
/// name and the contexts gathered so far.
pub open spec fn spec_combine_from(
    rest: Seq<HirV>,
    module: Seq<char>,
    ctxs: Seq<HirContextV>,
) -> Result<HirV, TranslateErrorV>
    decreases rest.len(),
{
    if rest.len() == 0 {
        Ok(HirV { module_name: module, contexts: ctxs })
    } else if rest[0].module_name != module {
        Err(TranslateErrorV::Combine { expected: module, found: rest[0].module_name })
    } else {
        spec_combine_from(
            rest.subrange(1, rest.len() as int),
            module,
            ctxs + rest[0].contexts,
        )
    }
}

/// What the combiner returns: one merged representation when every root
/// agrees on the module name, else the first mismatch.
pub open spec fn spec_combine(hirs: Seq<HirV>) -> Result<HirV, TranslateErrorV> {
    if hirs.len() == 0 {
        Ok(HirV { module_name: Seq::<char>::empty(), contexts: Seq::<HirContextV>::empty() })
    } else {
        spec_combine_from(
            hirs.subrange(1, hirs.len() as int),
            hirs[0].module_name,
            hirs[0].contexts,
        )
    }
}

/// The view of a combiner result.
pub open spec fn combine_res_view(r: Result<Hir, TranslateError>) -> Result<
    HirV,
    TranslateErrorV,
> {
    match r {
        Ok(h) => Ok(h@),
        Err(e) => Err(e@),
    }
}

/// Copies a vector of contexts.
fn clone_contexts(cs: &Vec<HirContext>) -> (r: Vec<HirContext>)
    ensures
        seq_views(r@) == seq_views(cs@),
{
    let mut r: Vec<HirContext> = Vec::new();
    let mut i: usize = 0;
    while i < cs.len()
        invariant
            i <= cs@.len(),
            seq_views(r@) =~= seq_views(cs@).take(i as int),
        decreases cs@.len() - i,
    {
        let ghost before = seq_views(r@);
        r.push(crate::hir::clone_context(&cs[i]));
        proof {
            assert(seq_views(r@) =~= before.push(cs@[i as int]@));
        }
        i = i + 1;
    }
    assert(seq_views(cs@).take(cs@.len() as int) =~= seq_views(cs@));
    r
}

/// Appends the given contexts, in order.
fn append_contexts(ctxs: &mut Vec<HirContext>, more: Vec<HirContext>)
    ensures
        seq_views(final(ctxs)@) == seq_views(old(ctxs)@) + seq_views(more@),
{
    let ghost base = seq_views(ctxs@);
    let ghost mv = seq_views(more@);
    let total = more.len();
    let mut morev = more;
    let mut done: usize = 0;
    proof {
        assert(seq_views(ctxs@) =~= base + mv.subrange(0, 0));
    }
    while morev.len() > 0
        invariant
            total == mv.len(),
            done + morev@.len() == mv.len(),
            seq_views(morev@) =~= mv.subrange(done as int, mv.len() as int),
            seq_views(ctxs@) =~= base + mv.subrange(0, done as int),
        decreases morev@.len(),
    {
        let ghost hv = seq_views(morev@);
        let c = morev.remove(0);
        proof {
            assert(c@ == hv[0]);
            assert(hv[0] == mv[done as int]);
            assert(morev@.len() == hv.len() - 1);
            assert(seq_views(morev@) =~= hv.subrange(1, hv.len() as int));
            assert(seq_views(morev@) =~= mv.subrange(done + 1, mv.len() as int));
        }
        let ghost before = seq_views(ctxs@);
        ctxs.push(c);
        proof {
            assert(seq_views(ctxs@) =~= before.push(mv[done as int]));
            assert(seq_views(ctxs@) =~= base + mv.subrange(0, done + 1));
        }
        done = done + 1;
    }
    assert(mv.subrange(0, mv.len() as int) =~= mv);
}

/// The combiner; stateless and constructed fresh per merge.
pub struct Combiner {}

impl Combiner {
    /// A new combiner.
    pub fn new() -> (r: Combiner) {
        Combiner {  }
    }

    /// Merges the per-tree representations in source order: the first
    /// root seeds the module name, every further root must agree on it,
    /// and contexts are appended in root order.
    pub fn combine(self, hirs: &Vec<Hir>) -> (r: Result<Hir, TranslateError>)
        ensures
            combine_res_view(r) == spec_combine(seq_views(hirs@)),
    {
        let ghost all = seq_views(hirs@);
        if hirs.len() == 0 {
            let out = Hir { module_name: String::new(), contexts: Vec::new() };
            assert(out@.contexts =~= Seq::<HirContextV>::empty());
            assert(out@.module_name =~= Seq::<char>::empty());
            return Ok(out);
        }
        let module = hirs[0].module_name.clone();
        let mut ctxs = clone_contexts(&hirs[0].contexts);
        let mut done: usize = 1;
        proof {
            assert(seq_views(ctxs@) =~= all[0].contexts);
        }
        while done < hirs.len()
            invariant
                1 <= done <= all.len(),
                all == seq_views(hirs@),
                all.len() == hirs@.len(),
                module@ == all[0].module_name,
                spec_combine(all) == spec_combine_from(
                    all.subrange(done as int, all.len() as int),
                    module@,
                    seq_views(ctxs@),
                ),
            decreases all.len() - done,
        {
            let ghost rest = all.subrange(done as int, all.len() as int);
            proof {
                assert(rest[0] == all[done as int]);
                assert(rest.subrange(1, rest.len() as int) =~= all.subrange(
                    done + 1,
                    all.len() as int,
                ));
            }
            let h = &hirs[done];
            if !(h.module_name == module) {
                proof {
                    assert(rest[0].module_name != module@);
                }
                let e = TranslateError::Combine {
                    expected: module,
                    found: h.module_name.clone(),
                };
                return Err(e);
            }
            let more = clone_contexts(&h.contexts);
            let ghost before = seq_views(ctxs@);
            append_contexts(&mut ctxs, more);
            proof {
                assert(seq_views(ctxs@) =~= before + all[done as int].contexts);
            }
            done = done + 1;
        }
        assert(all.subrange(done as int, all.len() as int) =~= Seq::<HirV>::empty());
        Ok(Hir { module_name: module, contexts: ctxs })
    }
}

/// Combining is order-preserving: merging `[a, b]` and `[b, a]` under one
/// module name yields representations that differ only in the order of
/// the per-root contexts, matching root order.
pub proof fn lemma_combine_order_preserving(a: HirV, b: HirV)
    requires
        a.module_name == b.module_name,
    ensures
        spec_combine(seq![a, b]) == Ok::<HirV, TranslateErrorV>(
            HirV { module_name: a.module_name, contexts: a.contexts + b.contexts },
        ),
        spec_combine(seq![b, a]) == Ok::<HirV, TranslateErrorV>(
            HirV { module_name: a.module_name, contexts: b.contexts + a.contexts },
        ),
{
    let s1 = seq![a, b];
    let s2 = seq![b, a];
    assert(s1.subrange(1, 2) =~= seq![b]);
    assert(s2.subrange(1, 2) =~= seq![a]);
    assert(seq![b].subrange(1, 1) =~= Seq::<HirV>::empty());
    assert(seq![a].subrange(1, 1) =~= Seq::<HirV>::empty());
    assert(spec_combine_from(seq![b], a.module_name, a.contexts) == spec_combine_from(
        Seq::<HirV>::empty(),
        a.module_name,
        a.contexts + b.contexts,
    ));
    assert(spec_combine_from(seq![a], b.module_name, b.contexts) == spec_combine_from(
        Seq::<HirV>::empty(),
        b.module_name,
        b.contexts + a.contexts,
    ));
}

/// Mismatch detection: two roots with different module names yield the
/// mismatch error naming the expected and the found module.
pub proof fn lemma_combine_mismatch(a: HirV, b: HirV)
    requires
        a.module_name != b.module_name,
    ensures
        spec_combine(seq![a, b]) == Err::<HirV, TranslateErrorV>(
            TranslateErrorV::Combine { expected: a.module_name, found: b.module_name },
        ),
{
    let s1 = seq![a, b];
    assert(s1.subrange(1, 2) =~= seq![b]);
}

} // verus!
