//! The semantic analyzer: walks a grammatically valid tree depth first and
//! reports the first violation — an empty description, or a condition with
//! no children.  On success the tree is returned unchanged by the caller;
//! analysis only validates, it never transforms.

use vstd::prelude::*;

use crate::ast::{asts_view, Ast, AstV};
use crate::error::{FrontendError, SemReason};

verus! {

/// The first semantic violation in the subtree rooted at `a`, walking
/// depth first in source order.
pub open spec fn spec_check_node(a: AstV) -> Option<FrontendError>
    decreases a,
{
    match a {
        AstV::Root { name, line, children } => {
            if name.len() == 0 {
                Some(FrontendError::Semantic { line, sem: SemReason::EmptyDescription })
            } else {
                spec_check_seq(children)
            }
        },
        AstV::Condition { title, line, children } => {
            if title.len() == 0 {
                Some(FrontendError::Semantic { line, sem: SemReason::EmptyDescription })
            } else if children.len() == 0 {
                Some(FrontendError::Semantic { line, sem: SemReason::ConditionWithoutChildren })
            } else {
                spec_check_seq(children)
            }
        },
        AstV::Action { title, line } => {
            if title.len() == 0 {
                Some(FrontendError::Semantic { line, sem: SemReason::EmptyDescription })
            } else {
                None
            }
        },
    }
}

/// The first semantic violation among the subtrees of `s`, in order.
pub open spec fn spec_check_seq(s: Seq<AstV>) -> Option<FrontendError>
    decreases s,
{
    if s.len() == 0 {
        None
    } else {
        match spec_check_node(s[0]) {
            Some(e) => Some(e),
            None => spec_check_seq(s.subrange(1, s.len() as int)),
        }
    }
}

/// Walks one tree and returns its first semantic violation, if any.
pub fn check_node(a: &Ast) -> (r: Option<FrontendError>)
    ensures
        r == spec_check_node(a@),
    decreases *a,
{
    match a {
        Ast::Root(root) => {
            if root.contract_name.as_str().is_empty() {
                Some(
                    FrontendError::Semantic {
                        line: root.line,
                        sem: SemReason::EmptyDescription,
                    },
                )
            } else {
                check_seq(&root.children)
            }
        },
        Ast::Condition(cond) => {
            if cond.title.as_str().is_empty() {
                Some(
                    FrontendError::Semantic {
                        line: cond.line,
                        sem: SemReason::EmptyDescription,
                    },
                )
            } else if cond.children.len() == 0 {
                proof {
                    assert(asts_view(cond.children@) =~= Seq::<AstV>::empty());
                }
                Some(
                    FrontendError::Semantic {
                        line: cond.line,
                        sem: SemReason::ConditionWithoutChildren,
                    },
                )
            } else {
                proof {
                    crate::ast::lemma_asts_view_len(cond.children@);
                }
                check_seq(&cond.children)
            }
        },
        Ast::Action(act) => {
            if act.title.as_str().is_empty() {
                Some(
                    FrontendError::Semantic { line: act.line, sem: SemReason::EmptyDescription },
                )
            } else {
                None
            }
        },
    }
}

/// Walks a sequence of subtrees in order and returns the first violation.
fn check_seq(s: &Vec<Ast>) -> (r: Option<FrontendError>)
    ensures
        r == spec_check_seq(asts_view(s@)),
    decreases *s,
{
    let ghost all = asts_view(s@);
    proof {
        crate::ast::lemma_asts_view_len(s@);
        assert(all.subrange(0, all.len() as int) =~= all);
    }
    let mut i: usize = 0;
    while i < s.len()
        invariant
            i <= s@.len(),
            all == asts_view(s@),
            all.len() == s@.len(),
            spec_check_seq(all) == spec_check_seq(all.subrange(i as int, all.len() as int)),
        decreases s@.len() - i,
    {
        let ghost suf = all.subrange(i as int, all.len() as int);
        proof {
            crate::ast::lemma_asts_view_index(s@, i as int);
            assert(suf[0] == all[i as int]);
            assert(suf.subrange(1, suf.len() as int) =~= all.subrange(i + 1, all.len() as int));
        }
        match check_node(&s[i]) {
            Some(e) => {
                return Some(e);
            },
            None => {},
        }
        i = i + 1;
    }
    assert(spec_check_seq(all.subrange(s@.len() as int, all.len() as int)) is None);
    None
}

} // verus!
