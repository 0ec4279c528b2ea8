//! The translator: one validated tree becomes one intermediate
//! representation.  Each discovered modifier becomes one group; each
//! action becomes one function entry carrying its description and its
//! resolved precondition chain.  Translation is purely structural and
//! never fails; separator validation has already run.

use vstd::prelude::*;

use crate::ast::{spec_action_count, Ast, AstV};
use crate::hir::{Config, Hir, HirContext, HirContextV, HirV};
use crate::modifiers::{
    discover_actions, discover_groups, spec_actions, spec_groups,
};
use crate::utils::{
    parse_root_name, root_name_view, spec_parse_root_name, spec_root_name, spec_sep_count,
};

verus! {

/// What translating one root-headed tree yields: the sanitized module and
/// submodule identity from the root's contract identifier, and the
/// modifier groups of the tree's actions.
pub open spec fn spec_translate_one(a: AstV) -> HirV {
    let groups = spec_groups(spec_actions(a, Seq::<Seq<char>>::empty()));
    match spec_parse_root_name(spec_root_name(a)) {
        Ok((module, submodule)) => HirV {
            module_name: module,
            contexts: seq![HirContextV { submodule, groups }],
        },
        Err(_) => HirV {
            module_name: Seq::<char>::empty(),
            contexts: seq![HirContextV { submodule: None, groups }],
        },
    }
}

/// Generates the intermediate representation for a single tree.  The
/// configuration holds only options that downstream code generation
/// consumes; this core passes it through unread.
pub fn translate_one(ast: &Ast, cfg: &Config) -> (r: Hir)
    requires
        ast@ is Root,
        spec_sep_count(spec_root_name(ast@)) <= 1,
    ensures
        r@ == spec_translate_one(ast@),
{
    let root = match ast {
        Ast::Root(root) => root,
        _ => vstd::pervasive::unreached(),
    };
    let (module, submodule) = match parse_root_name(root.contract_name.as_str()) {
        Ok(p) => p,
        Err(_) => vstd::pervasive::unreached(),
    };
    let entries = discover_actions(ast);
    let groups = discover_groups(&entries);
    let ctx = HirContext { submodule, groups };
    let mut contexts: Vec<HirContext> = Vec::new();
    contexts.push(ctx);
    let r = Hir { module_name: module, contexts };
    proof {
        assert(crate::seqs::seq_views(r.contexts@) =~= seq![r.contexts@[0]@]);
        assert(r@ =~= spec_translate_one(ast@));
    }
    r
}

/// The actions found under `a` are exactly one per `Action` leaf.
pub proof fn lemma_actions_len(a: AstV, chain: Seq<Seq<char>>)
    ensures
        spec_actions(a, chain).len() == spec_action_count(a),
    decreases a,
{
    match a {
        AstV::Root { children, .. } => {
            lemma_actions_seq_len(children, chain);
        },
        AstV::Condition { title, children, .. } => {
            lemma_actions_seq_len(children, chain.push(title));
        },
        AstV::Action { .. } => {},
    }
}

proof fn lemma_actions_seq_len(s: Seq<AstV>, chain: Seq<Seq<char>>)
    ensures
        crate::modifiers::spec_actions_seq(s, chain).len() == crate::ast::spec_action_count_seq(
            s,
        ),
    decreases s,
{
    if s.len() > 0 {
        lemma_actions_len(s[0], chain);
        lemma_actions_seq_len(s.subrange(1, s.len() as int), chain);
    }
}

/// For every tree with a valid grammar, the translated representation
/// holds exactly one function entry per `Action` node of the tree.
pub proof fn lemma_translate_one_function_count(a: AstV)
    ensures
        crate::hir::spec_hir_fn_count(spec_translate_one(a)) == spec_action_count(a),
{
    let entries = spec_actions(a, Seq::<Seq<char>>::empty());
    let groups = spec_groups(entries);
    let h = spec_translate_one(a);
    assert(h.contexts.len() == 1);
    assert(h.contexts[0].groups == groups);
    assert(h.contexts.drop_last() =~= Seq::<crate::hir::HirContextV>::empty());
    assert(crate::hir::spec_ctxs_fn_count(Seq::<crate::hir::HirContextV>::empty()) == 0);
    assert(h.contexts.last() == h.contexts[0]);
    assert(crate::hir::spec_ctxs_fn_count(h.contexts) == crate::hir::spec_groups_fn_count(
        groups,
    ));
    crate::modifiers::lemma_groups_fn_count(entries, crate::modifiers::spec_chains(entries));
    crate::modifiers::lemma_groups_total_size(entries);
    lemma_actions_len(a, Seq::<Seq<char>>::empty());
}

} // verus!
