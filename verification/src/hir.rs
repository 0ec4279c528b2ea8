//! The intermediate representation (HIR) and its views: a module identity
//! and, per root, an ordered sequence of modifier groups, each holding one
//! function entry per action.  The HIR is the sole artifact handed to
//! code-generation backends; it carries no spans, only the human-readable
//! descriptions.

use vstd::prelude::*;

use crate::seqs::seq_views;

verus! {

/// Options consumed only by downstream code generation (the target
/// backend's identity); opaque to this core and passed through unread.
pub struct Config {
    pub target: Option<String>,
}

impl Default for Config {
    /// A configuration with no target backend named.
    fn default() -> (r: Config)
        ensures
            r.target is None,
    {
        Config { target: None }
    }
}

/// One test-stub entry: an action's description and its resolved
/// precondition chain (the titles of its ancestor conditions, outermost
/// first).
#[derive(Debug, PartialEq, Eq)]
pub struct HirFunction {
    pub title: String,
    pub chain: Vec<String>,
}

/// The mathematical shape of one function entry.
#[verifier::ext_equal]
pub struct HirFunctionV {
    pub title: Seq<char>,
    pub chain: Seq<Seq<char>>,
}

impl View for HirFunction {
    type V = HirFunctionV;

    open spec fn view(&self) -> HirFunctionV {
        HirFunctionV { title: self.title@, chain: seq_views(self.chain@) }
    }
}

/// A named grouping of actions that share one identical precondition
/// chain; the shared setup code of the generated tests.
#[derive(Debug, PartialEq, Eq)]
pub struct ModifierGroup {
    pub name: String,
    pub chain: Vec<String>,
    pub functions: Vec<HirFunction>,
}

/// The mathematical shape of one modifier group.
#[verifier::ext_equal]
pub struct ModifierGroupV {
    pub name: Seq<char>,
    pub chain: Seq<Seq<char>>,
    pub functions: Seq<HirFunctionV>,
}

impl View for ModifierGroup {
    type V = ModifierGroupV;

    open spec fn view(&self) -> ModifierGroupV {
        ModifierGroupV {
            name: self.name@,
            chain: seq_views(self.chain@),
            functions: seq_views(self.functions@),
        }
    }
}

/// One root's contribution to the combined representation: its submodule
/// identity, if any, and its modifier groups in first-occurrence order.
#[derive(Debug, PartialEq, Eq)]
pub struct HirContext {
    pub submodule: Option<String>,
    pub groups: Vec<ModifierGroup>,
}

/// The mathematical shape of one context.
#[verifier::ext_equal]
pub struct HirContextV {
    pub submodule: Option<Seq<char>>,
    pub groups: Seq<ModifierGroupV>,
}

impl View for HirContext {
    type V = HirContextV;

    open spec fn view(&self) -> HirContextV {
        HirContextV {
            submodule: match &self.submodule {
                Some(s) => Some(s@),
                None => None,
            },
            groups: seq_views(self.groups@),
        }
    }
}

/// The intermediate representation of one or more trees: the shared
/// module identity and one context per root, in source order.
#[derive(Debug, PartialEq, Eq)]
pub struct Hir {
    pub module_name: String,
    pub contexts: Vec<HirContext>,
}

/// The mathematical shape of a HIR.
#[verifier::ext_equal]
pub struct HirV {
    pub module_name: Seq<char>,
    pub contexts: Seq<HirContextV>,
}

impl View for Hir {
    type V = HirV;

    open spec fn view(&self) -> HirV {
        HirV { module_name: self.module_name@, contexts: seq_views(self.contexts@) }
    }
}

/// Copies one function entry.
pub fn clone_function(f: &HirFunction) -> (r: HirFunction)
    ensures
        r@ == f@,
{
    let chain = crate::modifiers::clone_string_vec(&f.chain);
    HirFunction { title: f.title.clone(), chain }
}

/// Copies one modifier group.
pub fn clone_group(g: &ModifierGroup) -> (r: ModifierGroup)
    ensures
        r@ == g@,
{
    let chain = crate::modifiers::clone_string_vec(&g.chain);
    let mut functions: Vec<HirFunction> = Vec::new();
    let mut i: usize = 0;
    while i < g.functions.len()
        invariant
            i <= g.functions@.len(),
            seq_views(functions@) =~= seq_views(g.functions@).take(i as int),
        decreases g.functions@.len() - i,
    {
        let ghost before = seq_views(functions@);
        functions.push(clone_function(&g.functions[i]));
        proof {
            assert(seq_views(functions@) =~= before.push(g.functions@[i as int]@));
        }
        i = i + 1;
    }
    assert(seq_views(g.functions@).take(g.functions@.len() as int) =~= seq_views(g.functions@));
    let r = ModifierGroup { name: g.name.clone(), chain, functions };
    assert(r@ =~= g@);
    r
}

/// Copies one context.
pub fn clone_context(c: &HirContext) -> (r: HirContext)
    ensures
        r@ == c@,
{
    let submodule = match &c.submodule {
        Some(s) => Some(s.clone()),
        None => None,
    };
    let mut groups: Vec<ModifierGroup> = Vec::new();
    let mut i: usize = 0;
    while i < c.groups.len()
        invariant
            i <= c.groups@.len(),
            seq_views(groups@) =~= seq_views(c.groups@).take(i as int),
        decreases c.groups@.len() - i,
    {
        let ghost before = seq_views(groups@);
        groups.push(clone_group(&c.groups[i]));
        proof {
            assert(seq_views(groups@) =~= before.push(c.groups@[i as int]@));
        }
        i = i + 1;
    }
    assert(seq_views(c.groups@).take(c.groups@.len() as int) =~= seq_views(c.groups@));
    let r = HirContext { submodule, groups };
    assert(r@ =~= c@);
    r
}

/// How many function entries a HIR holds over all contexts and groups.
pub open spec fn spec_hir_fn_count(h: HirV) -> int {
    spec_ctxs_fn_count(h.contexts)
}

/// How many function entries a sequence of contexts holds.
pub open spec fn spec_ctxs_fn_count(cs: Seq<HirContextV>) -> int
    decreases cs.len(),
{
    if cs.len() == 0 {
        0
    } else {
        spec_ctxs_fn_count(cs.drop_last()) + spec_groups_fn_count(cs.last().groups)
    }
}

/// How many function entries a sequence of groups holds.
pub open spec fn spec_groups_fn_count(gs: Seq<ModifierGroupV>) -> int
    decreases gs.len(),
{
    if gs.len() == 0 {
        0
    } else {
        spec_groups_fn_count(gs.drop_last()) + gs.last().functions.len()
    }
}

} // verus!
