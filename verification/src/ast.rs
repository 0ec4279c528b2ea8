//! The abstract syntax tree: a single `Root` whose descendants are
//! branching `Condition` nodes and leaf `Action` nodes.  Sibling order is
//! significant and preserved from source order.

use vstd::prelude::*;

verus! {

/// The mathematical shape of one tree node: the titles as character
/// sequences, the 1-based source line of the node, and the children in
/// source order.
pub enum AstV {
    Root { name: Seq<char>, line: usize, children: Seq<AstV> },
    Condition { title: Seq<char>, line: usize, children: Seq<AstV> },
    Action { title: Seq<char>, line: usize },
}

/// The top of one tree, naming a contract (optionally `Module::Submodule`).
#[derive(Debug, PartialEq, Eq)]
pub struct Root {
    pub contract_name: String,
    pub line: usize,
    pub children: Vec<Ast>,
}

/// A branching precondition node ("when ...", "given ...").
#[derive(Debug, PartialEq, Eq)]
pub struct Condition {
    pub title: String,
    pub line: usize,
    pub children: Vec<Ast>,
}

/// A leaf node describing one expected test outcome ("it should ...").
#[derive(Debug, PartialEq, Eq)]
pub struct Action {
    pub title: String,
    pub line: usize,
}

/// One node of a parsed tree.
#[derive(Debug, PartialEq, Eq)]
pub enum Ast {
    Root(Root),
    Condition(Condition),
    Action(Action),
}

/// The views of a sequence of nodes, in order.
pub open spec fn asts_view(s: Seq<Ast>) -> Seq<AstV>
    decreases s,
{
    if s.len() == 0 {
        Seq::<AstV>::empty()
    } else {
        asts_view(s.drop_last()).push(s.last()@)
    }
}

impl View for Ast {
    type V = AstV;

    open spec fn view(&self) -> AstV
        decreases self,
    {
        match self {
            Ast::Root(r) => AstV::Root {
                name: r.contract_name@,
                line: r.line,
                children: asts_view(r.children@),
            },
            Ast::Condition(c) => AstV::Condition {
                title: c.title@,
                line: c.line,
                children: asts_view(c.children@),
            },
            Ast::Action(a) => AstV::Action { title: a.title@, line: a.line },
        }
    }
}

pub broadcast proof fn lemma_asts_view_len(s: Seq<Ast>)
    ensures
        (#[trigger] asts_view(s)).len() == s.len(),
    decreases s,
{
    if s.len() > 0 {
        lemma_asts_view_len(s.drop_last());
        assert(asts_view(s) == asts_view(s.drop_last()).push(s.last()@));
    } else {
        assert(asts_view(s) == Seq::<AstV>::empty());
    }
}

pub broadcast proof fn lemma_asts_view_index(s: Seq<Ast>, i: int)
    requires
        0 <= i < s.len(),
    ensures
        #[trigger] asts_view(s)[i] == s[i]@,
    decreases s,
{
    lemma_asts_view_len(s);
    if s.len() > 0 {
        assert(asts_view(s) == asts_view(s.drop_last()).push(s.last()@));
        if i < s.len() - 1 {
            lemma_asts_view_len(s.drop_last());
            lemma_asts_view_index(s.drop_last(), i);
            assert(s.drop_last()[i] == s[i]);
            assert(asts_view(s)[i] == asts_view(s.drop_last())[i]);
        } else {
            assert(s[i] == s.last());
            assert(asts_view(s)[i] == s.last()@);
        }
    }
}

pub broadcast proof fn lemma_asts_view_push(s: Seq<Ast>, a: Ast)
    ensures
        #[trigger] asts_view(s.push(a)) == asts_view(s).push(a@),
{
    assert(s.push(a).drop_last() =~= s);
    assert(s.push(a).last() == a);
    assert(asts_view(s.push(a)) =~= asts_view(s).push(a@));
}

/// How many `Action` leaves a node holds, itself included.
pub open spec fn spec_action_count(a: AstV) -> nat
    decreases a,
{
    match a {
        AstV::Root { children, .. } => spec_action_count_seq(children),
        AstV::Condition { children, .. } => spec_action_count_seq(children),
        AstV::Action { .. } => 1,
    }
}

/// How many `Action` leaves a sequence of nodes holds.
pub open spec fn spec_action_count_seq(s: Seq<AstV>) -> nat
    decreases s,
{
    if s.len() == 0 {
        0
    } else {
        spec_action_count(s[0]) + spec_action_count_seq(s.subrange(1, s.len() as int))
    }
}

} // verus!
