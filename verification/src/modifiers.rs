//! Modifier discovery: every path from the root to an action is walked,
//! and actions are grouped by the ordered sequence of ancestor condition
//! titles on their path (the precondition chain).  Two actions share a
//! modifier exactly when their full chains are identical; groups appear in
//! first-occurrence order, so iteration is stable and reproducible.

use vstd::prelude::*;

use crate::ast::{asts_view, lemma_asts_view_index, lemma_asts_view_len, Ast, AstV};
use crate::chars::{chars_to_string, str_to_chars};
use crate::hir::{HirFunction, HirFunctionV, ModifierGroup, ModifierGroupV};
use crate::seqs::{join_chars, seq_views, spec_join};
use crate::utils::{snake_case_chars, spec_snake_case};

verus! {

/// One action together with its precondition chain, in traversal order.
pub struct ActionEntry {
    pub chain: Vec<String>,
    pub title: String,
}

/// The mathematical shape of one discovered action.
pub struct ActionRefV {
    pub chain: Seq<Seq<char>>,
    pub title: Seq<char>,
}

impl View for ActionEntry {
    type V = ActionRefV;

    open spec fn view(&self) -> ActionRefV {
        ActionRefV { chain: seq_views(self.chain@), title: self.title@ }
    }
}

/// The actions of the subtree `a`, depth first in source order, each with
/// the chain of ancestor condition titles `chain` extended on the way.
pub open spec fn spec_actions(a: AstV, chain: Seq<Seq<char>>) -> Seq<ActionRefV>
    decreases a,
{
    match a {
        AstV::Root { children, .. } => spec_actions_seq(children, chain),
        AstV::Condition { title, children, .. } => spec_actions_seq(children, chain.push(title)),
        AstV::Action { title, .. } => seq![ActionRefV { chain, title }],
    }
}

/// The actions of a sequence of subtrees, in order.
pub open spec fn spec_actions_seq(s: Seq<AstV>, chain: Seq<Seq<char>>) -> Seq<ActionRefV>
    decreases s,
{
    if s.len() == 0 {
        Seq::<ActionRefV>::empty()
    } else {
        spec_actions(s[0], chain) + spec_actions_seq(s.subrange(1, s.len() as int), chain)
    }
}

/// The distinct chains of the entries, in first-occurrence order.
pub open spec fn spec_chains(entries: Seq<ActionRefV>) -> Seq<Seq<Seq<char>>>
    decreases entries.len(),
{
    if entries.len() == 0 {
        Seq::<Seq<Seq<char>>>::empty()
    } else {
        let r = spec_chains(entries.drop_last());
        if r.contains(entries.last().chain) {
            r
        } else {
            r.push(entries.last().chain)
        }
    }
}

/// The function entries whose chain equals `chain`, in order.
pub open spec fn spec_group_functions(entries: Seq<ActionRefV>, chain: Seq<Seq<char>>) -> Seq<
    HirFunctionV,
>
    decreases entries.len(),
{
    if entries.len() == 0 {
        Seq::<HirFunctionV>::empty()
    } else {
        let r = spec_group_functions(entries.drop_last(), chain);
        if entries.last().chain == chain {
            r.push(HirFunctionV { title: entries.last().title, chain })
        } else {
            r
        }
    }
}

/// The deterministic, order-preserving name of a chain: the snake-cased
/// titles joined by underscores.
pub open spec fn spec_modifier_name(chain: Seq<Seq<char>>) -> Seq<char> {
    spec_join(chain.map_values(|t: Seq<char>| spec_snake_case(t)), '_')
}

/// The modifier groups of the entries: one per distinct chain, in
/// first-occurrence order, each holding its actions in source order.
pub open spec fn spec_groups(entries: Seq<ActionRefV>) -> Seq<ModifierGroupV> {
    spec_chains(entries).map_values(
        |c: Seq<Seq<char>>|
            ModifierGroupV {
                name: spec_modifier_name(c),
                chain: c,
                functions: spec_group_functions(entries, c),
            },
    )
}

/// The chain views of a sequence of string vectors.
pub open spec fn chains_view(s: Seq<Vec<String>>) -> Seq<Seq<Seq<char>>> {
    Seq::new(s.len(), |i: int| seq_views(s[i]@))
}

/// Copies a vector of strings.
pub fn clone_string_vec(v: &Vec<String>) -> (r: Vec<String>)
    ensures
        r@ == v@,
{
    let mut r: Vec<String> = Vec::new();
    let mut i: usize = 0;
    while i < v.len()
        invariant
            i <= v@.len(),
            r@ =~= v@.take(i as int),
        decreases v@.len() - i,
    {
        assert(v@.take(i + 1) =~= v@.take(i as int).push(v@[i as int]));
        r.push(v[i].clone());
        i = i + 1;
    }
    assert(v@.take(v@.len() as int) =~= v@);
    r
}

/// Whether two string vectors hold the same character sequences.
fn string_vecs_eq(a: &Vec<String>, b: &Vec<String>) -> (r: bool)
    ensures
        r == (seq_views(a@) == seq_views(b@)),
{
    if a.len() != b.len() {
        assert(seq_views(a@).len() != seq_views(b@).len());
        return false;
    }
    let mut i: usize = 0;
    while i < a.len()
        invariant
            i <= a@.len(),
            a@.len() == b@.len(),
            forall|j: int| 0 <= j < i ==> seq_views(a@)[j] == seq_views(b@)[j],
        decreases a@.len() - i,
    {
        if !(a[i] == b[i]) {
            assert(seq_views(a@)[i as int] != seq_views(b@)[i as int]);
            return false;
        }
        i = i + 1;
    }
    assert(seq_views(a@) =~= seq_views(b@));
    true
}

/// Collects every action of the subtree `a`, extending `chain` with the
/// condition titles on the way down and restoring it on the way up.
fn collect_actions(a: &Ast, chain: &mut Vec<String>, out: &mut Vec<ActionEntry>)
    ensures
        final(chain)@ == old(chain)@,
        seq_views(final(out)@) == seq_views(old(out)@) + spec_actions(
            a@,
            seq_views(old(chain)@),
        ),
    decreases *a,
{
    match a {
        Ast::Root(root) => {
            collect_actions_seq(&root.children, chain, out);
        },
        Ast::Condition(cond) => {
            let ghost chain0 = chain@;
            chain.push(cond.title.clone());
            proof {
                assert(seq_views(chain@) =~= seq_views(chain0).push(cond.title@));
            }
            collect_actions_seq(&cond.children, chain, out);
            let _ = chain.pop();
            proof {
                assert(chain@ =~= chain0);
            }
        },
        Ast::Action(act) => {
            let ghost old_out = seq_views(out@);
            let entry = ActionEntry { chain: clone_string_vec(chain), title: act.title.clone() };
            out.push(entry);
            proof {
                assert(seq_views(out@) =~= old_out.push(
                    ActionRefV { chain: seq_views(chain@), title: act.title@ },
                ));
                assert(seq_views(out@) =~= old_out + spec_actions(a@, seq_views(chain@)));
            }
        },
    }
}

/// Collects the actions of a sequence of subtrees, in order.
fn collect_actions_seq(s: &Vec<Ast>, chain: &mut Vec<String>, out: &mut Vec<ActionEntry>)
    ensures
        final(chain)@ == old(chain)@,
        seq_views(final(out)@) == seq_views(old(out)@) + spec_actions_seq(
            asts_view(s@),
            seq_views(old(chain)@),
        ),
    decreases *s,
{
    let ghost all = asts_view(s@);
    let ghost chain0 = chain@;
    let ghost out0 = seq_views(out@);
    proof {
        lemma_asts_view_len(s@);
        assert(all.subrange(0, all.len() as int) =~= all);
    }
    let mut i: usize = 0;
    while i < s.len()
        invariant
            i <= s@.len(),
            all == asts_view(s@),
            all.len() == s@.len(),
            chain@ == chain0,
            out0 + spec_actions_seq(all, seq_views(chain0)) =~= seq_views(out@)
                + spec_actions_seq(
                all.subrange(i as int, all.len() as int),
                seq_views(chain0),
            ),
        decreases s@.len() - i,
    {
        let ghost suf = all.subrange(i as int, all.len() as int);
        proof {
            lemma_asts_view_index(s@, i as int);
            assert(suf[0] == all[i as int]);
            assert(suf.subrange(1, suf.len() as int) =~= all.subrange(i + 1, all.len() as int));
        }
        let ghost out_before = seq_views(out@);
        collect_actions(&s[i], chain, out);
        proof {
            assert((out_before + spec_actions(all[i as int], seq_views(chain0)))
                + spec_actions_seq(all.subrange(i + 1, all.len() as int), seq_views(chain0))
                =~= out_before + (spec_actions(all[i as int], seq_views(chain0))
                + spec_actions_seq(all.subrange(i + 1, all.len() as int), seq_views(chain0))));
        }
        i = i + 1;
    }
    assert(spec_actions_seq(all.subrange(all.len() as int, all.len() as int), seq_views(chain0))
        =~= Seq::<ActionRefV>::empty());
    assert(seq_views(out@) + Seq::<ActionRefV>::empty() =~= seq_views(out@));
}

/// Walks one tree and returns its actions with their chains, in source
/// order.
pub fn discover_actions(a: &Ast) -> (r: Vec<ActionEntry>)
    ensures
        seq_views(r@) == spec_actions(a@, Seq::<Seq<char>>::empty()),
{
    let mut chain: Vec<String> = Vec::new();
    let mut out: Vec<ActionEntry> = Vec::new();
    assert(seq_views(chain@) =~= Seq::<Seq<char>>::empty());
    collect_actions(a, &mut chain, &mut out);
    assert(Seq::<ActionRefV>::empty() + spec_actions(a@, Seq::<Seq<char>>::empty())
        =~= spec_actions(a@, Seq::<Seq<char>>::empty()));
    out
}

/// The snake-cased, underscore-joined name of a chain.
fn modifier_name(chain: &Vec<String>) -> (r: String)
    ensures
        r@ == spec_modifier_name(seq_views(chain@)),
{
    let mut parts: Vec<Vec<char>> = Vec::new();
    let mut i: usize = 0;
    while i < chain.len()
        invariant
            i <= chain@.len(),
            seq_views(parts@) =~= seq_views(chain@).take(i as int).map_values(
                |t: Seq<char>| spec_snake_case(t),
            ),
        decreases chain@.len() - i,
    {
        let ghost before = seq_views(parts@);
        let cs = str_to_chars(chain[i].as_str());
        let sc = snake_case_chars(&cs);
        parts.push(sc);
        proof {
            assert(seq_views(parts@) =~= before.push(spec_snake_case(chain@[i as int]@)));
            assert(seq_views(chain@).take(i + 1).map_values(|t: Seq<char>| spec_snake_case(t))
                =~= seq_views(chain@).take(i as int).map_values(
                |t: Seq<char>| spec_snake_case(t),
            ).push(spec_snake_case(seq_views(chain@)[i as int])));
        }
        i = i + 1;
    }
    assert(seq_views(chain@).take(chain@.len() as int) =~= seq_views(chain@));
    let joined = join_chars(&parts, '_');
    chars_to_string(&joined)
}

/// Groups the discovered actions by their exact chains: one group per
/// distinct chain, in first-occurrence order, holding its actions in
/// source order.
pub fn discover_groups(entries: &Vec<ActionEntry>) -> (r: Vec<ModifierGroup>)
    ensures
        seq_views(r@) == spec_groups(seq_views(entries@)),
{
    let ghost all = seq_views(entries@);
    let mut chains: Vec<Vec<String>> = Vec::new();
    let mut i: usize = 0;
    assert(all.take(0) =~= Seq::<ActionRefV>::empty());
    assert(chains_view(chains@) =~= spec_chains(all.take(0)));
    while i < entries.len()
        invariant
            i <= entries@.len(),
            all == seq_views(entries@),
            chains_view(chains@) =~= spec_chains(all.take(i as int)),
        decreases entries@.len() - i,
    {
        proof {
            assert(all.take(i + 1).drop_last() =~= all.take(i as int));
            assert(all.take(i + 1).last() == all[i as int]);
        }
        let mut found = false;
        let mut k: usize = 0;
        while k < chains.len() && !found
            invariant
                k <= chains@.len(),
                i < entries@.len(),
                all == seq_views(entries@),
                found ==> spec_chains(all.take(i as int)).contains(all[i as int].chain),
                !found ==> forall|j: int|
                    0 <= j < k ==> chains_view(chains@)[j] != all[i as int].chain,
                chains_view(chains@) =~= spec_chains(all.take(i as int)),
            decreases chains@.len() - k + (if found {
                0int
            } else {
                1int
            }),
        {
            if string_vecs_eq(&chains[k], &entries[i].chain) {
                found = true;
                proof {
                    assert(chains_view(chains@)[k as int] == all[i as int].chain);
                }
            } else {
                k = k + 1;
            }
        }
        if !found {
            proof {
                assert(forall|j: int|
                    0 <= j < chains_view(chains@).len() ==> chains_view(chains@)[j] != all[
                        i as int
                    ].chain);
                assert(!spec_chains(all.take(i as int)).contains(all[i as int].chain));
            }
            let ghost before = chains_view(chains@);
            chains.push(clone_string_vec(&entries[i].chain));
            proof {
                assert(chains_view(chains@) =~= before.push(all[i as int].chain));
            }
        }
        i = i + 1;
    }
    assert(all.take(all.len() as int) =~= all);
    let ghost chain_views = spec_chains(all);
    let mut out: Vec<ModifierGroup> = Vec::new();
    let mut g: usize = 0;
    assert(seq_views(out@) =~= spec_groups(all).take(0));
    while g < chains.len()
        invariant
            g <= chains@.len(),
            all == seq_views(entries@),
            chain_views == spec_chains(all),
            chains_view(chains@) =~= chain_views,
            spec_groups(all).len() == chain_views.len(),
            seq_views(out@) =~= spec_groups(all).take(g as int),
        decreases chains@.len() - g,
    {
        let chain_g = &chains[g];
        let mut funcs: Vec<HirFunction> = Vec::new();
        let mut j: usize = 0;
        assert(seq_views(funcs@) =~= spec_group_functions(
            all.take(0),
            seq_views(chain_g@),
        ));
        while j < entries.len()
            invariant
                j <= entries@.len(),
                g < chains@.len(),
                all == seq_views(entries@),
                seq_views(chains@[g as int]@) == chains_view(chains@)[g as int],
                seq_views(funcs@) =~= spec_group_functions(
                    all.take(j as int),
                    chains_view(chains@)[g as int],
                ),
            decreases entries@.len() - j,
        {
            proof {
                assert(all.take(j + 1).drop_last() =~= all.take(j as int));
                assert(all.take(j + 1).last() == all[j as int]);
            }
            let ghost before = seq_views(funcs@);
            if string_vecs_eq(&entries[j].chain, &chains[g]) {
                let f = HirFunction {
                    title: entries[j].title.clone(),
                    chain: clone_string_vec(&entries[j].chain),
                };
                funcs.push(f);
                proof {
                    assert(seq_views(funcs@) =~= before.push(
                        HirFunctionV {
                            title: all[j as int].title,
                            chain: chains_view(chains@)[g as int],
                        },
                    ));
                }
            }
            j = j + 1;
        }
        assert(all.take(all.len() as int) =~= all);
        let name = modifier_name(&chains[g]);
        let chain_copy = clone_string_vec(&chains[g]);
        let ghost before_out = seq_views(out@);
        out.push(ModifierGroup { name, chain: chain_copy, functions: funcs });
        proof {
            assert(spec_groups(all)[g as int] == ModifierGroupV {
                name: spec_modifier_name(chain_views[g as int]),
                chain: chain_views[g as int],
                functions: spec_group_functions(all, chain_views[g as int]),
            });
            assert(seq_views(out@) =~= before_out.push(spec_groups(all)[g as int]));
            assert(seq_views(out@) =~= spec_groups(all).take(g + 1));
        }
        g = g + 1;
    }
    assert(spec_groups(all).take(chain_views.len() as int) =~= spec_groups(all));
    out
}

// The statements below relate the discovered groups back to the actions
// they came from: every action lands in exactly one group, the group of
// its exact chain, and the groups together hold exactly one function entry
// per action.

/// The index of the first occurrence of `c` among the chains, or -1.
pub open spec fn spec_chain_index(cs: Seq<Seq<Seq<char>>>, c: Seq<Seq<char>>) -> int
    decreases cs.len(),
{
    if cs.len() == 0 {
        -1
    } else if cs[0] == c {
        0
    } else {
        let r = spec_chain_index(cs.subrange(1, cs.len() as int), c);
        if r < 0 {
            -1
        } else {
            r + 1
        }
    }
}

/// The group that the action at index `i` lands in: the position of its
/// chain among the distinct chains, which is the position of its group in
/// `spec_groups`.
pub open spec fn spec_group_index(entries: Seq<ActionRefV>, i: int) -> int {
    spec_chain_index(spec_chains(entries), entries[i].chain)
}

/// No chain occurs twice among the discovered chains.
pub open spec fn spec_chains_distinct(cs: Seq<Seq<Seq<char>>>) -> bool {
    forall|j1: int, j2: int| 0 <= j1 < j2 < cs.len() ==> cs[j1] != cs[j2]
}

/// How often `c` occurs among the chains.
pub open spec fn spec_occurrences(cs: Seq<Seq<Seq<char>>>, c: Seq<Seq<char>>) -> int
    decreases cs.len(),
{
    if cs.len() == 0 {
        0
    } else {
        spec_occurrences(cs.drop_last(), c) + if cs.last() == c {
            1int
        } else {
            0int
        }
    }
}

proof fn lemma_push_contains<T>(s: Seq<T>, x: T, y: T)
    requires
        s.contains(y),
    ensures
        s.push(x).contains(y),
{
    let j = choose|j: int| 0 <= j < s.len() && s[j] == y;
    assert(s.push(x)[j] == y);
}

/// Every entry's chain occurs among the discovered chains.
pub proof fn lemma_chains_contains_all(entries: Seq<ActionRefV>, i: int)
    requires
        0 <= i < entries.len(),
    ensures
        spec_chains(entries).contains(entries[i].chain),
    decreases entries.len(),
{
    let r = spec_chains(entries.drop_last());
    if i == entries.len() - 1 {
        if r.contains(entries.last().chain) {
        } else {
            assert(r.push(entries.last().chain)[r.len() as int] == entries.last().chain);
        }
    } else {
        lemma_chains_contains_all(entries.drop_last(), i);
        assert(entries.drop_last()[i] == entries[i]);
        if r.contains(entries.last().chain) {
        } else {
            lemma_push_contains(r, entries.last().chain, entries[i].chain);
        }
    }
}

/// The discovered chains never repeat.
pub proof fn lemma_chains_distinct(entries: Seq<ActionRefV>)
    ensures
        spec_chains_distinct(spec_chains(entries)),
    decreases entries.len(),
{
    if entries.len() > 0 {
        lemma_chains_distinct(entries.drop_last());
        let r = spec_chains(entries.drop_last());
        let c = entries.last().chain;
        if !r.contains(c) {
            assert forall|j1: int, j2: int|
                0 <= j1 < j2 < r.push(c).len() implies r.push(c)[j1] != r.push(c)[j2] by {
                if j2 == r.len() {
                    assert(r[j1] == r.push(c)[j1]);
                    assert(!r.contains(c));
                    assert(r[j1] != c);
                }
            }
        }
    }
}

proof fn lemma_occurrences_of_distinct(cs: Seq<Seq<Seq<char>>>, c: Seq<Seq<char>>)
    requires
        spec_chains_distinct(cs),
    ensures
        cs.contains(c) ==> spec_occurrences(cs, c) == 1,
        !cs.contains(c) ==> spec_occurrences(cs, c) == 0,
    decreases cs.len(),
{
    if cs.len() > 0 {
        let d = cs.drop_last();
        assert(spec_chains_distinct(d)) by {
            assert(forall|j: int| 0 <= j < d.len() ==> d[j] == cs[j]);
        }
        lemma_occurrences_of_distinct(d, c);
        if cs.last() == c {
            assert(!d.contains(c)) by {
                if d.contains(c) {
                    let j = choose|j: int| 0 <= j < d.len() && d[j] == c;
                    assert(cs[j] == c && cs[cs.len() - 1] == c);
                }
            }
        } else {
            if cs.contains(c) {
                let j = choose|j: int| 0 <= j < cs.len() && cs[j] == c;
                assert(d[j] == c);
                assert(d.contains(c));
            } else {
                assert(!d.contains(c)) by {
                    if d.contains(c) {
                        let j = choose|j: int| 0 <= j < d.len() && d[j] == c;
                        assert(cs[j] == c);
                    }
                }
            }
        }
    }
}

proof fn lemma_chain_index_valid(cs: Seq<Seq<Seq<char>>>, c: Seq<Seq<char>>)
    requires
        cs.contains(c),
    ensures
        0 <= spec_chain_index(cs, c) < cs.len(),
        cs[spec_chain_index(cs, c)] == c,
    decreases cs.len(),
{
    if cs[0] == c {
    } else {
        let d = cs.subrange(1, cs.len() as int);
        assert(d.contains(c)) by {
            let j = choose|j: int| 0 <= j < cs.len() && cs[j] == c;
            assert(d[j - 1] == c);
        }
        lemma_chain_index_valid(d, c);
    }
}

/// The function entry of the action at `i` stands in the group of its
/// chain.
proof fn lemma_group_functions_contains(entries: Seq<ActionRefV>, i: int)
    requires
        0 <= i < entries.len(),
    ensures
        spec_group_functions(entries, entries[i].chain).contains(
            HirFunctionV { title: entries[i].title, chain: entries[i].chain },
        ),
    decreases entries.len(),
{
    let c = entries[i].chain;
    let r = spec_group_functions(entries.drop_last(), c);
    if i == entries.len() - 1 {
        assert(r.push(HirFunctionV { title: entries[i].title, chain: c })[r.len() as int]
            == HirFunctionV { title: entries[i].title, chain: c });
    } else {
        assert(entries.drop_last()[i] == entries[i]);
        lemma_group_functions_contains(entries.drop_last(), i);
        if entries.last().chain == c {
            lemma_push_contains(
                r,
                HirFunctionV { title: entries.last().title, chain: c },
                HirFunctionV { title: entries[i].title, chain: c },
            );
        }
    }
}

/// Two actions land in the same modifier group exactly when their full
/// ancestor-condition chains are identical, in the same order; each lands
/// in the group keyed by its own chain, and its function entry stands in
/// that group.
pub proof fn lemma_same_chain_same_group(entries: Seq<ActionRefV>, i1: int, i2: int)
    requires
        0 <= i1 < entries.len(),
        0 <= i2 < entries.len(),
    ensures
        0 <= spec_group_index(entries, i1) < spec_groups(entries).len(),
        spec_groups(entries)[spec_group_index(entries, i1)].chain == entries[i1].chain,
        spec_groups(entries)[spec_group_index(entries, i1)].functions.contains(
            HirFunctionV { title: entries[i1].title, chain: entries[i1].chain },
        ),
        (spec_group_index(entries, i1) == spec_group_index(entries, i2)) <==> (entries[i1].chain
            == entries[i2].chain),
{
    let cs = spec_chains(entries);
    lemma_chains_contains_all(entries, i1);
    lemma_chains_contains_all(entries, i2);
    lemma_chain_index_valid(cs, entries[i1].chain);
    lemma_chain_index_valid(cs, entries[i2].chain);
    lemma_group_functions_contains(entries, i1);
    assert(spec_groups(entries)[spec_group_index(entries, i1)].functions
        == spec_group_functions(entries, entries[i1].chain));
}

/// The total of the group sizes over the chain list `cs`.
pub open spec fn spec_sum_group_sizes(entries: Seq<ActionRefV>, cs: Seq<Seq<Seq<char>>>) -> int
    decreases cs.len(),
{
    if cs.len() == 0 {
        0
    } else {
        spec_sum_group_sizes(entries, cs.drop_last()) + spec_group_functions(
            entries,
            cs.last(),
        ).len()
    }
}

proof fn lemma_sum_group_sizes_step(entries: Seq<ActionRefV>, cs: Seq<Seq<Seq<char>>>)
    requires
        entries.len() > 0,
    ensures
        spec_sum_group_sizes(entries, cs) == spec_sum_group_sizes(entries.drop_last(), cs)
            + spec_occurrences(cs, entries.last().chain),
    decreases cs.len(),
{
    if cs.len() > 0 {
        lemma_sum_group_sizes_step(entries, cs.drop_last());
    }
}

proof fn lemma_chains_monotone(entries: Seq<ActionRefV>, c: Seq<Seq<char>>)
    requires
        entries.len() > 0,
        spec_chains(entries.drop_last()).contains(c),
    ensures
        spec_chains(entries).contains(c),
{
    let r = spec_chains(entries.drop_last());
    if r.contains(entries.last().chain) {
    } else {
        lemma_push_contains(r, entries.last().chain, c);
    }
}

proof fn lemma_group_functions_absent(entries: Seq<ActionRefV>, c: Seq<Seq<char>>)
    requires
        !spec_chains(entries).contains(c),
    ensures
        spec_group_functions(entries, c).len() == 0,
    decreases entries.len(),
{
    if entries.len() > 0 {
        assert(!spec_chains(entries.drop_last()).contains(c)) by {
            if spec_chains(entries.drop_last()).contains(c) {
                lemma_chains_monotone(entries, c);
            }
        }
        lemma_group_functions_absent(entries.drop_last(), c);
        assert(entries.last().chain != c) by {
            lemma_chains_contains_all(entries, entries.len() - 1);
        }
    }
}

/// The groups together hold exactly one function entry per action.
pub proof fn lemma_groups_total_size(entries: Seq<ActionRefV>)
    ensures
        spec_sum_group_sizes(entries, spec_chains(entries)) == entries.len(),
    decreases entries.len(),
{
    if entries.len() > 0 {
        let prev = entries.drop_last();
        let c = entries.last().chain;
        let r = spec_chains(prev);
        lemma_groups_total_size(prev);
        lemma_chains_distinct(prev);
        lemma_occurrences_of_distinct(r, c);
        if r.contains(c) {
            lemma_sum_group_sizes_step(entries, r);
        } else {
            let cs = r.push(c);
            assert(cs.drop_last() =~= r);
            assert(spec_sum_group_sizes(entries, cs) == spec_sum_group_sizes(entries, r)
                + spec_group_functions(entries, c).len());
            lemma_sum_group_sizes_step(entries, r);
            lemma_group_functions_absent(prev, c);
        }
    }
}

/// Total group sizes restated over the groups themselves.
pub proof fn lemma_groups_fn_count(entries: Seq<ActionRefV>, cs: Seq<Seq<Seq<char>>>)
    ensures
        crate::hir::spec_groups_fn_count(
            cs.map_values(
                |c: Seq<Seq<char>>|
                    crate::hir::ModifierGroupV {
                        name: spec_modifier_name(c),
                        chain: c,
                        functions: spec_group_functions(entries, c),
                    },
            ),
        ) == spec_sum_group_sizes(entries, cs),
    decreases cs.len(),
{
    let f = |c: Seq<Seq<char>>|
        crate::hir::ModifierGroupV {
            name: spec_modifier_name(c),
            chain: c,
            functions: spec_group_functions(entries, c),
        };
    if cs.len() > 0 {
        lemma_groups_fn_count(entries, cs.drop_last());
        assert(cs.map_values(f).drop_last() =~= cs.drop_last().map_values(f));
        assert(cs.map_values(f).last() == f(cs.last()));
    } else {
        assert(cs.map_values(f).len() == 0);
    }
}

} // verus!
