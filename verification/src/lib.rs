//! A compiler front end for the tree notation that describes test
//! scenarios: nested preconditions written with box-drawing connectors,
//! terminating in expected actions.  The pipeline tokenizes the raw text,
//! parses it into an abstract syntax tree, validates it, groups actions by
//! their shared precondition chains, translates each tree into an
//! intermediate representation, and combines multiple trees that share one
//! module identity into a single merged representation.

pub mod ast;
pub mod chars;
pub mod combiner;
pub mod error;
pub mod hir;
pub mod modifiers;
pub mod parser;
pub mod semantics;
pub mod seqs;
pub mod splitter;
pub mod tokenizer;
pub mod translator;
pub mod utils;

pub use crate::translator::translate_one;

use vstd::prelude::*;

use crate::ast::{asts_view, Ast, AstV};
use crate::combiner::{combine_res_view, spec_combine, Combiner};
use crate::error::{FrontendError, ParseReason, TranslateError, TranslateErrorV};
use crate::hir::{Config, Hir, HirV};
use crate::parser::{ast_res_view, parse_tokens, shapes, spec_parse_tokens};
use crate::semantics::{check_node, spec_check_node};
use crate::seqs::{seq_views, spec_split_on, split_chars};
use crate::splitter::{
    normalize, spec_normalize, spec_split_trees, split_trees, TreeSlice, TreeSliceV,
};
use crate::tokenizer::{spec_tokenize_lines, tokenize};
use crate::translator::spec_translate_one;
use crate::utils::{sep_count, spec_root_name, spec_sep_count};

verus! {

/// What parsing one tree slice yields: tokenize, parse, then analyze.
pub open spec fn spec_parse_slice(sl: TreeSliceV) -> Result<AstV, FrontendError> {
    match spec_tokenize_lines(sl.lines, sl.start, true) {
        Err(e) => Err(e),
        Ok(ts) => match spec_parse_tokens(shapes(ts)) {
            Err(e) => Err(e),
            Ok(ast) => match spec_check_node(ast) {
                Some(e) => Err(e),
                None => Ok(ast),
            },
        },
    }
}

/// What parsing a sequence of tree slices yields: the trees in order, or
/// the first tree-level error.
pub open spec fn spec_parse_forest(slices: Seq<TreeSliceV>) -> Result<Seq<AstV>, FrontendError>
    decreases slices.len(),
{
    if slices.len() == 0 {
        Ok(Seq::<AstV>::empty())
    } else {
        match spec_parse_slice(slices[0]) {
            Err(e) => Err(e),
            Ok(ast) => match spec_parse_forest(slices.subrange(1, slices.len() as int)) {
                Err(e) => Err(e),
                Ok(rest) => Ok(seq![ast] + rest),
            },
        }
    }
}

/// What `parse` returns for a whole input text: line endings normalized,
/// the text split into per-tree slices, and every slice parsed.
pub open spec fn spec_parse_text(t: Seq<char>) -> Result<Seq<AstV>, FrontendError> {
    let lines = spec_split_on('\n', spec_normalize(t));
    let slices = spec_split_trees(lines, 0);
    if slices.len() == 0 {
        Err(FrontendError::Parse { line: 0, parse: ParseReason::NoTree })
    } else {
        spec_parse_forest(slices)
    }
}

/// The view of a forest result.
pub open spec fn forest_res_view(r: Result<Vec<Ast>, FrontendError>) -> Result<
    Seq<AstV>,
    FrontendError,
> {
    match r {
        Ok(asts) => Ok(asts_view(asts@)),
        Err(e) => Err(e),
    }
}

/// A parsed tree is always headed by a `Root` node.
pub proof fn lemma_parse_from_root(
    sh: Seq<crate::parser::TokShape>,
    i: int,
    stack: Seq<crate::parser::FrameV>,
    mode: crate::parser::Mode,
)
    ensures
        crate::parser::spec_parse_from(sh, i, stack, mode) is Ok
            ==> crate::parser::spec_parse_from(sh, i, stack, mode)->Ok_0 is Root,
    decreases sh.len() - i,
{
    if i < 0 || i >= sh.len() {
        match mode {
            crate::parser::Mode::Prefix { bars, line } => {
                if stack.len() >= 1 && bars == 0 {
                    lemma_finalize_root(stack);
                }
            },
            _ => {},
        }
    } else {
        let t = sh[i];
        match mode {
            crate::parser::Mode::Prefix { bars, line } => match t.kind {
                crate::tokenizer::TokenKind::Bar => {
                    if stack.len() > 0 {
                        lemma_parse_from_root(
                            sh,
                            i + 1,
                            stack,
                            crate::parser::Mode::Prefix {
                                bars: ((bars + 1) as usize),
                                line: t.line,
                            },
                        );
                    }
                },
                crate::tokenizer::TokenKind::Tee | crate::tokenizer::TokenKind::Corner => {
                    if stack.len() > 0 {
                        lemma_parse_from_root(
                            sh,
                            i + 1,
                            stack,
                            crate::parser::Mode::Connect {
                                bars,
                                pending: t.kind == crate::tokenizer::TokenKind::Tee,
                                line: t.line,
                            },
                        );
                    }
                },
                _ => {
                    if stack.len() == 0 && t.kind == crate::tokenizer::TokenKind::RootTitle {
                        lemma_parse_from_root(
                            sh,
                            i + 1,
                            seq![
                                crate::parser::FrameV {
                                    is_root: true,
                                    title: t.text,
                                    line: t.line,
                                    pending: false,
                                    children: Seq::<AstV>::empty(),
                                },
                            ],
                            crate::parser::Mode::Prefix { bars: 0, line: t.line },
                        );
                    }
                },
            },
            crate::parser::Mode::Connect { bars, pending, line } => match t.kind {
                crate::tokenizer::TokenKind::ConditionTitle
                | crate::tokenizer::TokenKind::ActionTitle => {
                    let st2 = crate::parser::spec_pop_to(stack, bars as int);
                    if crate::parser::spec_count_pending(st2) == bars as int {
                        if t.kind == crate::tokenizer::TokenKind::ConditionTitle {
                            lemma_parse_from_root(
                                sh,
                                i + 1,
                                st2.push(
                                    crate::parser::FrameV {
                                        is_root: false,
                                        title: t.text,
                                        line: t.line,
                                        pending,
                                        children: Seq::<AstV>::empty(),
                                    },
                                ),
                                crate::parser::Mode::Prefix { bars: 0, line: t.line },
                            );
                        } else {
                            let top = st2[st2.len() - 1];
                            let node = AstV::Action { title: t.text, line: t.line };
                            lemma_parse_from_root(
                                sh,
                                i + 1,
                                st2.update(
                                    st2.len() - 1,
                                    crate::parser::FrameV {
                                        is_root: top.is_root,
                                        title: top.title,
                                        line: top.line,
                                        pending: top.pending,
                                        children: top.children.push(node),
                                    },
                                ),
                                crate::parser::Mode::Prefix { bars: 0, line: t.line },
                            );
                        }
                    }
                },
                _ => {},
            },
        }
    }
}

proof fn lemma_finalize_root(stack: Seq<crate::parser::FrameV>)
    requires
        stack.len() >= 1,
    ensures
        crate::parser::spec_finalize(stack) is Root,
    decreases stack.len(),
{
    if stack.len() > 1 {
        lemma_finalize_root(crate::parser::spec_attach(stack));
    }
}

fn parse_slice(sl: &TreeSlice) -> (r: Result<Ast, FrontendError>)
    requires
        sl@.start + sl@.lines.len() <= usize::MAX,
    ensures
        ast_res_view(r) == spec_parse_slice(sl@),
{
    match tokenize(&sl.lines, sl.start) {
        Err(e) => Err(e),
        Ok(tokens) => match parse_tokens(&tokens) {
            Err(e) => Err(e),
            Ok(ast) => match check_node(&ast) {
                Some(e) => Err(e),
                None => Ok(ast),
            },
        },
    }
}

/// Parses a string containing trees into ASTs: line endings are unified,
/// the text is split into per-tree slices at blank lines, and every slice
/// is independently tokenized, parsed and semantically analyzed.  Fails
/// with the first tree-level error, or when the text holds no tree at all.
pub fn parse(text: &str) -> (r: Result<Vec<Ast>, FrontendError>)
    ensures
        forest_res_view(r) == spec_parse_text(text@),
        r is Ok ==> forall|k: int|
            0 <= k < r->Ok_0@.len() ==> (#[trigger] r->Ok_0@[k])@ is Root,
{
    let cs = crate::chars::str_to_chars(text);
    let norm = normalize(&cs);
    let lines = split_chars(&norm, '\n');
    let slices = split_trees(&lines);
    let ghost slv = seq_views(slices@);
    if slices.len() == 0 {
        return Err(FrontendError::Parse { line: 0, parse: ParseReason::NoTree });
    }
    let nlines = lines.len();
    proof {
        assert(lines@.len() == nlines);
        assert(norm@ == spec_normalize(text@));
        assert(seq_views(lines@) == spec_split_on('\n', spec_normalize(text@)));
        assert(slv == spec_split_trees(spec_split_on('\n', spec_normalize(text@)), 0));
    }
    let mut out: Vec<Ast> = Vec::new();
    let mut i: usize = 0;
    assert(slv.subrange(0, slv.len() as int) =~= slv);
    while i < slices.len()
        invariant
            i <= slices@.len(),
            slv == seq_views(slices@),
            slv.len() == slices@.len(),
            slv.len() > 0,
            slv == spec_split_trees(spec_split_on('\n', spec_normalize(text@)), 0),
            lines@.len() <= usize::MAX,
            forall|k: int|
                0 <= k < slices@.len() ==> #[trigger] slices@[k]@.start
                    + slices@[k]@.lines.len() <= lines@.len(),
            spec_parse_forest(slv) == (match spec_parse_forest(
                slv.subrange(i as int, slv.len() as int),
            ) {
                Ok(rest) => Ok::<Seq<AstV>, FrontendError>(asts_view(out@) + rest),
                Err(e) => Err::<Seq<AstV>, FrontendError>(e),
            }),
            forall|k: int| 0 <= k < out@.len() ==> (#[trigger] out@[k])@ is Root,
        decreases slices@.len() - i,
    {
        let ghost suf = slv.subrange(i as int, slv.len() as int);
        proof {
            crate::ast::lemma_asts_view_len(out@);
            assert(suf[0] == slices@[i as int]@);
            assert(suf.subrange(1, suf.len() as int) =~= slv.subrange(i + 1, slv.len() as int));
        }
        match parse_slice(&slices[i]) {
            Err(e) => {
                proof {
                    assert(spec_parse_slice(slv[i as int]) == Err::<AstV, FrontendError>(e));
                    assert(spec_parse_forest(suf) == Err::<Seq<AstV>, FrontendError>(e));
                    assert(spec_parse_forest(slv) == Err::<Seq<AstV>, FrontendError>(e));
                    assert(slv == spec_split_trees(spec_split_on('\n', spec_normalize(text@)), 0));
                    assert(slv.len() > 0);
                    assert(spec_parse_text(text@) == Err::<Seq<AstV>, FrontendError>(e));
                }
                return Err(e);
            },
            Ok(ast) => {
                let ghost prev = out@;
                let ghost before = asts_view(out@);
                proof {
                    if spec_tokenize_lines(
                        slices@[i as int]@.lines,
                        slices@[i as int]@.start,
                        true,
                    ) is Ok {
                        lemma_parse_from_root(
                            shapes(
                                spec_tokenize_lines(
                                    slices@[i as int]@.lines,
                                    slices@[i as int]@.start,
                                    true,
                                )->Ok_0,
                            ),
                            0,
                            Seq::<crate::parser::FrameV>::empty(),
                            crate::parser::Mode::Prefix { bars: 0, line: 0 },
                        );
                    }
                    assert(ast@ is Root);
                }
                let ghost the_ast = ast;
                out.push(ast);
                proof {
                    assert(out@ =~= prev.push(the_ast));
                    crate::ast::lemma_asts_view_push(prev, the_ast);
                    assert(asts_view(out@) == asts_view(prev).push(the_ast@));
                    if spec_parse_forest(slv.subrange(i + 1, slv.len() as int)) is Ok {
                        let rest = spec_parse_forest(slv.subrange(i + 1, slv.len() as int))->Ok_0;
                        assert(before + (seq![the_ast@] + rest) =~= asts_view(out@) + rest);
                    }
                }
            },
        }
        i = i + 1;
    }
    assert(slv.subrange(slv.len() as int, slv.len() as int) =~= Seq::<TreeSliceV>::empty());
    assert(asts_view(out@) + Seq::<AstV>::empty() =~= asts_view(out@));
    Ok(out)
}

/// Parses a string containing a single tree into an AST: the text's lines
/// are tokenized, parsed and semantically analyzed as one tree.
pub fn parse_one(text: &str) -> (r: Result<Ast, FrontendError>)
    ensures
        ast_res_view(r) == spec_parse_slice(
            TreeSliceV { start: 0, lines: spec_split_on('\n', text@) },
        ),
{
    let cs = crate::chars::str_to_chars(text);
    let lines = split_chars(&cs, '\n');
    let slice = TreeSlice { start: 0, lines };
    let nl = slice.lines.len();
    assert(slice@.lines.len() == nl);
    assert(slice@ =~= TreeSliceV { start: 0, lines: spec_split_on('\n', text@) });
    parse_slice(&slice)
}

/// The 1-based position of the first root whose contract identifier holds
/// more than one module separator, if any.
pub open spec fn spec_validate_seps(forest: Seq<AstV>) -> Option<int>
    decreases forest.len(),
{
    if forest.len() == 0 {
        None
    } else if spec_sep_count(spec_root_name(forest[0])) > 1 {
        Some(1)
    } else {
        match spec_validate_seps(forest.subrange(1, forest.len() as int)) {
            Some(k) => Some(k + 1),
            None => None,
        }
    }
}

/// What `translate` returns: the parsed forest, validated for separator
/// counts, translated tree by tree, and combined when more than one root
/// is present.
pub open spec fn spec_translate(t: Seq<char>) -> Result<HirV, TranslateErrorV> {
    match spec_parse_text(t) {
        Err(e) => Err(TranslateErrorV::Frontend(e)),
        Ok(forest) => match spec_validate_seps(forest) {
            Some(k) => Err(TranslateErrorV::Config { root_index: k as usize }),
            None => {
                if forest.len() == 1 {
                    Ok(spec_translate_one(forest[0]))
                } else {
                    spec_combine(forest.map_values(|a: AstV| spec_translate_one(a)))
                }
            },
        },
    }
}

/// The view of a translation result.
pub open spec fn translate_res_view(r: Result<Hir, TranslateError>) -> Result<
    HirV,
    TranslateErrorV,
> {
    match r {
        Ok(h) => Ok(h@),
        Err(e) => Err(e@),
    }
}

/// Translates the contents of a tree file into an intermediate
/// representation: parses every tree, rejects any root whose contract
/// identifier holds more than one `::` separator (naming the offending
/// root's 1-based position), translates each tree, and combines multiple
/// trees into one representation keyed by their shared module identity.
/// The result is a function of the text alone, so repeated runs on one
/// text yield identical representations.
pub fn translate(text: &str, cfg: &Config) -> (r: Result<Hir, TranslateError>)
    ensures
        translate_res_view(r) == spec_translate(text@),
{
    let forest = match parse(text) {
        Ok(f) => f,
        Err(e) => {
            return Err(TranslateError::Frontend(e));
        },
    };
    let ghost fv = asts_view(forest@);
    proof {
        crate::ast::lemma_asts_view_len(forest@);
        assert(fv.subrange(0, fv.len() as int) =~= fv);
    }
    let mut idx: usize = 0;
    while idx < forest.len()
        invariant
            idx <= forest@.len(),
            fv == asts_view(forest@),
            fv.len() == forest@.len(),
            spec_parse_text(text@) == Ok::<Seq<AstV>, FrontendError>(fv),
            forall|k: int| 0 <= k < forest@.len() ==> (#[trigger] forest@[k])@ is Root,
            spec_validate_seps(fv) == (match spec_validate_seps(
                fv.subrange(idx as int, fv.len() as int),
            ) {
                Some(k) => Some(k + idx),
                None => None,
            }),
            forall|k: int|
                0 <= k < idx ==> spec_sep_count(spec_root_name(#[trigger] fv[k])) <= 1,
        decreases forest@.len() - idx,
    {
        let ghost suf = fv.subrange(idx as int, fv.len() as int);
        proof {
            crate::ast::lemma_asts_view_index(forest@, idx as int);
            assert(suf[0] == fv[idx as int]);
            assert(suf.subrange(1, suf.len() as int) =~= fv.subrange(
                idx + 1,
                fv.len() as int,
            ));
        }
        let root = match &forest[idx] {
            Ast::Root(root) => root,
            _ => vstd::pervasive::unreached(),
        };
        assert(spec_root_name(fv[idx as int]) == root.contract_name@);
        let name_chars = crate::chars::str_to_chars(root.contract_name.as_str());
        let n = sep_count(&name_chars);
        if n > 1 {
            proof {
                assert(spec_sep_count(spec_root_name(suf[0])) > 1);
                assert(spec_validate_seps(suf) == Some(1int));
                assert(spec_validate_seps(fv) == Some(idx + 1int));
                assert(spec_parse_text(text@) == Ok::<Seq<AstV>, FrontendError>(fv));
                assert(spec_translate(text@) == Err::<HirV, TranslateErrorV>(
                    TranslateErrorV::Config { root_index: (idx + 1) as usize },
                ));
            }
            return Err(TranslateError::Config { root_index: idx + 1 });
        }
        idx = idx + 1;
    }
    assert(fv.subrange(fv.len() as int, fv.len() as int) =~= Seq::<AstV>::empty());
    assert(spec_validate_seps(fv) is None);
    if forest.len() == 1 {
        proof {
            crate::ast::lemma_asts_view_index(forest@, 0);
        }
        let h = translate_one(&forest[0], cfg);
        return Ok(h);
    }
    let mut hirs: Vec<Hir> = Vec::new();
    let mut i: usize = 0;
    let ghost target = fv.map_values(|a: AstV| spec_translate_one(a));
    while i < forest.len()
        invariant
            i <= forest@.len(),
            fv == asts_view(forest@),
            fv.len() == forest@.len(),
            fv.len() != 1,
            spec_parse_text(text@) == Ok::<Seq<AstV>, FrontendError>(fv),
            spec_validate_seps(fv) is None,
            forall|k: int| 0 <= k < forest@.len() ==> (#[trigger] forest@[k])@ is Root,
            forall|k: int|
                0 <= k < fv.len() ==> spec_sep_count(spec_root_name(#[trigger] fv[k])) <= 1,
            target == fv.map_values(|a: AstV| spec_translate_one(a)),
            seq_views(hirs@) =~= target.take(i as int),
        decreases forest@.len() - i,
    {
        proof {
            crate::ast::lemma_asts_view_index(forest@, i as int);
        }
        let ghost before = seq_views(hirs@);
        let h = translate_one(&forest[i], cfg);
        hirs.push(h);
        proof {
            assert(seq_views(hirs@) =~= before.push(spec_translate_one(fv[i as int])));
            assert(seq_views(hirs@) =~= target.take(i + 1));
        }
        i = i + 1;
    }
    assert(target.take(fv.len() as int) =~= target);
    let combiner = Combiner::new();
    let r = combiner.combine(&hirs);
    proof {
        assert(combine_res_view(r) == spec_combine(target));
    }
    r
}

/// Parsing is insensitive to indentation width but sensitive to connector
/// nesting: two tree slices whose token streams agree once columns are
/// erased — which holds exactly when they differ only in the number of
/// literal spaces used per level — parse and analyze to identical trees.
pub proof fn lemma_parse_width_insensitive(s1: TreeSliceV, s2: TreeSliceV)
    requires
        spec_tokenize_lines(s1.lines, s1.start, true) is Ok,
        spec_tokenize_lines(s2.lines, s2.start, true) is Ok,
        shapes(spec_tokenize_lines(s1.lines, s1.start, true)->Ok_0) == shapes(
            spec_tokenize_lines(s2.lines, s2.start, true)->Ok_0,
        ),
    ensures
        spec_parse_slice(s1) == spec_parse_slice(s2),
{
}

} // verus!
