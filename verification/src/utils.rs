//! Naming utilities: snake-case conversion of titles, sanitizing of module
//! names, splitting a root's contract identifier on the module separator,
//! and module-name consistency over a forest of roots.

use vstd::prelude::*;
use vstd::string::StringExecFns;

use crate::ast::{asts_view, lemma_asts_view_index, lemma_asts_view_len, Ast, AstV};
use crate::chars::{
    ascii_lower, chars_to_string, is_alphanumeric_char, is_whitespace_char, spec_ascii_lower,
    spec_is_alphanumeric, spec_is_whitespace, spec_trim, str_to_chars, trim_chars,
};
use crate::seqs::{
    filter_nonempty, join_chars, seq_views, spec_filter_nonempty, spec_join, spec_split_on,
    split_chars, subrange_vec,
};

verus! {

/// What one title character becomes: letters and digits are kept (lowered
/// when `lower` is set), whitespace and underscores become one underscore,
/// anything else is dropped.
pub open spec fn spec_keep_char(c: char, lower: bool) -> Seq<char> {
    if spec_is_alphanumeric(c) {
        seq![if lower { spec_ascii_lower(c) } else { c }]
    } else if spec_is_whitespace(c) || c == '_' {
        seq!['_']
    } else {
        Seq::<char>::empty()
    }
}

/// The character-by-character mapping of a whole title.
pub open spec fn spec_filter_title(s: Seq<char>, lower: bool) -> Seq<char>
    decreases s.len(),
{
    if s.len() == 0 {
        Seq::<char>::empty()
    } else {
        spec_filter_title(s.drop_last(), lower) + spec_keep_char(s.last(), lower)
    }
}

/// Collapses runs of underscores and strips leading and trailing ones.
pub open spec fn spec_squash_underscores(s: Seq<char>) -> Seq<char> {
    spec_join(spec_filter_nonempty(spec_split_on('_', s)), '_')
}

/// What `to_snake_case` returns.
pub open spec fn spec_snake_case(s: Seq<char>) -> Seq<char> {
    spec_squash_underscores(spec_filter_title(spec_trim(s), true))
}

/// What `sanitize_module_name` returns.
pub open spec fn spec_sanitize_module(s: Seq<char>) -> Seq<char> {
    spec_squash_underscores(spec_filter_title(spec_trim(s), false))
}

fn filter_title(v: &Vec<char>, lower: bool) -> (r: Vec<char>)
    ensures
        r@ == spec_filter_title(v@, lower),
{
    let mut r: Vec<char> = Vec::new();
    let mut i: usize = 0;
    assert(v@.take(0) =~= Seq::<char>::empty());
    while i < v.len()
        invariant
            i <= v@.len(),
            r@ =~= spec_filter_title(v@.take(i as int), lower),
        decreases v@.len() - i,
    {
        proof {
            assert(v@.take(i + 1).drop_last() =~= v@.take(i as int));
            assert(v@.take(i + 1).last() == v@[i as int]);
        }
        let ghost old_r = r@;
        let c = v[i];
        if is_alphanumeric_char(c) {
            if lower {
                r.push(ascii_lower(c));
            } else {
                r.push(c);
            }
        } else if is_whitespace_char(c) || c == '_' {
            r.push('_');
        }
        assert(r@ =~= old_r + spec_keep_char(v@[i as int], lower));
        i = i + 1;
    }
    assert(v@.take(v@.len() as int) =~= v@);
    r
}

fn squash_underscores(v: &Vec<char>) -> (r: Vec<char>)
    ensures
        r@ == spec_squash_underscores(v@),
{
    let parts = split_chars(v, '_');
    let kept = filter_nonempty(parts);
    join_chars(&kept, '_')
}

/// Converts a title's characters to `snake_case`.
pub fn snake_case_chars(v: &Vec<char>) -> (r: Vec<char>)
    ensures
        r@ == spec_snake_case(v@),
{
    let trimmed = trim_chars(v);
    let filtered = filter_title(&trimmed, true);
    squash_underscores(&filtered)
}

/// Converts a title to `snake_case`: keeps letters and digits in lower
/// case, turns whitespace into underscores, drops every other character,
/// and collapses repeated underscores.
pub fn to_snake_case(title: &str) -> (r: String)
    ensures
        r@ == spec_snake_case(title@),
{
    let cs = str_to_chars(title);
    let squashed = snake_case_chars(&cs);
    chars_to_string(&squashed)
}

/// Converts a module or submodule name the same way as `to_snake_case`,
/// but keeps upper-case characters, which are allowed in module names.
pub fn sanitize_module_name(title: &str) -> (r: String)
    ensures
        r@ == spec_sanitize_module(title@),
{
    let cs = str_to_chars(title);
    let trimmed = trim_chars(&cs);
    let filtered = filter_title(&trimmed, false);
    let squashed = squash_underscores(&filtered);
    chars_to_string(&squashed)
}

fn sanitize_chars(v: &Vec<char>) -> (r: Vec<char>)
    ensures
        r@ == spec_sanitize_module(v@),
{
    let trimmed = trim_chars(v);
    let filtered = filter_title(&trimmed, false);
    squash_underscores(&filtered)
}

/// How many non-overlapping occurrences of the module separator `::` the
/// identifier holds, scanning from the left.
pub open spec fn spec_sep_count(s: Seq<char>) -> nat
    decreases s.len(),
{
    if s.len() < 2 {
        0
    } else if s[0] == ':' && s[1] == ':' {
        1 + spec_sep_count(s.subrange(2, s.len() as int))
    } else {
        spec_sep_count(s.subrange(1, s.len() as int))
    }
}

/// The index of the leftmost occurrence of `::`, or -1 when there is none.
pub open spec fn spec_first_sep(s: Seq<char>) -> int
    decreases s.len(),
{
    if s.len() < 2 {
        -1
    } else if s[0] == ':' && s[1] == ':' {
        0
    } else {
        let r = spec_first_sep(s.subrange(1, s.len() as int));
        if r < 0 {
            -1
        } else {
            r + 1
        }
    }
}

/// Counts the non-overlapping occurrences of `::`.
pub fn sep_count(v: &Vec<char>) -> (r: usize)
    ensures
        r == spec_sep_count(v@),
{
    let len = v.len();
    let mut i: usize = 0;
    let mut count: usize = 0;
    assert(v@.subrange(0, len as int) =~= v@);
    while len >= 1 && i < len - 1
        invariant
            i <= len,
            len == v@.len(),
            count <= i,
            spec_sep_count(v@) == count + spec_sep_count(v@.subrange(i as int, len as int)),
        decreases len - i,
    {
        let ghost suf = v@.subrange(i as int, len as int);
        if v[i] == ':' && v[i + 1] == ':' {
            proof {
                assert(suf.subrange(2, suf.len() as int) =~= v@.subrange(i + 2, len as int));
            }
            count = count + 1;
            i = i + 2;
        } else {
            proof {
                assert(suf.subrange(1, suf.len() as int) =~= v@.subrange(i + 1, len as int));
            }
            i = i + 1;
        }
    }
    assert(spec_sep_count(v@.subrange(i as int, len as int)) == 0);
    count
}

fn find_first_sep(v: &Vec<char>) -> (r: Option<usize>)
    ensures
        spec_first_sep(v@) >= 0 ==> r == Some(spec_first_sep(v@) as usize) && spec_first_sep(v@)
            + 2 <= v@.len(),
        spec_first_sep(v@) < 0 ==> r is None,
{
    let len = v.len();
    let mut i: usize = 0;
    assert(v@.subrange(0, len as int) =~= v@);
    while len >= 1 && i < len - 1
        invariant
            i <= len,
            len == v@.len(),
            spec_first_sep(v@) == ({
                let r = spec_first_sep(v@.subrange(i as int, len as int));
                if r < 0 {
                    -1
                } else {
                    r + i
                }
            }),
        decreases len - i,
    {
        let ghost suf = v@.subrange(i as int, len as int);
        if v[i] == ':' && v[i + 1] == ':' {
            assert(spec_first_sep(suf) == 0);
            return Some(i);
        }
        proof {
            assert(suf.subrange(1, suf.len() as int) =~= v@.subrange(i + 1, len as int));
        }
        i = i + 1;
    }
    assert(spec_first_sep(v@.subrange(i as int, len as int)) < 0);
    None
}

/// What `parse_root_name` returns: the sanitized module name, the sanitized
/// submodule name when a separator is present, or the error text when the
/// identifier holds more than one separator.
pub open spec fn spec_parse_root_name(s: Seq<char>) -> Result<
    (Seq<char>, Option<Seq<char>>),
    Seq<char>,
> {
    if spec_sep_count(s) > 1 {
        Err("invalid root \""@ + s + "\": expected at most one '::' separator"@)
    } else {
        let k = spec_first_sep(s);
        if k < 0 {
            Ok((spec_sanitize_module(s), None))
        } else {
            Ok(
                (
                    spec_sanitize_module(s.subrange(0, k)),
                    Some(spec_sanitize_module(s.subrange(k + 2, s.len() as int))),
                ),
            )
        }
    }
}

/// The view of what `parse_root_name` returned.
pub open spec fn root_name_view(r: Result<(String, Option<String>), String>) -> Result<
    (Seq<char>, Option<Seq<char>>),
    Seq<char>,
> {
    match r {
        Ok((m, sub)) => Ok(
            (
                m@,
                match sub {
                    Some(s) => Some(s@),
                    None => None,
                },
            ),
        ),
        Err(e) => Err(e@),
    }
}

/// Extracts the module and submodule name from a root's contract
/// identifier, rejecting identifiers with more than one `::` separator.
pub fn parse_root_name(contract_name: &str) -> (r: Result<(String, Option<String>), String>)
    ensures
        root_name_view(r) == spec_parse_root_name(contract_name@),
{
    let cs = str_to_chars(contract_name);
    let n = sep_count(&cs);
    if n > 1 {
        let mut msg = String::from_str("invalid root \"");
        msg.append(contract_name);
        msg.append("\": expected at most one '::' separator");
        return Err(msg);
    }
    match find_first_sep(&cs) {
        None => Ok((chars_to_string(&sanitize_chars(&cs)), None)),
        Some(k) => {
            assert(spec_first_sep(cs@) >= 0);
            let end = cs.len();
            assert(k + 2 <= end);
            let before = subrange_vec(&cs, 0, k);
            let after = subrange_vec(&cs, k + 2, end);
            Ok(
                (
                    chars_to_string(&sanitize_chars(&before)),
                    Some(chars_to_string(&sanitize_chars(&after))),
                ),
            )
        },
    }
}

/// The running module-name state while scanning a forest of roots: no root
/// seen yet, all roots so far agreeing, or a terminal disagreement holding
/// the expected and the offending name.
#[derive(Debug, PartialEq, Eq)]
pub enum ModuleName {
    Empty,
    Consistent(String),
    Mismatch(String, String),
}

/// The mathematical shape of a `ModuleName`.
pub enum ModuleNameV {
    Empty,
    Consistent(Seq<char>),
    Mismatch(Seq<char>, Seq<char>),
}

impl View for ModuleName {
    type V = ModuleNameV;

    open spec fn view(&self) -> ModuleNameV {
        match self {
            ModuleName::Empty => ModuleNameV::Empty,
            ModuleName::Consistent(m) => ModuleNameV::Consistent(m@),
            ModuleName::Mismatch(a, b) => ModuleNameV::Mismatch(a@, b@),
        }
    }
}

/// The contract identifier of a root node; the empty sequence on the other
/// variants, which callers rule out.
pub open spec fn spec_root_name(a: AstV) -> Seq<char> {
    match a {
        AstV::Root { name, .. } => name,
        _ => Seq::<char>::empty(),
    }
}

/// What `get_module_name` returns, scanning the forest left to right from
/// the running state `acc`.
pub open spec fn spec_get_module_name_from(forest: Seq<AstV>, acc: ModuleNameV) -> Result<
    ModuleNameV,
    Seq<char>,
>
    decreases forest.len(),
{
    if forest.len() == 0 {
        Ok(acc)
    } else {
        match spec_parse_root_name(spec_root_name(forest[0])) {
            Err(e) => Err(e),
            Ok((m, _)) => match acc {
                ModuleNameV::Empty => spec_get_module_name_from(
                    forest.subrange(1, forest.len() as int),
                    ModuleNameV::Consistent(m),
                ),
                ModuleNameV::Consistent(expected) => if m != expected {
                    Ok(ModuleNameV::Mismatch(expected, m))
                } else {
                    spec_get_module_name_from(forest.subrange(1, forest.len() as int), acc)
                },
                ModuleNameV::Mismatch(a, b) => spec_get_module_name_from(
                    forest.subrange(1, forest.len() as int),
                    acc,
                ),
            },
        }
    }
}

/// What `get_module_name` returns.
pub open spec fn spec_get_module_name(forest: Seq<AstV>) -> Result<ModuleNameV, Seq<char>> {
    spec_get_module_name_from(forest, ModuleNameV::Empty)
}

/// The view of what `get_module_name` returned.
pub open spec fn module_name_res_view(r: Result<ModuleName, String>) -> Result<
    ModuleNameV,
    Seq<char>,
> {
    match r {
        Ok(m) => Ok(m@),
        Err(e) => Err(e@),
    }
}

/// Checks that all roots in a multi-root forest carry one module name.
/// Returns the running tri-state: `Consistent` when every root agrees,
/// `Mismatch` holding the expected and the first disagreeing name, or the
/// error of `parse_root_name` when a root's identifier is invalid.
pub fn get_module_name(forest: &[Ast]) -> (r: Result<ModuleName, String>)
    requires
        forall|i: int| 0 <= i < forest@.len() ==> forest@[i] is Root,
    ensures
        module_name_res_view(r) == spec_get_module_name(asts_view(forest@)),
{
    proof {
        lemma_asts_view_len(forest@);
    }
    let ghost whole = asts_view(forest@);
    let mut expected: ModuleName = ModuleName::Empty;
    let mut i: usize = 0;
    assert(whole.subrange(0, whole.len() as int) =~= whole);
    while i < forest.len()
        invariant
            i <= forest@.len(),
            whole == asts_view(forest@),
            whole.len() == forest@.len(),
            forall|j: int| 0 <= j < forest@.len() ==> forest@[j] is Root,
            spec_get_module_name(whole) == spec_get_module_name_from(
                whole.subrange(i as int, whole.len() as int),
                expected@,
            ),
        decreases forest@.len() - i,
    {
        let ghost suf = whole.subrange(i as int, whole.len() as int);
        proof {
            lemma_asts_view_index(forest@, i as int);
            assert(suf[0] == whole[i as int]);
            assert(suf.subrange(1, suf.len() as int) =~= whole.subrange(
                i + 1,
                whole.len() as int,
            ));
        }
        let root = match &forest[i] {
            Ast::Root(r) => r,
            _ => vstd::pervasive::unreached(),
        };
        assert(spec_root_name(whole[i as int]) == root.contract_name@);
        match parse_root_name(root.contract_name.as_str()) {
            Err(e) => {
                return Err(e);
            },
            Ok((m, _sub)) => {
                match &expected {
                    ModuleName::Empty => {
                        expected = ModuleName::Consistent(m);
                    },
                    ModuleName::Consistent(exp) => {
                        if !(m == *exp) {
                            return Ok(ModuleName::Mismatch(exp.clone(), m));
                        }
                    },
                    ModuleName::Mismatch(_, _) => {},
                }
            },
        }
        i = i + 1;
    }
    assert(whole.subrange(i as int, whole.len() as int) =~= Seq::<AstV>::empty());
    Ok(expected)
}

} // verus!
