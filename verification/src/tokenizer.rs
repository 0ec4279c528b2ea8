//! The tokenizer: one tree's text, line by line, into a stream of spanned
//! tokens.  Depth information is carried by the connector glyphs alone
//! (`│`, `├`, `└`); the number of literal spaces used for alignment is a
//! rendering detail and is discarded.  Whitespace inside a description is
//! preserved verbatim; it is trimmed only at the ends.
//!
//! Lines are 0-based indices into the whole input text; columns are
//! 0-based character offsets into the line.

use vstd::prelude::*;

use crate::chars::{
    char_to_string, chars_eq_str, chars_to_string, spec_ascii_lower, spec_is_whitespace,
    spec_trim, trim_chars,
};
use crate::error::{FrontendError, LexReason};
use crate::seqs::{seq_views, subrange_vec};

verus! {

/// The kind of one token: an indentation or connector glyph, or a line's
/// description classified by its leading keyword ("when"/"given" opens a
/// condition, "it" an action; anything else is root-shaped free text).
#[derive(Clone, Copy, Debug, PartialEq, Eq, Structural)]
pub enum TokenKind {
    /// A vertical continuation glyph `│` in the indentation prefix.
    Bar,
    /// A branch connector `├` (this node has a following sibling).
    Tee,
    /// A last-branch connector `└` (this node is the last sibling).
    Corner,
    /// A description starting with no recognized keyword: a root
    /// declaration when it begins a tree, an error anywhere else.
    RootTitle,
    /// A description starting with "when" or "given".
    ConditionTitle,
    /// A description starting with "it".
    ActionTitle,
}

/// The mathematical shape of one token.
pub struct TokV {
    pub kind: TokenKind,
    pub text: Seq<char>,
    pub line: usize,
    pub col: usize,
}

/// One spanned token: its kind, its text (for glyphs the glyph itself, for
/// descriptions the trimmed description), and its position.
pub struct Token {
    pub kind: TokenKind,
    pub text: String,
    pub line: usize,
    pub col: usize,
}

impl View for Token {
    type V = TokV;

    open spec fn view(&self) -> TokV {
        TokV { kind: self.kind, text: self.text@, line: self.line, col: self.col }
    }
}

/// The longest whitespace-free prefix of a description.
pub open spec fn spec_first_word(s: Seq<char>) -> Seq<char>
    decreases s.len(),
{
    if s.len() == 0 {
        Seq::<char>::empty()
    } else if spec_is_whitespace(s[0]) {
        Seq::<char>::empty()
    } else {
        seq![s[0]] + spec_first_word(s.subrange(1, s.len() as int))
    }
}

/// Classifies a description by its leading keyword, compared without
/// regard to ASCII case.
pub open spec fn spec_title_kind(title: Seq<char>) -> TokenKind {
    let w = spec_first_word(title).map_values(|c: char| spec_ascii_lower(c));
    if w == "when"@ || w == "given"@ {
        TokenKind::ConditionTitle
    } else if w == "it"@ {
        TokenKind::ActionTitle
    } else {
        TokenKind::RootTitle
    }
}

/// The index just past the run of `─` glyphs starting at `j`.
pub open spec fn spec_skip_dashes(l: Seq<char>, j: int) -> int
    decreases l.len() - j,
{
    if 0 <= j < l.len() && l[j] == '─' {
        spec_skip_dashes(l, j + 1)
    } else {
        j
    }
}

/// Whether a character is a box-drawing glyph.
pub open spec fn spec_is_box_glyph(c: char) -> bool {
    0x2500 <= (c as u32) && (c as u32) < 0x2580
}

/// What the tokenizer produces for the rest of one line, scanning from
/// offset `j`.  `first` marks the first line of a tree, whose description
/// is always a root declaration.
pub open spec fn spec_scan(l: Seq<char>, line: usize, first: bool, j: int) -> Result<
    Seq<TokV>,
    FrontendError,
>
    decreases l.len() - j,
{
    if j < 0 || j >= l.len() {
        Err(FrontendError::Lex { line, col: j as usize, lex: LexReason::EmptyLine })
    } else if l[j] == ' ' || l[j] == '\t' {
        spec_scan(l, line, first, j + 1)
    } else if l[j] == '│' {
        match spec_scan(l, line, first, j + 1) {
            Ok(ts) => Ok(
                seq![TokV { kind: TokenKind::Bar, text: seq!['│'], line, col: j as usize }] + ts,
            ),
            Err(e) => Err(e),
        }
    } else if l[j] == '├' || l[j] == '└' {
        let k = spec_skip_dashes(l, j + 1);
        let title = spec_trim(l.subrange(k, l.len() as int));
        if title.len() == 0 {
            Err(
                FrontendError::Lex {
                    line,
                    col: j as usize,
                    lex: LexReason::MissingDescription,
                },
            )
        } else {
            let ckind = if l[j] == '├' {
                TokenKind::Tee
            } else {
                TokenKind::Corner
            };
            Ok(
                seq![
                    TokV { kind: ckind, text: seq![l[j]], line, col: j as usize },
                    TokV { kind: spec_title_kind(title), text: title, line, col: k as usize },
                ],
            )
        }
    } else if spec_is_box_glyph(l[j]) {
        Err(
            FrontendError::Lex {
                line,
                col: j as usize,
                lex: LexReason::UnrecognizedConnector,
            },
        )
    } else {
        let title = spec_trim(l.subrange(j, l.len() as int));
        let kind = if first {
            TokenKind::RootTitle
        } else {
            spec_title_kind(title)
        };
        Ok(seq![TokV { kind, text: title, line, col: j as usize }])
    }
}

/// What the tokenizer produces for a sequence of lines whose first line
/// has index `base` in the whole input.
pub open spec fn spec_tokenize_lines(lines: Seq<Seq<char>>, base: usize, first: bool) -> Result<
    Seq<TokV>,
    FrontendError,
>
    decreases lines.len(),
{
    if lines.len() == 0 {
        Ok(Seq::<TokV>::empty())
    } else {
        match spec_scan(lines[0], base, first, 0) {
            Err(e) => Err(e),
            Ok(ts) => match spec_tokenize_lines(
                lines.subrange(1, lines.len() as int),
                (base + 1) as usize,
                false,
            ) {
                Err(e) => Err(e),
                Ok(rest) => Ok(ts + rest),
            },
        }
    }
}

/// The view of a tokenizer result.
pub open spec fn tokens_res_view(r: Result<Vec<Token>, FrontendError>) -> Result<
    Seq<TokV>,
    FrontendError,
> {
    match r {
        Ok(ts) => Ok(seq_views(ts@)),
        Err(e) => Err(e),
    }
}

/// Classifies a description by its leading keyword.
fn title_kind(title: &Vec<char>) -> (r: TokenKind)
    ensures
        r == spec_title_kind(title@),
{
    let mut w: Vec<char> = Vec::new();
    let mut i: usize = 0;
    assert(title@.subrange(0, title@.len() as int) =~= title@);
    while i < title.len() && !crate::chars::is_whitespace_char(title[i])
        invariant
            i <= title@.len(),
            w@ =~= title@.subrange(0, i as int).map_values(|c: char| spec_ascii_lower(c)),
            spec_first_word(title@) == title@.subrange(0, i as int) + spec_first_word(
                title@.subrange(i as int, title@.len() as int),
            ),
        decreases title@.len() - i,
    {
        let ghost suf = title@.subrange(i as int, title@.len() as int);
        proof {
            assert(suf[0] == title@[i as int]);
            assert(suf.subrange(1, suf.len() as int) =~= title@.subrange(
                i + 1,
                title@.len() as int,
            ));
            assert(title@.subrange(0, i + 1) =~= title@.subrange(0, i as int).push(
                title@[i as int],
            ));
        }
        let ghost old_w = w@;
        w.push(crate::chars::ascii_lower(title[i]));
        proof {
            assert(w@ =~= old_w.push(spec_ascii_lower(title@[i as int])));
            assert(title@.subrange(0, i + 1).map_values(|c: char| spec_ascii_lower(c))
                =~= title@.subrange(0, i as int).map_values(|c: char| spec_ascii_lower(c)).push(
                spec_ascii_lower(title@[i as int]),
            ));
            assert(title@.subrange(0, i as int) + spec_first_word(suf) =~= title@.subrange(
                0,
                i + 1,
            ) + spec_first_word(title@.subrange(i + 1, title@.len() as int)));
        }
        i = i + 1;
    }
    proof {
        assert(spec_first_word(title@.subrange(i as int, title@.len() as int))
            == Seq::<char>::empty());
        assert(spec_first_word(title@) =~= title@.subrange(0, i as int));
        assert(w@ =~= spec_first_word(title@).map_values(|c: char| spec_ascii_lower(c)));
    }
    if chars_eq_str(&w, "when") || chars_eq_str(&w, "given") {
        TokenKind::ConditionTitle
    } else if chars_eq_str(&w, "it") {
        TokenKind::ActionTitle
    } else {
        TokenKind::RootTitle
    }
}

/// Tokenizes one line, appending its tokens to `out`; returns the first
/// lexical error instead, in which case `out` is discarded by the caller.
fn scan_line(l: &Vec<char>, line: usize, first: bool, out: &mut Vec<Token>) -> (r: Option<
    FrontendError,
>)
    ensures
        match spec_scan(l@, line, first, 0) {
            Ok(ts) => r is None && seq_views(final(out)@) == seq_views(old(out)@) + ts,
            Err(e) => r == Some(e),
        },
{
    let len = l.len();
    let mut j: usize = 0;
    let ghost base_views = seq_views(out@);
    while j < len
        invariant
            j <= len,
            len == l@.len(),
            base_views == seq_views(old(out)@),
            seq_views(out@).len() >= base_views.len(),
            base_views =~= seq_views(out@).subrange(0, base_views.len() as int),
            ({
                let done = seq_views(out@).subrange(
                    base_views.len() as int,
                    seq_views(out@).len() as int,
                );
                spec_scan(l@, line, first, 0) == match spec_scan(l@, line, first, j as int) {
                    Ok(ts) => Ok::<Seq<TokV>, FrontendError>(done + ts),
                    Err(e) => Err::<Seq<TokV>, FrontendError>(e),
                }
            }),
        decreases len - j,
    {
        let ghost done = seq_views(out@).subrange(
            base_views.len() as int,
            seq_views(out@).len() as int,
        );
        let c = l[j];
        if c == ' ' || c == '\t' {
            j = j + 1;
        } else if c == '│' {
            let ghost old_out = out@;
            out.push(Token { kind: TokenKind::Bar, text: char_to_string('│'), line, col: j });
            proof {
                assert(seq_views(out@) =~= seq_views(old_out).push(
                    TokV { kind: TokenKind::Bar, text: seq!['│'], line, col: j },
                ));
                assert(seq_views(out@).subrange(0, base_views.len() as int) =~= base_views);
                let done2 = seq_views(out@).subrange(
                    base_views.len() as int,
                    seq_views(out@).len() as int,
                );
                assert(done2 =~= done.push(
                    TokV { kind: TokenKind::Bar, text: seq!['│'], line, col: j },
                ));
                if spec_scan(l@, line, first, j + 1) is Ok {
                    let ts2 = spec_scan(l@, line, first, j + 1)->Ok_0;
                    assert(done + (seq![
                        TokV { kind: TokenKind::Bar, text: seq!['│'], line, col: j },
                    ] + ts2) =~= done2 + ts2);
                }
            }
            j = j + 1;
        } else if c == '├' || c == '└' {
            let mut k = j + 1;
            while k < len && l[k] == '─'
                invariant
                    j + 1 <= k <= len,
                    len == l@.len(),
                    spec_skip_dashes(l@, j + 1) == spec_skip_dashes(l@, k as int),
                decreases len - k,
            {
                k = k + 1;
            }
            assert(spec_skip_dashes(l@, k as int) == k);
            let rest = subrange_vec(l, k, len);
            let title = trim_chars(&rest);
            if title.len() == 0 {
                return Some(
                    FrontendError::Lex { line, col: j, lex: LexReason::MissingDescription },
                );
            }
            let ckind = if c == '├' {
                TokenKind::Tee
            } else {
                TokenKind::Corner
            };
            let tkind = title_kind(&title);
            let ghost old_out = out@;
            out.push(Token { kind: ckind, text: char_to_string(c), line, col: j });
            out.push(Token { kind: tkind, text: chars_to_string(&title), line, col: k });
            proof {
                let conn_v = TokV { kind: ckind, text: seq![c], line, col: j };
                let title_v = TokV { kind: tkind, text: title@, line, col: k };
                assert(seq_views(out@) =~= seq_views(old_out).push(conn_v).push(title_v));
                assert(seq_views(out@).subrange(0, base_views.len() as int) =~= base_views);
                let done2 = seq_views(out@).subrange(
                    base_views.len() as int,
                    seq_views(out@).len() as int,
                );
                assert(done2 =~= done + seq![conn_v, title_v]);
                assert(seq_views(out@) =~= base_views + done2);
            }
            return None;
        } else {
            let u = c as u32;
            if 0x2500 <= u && u < 0x2580 {
                return Some(
                    FrontendError::Lex { line, col: j, lex: LexReason::UnrecognizedConnector },
                );
            }
            let rest = subrange_vec(l, j, len);
            let title = trim_chars(&rest);
            let kind = if first {
                TokenKind::RootTitle
            } else {
                title_kind(&title)
            };
            let ghost old_out = out@;
            out.push(Token { kind, text: chars_to_string(&title), line, col: j });
            proof {
                let title_v = TokV { kind, text: spec_trim(l@.subrange(j as int, len as int)), line, col: j };
                assert(seq_views(out@) =~= seq_views(old_out).push(title_v));
                assert(seq_views(out@).subrange(0, base_views.len() as int) =~= base_views);
                let done2 = seq_views(out@).subrange(
                    base_views.len() as int,
                    seq_views(out@).len() as int,
                );
                assert(done2 =~= done.push(title_v));
                assert(seq_views(out@) =~= base_views + done2);
            }
            return None;
        }
    }
    Some(FrontendError::Lex { line, col: j, lex: LexReason::EmptyLine })
}

/// Tokenizes one tree's lines, whose first line has index `base` in the
/// whole input text.
pub fn tokenize(lines: &Vec<Vec<char>>, base: usize) -> (r: Result<Vec<Token>, FrontendError>)
    requires
        base + lines@.len() <= usize::MAX,
    ensures
        tokens_res_view(r) == spec_tokenize_lines(seq_views(lines@), base, true),
{
    let ghost all = seq_views(lines@);
    let mut out: Vec<Token> = Vec::new();
    let mut i: usize = 0;
    assert(all.subrange(0, all.len() as int) =~= all);
    while i < lines.len()
        invariant
            i <= lines@.len(),
            all == seq_views(lines@),
            base + lines@.len() <= usize::MAX,
            spec_tokenize_lines(all, base, true) == (match spec_tokenize_lines(
                all.subrange(i as int, all.len() as int),
                (base + i) as usize,
                i == 0,
            ) {
                Ok(ts) => Ok::<Seq<TokV>, FrontendError>(seq_views(out@) + ts),
                Err(e) => Err::<Seq<TokV>, FrontendError>(e),
            }),
        decreases lines@.len() - i,
    {
        let ghost suf = all.subrange(i as int, all.len() as int);
        proof {
            assert(suf[0] == lines@[i as int]@);
            assert(suf.subrange(1, suf.len() as int) =~= all.subrange(i + 1, all.len() as int));
        }
        let ghost views_before = seq_views(out@);
        let e = scan_line(&lines[i], base + i, i == 0, &mut out);
        match e {
            Some(err) => {
                return Err(err);
            },
            None => {
                proof {
                    let ts_i = spec_scan(lines@[i as int]@, (base + i) as usize, i == 0, 0)->Ok_0;
                    if spec_tokenize_lines(
                        all.subrange(i + 1, all.len() as int),
                        (base + i + 1) as usize,
                        false,
                    ) is Ok {
                        let rest = spec_tokenize_lines(
                            all.subrange(i + 1, all.len() as int),
                            (base + i + 1) as usize,
                            false,
                        )->Ok_0;
                        assert(views_before + (ts_i + rest) =~= (views_before + ts_i) + rest);
                    }
                }
            },
        }
        i = i + 1;
    }
    assert(all.subrange(lines@.len() as int, all.len() as int) =~= Seq::<Seq<char>>::empty());
    assert(seq_views(out@) + Seq::<TokV>::empty() =~= seq_views(out@));
    Ok(out)
}

} // verus!
