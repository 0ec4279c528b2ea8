//! The parser: a token stream into exactly one tree rooted at a single
//! `Root`.  It keeps a stack of open ancestor nodes.  Depth is decided by
//! the connector shape alone: the number of `│` bars a line carries must
//! match the number of still-pending open levels (levels whose last
//! connector was `├`), and a new node attaches as deep as that allows.
//! The parser never reads token columns, so two inputs whose token streams
//! differ only in column positions parse identically.

use vstd::prelude::*;

use crate::ast::{asts_view, lemma_asts_view_push, Action, Ast, AstV, Condition, Root};
use crate::error::{FrontendError, ParseReason};
use crate::seqs::seq_views;
use crate::tokenizer::{Token, TokenKind, TokV};

verus! {

/// A token with its column erased: everything the parser may depend on.
pub struct TokShape {
    pub kind: TokenKind,
    pub text: Seq<char>,
    pub line: usize,
}

/// Erases the column of a token.
pub open spec fn shape_of(t: TokV) -> TokShape {
    TokShape { kind: t.kind, text: t.text, line: t.line }
}

/// Erases the columns of a token stream.
pub open spec fn shapes(ts: Seq<TokV>) -> Seq<TokShape> {
    ts.map_values(|t: TokV| shape_of(t))
}

/// One open ancestor on the parser's stack: the node's title and line, the
/// children collected so far, and whether its connector was `├` (a pending
/// level, drawn as `│` by deeper lines).
pub struct Frame {
    pub is_root: bool,
    pub title: String,
    pub line: usize,
    pub pending: bool,
    pub children: Vec<Ast>,
}

/// The mathematical shape of one stack frame.
pub struct FrameV {
    pub is_root: bool,
    pub title: Seq<char>,
    pub line: usize,
    pub pending: bool,
    pub children: Seq<AstV>,
}

impl View for Frame {
    type V = FrameV;

    open spec fn view(&self) -> FrameV {
        FrameV {
            is_root: self.is_root,
            title: self.title@,
            line: self.line,
            pending: self.pending,
            children: asts_view(self.children@),
        }
    }
}

/// Where the parser stands inside a line: collecting indentation bars, or
/// just past a connector and expecting the node's description.
#[derive(Clone, Copy, Debug, PartialEq, Eq, Structural)]
pub enum Mode {
    Prefix { bars: usize, line: usize },
    Connect { bars: usize, pending: bool, line: usize },
}

/// How many stack frames are pending (their connector was `├`).
pub open spec fn spec_count_pending(s: Seq<FrameV>) -> int
    decreases s.len(),
{
    if s.len() == 0 {
        0
    } else {
        spec_count_pending(s.drop_last()) + if s.last().pending {
            1int
        } else {
            0int
        }
    }
}

/// Closes the deepest open level: the top frame becomes a `Condition` node
/// and is appended to its parent's children.
pub open spec fn spec_attach(s: Seq<FrameV>) -> Seq<FrameV> {
    if s.len() < 2 {
        s
    } else {
        let f = s.last();
        let node = AstV::Condition { title: f.title, line: f.line, children: f.children };
        let p = s[s.len() - 2];
        s.drop_last().update(
            s.len() - 2,
            FrameV {
                is_root: p.is_root,
                title: p.title,
                line: p.line,
                pending: p.pending,
                children: p.children.push(node),
            },
        )
    }
}

/// Closes open levels until at most `bars` pending levels remain.
pub open spec fn spec_pop_to(s: Seq<FrameV>, bars: int) -> Seq<FrameV>
    decreases s.len(),
{
    if s.len() <= 1 || spec_count_pending(s) <= bars {
        s
    } else {
        spec_pop_to(spec_attach(s), bars)
    }
}

/// Closes every open level and returns the finished root node.
pub open spec fn spec_finalize(s: Seq<FrameV>) -> AstV
    decreases s.len(),
{
    if s.len() == 0 {
        AstV::Root { name: Seq::<char>::empty(), line: 0, children: Seq::<AstV>::empty() }
    } else if s.len() == 1 {
        AstV::Root { name: s[0].title, line: s[0].line, children: s[0].children }
    } else {
        spec_finalize(spec_attach(s))
    }
}

/// What the parser returns for the tokens from `i` on, given the open
/// stack and the position inside the current line.
pub open spec fn spec_parse_from(
    sh: Seq<TokShape>,
    i: int,
    stack: Seq<FrameV>,
    mode: Mode,
) -> Result<AstV, FrontendError>
    decreases sh.len() - i,
{
    if i < 0 || i >= sh.len() {
        match mode {
            Mode::Prefix { bars, line } => {
                if stack.len() == 0 {
                    Err(FrontendError::Parse { line, parse: ParseReason::NoTree })
                } else if bars != 0 {
                    Err(FrontendError::Parse { line, parse: ParseReason::ExpectedConnector })
                } else {
                    Ok(spec_finalize(stack))
                }
            },
            Mode::Connect { line, .. } => Err(
                FrontendError::Parse { line, parse: ParseReason::ExpectedConditionOrAction },
            ),
        }
    } else {
        let t = sh[i];
        match mode {
            Mode::Prefix { bars, line } => match t.kind {
                TokenKind::Bar => {
                    if stack.len() == 0 {
                        Err(FrontendError::Parse { line: t.line, parse: ParseReason::ExpectedRoot })
                    } else {
                        spec_parse_from(
                            sh,
                            i + 1,
                            stack,
                            Mode::Prefix { bars: ((bars + 1) as usize), line: t.line },
                        )
                    }
                },
                TokenKind::Tee | TokenKind::Corner => {
                    if stack.len() == 0 {
                        Err(FrontendError::Parse { line: t.line, parse: ParseReason::ExpectedRoot })
                    } else {
                        spec_parse_from(
                            sh,
                            i + 1,
                            stack,
                            Mode::Connect {
                                bars,
                                pending: t.kind == TokenKind::Tee,
                                line: t.line,
                            },
                        )
                    }
                },
                _ => {
                    if stack.len() == 0 {
                        if t.kind == TokenKind::RootTitle {
                            spec_parse_from(
                                sh,
                                i + 1,
                                seq![
                                    FrameV {
                                        is_root: true,
                                        title: t.text,
                                        line: t.line,
                                        pending: false,
                                        children: Seq::<AstV>::empty(),
                                    },
                                ],
                                Mode::Prefix { bars: 0, line: t.line },
                            )
                        } else {
                            Err(
                                FrontendError::Parse {
                                    line: t.line,
                                    parse: ParseReason::ExpectedRoot,
                                },
                            )
                        }
                    } else if bars != 0 {
                        Err(
                            FrontendError::Parse {
                                line: t.line,
                                parse: ParseReason::ExpectedConnector,
                            },
                        )
                    } else {
                        Err(
                            FrontendError::Parse {
                                line: t.line,
                                parse: ParseReason::UnexpectedRootLine,
                            },
                        )
                    }
                },
            },
            Mode::Connect { bars, pending, line } => match t.kind {
                TokenKind::ConditionTitle | TokenKind::ActionTitle => {
                    let st2 = spec_pop_to(stack, bars as int);
                    if spec_count_pending(st2) != bars as int {
                        Err(FrontendError::Parse { line: t.line, parse: ParseReason::TooDeep })
                    } else if t.kind == TokenKind::ConditionTitle {
                        spec_parse_from(
                            sh,
                            i + 1,
                            st2.push(
                                FrameV {
                                    is_root: false,
                                    title: t.text,
                                    line: t.line,
                                    pending,
                                    children: Seq::<AstV>::empty(),
                                },
                            ),
                            Mode::Prefix { bars: 0, line: t.line },
                        )
                    } else {
                        let top = st2[st2.len() - 1];
                        let node = AstV::Action { title: t.text, line: t.line };
                        spec_parse_from(
                            sh,
                            i + 1,
                            st2.update(
                                st2.len() - 1,
                                FrameV {
                                    is_root: top.is_root,
                                    title: top.title,
                                    line: top.line,
                                    pending: top.pending,
                                    children: top.children.push(node),
                                },
                            ),
                            Mode::Prefix { bars: 0, line: t.line },
                        )
                    }
                },
                _ => Err(
                    FrontendError::Parse {
                        line: t.line,
                        parse: ParseReason::ExpectedConditionOrAction,
                    },
                ),
            },
        }
    }
}

/// What the parser returns for one tree's token stream.
pub open spec fn spec_parse_tokens(sh: Seq<TokShape>) -> Result<AstV, FrontendError> {
    spec_parse_from(sh, 0, Seq::<FrameV>::empty(), Mode::Prefix { bars: 0, line: 0 })
}

/// The view of a parser result.
pub open spec fn ast_res_view(r: Result<Ast, FrontendError>) -> Result<AstV, FrontendError> {
    match r {
        Ok(a) => Ok(a@),
        Err(e) => Err(e),
    }
}

proof fn lemma_count_pending_le(s: Seq<FrameV>)
    ensures
        0 <= spec_count_pending(s) <= s.len(),
    decreases s.len(),
{
    if s.len() > 0 {
        lemma_count_pending_le(s.drop_last());
    }
}

proof fn lemma_count_pending_update_same(s: Seq<FrameV>, k: int, f: FrameV)
    requires
        0 <= k < s.len(),
        f.pending == s[k].pending,
    ensures
        spec_count_pending(s.update(k, f)) == spec_count_pending(s),
    decreases s.len(),
{
    if s.len() > 0 {
        if k == s.len() - 1 {
            assert(s.update(k, f).drop_last() =~= s.drop_last());
            assert(s.update(k, f).last() == f);
        } else {
            assert(s.update(k, f).drop_last() =~= s.drop_last().update(k, f));
            assert(s.update(k, f).last() == s.last());
            lemma_count_pending_update_same(s.drop_last(), k, f);
        }
    }
}

proof fn lemma_count_pending_attach(s: Seq<FrameV>)
    requires
        s.len() >= 2,
    ensures
        spec_attach(s).len() == s.len() - 1,
        spec_count_pending(spec_attach(s)) == spec_count_pending(s) - (if s.last().pending {
            1int
        } else {
            0int
        }),
    decreases s.len(),
{
    let d = s.drop_last();
    let k = s.len() - 2;
    assert(spec_attach(s) == d.update(
        k,
        FrameV {
            is_root: d[k].is_root,
            title: d[k].title,
            line: d[k].line,
            pending: d[k].pending,
            children: d[k].children.push(
                AstV::Condition {
                    title: s.last().title,
                    line: s.last().line,
                    children: s.last().children,
                },
            ),
        },
    ));
    lemma_count_pending_update_same(
        d,
        k,
        FrameV {
            is_root: d[k].is_root,
            title: d[k].title,
            line: d[k].line,
            pending: d[k].pending,
            children: d[k].children.push(
                AstV::Condition {
                    title: s.last().title,
                    line: s.last().line,
                    children: s.last().children,
                },
            ),
        },
    );
}

/// Closes the deepest open level on the execution stack.
fn attach(stack: &mut Vec<Frame>) -> (popped_pending: bool)
    requires
        old(stack)@.len() >= 2,
    ensures
        final(stack)@.len() == old(stack)@.len() - 1,
        seq_views(final(stack)@) == spec_attach(seq_views(old(stack)@)),
        popped_pending == seq_views(old(stack)@).last().pending,
{
    let ghost old_views = seq_views(stack@);
    let f = match stack.pop() {
        Some(f) => f,
        None => vstd::pervasive::unreached(),
    };
    let node = Ast::Condition(Condition { title: f.title, line: f.line, children: f.children });
    let mut p = match stack.pop() {
        Some(p) => p,
        None => vstd::pervasive::unreached(),
    };
    proof {
        lemma_asts_view_push(p.children@, node);
    }
    p.children.push(node);
    stack.push(p);
    proof {
        assert(seq_views(stack@) =~= spec_attach(old_views));
    }
    f.pending
}

/// Parses one tree's token stream into a single `Root`-headed tree, or
/// fails on the first grammar violation.  The result is a function of the
/// tokens' kinds, texts and lines alone.
pub fn parse_tokens(tokens: &Vec<Token>) -> (r: Result<Ast, FrontendError>)
    ensures
        ast_res_view(r) == spec_parse_tokens(shapes(seq_views(tokens@))),
{
    let ghost sh = shapes(seq_views(tokens@));
    let mut stack: Vec<Frame> = Vec::new();
    let mut mode: Mode = Mode::Prefix { bars: 0, line: 0 };
    let mut pc: usize = 0;
    let mut i: usize = 0;
    while i < tokens.len()
        invariant
            i <= tokens@.len(),
            sh == shapes(seq_views(tokens@)),
            sh.len() == tokens@.len(),
            pc as int == spec_count_pending(seq_views(stack@)),
            pc <= stack@.len(),
            match mode {
                Mode::Prefix { bars, .. } => bars <= i,
                Mode::Connect { bars, .. } => bars <= i,
            },
            mode is Connect ==> stack@.len() >= 1,
            spec_parse_tokens(sh) == spec_parse_from(sh, i as int, seq_views(stack@), mode),
        decreases tokens@.len() - i,
    {
        proof {
            assert(sh[i as int] == shape_of(tokens@[i as int]@));
        }
        let t_kind = tokens[i].kind;
        let t_line = tokens[i].line;
        match mode {
            Mode::Prefix { bars, line } => {
                match t_kind {
                    TokenKind::Bar => {
                        if stack.len() == 0 {
                            return Err(
                                FrontendError::Parse {
                                    line: t_line,
                                    parse: ParseReason::ExpectedRoot,
                                },
                            );
                        }
                        mode = Mode::Prefix { bars: bars + 1, line: t_line };
                    },
                    TokenKind::Tee => {
                        if stack.len() == 0 {
                            return Err(
                                FrontendError::Parse {
                                    line: t_line,
                                    parse: ParseReason::ExpectedRoot,
                                },
                            );
                        }
                        mode = Mode::Connect { bars, pending: true, line: t_line };
                    },
                    TokenKind::Corner => {
                        if stack.len() == 0 {
                            return Err(
                                FrontendError::Parse {
                                    line: t_line,
                                    parse: ParseReason::ExpectedRoot,
                                },
                            );
                        }
                        mode = Mode::Connect { bars, pending: false, line: t_line };
                    },
                    _ => {
                        if stack.len() == 0 {
                            if t_kind == TokenKind::RootTitle {
                                let title = tokens[i].text.clone();
                                stack.push(
                                    Frame {
                                        is_root: true,
                                        title,
                                        line: t_line,
                                        pending: false,
                                        children: Vec::new(),
                                    },
                                );
                                proof {
                                    assert(seq_views(stack@) =~= seq![
                                        FrameV {
                                            is_root: true,
                                            title: tokens@[i as int]@.text,
                                            line: t_line,
                                            pending: false,
                                            children: Seq::<AstV>::empty(),
                                        },
                                    ]);
                                    assert(seq_views(stack@).drop_last()
                                        =~= Seq::<FrameV>::empty());
                                    assert(spec_count_pending(Seq::<FrameV>::empty()) == 0);
                                    assert(seq_views(stack@).last().pending == false);
                                    assert(spec_count_pending(seq_views(stack@)) == 0);
                                }
                                mode = Mode::Prefix { bars: 0, line: t_line };
                            } else {
                                return Err(
                                    FrontendError::Parse {
                                        line: t_line,
                                        parse: ParseReason::ExpectedRoot,
                                    },
                                );
                            }
                        } else if bars != 0 {
                            return Err(
                                FrontendError::Parse {
                                    line: t_line,
                                    parse: ParseReason::ExpectedConnector,
                                },
                            );
                        } else {
                            return Err(
                                FrontendError::Parse {
                                    line: t_line,
                                    parse: ParseReason::UnexpectedRootLine,
                                },
                            );
                        }
                    },
                }
            },
            Mode::Connect { bars, pending, line } => {
                match t_kind {
                    TokenKind::ConditionTitle | TokenKind::ActionTitle => {
                        let ghost stack0 = seq_views(stack@);
                        while stack.len() > 1 && pc > bars
                            invariant
                                stack@.len() >= 1,
                                pc as int == spec_count_pending(seq_views(stack@)),
                                pc <= stack@.len(),
                                spec_pop_to(stack0, bars as int) == spec_pop_to(
                                    seq_views(stack@),
                                    bars as int,
                                ),
                            decreases stack@.len(),
                        {
                            proof {
                                lemma_count_pending_attach(seq_views(stack@));
                            }
                            let was_pending = attach(&mut stack);
                            if was_pending {
                                pc = pc - 1;
                            }
                            proof {
                                lemma_count_pending_le(seq_views(stack@));
                            }
                        }
                        assert(spec_pop_to(seq_views(stack@), bars as int) == seq_views(stack@));
                        if pc != bars {
                            return Err(
                                FrontendError::Parse {
                                    line: t_line,
                                    parse: ParseReason::TooDeep,
                                },
                            );
                        }
                        let title = tokens[i].text.clone();
                        if t_kind == TokenKind::ConditionTitle {
                            let ghost before = seq_views(stack@);
                            stack.push(
                                Frame {
                                    is_root: false,
                                    title,
                                    line: t_line,
                                    pending,
                                    children: Vec::new(),
                                },
                            );
                            proof {
                                assert(seq_views(stack@) =~= before.push(
                                    FrameV {
                                        is_root: false,
                                        title: tokens@[i as int]@.text,
                                        line: t_line,
                                        pending,
                                        children: Seq::<AstV>::empty(),
                                    },
                                ));
                                assert(seq_views(stack@).drop_last() =~= before);
                            }
                            if pending {
                                pc = pc + 1;
                            }
                            mode = Mode::Prefix { bars: 0, line: t_line };
                        } else {
                            let ghost before = seq_views(stack@);
                            let node = Ast::Action(Action { title, line: t_line });
                            let mut top = match stack.pop() {
                                Some(f) => f,
                                None => vstd::pervasive::unreached(),
                            };
                            proof {
                                lemma_asts_view_push(top.children@, node);
                            }
                            top.children.push(node);
                            stack.push(top);
                            proof {
                                let topv = before[before.len() - 1];
                                assert(seq_views(stack@) =~= before.update(
                                    before.len() - 1,
                                    FrameV {
                                        is_root: topv.is_root,
                                        title: topv.title,
                                        line: topv.line,
                                        pending: topv.pending,
                                        children: topv.children.push(
                                            AstV::Action {
                                                title: tokens@[i as int]@.text,
                                                line: t_line,
                                            },
                                        ),
                                    },
                                ));
                                lemma_count_pending_update_same(
                                    before,
                                    before.len() - 1,
                                    seq_views(stack@).last(),
                                );
                            }
                            mode = Mode::Prefix { bars: 0, line: t_line };
                        }
                    },
                    _ => {
                        return Err(
                            FrontendError::Parse {
                                line: t_line,
                                parse: ParseReason::ExpectedConditionOrAction,
                            },
                        );
                    },
                }
            },
        }
        i = i + 1;
    }
    match mode {
        Mode::Prefix { bars, line } => {
            if stack.len() == 0 {
                return Err(FrontendError::Parse { line, parse: ParseReason::NoTree });
            }
            if bars != 0 {
                return Err(FrontendError::Parse { line, parse: ParseReason::ExpectedConnector });
            }
            while stack.len() > 1
                invariant
                    stack@.len() >= 1,
                    spec_finalize(seq_views(stack@)) == spec_parse_tokens(sh)->Ok_0,
                    spec_parse_tokens(sh) is Ok,
                decreases stack@.len(),
            {
                proof {
                    lemma_count_pending_attach(seq_views(stack@));
                }
                let _ = attach(&mut stack);
            }
            let f = match stack.pop() {
                Some(f) => f,
                None => vstd::pervasive::unreached(),
            };
            let r = Ast::Root(Root { contract_name: f.title, line: f.line, children: f.children });
            Ok(r)
        },
        Mode::Connect { line, .. } => Err(
            FrontendError::Parse { line, parse: ParseReason::ExpectedConditionOrAction },
        ),
    }
}

} // verus!
