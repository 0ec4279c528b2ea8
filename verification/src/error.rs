//! The error taxonomy of the front end.  Every error is terminal for the
//! request and carries enough position context for a precise diagnostic.

use vstd::prelude::*;
use vstd::string::StringExecFns;

use crate::chars::{chars_to_string, spec_decimal, usize_decimal};

verus! {

/// Why the tokenizer rejected a line.
#[derive(Clone, Copy, Debug, PartialEq, Eq, Structural)]
pub enum LexReason {
    /// A box-drawing character that is not a vertical bar, a branch, or a
    /// last-branch connector.
    UnrecognizedConnector,
    /// A line holding only indentation glyphs and no content.
    EmptyLine,
    /// A connector with no description after it.
    MissingDescription,
}

/// Why the parser rejected a token stream.
#[derive(Clone, Copy, Debug, PartialEq, Eq, Structural)]
pub enum ParseReason {
    /// The input holds no tree at all.
    NoTree,
    /// The first line of a tree is not a plain root declaration.
    ExpectedRoot,
    /// A root-shaped line (no connector) after the first line of a tree.
    UnexpectedRootLine,
    /// Indentation bars without a connector after them.
    ExpectedConnector,
    /// A connector followed by a description that starts neither with a
    /// condition keyword ("when", "given") nor with an action keyword ("it").
    ExpectedConditionOrAction,
    /// A line nested deeper than the connectors above it allow.
    TooDeep,
}

/// Why the semantic analyzer rejected a tree.
#[derive(Clone, Copy, Debug, PartialEq, Eq, Structural)]
pub enum SemReason {
    /// A node with an empty description.
    EmptyDescription,
    /// A condition with no children: a precondition must lead somewhere.
    ConditionWithoutChildren,
}

/// An error of the front end: tokenizing, parsing, or semantic analysis.
/// Lines and columns are 0-based character positions in the input text;
/// `root_index` below is 1-based among the roots of the input.
#[derive(Clone, Copy, Debug, PartialEq, Eq, Structural)]
pub enum FrontendError {
    Lex { line: usize, col: usize, lex: LexReason },
    Parse { line: usize, parse: ParseReason },
    Semantic { line: usize, sem: SemReason },
}

/// An error of the whole translation: a front-end error, a contract
/// identifier with too many separators (`root_index` is 1-based among the
/// roots of the input), or a module-name mismatch between roots.
#[derive(Debug)]
pub enum TranslateError {
    Frontend(FrontendError),
    Config { root_index: usize },
    Combine { expected: String, found: String },
}

/// The mathematical shape of a `TranslateError`.
pub enum TranslateErrorV {
    Frontend(FrontendError),
    Config { root_index: usize },
    Combine { expected: Seq<char>, found: Seq<char> },
}

impl View for TranslateError {
    type V = TranslateErrorV;

    open spec fn view(&self) -> TranslateErrorV {
        match self {
            TranslateError::Frontend(e) => TranslateErrorV::Frontend(*e),
            TranslateError::Config { root_index } => TranslateErrorV::Config {
                root_index: *root_index,
            },
            TranslateError::Combine { expected, found } => TranslateErrorV::Combine {
                expected: expected@,
                found: found@,
            },
        }
    }
}

/// What `TranslateError::message` returns.
pub open spec fn spec_translate_error_message(e: TranslateErrorV) -> Seq<char> {
    match e {
        TranslateErrorV::Frontend(_) => "an error occurred while parsing the tree"@,
        TranslateErrorV::Config { root_index } => "an error occurred while parsing the tree: too many separators at tree root #"@
            + spec_decimal(root_index as nat)
            + ". Expected to find at most one `::` between the contract name and the function name"@,
        TranslateErrorV::Combine { expected, found } => "module name mismatch: expected \""@
            + expected + "\", found \""@ + found + "\""@,
    }
}

impl TranslateError {
    /// The human-readable description of the error.
    pub fn message(&self) -> (r: String)
        ensures
            r@ == spec_translate_error_message(self@),
    {
        match self {
            TranslateError::Frontend(_) => String::from_str(
                "an error occurred while parsing the tree",
            ),
            TranslateError::Config { root_index } => {
                let mut s = String::from_str(
                    "an error occurred while parsing the tree: too many separators at tree root #",
                );
                let digits = usize_decimal(*root_index);
                let d = chars_to_string(&digits);
                s.append(d.as_str());
                s.append(
                    ". Expected to find at most one `::` between the contract name and the function name",
                );
                s
            },
            TranslateError::Combine { expected, found } => {
                let mut s = String::from_str("module name mismatch: expected \"");
                s.append(expected.as_str());
                s.append("\", found \"");
                s.append(found.as_str());
                s.append("\"");
                s
            },
        }
    }
}


/// The fixed phrase for a lexical violation.
pub open spec fn spec_lex_phrase(r: LexReason) -> Seq<char> {
    match r {
        LexReason::UnrecognizedConnector => "unrecognized connector glyph"@,
        LexReason::EmptyLine => "line holds no content"@,
        LexReason::MissingDescription => "missing description after connector"@,
    }
}

/// The fixed phrase for a grammar violation.
pub open spec fn spec_parse_phrase(r: ParseReason) -> Seq<char> {
    match r {
        ParseReason::NoTree => "no tree found in the input"@,
        ParseReason::ExpectedRoot => "expected a root declaration"@,
        ParseReason::UnexpectedRootLine => "unexpected root-shaped line"@,
        ParseReason::ExpectedConnector => "expected a connector after the indentation"@,
        ParseReason::ExpectedConditionOrAction => "expected a condition or an action"@,
        ParseReason::TooDeep => "line nested deeper than its connectors allow"@,
    }
}

/// The fixed phrase for a semantic violation.
pub open spec fn spec_sem_phrase(r: SemReason) -> Seq<char> {
    match r {
        SemReason::EmptyDescription => "empty description"@,
        SemReason::ConditionWithoutChildren => "condition without children"@,
    }
}

/// What `FrontendError::message` returns: the violated rule and the
/// 0-based line it was found on.
pub open spec fn spec_frontend_error_message(e: FrontendError) -> Seq<char> {
    match e {
        FrontendError::Lex { line, lex, .. } => spec_lex_phrase(lex) + " at line "@
            + spec_decimal(line as nat),
        FrontendError::Parse { line, parse } => spec_parse_phrase(parse) + " at line "@
            + spec_decimal(line as nat),
        FrontendError::Semantic { line, sem } => spec_sem_phrase(sem) + " at line "@
            + spec_decimal(line as nat),
    }
}

impl FrontendError {
    /// The human-readable description of the error.
    pub fn message(&self) -> (r: String)
        ensures
            r@ == spec_frontend_error_message(*self),
    {
        let (phrase, line): (String, usize) = match self {
            FrontendError::Lex { line, lex, .. } => (
                match lex {
                    LexReason::UnrecognizedConnector => String::from_str(
                        "unrecognized connector glyph",
                    ),
                    LexReason::EmptyLine => String::from_str("line holds no content"),
                    LexReason::MissingDescription => String::from_str(
                        "missing description after connector",
                    ),
                },
                *line,
            ),
            FrontendError::Parse { line, parse } => (
                match parse {
                    ParseReason::NoTree => String::from_str("no tree found in the input"),
                    ParseReason::ExpectedRoot => String::from_str("expected a root declaration"),
                    ParseReason::UnexpectedRootLine => String::from_str(
                        "unexpected root-shaped line",
                    ),
                    ParseReason::ExpectedConnector => String::from_str(
                        "expected a connector after the indentation",
                    ),
                    ParseReason::ExpectedConditionOrAction => String::from_str(
                        "expected a condition or an action",
                    ),
                    ParseReason::TooDeep => String::from_str(
                        "line nested deeper than its connectors allow",
                    ),
                },
                *line,
            ),
            FrontendError::Semantic { line, sem } => (
                match sem {
                    SemReason::EmptyDescription => String::from_str("empty description"),
                    SemReason::ConditionWithoutChildren => String::from_str(
                        "condition without children",
                    ),
                },
                *line,
            ),
        };
        let mut s = phrase;
        s.append(" at line ");
        let digits = usize_decimal(line);
        let d = chars_to_string(&digits);
        s.append(d.as_str());
        s
    }
}

} // verus!
