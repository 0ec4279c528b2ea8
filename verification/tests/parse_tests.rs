use bulloak_core::ast::Ast;
use bulloak_core::error::{FrontendError, LexReason, ParseReason, SemReason};
use bulloak_core::{parse, parse_one};

#[test]
fn parse_supports_crlf_multi_root_trees() {
    let input = "Contract::one\r\n└── it should pass\r\n\r\nContract::two\r\n└── it should pass";
    let forest = parse(input).unwrap();
    assert_eq!(forest.len(), 2);
}

#[test]
fn parse_single_tree_shape() {
    let input = "Contract\n├── when user is logged in\n│   └── it should succeed\n└── it should fail";
    let forest = parse(input).unwrap();
    assert_eq!(forest.len(), 1);
    let root = match &forest[0] {
        Ast::Root(r) => r,
        other => panic!("expected a root, found {:?}", other),
    };
    assert_eq!(root.contract_name, "Contract");
    assert_eq!(root.children.len(), 2);
    let cond = match &root.children[0] {
        Ast::Condition(c) => c,
        other => panic!("expected a condition, found {:?}", other),
    };
    assert_eq!(cond.title, "when user is logged in");
    assert_eq!(cond.children.len(), 1);
    let action = match &cond.children[0] {
        Ast::Action(a) => a,
        other => panic!("expected an action, found {:?}", other),
    };
    assert_eq!(action.title, "it should succeed");
    let last = match &root.children[1] {
        Ast::Action(a) => a,
        other => panic!("expected an action, found {:?}", other),
    };
    assert_eq!(last.title, "it should fail");
}

#[test]
fn parse_is_insensitive_to_indentation_width() {
    let wide = "Contract\n├── when a\n│       └── it x\n└── it y";
    let narrow = "Contract\n├── when a\n│ └── it x\n└── it y";
    let forest_wide = parse(wide).unwrap();
    let forest_narrow = parse(narrow).unwrap();
    assert_eq!(forest_wide, forest_narrow);
}

#[test]
fn parse_is_sensitive_to_connector_nesting() {
    let shallow = "Contract\n├── when a\n│   └── it x\n└── it y";
    let deep = "Contract\n└── when a\n    ├── it x\n    └── it y";
    let forest_shallow = parse(shallow).unwrap();
    let forest_deep = parse(deep).unwrap();
    assert_ne!(forest_shallow, forest_deep);
}

#[test]
fn parse_rejects_empty_input() {
    let err = parse("").unwrap_err();
    assert!(matches!(err, FrontendError::Parse { parse: ParseReason::NoTree, .. }));
}

#[test]
fn parse_rejects_childless_condition() {
    let err = parse("Contract\n└── when something").unwrap_err();
    assert!(matches!(
        err,
        FrontendError::Semantic { sem: SemReason::ConditionWithoutChildren, line: 1, .. }
    ));
}

#[test]
fn parse_rejects_missing_description() {
    let err = parse("Contract\n└──").unwrap_err();
    assert!(matches!(
        err,
        FrontendError::Lex { lex: LexReason::MissingDescription, line: 1, .. }
    ));
}

#[test]
fn parse_rejects_unrecognized_connector() {
    let err = parse("Contract\n┤ it should pass").unwrap_err();
    assert!(matches!(
        err,
        FrontendError::Lex { lex: LexReason::UnrecognizedConnector, line: 1, .. }
    ));
}

#[test]
fn parse_rejects_second_root_shaped_line() {
    let err = parse("Contract\n└── it works\nAnother root").unwrap_err();
    assert!(matches!(
        err,
        FrontendError::Parse { parse: ParseReason::UnexpectedRootLine, line: 2 }
    ));
}

#[test]
fn parse_rejects_line_nested_too_deep() {
    let err = parse("Contract\n│   └── it floats").unwrap_err();
    assert!(matches!(err, FrontendError::Parse { parse: ParseReason::TooDeep, line: 1 }));
}

#[test]
fn parse_rejects_keywordless_description_after_connector() {
    let err = parse("Contract\n└── something else").unwrap_err();
    assert!(matches!(
        err,
        FrontendError::Parse { parse: ParseReason::ExpectedConditionOrAction, line: 1 }
    ));
}

#[test]
fn parse_one_accepts_a_single_tree() {
    let ast = parse_one("Contract\n└── it should pass").unwrap();
    let root = match &ast {
        Ast::Root(r) => r,
        other => panic!("expected a root, found {:?}", other),
    };
    assert_eq!(root.contract_name, "Contract");
    assert_eq!(root.children.len(), 1);
}

#[test]
fn parse_keeps_interior_whitespace_of_descriptions() {
    let forest = parse("Contract\n└── it should  keep   spacing").unwrap();
    let root = match &forest[0] {
        Ast::Root(r) => r,
        other => panic!("expected a root, found {:?}", other),
    };
    let action = match &root.children[0] {
        Ast::Action(a) => a,
        other => panic!("expected an action, found {:?}", other),
    };
    assert_eq!(action.title, "it should  keep   spacing");
}

#[test]
fn parse_treats_given_as_condition_keyword() {
    let forest = parse("Contract\n└── Given an account\n    └── it should exist").unwrap();
    let root = match &forest[0] {
        Ast::Root(r) => r,
        other => panic!("expected a root, found {:?}", other),
    };
    assert!(matches!(&root.children[0], Ast::Condition(_)));
}

#[test]
fn parse_rejects_line_of_bars_only() {
    let err = parse("Contract\n│").unwrap_err();
    assert!(matches!(err, FrontendError::Lex { lex: LexReason::EmptyLine, line: 1, .. }));
}

#[test]
fn parse_rejects_connector_on_first_line() {
    let err = parse("├── it should pass").unwrap_err();
    assert!(matches!(err, FrontendError::Parse { parse: ParseReason::ExpectedRoot, line: 0 }));
}

#[test]
fn parse_rejects_bars_without_connector() {
    let err = parse("Contract\n│ it floats").unwrap_err();
    assert!(matches!(
        err,
        FrontendError::Parse { parse: ParseReason::ExpectedConnector, line: 1 }
    ));
}

#[test]
fn parse_rejects_empty_root_description() {
    let err = parse("\u{00A0}\n└── it should pass").unwrap_err();
    assert!(matches!(
        err,
        FrontendError::Semantic { sem: SemReason::EmptyDescription, line: 0 }
    ));
}

#[test]
fn frontend_error_messages_name_rule_and_line() {
    let err = parse("Contract\n└── when something").unwrap_err();
    assert_eq!(err.message(), "condition without children at line 1");
    let err = parse("Contract\n┤ oops").unwrap_err();
    assert_eq!(err.message(), "unrecognized connector glyph at line 1");
}
