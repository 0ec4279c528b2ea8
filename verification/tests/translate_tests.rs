use bulloak_core::error::TranslateError;
use bulloak_core::hir::{Config, Hir};
use bulloak_core::{translate, translate_one};

fn function_count(hir: &Hir) -> usize {
    let mut n = 0;
    for ctx in &hir.contexts {
        for group in &ctx.groups {
            n += group.functions.len();
        }
    }
    n
}

#[test]
fn translate_rejects_single_root_with_too_many_separators() {
    let tree = "Contract::Function::Extra\n└── It should fail.";
    let result = translate(tree, &Config::default());

    assert!(result.is_err());
    assert!(result.unwrap_err().message().contains("too many separators at tree root #1"));
}

#[test]
fn translate_rejects_later_root_with_too_many_separators() {
    let tree = "Contract::one\n└── it should pass\n\nContract::a::b\n└── it should pass";
    let err = translate(tree, &Config::default()).unwrap_err();
    assert!(matches!(&err, TranslateError::Config { root_index: 2 }));
    assert!(err.message().contains("too many separators at tree root #2"));
}

#[test]
fn translate_single_root_end_to_end() {
    let hir = translate("Contract\n└── it should pass", &Config::default()).unwrap();
    assert_eq!(hir.module_name, "Contract");
    assert_eq!(hir.contexts.len(), 1);
    let ctx = &hir.contexts[0];
    assert_eq!(ctx.submodule, None);
    assert_eq!(ctx.groups.len(), 1);
    let group = &ctx.groups[0];
    assert!(group.chain.is_empty());
    assert_eq!(group.name, "");
    assert_eq!(group.functions.len(), 1);
    assert_eq!(group.functions[0].title, "it should pass");
}

#[test]
fn translate_combines_two_roots_with_submodules() {
    let hir = translate(
        "Contract::one\n└── it should pass\n\nContract::two\n└── it should pass",
        &Config::default(),
    )
    .unwrap();
    assert_eq!(hir.module_name, "Contract");
    assert_eq!(hir.contexts.len(), 2);
    assert_eq!(hir.contexts[0].submodule, Some("one".to_string()));
    assert_eq!(hir.contexts[1].submodule, Some("two".to_string()));
    assert_eq!(hir.contexts[0].groups.len(), 1);
    assert_eq!(hir.contexts[0].groups[0].functions.len(), 1);
    assert_eq!(hir.contexts[1].groups.len(), 1);
    assert_eq!(hir.contexts[1].groups[0].functions.len(), 1);
}

#[test]
fn translate_reports_module_name_mismatch() {
    let err = translate("Foo::X\n└── it a\n\nBar::Y\n└── it b", &Config::default()).unwrap_err();
    match err {
        TranslateError::Combine { expected, found } => {
            assert_eq!(expected, "Foo");
            assert_eq!(found, "Bar");
        },
        other => panic!("expected a module mismatch, found {:?}", other),
    }
}

#[test]
fn translate_groups_actions_by_exact_chain() {
    let tree = "Contract\n├── when a\n│   ├── it x\n│   └── it y\n└── when b\n    └── it z";
    let hir = translate(tree, &Config::default()).unwrap();
    let groups = &hir.contexts[0].groups;
    assert_eq!(groups.len(), 2);
    assert_eq!(groups[0].name, "when_a");
    assert_eq!(groups[0].chain, vec!["when a".to_string()]);
    assert_eq!(groups[0].functions.len(), 2);
    assert_eq!(groups[0].functions[0].title, "it x");
    assert_eq!(groups[0].functions[1].title, "it y");
    assert_eq!(groups[1].name, "when_b");
    assert_eq!(groups[1].functions.len(), 1);
    assert_eq!(groups[1].functions[0].title, "it z");
}

#[test]
fn translate_distinguishes_chain_order() {
    let tree = "Contract\n├── when a\n│   └── when b\n│       └── it x\n└── when b\n    └── when a\n        └── it y";
    let hir = translate(tree, &Config::default()).unwrap();
    let groups = &hir.contexts[0].groups;
    assert_eq!(groups.len(), 2);
    assert_eq!(groups[0].chain, vec!["when a".to_string(), "when b".to_string()]);
    assert_eq!(groups[0].name, "when_a_when_b");
    assert_eq!(groups[1].chain, vec!["when b".to_string(), "when a".to_string()]);
    assert_eq!(groups[1].name, "when_b_when_a");
}

#[test]
fn translate_function_count_matches_action_count() {
    let tree = "Contract\n├── when a\n│   ├── it x\n│   └── it y\n├── it w\n└── when b\n    └── it z";
    let hir = translate(tree, &Config::default()).unwrap();
    assert_eq!(function_count(&hir), 4);
}

#[test]
fn translate_is_order_preserving_across_roots() {
    let ab = "M::a\n└── it one\n\nM::b\n└── it two";
    let ba = "M::b\n└── it two\n\nM::a\n└── it one";
    let hir_ab = translate(ab, &Config::default()).unwrap();
    let hir_ba = translate(ba, &Config::default()).unwrap();
    assert_eq!(hir_ab.contexts[0].submodule, Some("a".to_string()));
    assert_eq!(hir_ab.contexts[1].submodule, Some("b".to_string()));
    assert_eq!(hir_ba.contexts[0].submodule, Some("b".to_string()));
    assert_eq!(hir_ba.contexts[1].submodule, Some("a".to_string()));
    assert_eq!(hir_ab.contexts[0], hir_ba.contexts[1]);
    assert_eq!(hir_ab.contexts[1], hir_ba.contexts[0]);
}

#[test]
fn translate_twice_yields_identical_representations() {
    let tree = "Contract::one\n├── when a\n│   └── it x\n└── it y\n\nContract::two\n└── it z";
    let first = translate(tree, &Config::default()).unwrap();
    let second = translate(tree, &Config::default()).unwrap();
    assert_eq!(first, second);
}

#[test]
fn translate_one_builds_a_single_context() {
    let forest = bulloak_core::parse("Contract::Sub\n└── it should pass").unwrap();
    let hir = translate_one(&forest[0], &Config::default());
    assert_eq!(hir.module_name, "Contract");
    assert_eq!(hir.contexts.len(), 1);
    assert_eq!(hir.contexts[0].submodule, Some("Sub".to_string()));
    assert_eq!(function_count(&hir), 1);
}
