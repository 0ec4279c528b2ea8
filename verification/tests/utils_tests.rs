use bulloak_core::utils::{
    get_module_name, parse_root_name, sanitize_module_name, to_snake_case, ModuleName,
};

#[test]
fn test_to_snake_case() {
    assert_eq!(to_snake_case("When user is logged in"), "when_user_is_logged_in");
    assert_eq!(to_snake_case("It should return true"), "it_should_return_true");
    assert_eq!(to_snake_case("given amount is zero"), "given_amount_is_zero");
    assert_eq!(
        to_snake_case("When first arg is bigger than second arg"),
        "when_first_arg_is_bigger_than_second_arg"
    );
}

#[test]
fn test_to_snake_case_with_special_chars() {
    assert_eq!(to_snake_case("It's working!"), "its_working");
    assert_eq!(to_snake_case("value > 100"), "value_100");
}

#[test]
fn test_to_snake_case_with_underscores() {
    assert_eq!(to_snake_case("It's_working!"), "its_working");
    assert_eq!(to_snake_case("value_is_100"), "value_is_100");
}

#[test]
fn test_sanitize_module_name_with_special_chars() {
    assert_eq!(sanitize_module_name("It's working!"), "Its_working");
    assert_eq!(sanitize_module_name("value > 100"), "value_100");
}

#[test]
fn test_sanitize_module_name_with_underscores() {
    assert_eq!(sanitize_module_name("It's_working!"), "Its_working");
    assert_eq!(sanitize_module_name("value_is_100"), "value_is_100");
}

#[test]
fn test_parse_root_name_with_single_separator() {
    let (module, submodule) = parse_root_name("Contract::Submodule").unwrap();
    assert_eq!(module, "Contract");
    assert_eq!(submodule, Some("Submodule".to_string()));
}

#[test]
fn test_parse_root_name_with_no_separator() {
    let (module, submodule) = parse_root_name("Contract").unwrap();
    assert_eq!(module, "Contract");
    assert_eq!(submodule, None);
}

#[test]
fn test_parse_root_name_rejects_multiple_separators() {
    let result = parse_root_name("Contract::A::B");
    assert!(result.is_err());
    assert!(result.unwrap_err().contains("expected at most one '::' separator"));
}

#[test]
fn test_to_snake_case_trims_and_collapses() {
    assert_eq!(to_snake_case("  when   spaced   out  "), "when_spaced_out");
    assert_eq!(to_snake_case("___"), "");
    assert_eq!(to_snake_case(""), "");
}

#[test]
fn test_get_module_name_consistent() {
    let forest =
        bulloak_core::parse("Contract::one\n└── it should pass\n\nContract::two\n└── it should pass")
            .unwrap();
    let state = get_module_name(&forest).unwrap();
    assert_eq!(state, ModuleName::Consistent("Contract".to_string()));
}

#[test]
fn test_get_module_name_mismatch() {
    let forest =
        bulloak_core::parse("Foo::X\n└── it a\n\nBar::Y\n└── it b").unwrap();
    let state = get_module_name(&forest).unwrap();
    assert_eq!(state, ModuleName::Mismatch("Foo".to_string(), "Bar".to_string()));
}
