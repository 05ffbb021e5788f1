use jsonapi_core::{CaseConfig, CaseConvention, Field};

#[test]
fn camel_case_conversion() {
    assert_eq!(CaseConvention::CamelCase.convert("published_at"), "publishedAt");
    assert_eq!(CaseConvention::CamelCase.convert("first_name"), "firstName");
    assert_eq!(CaseConvention::CamelCase.convert("title"), "title");
}

#[test]
fn snake_case_conversion() {
    assert_eq!(CaseConvention::SnakeCase.convert("publishedAt"), "published_at");
    assert_eq!(CaseConvention::SnakeCase.convert("first_name"), "first_name");
}

#[test]
fn kebab_case_conversion() {
    assert_eq!(CaseConvention::KebabCase.convert("published_at"), "published-at");
    assert_eq!(CaseConvention::KebabCase.convert("firstName"), "first-name");
}

#[test]
fn pascal_case_conversion() {
    assert_eq!(CaseConvention::PascalCase.convert("published_at"), "PublishedAt");
    assert_eq!(CaseConvention::PascalCase.convert("firstName"), "FirstName");
}

#[test]
fn none_passthrough() {
    assert_eq!(CaseConvention::AsIs.convert("published_at"), "published_at");
    assert_eq!(CaseConvention::AsIs.convert("firstName"), "firstName");
}

#[test]
fn default_is_none() {
    assert_eq!(CaseConvention::default(), CaseConvention::AsIs);
}

#[test]
fn case_config_default() {
    let config = CaseConfig::default();
    assert_eq!(config.member_case, CaseConvention::AsIs);
}

#[test]
fn default_is_absent() {
    let field: Field<i32> = Field::default();
    assert!(field.is_absent());
}

#[test]
fn predicates_match_variant() {
    assert!(Field::<i32>::Absent.is_absent());
    assert!(Field::<i32>::Null.is_null());
    assert!(Field::Value(1).is_set());

    assert!(!Field::<i32>::Absent.is_set());
    assert!(!Field::<i32>::Null.is_absent());
}

#[test]
fn as_set_and_into_set_only_yield_for_set() {
    assert_eq!(Field::Value(7).as_set(), Some(&7));
    assert_eq!(Field::<i32>::Null.as_set(), None);
    assert_eq!(Field::<i32>::Absent.as_set(), None);

    assert_eq!(Field::Value(7).into_set(), Some(7));
    assert_eq!(Field::<i32>::Null.into_set(), None);
    assert_eq!(Field::<i32>::Absent.into_set(), None);
}

#[test]
fn map_preserves_state() {
    assert_eq!(Field::Value(2).map(|v| v * 10), Field::Value(20));
    assert_eq!(Field::<i32>::Null.map(|v| v * 10), Field::Null);
    assert_eq!(Field::<i32>::Absent.map(|v| v * 10), Field::Absent);
}

#[test]
fn unwrap_or_uses_default_for_absent_and_null() {
    assert_eq!(Field::Value(5).unwrap_or(0), 5);
    assert_eq!(Field::<i32>::Null.unwrap_or(0), 0);
    assert_eq!(Field::<i32>::Absent.unwrap_or(0), 0);
}

#[test]
fn apply_honors_all_three_states() {
    let mut slot = Some(1);
    Field::<i32>::Absent.apply(&mut slot);
    assert_eq!(slot, Some(1));

    let mut slot = Some(1);
    Field::<i32>::Null.apply(&mut slot);
    assert_eq!(slot, None);

    let mut slot = None;
    Field::Value(9).apply(&mut slot);
    assert_eq!(slot, Some(9));
}

#[test]
fn from_value_is_set() {
    let field: Field<i32> = 3.into();
    assert_eq!(field, Field::Value(3));
}

#[test]
fn set_constructor_builds_a_value() {
    assert_eq!(Field::set("x"), Field::Value("x"));
}

#[test]
fn case_conversion_of_kebab_input() {
    assert_eq!(CaseConvention::SnakeCase.convert("first-name"), "first_name");
    assert_eq!(CaseConvention::CamelCase.convert("First-Name"), "firstName");
}
