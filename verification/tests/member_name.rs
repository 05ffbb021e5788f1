use jsonapi_core::{validate_member_name, MemberNameKind};


// --- Standard names: valid ---

#[test]
fn valid_simple_name() {
    assert_eq!(
        validate_member_name("title").unwrap(),
        MemberNameKind::Standard
    );
}

#[test]
fn valid_single_char() {
    assert_eq!(validate_member_name("a").unwrap(), MemberNameKind::Standard);
}

#[test]
fn valid_single_digit() {
    assert_eq!(validate_member_name("1").unwrap(), MemberNameKind::Standard);
}

#[test]
fn valid_with_hyphen() {
    assert_eq!(
        validate_member_name("first-name").unwrap(),
        MemberNameKind::Standard
    );
}

#[test]
fn valid_with_underscore() {
    assert_eq!(
        validate_member_name("first_name").unwrap(),
        MemberNameKind::Standard
    );
}

#[test]
fn valid_with_space() {
    assert_eq!(
        validate_member_name("first name").unwrap(),
        MemberNameKind::Standard
    );
}

#[test]
fn valid_with_digits() {
    assert_eq!(
        validate_member_name("field1").unwrap(),
        MemberNameKind::Standard
    );
}

#[test]
fn valid_unicode_start() {
    // U+00E9 = é (above U+0080 threshold)
    assert_eq!(
        validate_member_name("\u{00E9}tag").unwrap(),
        MemberNameKind::Standard
    );
}

#[test]
fn valid_unicode_only() {
    assert_eq!(
        validate_member_name("\u{00E9}").unwrap(),
        MemberNameKind::Standard
    );
}

#[test]
fn valid_unicode_ffff_boundary() {
    // U+FFFF is the upper boundary of globally allowed
    assert_eq!(
        validate_member_name("\u{FFFF}").unwrap(),
        MemberNameKind::Standard
    );
}

// --- Standard names: invalid ---

#[test]
fn invalid_empty() {
    assert!(validate_member_name("").is_err());
}

#[test]
fn invalid_starts_with_hyphen() {
    assert!(validate_member_name("-foo").is_err());
}

#[test]
fn invalid_ends_with_hyphen() {
    assert!(validate_member_name("foo-").is_err());
}

#[test]
fn invalid_starts_with_underscore() {
    assert!(validate_member_name("_foo").is_err());
}

#[test]
fn invalid_ends_with_underscore() {
    assert!(validate_member_name("foo_").is_err());
}

#[test]
fn invalid_starts_with_space() {
    assert!(validate_member_name(" foo").is_err());
}

#[test]
fn invalid_ends_with_space() {
    assert!(validate_member_name("foo ").is_err());
}

#[test]
fn invalid_interior_bang() {
    assert!(validate_member_name("foo!bar").is_err());
}

#[test]
fn invalid_interior_dot() {
    assert!(validate_member_name("foo.bar").is_err());
}

// --- @-members: valid ---

#[test]
fn valid_at_member() {
    let result = validate_member_name("@ext:comments").unwrap();
    assert_eq!(
        result,
        MemberNameKind::AtMember {
            namespace: "ext".into(),
            member: "comments".into(),
        }
    );
}

#[test]
fn valid_at_member_unicode() {
    let result = validate_member_name("@\u{00E9}xt:field").unwrap();
    assert_eq!(
        result,
        MemberNameKind::AtMember {
            namespace: "\u{00E9}xt".into(),
            member: "field".into(),
        }
    );
}

// --- @-members: invalid ---

#[test]
fn invalid_at_member_no_colon() {
    assert!(validate_member_name("@extcomments").is_err());
}

#[test]
fn invalid_at_member_empty_namespace() {
    assert!(validate_member_name("@:comments").is_err());
}

#[test]
fn invalid_at_member_empty_member() {
    assert!(validate_member_name("@ext:").is_err());
}

#[test]
fn invalid_at_member_bad_namespace_char() {
    assert!(validate_member_name("@-ext:comments").is_err());
}

#[test]
fn invalid_at_only() {
    assert!(validate_member_name("@").is_err());
}

// --- Extension-namespaced members (`namespace:member`) ---

#[test]
fn valid_extension_member_atomic_operations() {
    let result = validate_member_name("atomic:operations").unwrap();
    assert_eq!(
        result,
        MemberNameKind::ExtensionMember {
            namespace: "atomic".into(),
            member: "operations".into(),
        }
    );
}

#[test]
fn valid_extension_member_atomic_results() {
    let result = validate_member_name("atomic:results").unwrap();
    assert_eq!(
        result,
        MemberNameKind::ExtensionMember {
            namespace: "atomic".into(),
            member: "results".into(),
        }
    );
}

#[test]
fn invalid_extension_member_empty_namespace() {
    assert!(validate_member_name(":member").is_err());
}

#[test]
fn invalid_extension_member_empty_member() {
    assert!(validate_member_name("namespace:").is_err());
}

#[test]
fn invalid_extension_member_bad_namespace_char() {
    assert!(validate_member_name("-atomic:results").is_err());
}

#[test]
fn invalid_extension_member_bad_member_char() {
    assert!(validate_member_name("atomic:-results").is_err());
}

#[test]
fn extension_member_multiple_colons_is_error() {
    // Only a single `:` splits namespace from member.
    assert!(validate_member_name("atomic:results:extra").is_err());
}

#[test]
fn at_member_still_takes_precedence() {
    // Regression: @-prefixed names must not be routed to ExtensionMember.
    let result = validate_member_name("@ext:foo").unwrap();
    assert!(matches!(result, MemberNameKind::AtMember { .. }));
}
