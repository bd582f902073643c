use service_core::roles::Role;
use service_core::token::Claims;

fn claims_with_role(role: &str) -> Claims {
    Claims { subject: "uid".to_string(), role: role.to_string(), exp: 9999 }
}

#[test]
fn role_strings_parse_exactly() {
    assert_eq!(Role::from_str("Admin"), Role::Admin);
    assert_eq!(Role::from_str("User"), Role::User);
    // the mapping is case-sensitive and never escalates
    assert_eq!(Role::from_str("admin"), Role::User);
    assert_eq!(Role::from_str("ADMIN"), Role::User);
    assert_eq!(Role::from_str(""), Role::User);
    assert_eq!(Role::from_str("Root"), Role::User);
}

#[test]
fn role_names_round_trip() {
    assert_eq!(Role::from_str(Role::Admin.as_str()), Role::Admin);
    assert_eq!(Role::from_str(Role::User.as_str()), Role::User);
}

#[test]
fn role_order_is_total() {
    assert!(Role::User.le(&Role::User));
    assert!(Role::User.le(&Role::Admin));
    assert!(Role::Admin.le(&Role::Admin));
    assert!(!Role::Admin.le(&Role::User));
}

#[test]
fn sufficient_roles_are_accepted() {
    // every role at least the required one passes
    for (required, actual) in [
        (Role::User, Role::User),
        (Role::User, Role::Admin),
        (Role::Admin, Role::Admin),
    ] {
        assert!(required.is_authorized(&claims_with_role(actual.as_str())));
    }
}

#[test]
fn user_rejected_where_admin_required() {
    // a User credential is refused by an Admin route and accepted by a
    // User route
    assert!(!Role::Admin.is_authorized(&claims_with_role("User")));
    assert!(Role::User.is_authorized(&claims_with_role("User")));
}

#[test]
fn unknown_role_never_escalates() {
    assert!(!Role::Admin.is_authorized(&claims_with_role("Superuser")));
    assert!(Role::User.is_authorized(&claims_with_role("Superuser")));
}
