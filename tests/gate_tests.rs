use backend::claims::Claims;
use backend::error::AppError;
use backend::gate::{
    is_admin, run_stages, verified_contributor, Rejection, Stage, UserStatus, VerifiedUser,
};
use backend::jwt::{claims_from_header, sign_claims};

fn user(role: &str) -> Claims {
    Claims { sub: "9".to_string(), role: role.to_string(), exp: 1_000 }
}

#[test]
fn request_without_header_reaches_public_and_optional_only() {
    let resolved = claims_from_header(None, "k", 0);
    assert_eq!(resolved, None);
    assert_eq!(run_stages(&[Stage::Public], resolved.clone()), Ok(None));
    assert_eq!(run_stages(&[Stage::OptionalAuthenticated], resolved.clone()), Ok(None));
    assert_eq!(run_stages(&[Stage::Authenticated], resolved.clone()), Err(Rejection::Unauthorized));
    assert_eq!(
        run_stages(&[Stage::Authenticated, Stage::Administrator], resolved.clone()),
        Err(Rejection::Unauthorized)
    );
}

#[test]
fn authenticated_request_passes_with_principal() {
    let token = sign_claims(&user("user"), "k");
    let header = format!("Bearer {}", token);
    let resolved = claims_from_header(Some(&header), "k", 10);
    assert_eq!(run_stages(&[Stage::Authenticated], resolved.clone()), Ok(Some(user("user"))));
    assert_eq!(run_stages(&[Stage::OptionalAuthenticated], resolved.clone()), Ok(Some(user("user"))));
    assert_eq!(run_stages(&[Stage::Public], resolved), Ok(None));
}

#[test]
fn administrator_stage_checks_the_role() {
    let admin = Some(user("admin"));
    let member = Some(user("user"));
    let stack = [Stage::Authenticated, Stage::Administrator];
    assert_eq!(run_stages(&stack, admin.clone()), Ok(Some(user("admin"))));
    assert_eq!(run_stages(&stack, member.clone()), Err(Rejection::Forbidden));
    assert_eq!(run_stages(&[Stage::Administrator], admin), Err(Rejection::Unauthorized));
    assert_eq!(Rejection::Forbidden.status_code(), 403);
    assert_eq!(Rejection::Unauthorized.status_code(), 401);
}

#[test]
fn admin_role_is_exact() {
    assert!(is_admin("admin"));
    assert!(!is_admin("Admin"));
    assert!(!is_admin("admin "));
    assert!(!is_admin("user"));
}

#[test]
fn verified_contributor_rechecks_storage() {
    // The token was issued while the user was unverified; storage now says verified.
    let now_verified = UserStatus { is_verified: true, role: "user".to_string() };
    assert_eq!(verified_contributor(9, Some(&now_verified)), Ok(VerifiedUser { id: 9 }));
    let admin = UserStatus { is_verified: false, role: "admin".to_string() };
    assert_eq!(verified_contributor(3, Some(&admin)), Ok(VerifiedUser { id: 3 }));
    let plain = UserStatus { is_verified: false, role: "user".to_string() };
    match verified_contributor(9, Some(&plain)) {
        Err(AppError::AuthError(msg)) => {
            assert_eq!(msg, "You must be a verified contributor to perform this action.")
        }
        other => panic!("unexpected {:?}", other),
    }
    assert!(matches!(verified_contributor(9, None), Err(AppError::NotFound(_))));
}
