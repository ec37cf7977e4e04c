use netai_cloud::user_auth::{escape_text, UserAuthError, UserAuthPayload, UserSessionError, UserSessionResponse};

fn payload(id: Option<&str>, email: &str, username: &str) -> UserAuthPayload {
    UserAuthPayload::new(
        id.map(|s| s.to_string()),
        email.to_string(),
        None,
        username.to_string(),
        String::new(),
    )
}

#[test]
fn primary_key_prefers_the_user_name() {
    let p = payload(Some("sub"), "a@b.c", "Alice");
    assert_eq!(p.primary_key(Some("a@b.c")).unwrap(), "name-alice");
}

#[test]
fn primary_key_escapes_special_characters() {
    let p = payload(None, "", "Jo.Doe_x-y@Z");
    assert_eq!(p.primary_key(None).unwrap(), "name-jo-d-doe-u-x-s-y-at-z");
}

#[test]
fn primary_key_falls_back_to_the_email() {
    let p = payload(Some("sub"), "Bob.Smith@Example.com", "");
    assert_eq!(p.email(), "Bob.Smith@Example.com");
    assert_eq!(
        p.primary_key(Some("Bob.Smith@Example.com")).unwrap(),
        "email-bob-d-smith-at-example-d-com"
    );
}

#[test]
fn primary_key_falls_back_to_the_id() {
    let p = payload(Some("User_42"), "not an email", "");
    assert_eq!(p.primary_key(None).unwrap(), "id-user-u-42");
}

#[test]
fn primary_key_without_any_source_carries_the_payload() {
    let p = payload(None, "not an email", "");
    let e = p.primary_key(None).unwrap_err();
    assert_eq!(e.payload, format!("{:?}", p));
    assert_eq!(
        e.message(),
        "failed to parse primary key: UserAuthPayload { id: None, email: \"not an email\", name: None, username: \"\", roles: \"\" }"
    );
}

#[test]
fn payload_debug_form_matches_debug() {
    let p = UserAuthPayload::new(
        Some("a\"b".to_string()),
        "e@x".to_string(),
        Some("Ann".to_string()),
        "ann".to_string(),
        "admin\n".to_string(),
    );
    assert_eq!(p.debug_form(), format!("{:?}", p));
}

#[test]
fn primary_key_lowercases_unicode() {
    let p = payload(None, "", "ÀÉ");
    assert_eq!(p.primary_key(None).unwrap(), "name-àé");
}

#[test]
fn auth_error_messages() {
    assert_eq!(
        UserAuthError::PrimaryKeyMalformed.message(),
        "Malformed primary key. Please contact the administrator."
    );
    assert_eq!(
        UserAuthError::SessionNotBinded.message(),
        "This user has no available vine sessions. Please contact the administrator."
    );
}

#[test]
fn session_error_messages_quote_names() {
    let e = UserSessionError::AlreadyLoggedInByNode { node_name: "node-1".to_string() };
    assert_eq!(e.message(), "This user is already logged in to \"node-1\"");
    let e = UserSessionError::AlreadyLoggedInByUser { user_name: "say \"hi\"".to_string() };
    assert_eq!(e.message(), "This node is already logged in by \"say \\\"hi\\\"\"");
    let e = UserSessionError::AuthError(UserAuthError::UserNotAdmin);
    assert_eq!(e.message(), "This user is not an admin. Please contact the administrator.");
    assert_eq!(UserSessionError::NodeReserved.message(), "This node is reserved to other user.");
}

#[test]
fn auth_errors_convert_to_session_errors() {
    let e: UserSessionError = UserAuthError::UserNotRegistered.into();
    assert_eq!(e, UserSessionError::AuthError(UserAuthError::UserNotRegistered));
    let r: UserSessionResponse<(), ()> = UserAuthError::NamespaceNotAllowed.into();
    assert_eq!(r, UserSessionResponse::Error(UserSessionError::AuthError(UserAuthError::NamespaceNotAllowed)));
}

#[test]
fn escaping_leaves_case_alone() {
    assert_eq!(escape_text("A.b-C@d_e"), "A-d-b-s-C-at-d-u-e");
    assert_eq!(escape_text(""), "");
}
