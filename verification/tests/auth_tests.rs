use lnx_core::auth::{
    check_permissions, edit_token, required_permission, revoke_all_tokens, AuthApi, AuthManager,
    AuthorizationHeader, CreateTokenPayload, CreateTokenResponse, Detailed, EditTokenReply,
    RevokeTokenResponse, Verdict, MODIFY_AUTH, MODIFY_DOCUMENTS, MODIFY_ENGINE, MODIFY_STOP_WORDS,
    SEARCH_INDEX, SUPER_USER,
};

fn payload(permissions: usize) -> CreateTokenPayload {
    CreateTokenPayload {
        permissions,
        user: Some("ada".to_string()),
        description: None,
        allowed_indexes: Some(vec!["books".to_string()]),
    }
}

fn token(t: &str) -> AuthorizationHeader {
    AuthorizationHeader::Token(t.to_string())
}

#[test]
fn routes_ask_for_the_permissions_of_the_table() {
    let table: Vec<(&str, Option<usize>)> = vec![
        ("/auth", Some(MODIFY_AUTH)),
        ("/auth/abc/revoke", Some(MODIFY_AUTH)),
        ("/authors", Some(MODIFY_AUTH)),
        ("/indexes", Some(MODIFY_ENGINE)),
        ("/indexes/books/search", Some(SEARCH_INDEX)),
        ("/indexes/books/stopwords", Some(MODIFY_STOP_WORDS)),
        ("/indexes/books/documents", Some(MODIFY_DOCUMENTS)),
        ("/indexes/books/commit", Some(MODIFY_DOCUMENTS)),
        ("/indexes/", Some(MODIFY_DOCUMENTS)),
        ("/indexes//search", Some(SEARCH_INDEX)),
        ("/indexes/search", Some(MODIFY_DOCUMENTS)),
        ("/indexes/stopwords", Some(MODIFY_DOCUMENTS)),
        ("/indexesfoo", None),
        ("/", None),
        ("", None),
        ("/ui", None),
    ];
    for (path, expected) in table {
        assert_eq!(required_permission(path), expected, "{}", path);
    }
}

#[test]
fn permissions_are_distinct_bits() {
    let all = [MODIFY_ENGINE, SEARCH_INDEX, MODIFY_DOCUMENTS, MODIFY_STOP_WORDS, MODIFY_AUTH];
    for (i, a) in all.iter().enumerate() {
        assert_eq!(a.count_ones(), 1);
        for b in &all[i + 1..] {
            assert_eq!(a & b, 0);
        }
    }
    assert_eq!(SUPER_USER, all.iter().fold(0, |acc, p| acc | p));
}

#[test]
fn disabled_auth_lets_everything_through() {
    let auth = AuthManager::new(false, "root".to_string());
    assert!(!auth.enabled());
    assert_eq!(check_permissions(&auth, &AuthorizationHeader::Missing, "/nowhere"), Verdict::Allowed);
    assert!(auth.get_token_data("root").is_none());
}

#[test]
fn every_verdict_has_its_inputs() {
    let mut auth = AuthManager::new(true, "root".to_string());
    auth.create_token("reader".to_string(), payload(SEARCH_INDEX));
    let cases = vec![
        (AuthorizationHeader::Missing, "/indexes", Verdict::MissingHeader, 401),
        (AuthorizationHeader::Unreadable, "/indexes", Verdict::UnreadableToken, 400),
        (token("nobody"), "/indexes", Verdict::UnknownToken, 401),
        (token("nobody"), "/nowhere", Verdict::UnknownToken, 401),
        (token("reader"), "/nowhere", Verdict::UnknownRoute, 404),
        (token("reader"), "/indexes", Verdict::LacksPermission, 401),
        (token("reader"), "/indexes/books/search", Verdict::Allowed, 200),
        (token("root"), "/auth", Verdict::Allowed, 200),
        (token("root"), "/indexes/books/stopwords", Verdict::Allowed, 200),
    ];
    for (header, path, verdict, status) in cases {
        let got = check_permissions(&auth, &header, path);
        assert_eq!(got, verdict, "{:?} {}", header, path);
        assert_eq!(got.status(), status);
    }
}

#[test]
fn tokens_carry_permissions_and_index_lists() {
    let mut auth = AuthManager::new(true, "root".to_string());
    let data = auth.create_token("both".to_string(), payload(SEARCH_INDEX | MODIFY_DOCUMENTS));
    assert_eq!(data.token, "both");
    assert_eq!(data.user.as_deref(), Some("ada"));
    assert!(data.has_permissions(SEARCH_INDEX));
    assert!(data.has_permissions(SEARCH_INDEX | MODIFY_DOCUMENTS));
    assert!(!data.has_permissions(SEARCH_INDEX | MODIFY_AUTH));
    assert!(data.has_permissions(0));
    assert!(data.has_access_to_index("books"));
    assert!(!data.has_access_to_index("films"));
    let root = auth.get_token_data("root").unwrap().duplicate();
    assert_eq!(root.permissions, SUPER_USER);
    assert!(root.has_access_to_index("anything"));
}

#[test]
fn create_replace_update_and_revoke() {
    let mut auth = AuthManager::new(true, "root".to_string());
    auth.create_token("t".to_string(), payload(SEARCH_INDEX));
    auth.create_token("t".to_string(), payload(MODIFY_AUTH));
    assert_eq!(auth.get_token_data("t").unwrap().permissions, MODIFY_AUTH);
    assert!(auth.update_token("missing", payload(1)).is_none());
    assert!(auth.get_token_data("missing").is_none());
    let updated = auth.update_token("t", payload(MODIFY_ENGINE)).unwrap();
    assert_eq!(updated.permissions, MODIFY_ENGINE);
    assert_eq!(auth.get_token_data("t").unwrap().permissions, MODIFY_ENGINE);
    auth.revoke_token("t");
    assert!(auth.get_token_data("t").is_none());
    assert!(auth.get_token_data("root").is_some());
    auth.revoke_token("t");
    auth.revoke_all_tokens();
    assert!(auth.get_token_data("root").is_none());
    assert!(auth.enabled());
    assert_eq!(check_permissions(&auth, &token("root"), "/auth"), Verdict::UnknownToken);
}

#[test]
fn the_token_routes_answer_as_documented() {
    let mut auth = AuthManager::new(true, "root".to_string());
    let api = AuthApi;
    match api.create_token(&mut auth, "fresh".to_string(), payload(SEARCH_INDEX)) {
        CreateTokenResponse::Created(data) => assert_eq!(data.token, "fresh"),
        other => panic!("unexpected {:?}", other),
    }
    assert!(auth.get_token_data("fresh").is_some());
    match api.revoke_token(&mut auth, "fresh") {
        RevokeTokenResponse::Revoked(body) => assert_eq!(body.detail, "Successfully revoked token"),
        other => panic!("unexpected {:?}", other),
    }
    assert!(auth.get_token_data("fresh").is_none());
    match api.revoke_all_tokens(&mut auth) {
        RevokeTokenResponse::Revoked(body) => assert_eq!(body.detail, "Successfully revoked all tokens"),
        other => panic!("unexpected {:?}", other),
    }
    assert!(auth.get_token_data("root").is_none());
    assert_eq!(Detailed::from("x").detail, "x");
}

#[test]
fn the_plain_handlers_answer_as_documented() {
    let mut auth = AuthManager::new(true, "root".to_string());
    assert!(matches!(edit_token(&mut auth, None, payload(1)), EditTokenReply::MissingToken));
    assert!(matches!(edit_token(&mut auth, Some("ghost"), payload(1)), EditTokenReply::UnknownToken));
    match edit_token(&mut auth, Some("root"), payload(SEARCH_INDEX)) {
        EditTokenReply::Updated(data) => assert_eq!(data.permissions, SEARCH_INDEX),
        other => panic!("unexpected {:?}", other),
    }
    let reply = revoke_all_tokens(&mut auth);
    assert_eq!(reply.status, 200);
    assert_eq!(reply.message, "token revoked.");
    assert!(auth.get_token_data("root").is_none());
}
