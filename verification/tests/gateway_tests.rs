use gacha_session::gateway::RequestScope;
use gacha_session::gateway::Resolution;
use gacha_session::gateway::SameSitePolicy;
use gacha_session::gateway::build_session_cookie;
use gacha_session::gateway::cookie_name;
use gacha_session::gateway::resolve_request;
use gacha_session::gateway::resolve_session;
use gacha_session::record::SessionData;
use gacha_session::table::SessionTable;
use gacha_session::token::parse_token_text;
use gacha_session::token::token_text;

#[test]
fn session_cookie_carries_token_and_flags() {
    let c = build_session_cookie(405);
    assert_eq!(c.name, b"SESSIONID".to_vec());
    assert_eq!(c.value, b"405".to_vec());
    assert!(c.http_only);
    assert!(c.secure);
    assert_eq!(c.same_site, SameSitePolicy::Lax);
    assert_eq!(cookie_name(), b"SESSIONID".to_vec());
}

#[test]
fn request_without_cookie_provisions_one_session_and_one_cookie() {
    let mut table = SessionTable::new();
    let mut scope = RequestScope::new();
    let res = resolve_session(&mut table, &mut scope, None, 77, 10);
    match res {
        Resolution::Created { token, cookie } => {
            assert_eq!(token, 77);
            assert_eq!(cookie.value, token_text(77));
            assert!(table.contains_token(77));
            assert_eq!(table.get(77).unwrap().last_access(), 10);
        },
        Resolution::Existing { .. } => panic!("expected a fresh session"),
    }
}

#[test]
fn unknown_presented_token_provisions_fresh_session() {
    let mut table = SessionTable::new();
    table.insert(1, SessionData::new(0));
    let mut scope = RequestScope::new();
    let res = resolve_session(&mut table, &mut scope, Some(999), 77, 10);
    match res {
        Resolution::Created { token, cookie } => {
            assert_eq!(token, 77);
            assert_eq!(cookie.name, b"SESSIONID".to_vec());
            assert!(table.contains_token(77));
            assert!(!table.contains_token(999));
        },
        Resolution::Existing { .. } => panic!("expected a fresh session"),
    }
}

#[test]
fn live_presented_token_resolves_and_touches() {
    let mut table = SessionTable::new();
    table.insert(5, SessionData::new(0));
    let mut scope = RequestScope::new();
    let res = resolve_session(&mut table, &mut scope, Some(5), 77, 42);
    match res {
        Resolution::Existing { token } => {
            assert_eq!(token, 5);
            assert_eq!(table.get(5).unwrap().last_access(), 42);
            assert!(!table.contains_token(77));
        },
        Resolution::Created { .. } => panic!("expected the existing session"),
    }
}

#[test]
fn resolution_is_memoized_within_one_request() {
    let mut table = SessionTable::new();
    let mut scope = RequestScope::new();
    let first = resolve_session(&mut table, &mut scope, None, 77, 10);
    let first_token = match first {
        Resolution::Created { token, .. } => token,
        Resolution::Existing { token } => token,
    };
    let again = resolve_session(&mut table, &mut scope, None, 88, 11);
    match again {
        Resolution::Existing { token } => assert_eq!(token, first_token),
        Resolution::Created { .. } => panic!("a request resolves its session exactly once"),
    }
    assert!(!table.contains_token(88));
}

#[test]
fn drawn_tokens_resolve_like_given_ones() {
    let mut table = SessionTable::new();
    let mut scope = RequestScope::new();
    let res = resolve_request(&mut table, &mut scope, None, 10).expect("a draw must succeed");
    let token = match res {
        Resolution::Created { token, cookie } => {
            assert_eq!(cookie.value, token_text(token));
            token
        },
        Resolution::Existing { .. } => panic!("expected a fresh session"),
    };
    assert!(table.contains_token(token));
    let mut scope2 = RequestScope::new();
    let res2 = resolve_request(&mut table, &mut scope2, Some(token), 11).expect("no draw needed");
    match res2 {
        Resolution::Existing { token: t } => assert_eq!(t, token),
        Resolution::Created { .. } => panic!("expected the existing session"),
    }
}

#[test]
fn memoized_request_is_always_answered() {
    let mut table = SessionTable::new();
    let mut scope = RequestScope::new();
    let first = resolve_request(&mut table, &mut scope, None, 10).expect("a draw must succeed");
    let first_token = match first {
        Resolution::Created { token, .. } => token,
        Resolution::Existing { token } => token,
    };
    // The memo owes an answer without consulting the random source, and
    // neither a new record nor a new cookie is produced.
    let again = resolve_request(&mut table, &mut scope, Some(999_999), 11)
        .expect("a memoized request is always answered");
    match again {
        Resolution::Existing { token } => assert_eq!(token, first_token),
        Resolution::Created { .. } => panic!("a request resolves its session exactly once"),
    }
    assert!(!table.contains_token(999_999));
}

#[test]
fn live_presented_token_is_always_answered() {
    let mut table = SessionTable::new();
    table.insert(5, SessionData::new(0));
    let mut scope = RequestScope::new();
    let res = resolve_request(&mut table, &mut scope, Some(5), 42)
        .expect("a live token is always answered");
    match res {
        Resolution::Existing { token } => assert_eq!(token, 5),
        Resolution::Created { .. } => panic!("a live token reuses its session"),
    }
    assert_eq!(table.get(5).unwrap().last_access(), 42);
}

#[test]
fn dead_presented_token_is_never_echoed() {
    let mut table = SessionTable::new();
    let mut scope = RequestScope::new();
    let res = resolve_request(&mut table, &mut scope, Some(777), 10).expect("a draw must succeed");
    match res {
        Resolution::Created { token, .. } => assert_ne!(token, 777),
        Resolution::Existing { .. } => panic!("a dead token cannot resolve"),
    }
}

#[test]
fn full_visit_cycle_with_expiry() {
    let mut table = SessionTable::new();
    let expiry: u64 = 3600;

    // First request arrives without a cookie: a session is provisioned
    // and the response carries its cookie.
    let mut scope1 = RequestScope::new();
    let res = resolve_request(&mut table, &mut scope1, None, 0).unwrap();
    let (token, cookie) = match res {
        Resolution::Created { token, cookie } => (token, cookie),
        Resolution::Existing { .. } => panic!("expected a fresh session"),
    };
    assert_eq!(cookie.name, b"SESSIONID".to_vec());

    // A later request presents that cookie: same session, and a value
    // written through it is readable in the same request.
    let presented = parse_token_text(&cookie.value);
    assert_eq!(presented, Some(token));
    let mut scope2 = RequestScope::new();
    let res2 = resolve_request(&mut table, &mut scope2, presented, 100).unwrap();
    match res2 {
        Resolution::Existing { token: t } => assert_eq!(t, token),
        Resolution::Created { .. } => panic!("expected the existing session"),
    }
    table.insert_session_data(token, 100, "x".to_owned()).unwrap();
    let back = table.get_session_data(token, 100).unwrap();
    assert_eq!(back.unwrap(), "x");

    // The expiry duration passes with no further access: the sweep
    // removes the session and the old cookie yields a brand-new one.
    let busy: Vec<u128> = Vec::new();
    table.sweep(100 + expiry + 1, expiry, &busy);
    assert!(!table.contains_token(token));
    let mut scope3 = RequestScope::new();
    let res3 = resolve_request(&mut table, &mut scope3, presented, 100 + expiry + 2).unwrap();
    match res3 {
        Resolution::Created { token: t2, .. } => assert_ne!(t2, token),
        Resolution::Existing { .. } => panic!("expected a brand-new session"),
    }
}
