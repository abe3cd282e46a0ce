use gsync::api::oauth::{get_access_token, is_expired, LoginData, StoredToken, TokenUse};
use gsync::login::callback_endpoint::{authorization, Answer};
use gsync::login::db::{save_to_database, TokenWrite};
use gsync::login::{candidate_port, code_challenge, generate_code, state_parameter, url_safe};
use gsync::text::{holds, remove};

fn token(expiry: i64) -> StoredToken {
    StoredToken {
        access_token: String::from("access"),
        refresh_token: String::from("refresh"),
        expiry,
    }
}

#[test]
fn a_token_expires_a_minute_early() {
    assert!(!is_expired(1000, 1060));
    assert!(is_expired(1001, 1060));
    assert!(is_expired(2000, 1060));
    assert!(!is_expired(0, 1060));
}

#[test]
fn a_token_that_expired_before_all_time_is_expired() {
    assert!(is_expired(i64::MIN, i64::MIN));
    assert!(is_expired(i64::MIN, i64::MIN + 59));
    assert!(!is_expired(i64::MIN, i64::MIN + 60));
    assert!(!is_expired(i64::MAX - 60, i64::MAX));
    assert!(is_expired(i64::MAX - 59, i64::MAX));
}

#[test]
fn the_stored_token_is_used_while_it_is_good() {
    assert_eq!(get_access_token(Some(token(1060)), 1000), TokenUse::Stored(String::from("access")));
}

#[test]
fn an_expiring_token_is_refreshed() {
    assert_eq!(
        get_access_token(Some(token(1060)), 1001),
        TokenUse::Refresh(String::from("refresh"))
    );
}

#[test]
fn without_a_stored_token_there_is_none() {
    assert_eq!(get_access_token(None, 1000), TokenUse::Missing);
}

#[test]
fn tokens_with_a_refresh_token_replace_what_is_kept() {
    let login = LoginData {
        refresh_token: Some(String::from("r")),
        access_token: String::from("a"),
        expires_in: 3600,
    };
    assert_eq!(
        save_to_database(&login, 1000),
        TokenWrite::Replace {
            refresh_token: String::from("r"),
            access_token: String::from("a"),
            expiry: 4600
        }
    );
}

#[test]
fn an_access_token_alone_renews_what_is_kept() {
    let login =
        LoginData { refresh_token: None, access_token: String::from("a"), expires_in: 3600 };
    assert_eq!(
        save_to_database(&login, 1000),
        TokenWrite::Update { access_token: String::from("a"), expiry: 4600 }
    );
}

#[test]
fn an_answer_with_an_error_is_refused() {
    assert_eq!(
        authorization("s", Some(String::from("c")), Some(String::from("access_denied")), "s"),
        Answer::Refused(String::from("access_denied"))
    );
    assert_eq!(
        authorization("s", None, Some(String::from("access_denied")), "other"),
        Answer::Refused(String::from("access_denied"))
    );
}

#[test]
fn an_answer_with_another_state_is_foreign() {
    assert_eq!(authorization("s", Some(String::from("c")), None, "t"), Answer::Foreign);
    assert_eq!(authorization("s", Some(String::from("c")), None, ""), Answer::Foreign);
}

#[test]
fn an_answer_with_the_state_grants_the_code() {
    assert_eq!(
        authorization("s", Some(String::from("c")), None, "s"),
        Answer::Granted(String::from("c"))
    );
}

#[test]
fn url_safe_takes_the_padding_off() {
    assert_eq!(url_safe("abcd=="), Some(String::from("abcd")));
    assert_eq!(url_safe("ab=cd="), Some(String::from("abcd")));
    assert_eq!(url_safe("abcd"), Some(String::from("abcd")));
    assert_eq!(url_safe(""), Some(String::new()));
    assert_eq!(url_safe("===="), Some(String::new()));
}

#[test]
fn url_safe_refuses_plus_and_slash() {
    assert_eq!(url_safe("ab+d"), None);
    assert_eq!(url_safe("ab/d"), None);
    assert_eq!(url_safe("+"), None);
}

#[test]
fn code_challenge_is_the_digest_in_base64() {
    assert_eq!(
        code_challenge("b"),
        Some(String::from("PiPoFgA5WUoziU9lZOGxNIu9egCI1CxKy3PurtWcAJ0"))
    );
    assert_eq!(
        code_challenge("test1"),
        Some(String::from("G08OmFGXGZjnMgeFRMlrNsPQHO33yqMyNZ1vHYNWcBQ"))
    );
}

#[test]
fn code_challenge_refuses_a_digest_with_plus_or_slash() {
    assert_eq!(code_challenge("dBjftJeZ4CVP-mB92K27uhbUJU1p1r_wW1gFWFOEjXk"), None);
    assert_eq!(code_challenge("abc"), None);
    assert_eq!(code_challenge(""), None);
}

#[test]
fn generate_code_makes_a_verifier_and_its_challenge() {
    let (verifier, challenge) = generate_code(10_000).unwrap();
    assert_eq!(verifier.len(), 96);
    assert!(verifier.chars().all(|c| c.is_ascii_alphanumeric()));
    assert_eq!(code_challenge(&verifier), Some(challenge.clone()));
    assert_eq!(challenge.len(), 43);
    assert!(!challenge.contains('+') && !challenge.contains('/') && !challenge.contains('='));
}

#[test]
fn generate_code_without_a_try_makes_nothing() {
    assert_eq!(generate_code(0), None);
}

#[test]
fn generate_code_makes_another_verifier_every_time() {
    let first = generate_code(10_000).unwrap();
    let second = generate_code(10_000).unwrap();
    assert_ne!(first.0, second.0);
}

#[test]
fn state_parameter_is_thirty_two_letters_and_digits() {
    let state = state_parameter();
    assert_eq!(state.len(), 32);
    assert!(state.chars().all(|c| c.is_ascii_alphanumeric()));
    assert_ne!(state, state_parameter());
}

#[test]
fn candidate_port_lies_in_the_range() {
    for _ in 0..200 {
        let port = candidate_port();
        assert!((4000..8000).contains(&port));
    }
}

#[test]
fn remove_takes_every_occurrence_out() {
    assert_eq!(remove("a=b==c=", '='), "abc");
    assert_eq!(remove("abc", '='), "abc");
    assert_eq!(remove("", '='), "");
    assert_eq!(remove("é=ü", '='), "éü");
}

#[test]
fn holds_finds_a_character() {
    assert!(holds("a+b", '+'));
    assert!(!holds("ab", '+'));
    assert!(!holds("", '+'));
}
