use llm_quota::UserId;
use llm_quota::token::{
    BillingPreferences, Config, CreateLlmTokenError, LlmTokenClaims, Plan, ValidateLlmTokenError,
};

fn test_config() -> Config {
    Config { llm_api_secret: Some(String::from("a-signing-secret-for-tests")) }
}

fn issue(config: &Config, now_s: u64) -> String {
    LlmTokenClaims::create_at(
        UserId(42),
        String::from("some-user"),
        true,
        Some(BillingPreferences { max_monthly_llm_usage_spending_in_cents: 1234 }),
        false,
        true,
        Plan::ZedPro,
        config,
        now_s,
        String::from("token-id-1"),
    )
    .unwrap()
}

#[test]
fn round_trip_yields_the_issued_claims() {
    let config = test_config();
    let now: u64 = 1_700_000_000;
    let token = issue(&config, now);
    let claims = LlmTokenClaims::validate_at(&token, &config, now).unwrap();
    assert_eq!(claims.iat, now);
    assert_eq!(claims.exp, now + 3600);
    assert_eq!(claims.jti, "token-id-1");
    assert_eq!(claims.user_id, 42);
    assert_eq!(claims.github_user_login, "some-user");
    assert!(claims.is_staff);
    assert!(!claims.has_llm_closed_beta_feature_flag);
    assert!(claims.has_llm_subscription);
    assert_eq!(claims.max_monthly_spend_in_cents, 1234);
    assert_eq!(claims.plan, Plan::ZedPro);
}

#[test]
fn round_trip_with_non_ascii_login() {
    let config = test_config();
    let now: u64 = 1_700_000_000;
    let token = LlmTokenClaims::create_at(
        UserId(7),
        String::from("\u{03c0}-user.name\nwith|odd.chars"),
        false,
        None,
        true,
        false,
        Plan::Free,
        &config,
        now,
        String::from("id-2"),
    )
    .unwrap();
    let claims = LlmTokenClaims::validate_at(&token, &config, now).unwrap();
    assert_eq!(claims.github_user_login, "\u{03c0}-user.name\nwith|odd.chars");
    assert_eq!(claims.plan, Plan::Free);
    assert_eq!(claims.max_monthly_spend_in_cents, 1000);
}

#[test]
fn spend_ceiling_defaults_without_billing_preferences() {
    let config = test_config();
    let token = LlmTokenClaims::create_at(
        UserId(1),
        String::from("u"),
        false,
        None,
        false,
        false,
        Plan::Free,
        &config,
        0,
        String::from("j"),
    )
    .unwrap();
    let claims = LlmTokenClaims::validate_at(&token, &config, 0).unwrap();
    assert_eq!(claims.max_monthly_spend_in_cents, 1000);
}

#[test]
fn expired_strictly_after_window_not_invalid() {
    let config = test_config();
    let now: u64 = 1_700_000_000;
    let token = issue(&config, now);
    // At the very edge of the window the credential still verifies.
    assert!(LlmTokenClaims::validate_at(&token, &config, now + 3600).is_ok());
    // Strictly after it, the failure is Expired — not Invalid.
    let err = LlmTokenClaims::validate_at(&token, &config, now + 3601).unwrap_err();
    assert_eq!(err, ValidateLlmTokenError::Expired);
}

#[test]
fn corrupted_signature_is_invalid() {
    let config = test_config();
    let now: u64 = 1_700_000_000;
    let token = issue(&config, now);
    // Flip the last signature character.
    let mut corrupted: Vec<char> = token.chars().collect();
    let last = *corrupted.last().unwrap();
    *corrupted.last_mut().unwrap() = if last == 'A' { 'B' } else { 'A' };
    let corrupted: String = corrupted.into_iter().collect();
    assert_ne!(corrupted, token);
    let err = LlmTokenClaims::validate_at(&corrupted, &config, now).unwrap_err();
    assert_eq!(err, ValidateLlmTokenError::Invalid);
}

#[test]
fn tampered_payload_is_invalid() {
    let config = test_config();
    let now: u64 = 1_700_000_000;
    let token = issue(&config, now);
    // Flip one payload character (the first one), keeping the signature.
    let mut chars: Vec<char> = token.chars().collect();
    chars[0] = if chars[0] == '0' { '1' } else { '0' };
    let tampered: String = chars.into_iter().collect();
    let err = LlmTokenClaims::validate_at(&tampered, &config, now).unwrap_err();
    assert_eq!(err, ValidateLlmTokenError::Invalid);
}

#[test]
fn garbage_tokens_are_invalid() {
    let config = test_config();
    assert_eq!(
        LlmTokenClaims::validate_at("", &config, 0).unwrap_err(),
        ValidateLlmTokenError::Invalid
    );
    assert_eq!(
        LlmTokenClaims::validate_at("no-separator-here", &config, 0).unwrap_err(),
        ValidateLlmTokenError::Invalid
    );
    assert_eq!(
        LlmTokenClaims::validate_at("short.payload", &config, 0).unwrap_err(),
        ValidateLlmTokenError::Invalid
    );
}

#[test]
fn missing_secret_is_a_configuration_error() {
    let config = Config { llm_api_secret: None };
    let err = LlmTokenClaims::create_at(
        UserId(1),
        String::from("u"),
        false,
        None,
        false,
        false,
        Plan::Free,
        &config,
        0,
        String::from("j"),
    )
    .unwrap_err();
    assert_eq!(err, CreateLlmTokenError::MissingSecret);
    let err = LlmTokenClaims::validate_at("anything.at-all", &config, 0).unwrap_err();
    assert_eq!(err, ValidateLlmTokenError::MissingSecret);
}

#[test]
fn create_with_clock_and_fresh_id_round_trips() {
    let config = test_config();
    let token = LlmTokenClaims::create(
        UserId(8),
        String::from("live-user"),
        false,
        None,
        false,
        false,
        Plan::Free,
        &config,
    )
    .unwrap();
    let claims = LlmTokenClaims::validate(&token, &config).unwrap();
    assert_eq!(claims.user_id, 8);
    assert_eq!(claims.github_user_login, "live-user");
    // The fresh identifier is a hyphenated UUID.
    assert_eq!(claims.jti.len(), 36);
    assert_eq!(claims.exp, claims.iat + 3600);
}

#[test]
fn negative_billing_preference_keeps_the_source_cast() {
    let config = test_config();
    let token = LlmTokenClaims::create_at(
        UserId(1),
        String::from("u"),
        false,
        Some(BillingPreferences { max_monthly_llm_usage_spending_in_cents: -1 }),
        false,
        false,
        Plan::Free,
        &config,
        0,
        String::from("j"),
    )
    .unwrap();
    let claims = LlmTokenClaims::validate_at(&token, &config, 0).unwrap();
    assert_eq!(claims.max_monthly_spend_in_cents, u32::MAX);
}
