use gatefold::auth::{
    configured_client_id, expiry, token_cache_name, token_step, CachedToken, Grant, TokenStep,
    UnixTime,
};

fn token(client: &str, refresh: &str, expires_at: u64) -> CachedToken {
    CachedToken {
        client_id: client.into(),
        access_token: "access".into(),
        refresh_token: refresh.into(),
        expires_at,
    }
}

#[test]
fn tokens_expire_soon_within_a_minute() {
    let t = token("c", "r", 1_000);
    assert!(!t.expires_soon_at(939));
    assert!(t.expires_soon_at(940));
    assert!(t.expires_soon_at(5_000));
    assert!(token("c", "r", u64::MAX).expires_soon_at(u64::MAX - 10));
    assert!(token("c", "r", 0).expires_soon());
}

#[test]
fn expiry_adds_durations_with_carry_and_saturates() {
    assert_eq!(expiry(100, 600_000_000, 50, 500_000_000), 151);
    assert_eq!(expiry(100, 0, 50, 999_999_999), 150);
    assert_eq!(expiry(u64::MAX - 1, 999_999_999, 1, 1), u64::MAX);
}

#[test]
fn a_grant_without_refresh_token_keeps_the_previous_one() {
    let previous = token("c", "old-refresh", 10);
    let grant = Grant {
        access_token: "new".into(),
        refresh_token: String::new(),
        expires_in_secs: 3600,
        expires_in_nanos: 0,
    };
    let now = UnixTime {
        secs: 1_000,
        nanos: 0,
    };
    let kept = CachedToken::from_grant_at(grant.clone(), Some(&previous), "client", now);
    assert_eq!(kept.refresh_token, "old-refresh");
    assert_eq!(kept.access_token, "new");
    assert_eq!(kept.client_id, "client");
    assert_eq!(kept.expires_at, 4_600);
    let fresh = Grant {
        refresh_token: "fresh".into(),
        ..grant
    };
    let replaced = CachedToken::from_grant(fresh, Some(&previous), "client");
    assert_eq!(replaced.refresh_token, "fresh");
    assert!(replaced.expires_at >= 3600);
    assert!(replaced.expires_at > 1_600_000_000);
}

#[test]
fn configured_client_ids_are_trimmed_and_blank_ones_ignored() {
    assert_eq!(configured_client_id(Some("  abc\n".into())).as_deref(), Some("abc"));
    assert_eq!(configured_client_id(Some(" \t ".into())), None);
    assert_eq!(configured_client_id(None), None);
    assert_eq!(token_cache_name(true), "web-auth");
    assert_eq!(token_cache_name(false), "session-auth");
}

#[test]
fn token_steps() {
    let fresh = token("client", "r", 10_000);
    assert_eq!(
        token_step(Some(&fresh), "client", 100),
        TokenStep::UseCached("access".into())
    );
    assert_eq!(
        token_step(Some(&fresh), "client", 9_990),
        TokenStep::Refresh("r".into())
    );
    assert_eq!(token_step(Some(&fresh), "other", 100), TokenStep::Authorize);
    let no_refresh = token("client", "", 0);
    assert_eq!(token_step(Some(&no_refresh), "client", 100), TokenStep::Authorize);
    assert_eq!(token_step(None, "client", 100), TokenStep::Authorize);
}
