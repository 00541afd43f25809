use mix_checkin::policy::{decide, default_policy_config, Decision};
use mix_checkin::session::{
    is_expiry_signal, lookup_step, CheckInAtrium, CheckInEligibility, LookupAction, LookupState,
};

#[test]
fn eligible_admits_regardless_of_code_and_list() {
    let config = default_policy_config();
    assert_eq!(
        decide(true, &"WHATEVER".to_string(), 42, &config),
        Decision::Admit
    );
}

#[test]
fn duplicate_swipe_code_admits() {
    let config = default_policy_config();
    assert_eq!(
        decide(false, &"DENY902".to_string(), 42, &config),
        Decision::Admit
    );
}

#[test]
fn allow_listed_member_admits() {
    let config = default_policy_config();
    assert_eq!(
        decide(false, &"X".to_string(), 1254375, &config),
        Decision::Admit
    );
}

#[test]
fn otherwise_denied() {
    let config = default_policy_config();
    assert_eq!(decide(false, &"X".to_string(), 42, &config), Decision::Deny);
}

fn logout_response() -> CheckInAtrium {
    CheckInAtrium::Undetailed {
        success: false,
        message: "log_out".to_string(),
    }
}

fn detailed_response() -> CheckInAtrium {
    CheckInAtrium::Detailed {
        success: true,
        html: "<div id=\"person_name\">Jane Doe</div>".to_string(),
        eligibility: CheckInEligibility {
            code: "OK".to_string(),
            eligible: true,
        },
    }
}

#[test]
fn expiry_sentinel_is_recognised() {
    assert!(is_expiry_signal(&logout_response()));
    assert!(!is_expiry_signal(&CheckInAtrium::Undetailed {
        success: true,
        message: "log_out".to_string(),
    }));
    assert!(!is_expiry_signal(&CheckInAtrium::Undetailed {
        success: false,
        message: "other".to_string(),
    }));
    assert!(!is_expiry_signal(&detailed_response()));
}

#[test]
fn expiry_then_relogin_performs_exactly_one_retry() {
    let mut logins: u32 = 0;
    let mut lookups: u32 = 0;

    // First lookup comes back with the expiry sentinel.
    let (s1, a1) = lookup_step(LookupState::FirstLookup, {
        lookups += 1;
        mix_checkin::session::LookupEvent::Response(logout_response())
    });
    assert_eq!(s1, LookupState::Reauth);
    assert!(matches!(a1, LookupAction::Login));
    logins += 1;

    // The re-login succeeds; the machine asks for the single retry.
    let (s2, a2) = lookup_step(s1, mix_checkin::session::LookupEvent::LoginSucceeded);
    assert_eq!(s2, LookupState::RetryLookup);
    assert!(matches!(a2, LookupAction::SendLookup));
    lookups += 1;

    // The retried lookup's detailed response settles the protocol.
    let (s3, a3) = lookup_step(
        s2,
        mix_checkin::session::LookupEvent::Response(detailed_response()),
    );
    assert_eq!(s3, LookupState::Settled);
    match a3 {
        LookupAction::Finish(CheckInAtrium::Detailed { success, .. }) => assert!(success),
        _ => panic!("expected the retried response to be handed on"),
    }

    assert_eq!(logins, 1);
    assert_eq!(lookups, 2);
}

#[test]
fn fresh_session_settles_without_login() {
    let (s, a) = lookup_step(
        LookupState::FirstLookup,
        mix_checkin::session::LookupEvent::Response(detailed_response()),
    );
    assert_eq!(s, LookupState::Settled);
    assert!(matches!(a, LookupAction::Finish(_)));
}

#[test]
fn login_failure_is_fatal_to_the_request() {
    let (s, a) = lookup_step(
        LookupState::Reauth,
        mix_checkin::session::LookupEvent::LoginFailed,
    );
    assert_eq!(s, LookupState::Unavailable);
    assert!(matches!(a, LookupAction::Fail));
}

#[test]
fn second_expiry_is_surfaced_not_retried() {
    let (s, a) = lookup_step(
        LookupState::RetryLookup,
        mix_checkin::session::LookupEvent::Response(logout_response()),
    );
    assert_eq!(s, LookupState::Settled);
    assert!(matches!(a, LookupAction::Finish(_)));
}
