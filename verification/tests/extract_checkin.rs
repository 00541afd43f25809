use mix_checkin::checkin::{check_in, CheckInError, CheckInResp};
use mix_checkin::extract::{extract_identity, extract_member_id, parse_member_id};
use mix_checkin::ledger::{CreateWorkshopForm, Ledger};
use mix_checkin::policy::default_policy_config;
use mix_checkin::session::{CheckInAtrium, CheckInEligibility};

#[test]
fn parse_accepts_trimmed_digits() {
    assert_eq!(parse_member_id(&b" 123456 ".to_vec()), Some(123456));
    assert_eq!(parse_member_id(&b"123456".to_vec()), Some(123456));
    assert_eq!(parse_member_id(&b"\t\n 007 \r".to_vec()), Some(7));
    assert_eq!(parse_member_id(&b"4294967295".to_vec()), Some(u32::MAX));
}

#[test]
fn parse_rejects_non_digit_runs() {
    assert_eq!(parse_member_id(&b"".to_vec()), None);
    assert_eq!(parse_member_id(&b"   ".to_vec()), None);
    assert_eq!(parse_member_id(&b"12a4".to_vec()), None);
    assert_eq!(parse_member_id(&b"-5".to_vec()), None);
    assert_eq!(parse_member_id(&b"12 34".to_vec()), None);
    assert_eq!(parse_member_id(&b"4294967296".to_vec()), None);
}

#[test]
fn first_parsable_chunk_wins() {
    let texts = vec![b"  ".to_vec(), b"abc".to_vec(), b" 7 ".to_vec(), b"9".to_vec()];
    assert_eq!(extract_member_id(&texts), Some(7));
    assert_eq!(extract_member_id(&Vec::new()), None);
}

const GOOD_HTML: &str = "<div><span id=\"person_name\">Jane Doe</span>\
<p class=\"campus_id\"><b>card</b> 123456 <i>x</i></p></div>";

#[test]
fn extraction_finds_name_and_id_amid_other_nodes() {
    let (name, gnum) = extract_identity(GOOD_HTML).unwrap();
    assert_eq!(name, "Jane Doe");
    assert_eq!(gnum, 123456);
}

#[test]
fn extraction_fails_without_markers() {
    assert!(extract_identity("<div><p>no markers here</p></div>").is_none());
    assert!(extract_identity("<div id=\"person_name\">Jane</div>").is_none());
    assert!(
        extract_identity(
            "<div id=\"person_name\">Jane</div><div class=\"campus_id\"><b>no digits</b></div>"
        )
        .is_none()
    );
}

fn detailed(html: &str, eligible: bool, code: &str) -> CheckInAtrium {
    CheckInAtrium::Detailed {
        success: true,
        html: html.to_string(),
        eligibility: CheckInEligibility {
            code: code.to_string(),
            eligible,
        },
    }
}

#[test]
fn check_in_eligible_visitor_is_allowed() {
    let mut ledger = Ledger::new();
    let config = default_policy_config();
    let resp = check_in(detailed(GOOD_HTML, true, "OK"), &mut ledger, &config).unwrap();
    match resp {
        CheckInResp::Allow {
            name,
            gnum,
            workshops,
            ..
        } => {
            assert_eq!(name, "Jane Doe");
            assert_eq!(gnum, 123456);
            assert!(workshops.is_empty());
        }
        _ => panic!("expected an admission"),
    }
    // The member row was upserted even before any workshop history exists.
    assert!(ledger.is_member(123456));
}

#[test]
fn check_in_duplicate_swipe_denial_still_admits() {
    let mut ledger = Ledger::new();
    let config = default_policy_config();
    let resp = check_in(detailed(GOOD_HTML, false, "DENY902"), &mut ledger, &config).unwrap();
    assert!(matches!(resp, CheckInResp::Allow { .. }));
}

#[test]
fn check_in_ineligible_visitor_is_disallowed_but_tracked() {
    let mut ledger = Ledger::new();
    let config = default_policy_config();
    let resp = check_in(detailed(GOOD_HTML, false, "DENY100"), &mut ledger, &config).unwrap();
    match resp {
        CheckInResp::Disallow { html } => assert_eq!(html, GOOD_HTML),
        _ => panic!("expected a denial"),
    }
    // Membership bookkeeping happens regardless of the decision.
    assert!(ledger.is_member(123456));
}

#[test]
fn check_in_terse_response_is_surfaced_as_denial() {
    let mut ledger = Ledger::new();
    let config = default_policy_config();
    let resp = check_in(
        CheckInAtrium::Undetailed {
            success: false,
            message: "no such card".to_string(),
        },
        &mut ledger,
        &config,
    )
    .unwrap();
    match resp {
        CheckInResp::Disallow { html } => assert_eq!(html, "no such card"),
        _ => panic!("expected a denial"),
    }
    assert_eq!(ledger.member_count(), 0);
}

#[test]
fn check_in_unparsable_html_is_a_typed_error() {
    let mut ledger = Ledger::new();
    let config = default_policy_config();
    let err = check_in(
        detailed("<div>nothing to see</div>", true, "OK"),
        &mut ledger,
        &config,
    )
    .unwrap_err();
    assert_eq!(err, CheckInError::ExtractionFailed);
    assert_eq!(ledger.member_count(), 0);
}

#[test]
fn check_in_shows_completed_workshops() {
    let mut ledger = Ledger::new();
    let config = default_policy_config();
    ledger.upsert_member(123456);
    ledger.add_workshop(CreateWorkshopForm { name: "3D Printing".to_string() }).unwrap();
    let wid = ledger.list_workshops()[0].id.clone();
    ledger.take_workshop(123456, &wid).unwrap();

    let resp = check_in(detailed(GOOD_HTML, true, "OK"), &mut ledger, &config).unwrap();
    match resp {
        CheckInResp::Allow { workshops, .. } => {
            assert_eq!(workshops.len(), 1);
            assert_eq!(workshops[0].1.name, "3D Printing");
        }
        _ => panic!("expected an admission"),
    }
}
