use mix_checkin::ledger::{CreateWorkshopForm, Ledger, TakeWorkshopError};

fn ledger_with_member_and_workshop() -> (Ledger, String) {
    let mut ledger = Ledger::new();
    ledger.upsert_member(7);
    ledger.add_workshop(CreateWorkshopForm { name: "Laser Cutting".to_string() }).unwrap();
    let wid = ledger.list_workshops()[0].id.clone();
    (ledger, wid)
}

#[test]
fn record_twice_yields_success_then_already_took() {
    let (mut ledger, wid) = ledger_with_member_and_workshop();
    let first = ledger.take_workshop(7, &wid);
    assert!(first.is_ok());
    let second = ledger.take_workshop(7, &wid);
    assert!(matches!(second, Err(TakeWorkshopError::AlreadyTook)));
}

#[test]
fn record_reverse_round_trip() {
    let (mut ledger, wid) = ledger_with_member_and_workshop();
    let (taken, workshop) = ledger.take_workshop(7, &wid).unwrap();
    assert_eq!(taken.member, 7);
    assert_eq!(taken.workshop, wid);
    assert_eq!(workshop.id, wid);
    assert_eq!(workshop.name, "Laser Cutting");

    let (reversed, rworkshop) = ledger.untake_workshop(7, &wid).unwrap();
    assert_eq!(reversed.id, taken.id);
    assert_eq!(reversed.member, taken.member);
    assert_eq!(reversed.workshop, taken.workshop);
    assert_eq!(rworkshop.id, workshop.id);
    assert_eq!(rworkshop.name, workshop.name);

    let stale = ledger.untake_workshop(7, &wid);
    assert!(matches!(stale, Err(TakeWorkshopError::NotFound)));
}

#[test]
fn record_requires_member_and_workshop() {
    let mut ledger = Ledger::new();
    ledger.add_workshop(CreateWorkshopForm { name: "Welding".to_string() }).unwrap();
    let wid = ledger.list_workshops()[0].id.clone();
    assert!(matches!(
        ledger.take_workshop(7, &wid),
        Err(TakeWorkshopError::NotFound)
    ));
    ledger.upsert_member(7);
    assert!(matches!(
        ledger.take_workshop(7, &"no-such-workshop".to_string()),
        Err(TakeWorkshopError::NotFound)
    ));
}

#[test]
fn upsert_member_is_idempotent() {
    let mut ledger = Ledger::new();
    ledger.upsert_member(9);
    ledger.upsert_member(9);
    assert_eq!(ledger.member_count(), 1);
    assert!(ledger.is_member(9));
    assert!(!ledger.is_member(10));
}

#[test]
fn empty_history_is_an_empty_list() {
    let (ledger, _wid) = ledger_with_member_and_workshop();
    assert!(ledger.list_attendance(7).is_empty());
}

#[test]
fn history_lists_taken_workshops() {
    let (mut ledger, wid) = ledger_with_member_and_workshop();
    ledger.take_workshop(7, &wid).unwrap();
    let history = ledger.list_attendance(7);
    assert_eq!(history.len(), 1);
    assert_eq!(history[0].0.member, 7);
    assert_eq!(history[0].1.name, "Laser Cutting");
    // Another member's history stays empty.
    assert!(ledger.list_attendance(8).is_empty());
}

#[test]
fn generated_ids_are_distinct_uuids() {
    let mut ledger = Ledger::new();
    ledger.add_workshop(CreateWorkshopForm { name: "A".to_string() }).unwrap();
    ledger.add_workshop(CreateWorkshopForm { name: "B".to_string() }).unwrap();
    let all = ledger.list_workshops();
    assert_eq!(all.len(), 2);
    assert_eq!(all[0].id.len(), 36);
    assert_ne!(all[0].id, all[1].id);
}

#[test]
fn delete_workshop_is_shallow_and_tolerates_absence() {
    let (mut ledger, wid) = ledger_with_member_and_workshop();
    ledger.take_workshop(7, &wid).unwrap();
    ledger.delete_workshop(&wid).unwrap();
    assert!(ledger.list_workshops().is_empty());
    // The dangling record hides from the joined history but still blocks
    // a duplicate insert once the workshop is recreated under a new id.
    assert!(ledger.list_attendance(7).is_empty());
    // Deleting again is not an error.
    ledger.delete_workshop(&wid).unwrap();
}
