use airbnb_backend::reservations::{is_date_overlap, Reservation, ReservationError, ReservationService};

fn reserve_ok(
    s: &mut ReservationService,
    user: &str,
    listing: u64,
    check_in: u64,
    check_out: u64,
) -> Reservation {
    s.reserve(user.to_string(), listing, check_in, check_out, 2, 0)
        .expect("reservation should succeed")
}

#[test]
fn overlap_predicate_half_open() {
    assert!(is_date_overlap(100, 200, 150, 250));
    assert!(is_date_overlap(150, 250, 100, 200));
    assert!(is_date_overlap(100, 200, 100, 200));
    assert!(is_date_overlap(100, 200, 120, 180));
    assert!(!is_date_overlap(100, 200, 200, 300));
    assert!(!is_date_overlap(200, 300, 100, 200));
    assert!(!is_date_overlap(100, 200, 300, 400));
}

#[test]
fn accepted_reservations_never_overlap() {
    let mut s = ReservationService::new();
    let requests = [
        (1u64, 100u64, 200u64),
        (1, 150, 250),
        (1, 200, 300),
        (2, 150, 250),
        (1, 50, 101),
        (1, 50, 100),
        (2, 100, 260),
        (1, 300, 400),
    ];
    let mut accepted: Vec<Reservation> = Vec::new();
    for (listing, check_in, check_out) in requests {
        if let Ok(r) = s.reserve("u".to_string(), listing, check_in, check_out, 1, 0) {
            accepted.push(r);
        }
    }
    for a in &accepted {
        for b in &accepted {
            if a.id != b.id && a.listing_id == b.listing_id {
                assert!(!is_date_overlap(a.check_in, a.check_out, b.check_in, b.check_out));
            }
        }
    }
    // The exact outcomes: [100,200) ok; [150,250) overlaps; [200,300) touches, ok;
    // [150,250) on listing 2 ok; [50,101) overlaps; [50,100) touches, ok;
    // [100,260) on listing 2 overlaps; [300,400) touches, ok.
    assert_eq!(accepted.len(), 5);
}

#[test]
fn boundary_adjacency_is_allowed() {
    let mut s = ReservationService::new();
    let first = reserve_ok(&mut s, "alice", 7, 100, 200);
    let second = reserve_ok(&mut s, "bob", 7, 200, 300);
    assert_eq!(first.check_out, second.check_in);
    assert_eq!(s.get_reservations("alice".to_string()).len(), 1);
    assert_eq!(s.get_reservations("bob".to_string()).len(), 1);
}

#[test]
fn overlapping_request_is_rejected() {
    let mut s = ReservationService::new();
    reserve_ok(&mut s, "alice", 1, 100, 200);
    let err = s
        .reserve("bob".to_string(), 1, 150, 250, 2, 0)
        .expect_err("overlap should be rejected");
    assert_eq!(err, ReservationError::ListingUnavailable);
    // The same range on a different listing succeeds.
    let ok = s.reserve("bob".to_string(), 2, 150, 250, 2, 0);
    assert!(ok.is_ok());
}

#[test]
fn invalid_range_is_rejected_and_creates_no_record() {
    let mut s = ReservationService::new();
    let err = s
        .reserve("alice".to_string(), 1, 200, 100, 2, 0)
        .expect_err("inverted range should be rejected");
    assert_eq!(err, ReservationError::InvalidDateRange);
    let err = s
        .reserve("alice".to_string(), 1, 100, 100, 2, 0)
        .expect_err("empty range should be rejected");
    assert_eq!(err, ReservationError::InvalidDateRange);
    assert!(s.get_reservations("alice".to_string()).is_empty());
}

#[test]
fn identifiers_are_distinct_and_strictly_increasing() {
    let mut s = ReservationService::new();
    let mut last_id = 0u64;
    for k in 0..10u64 {
        let r = reserve_ok(&mut s, "alice", k + 1, 100, 200);
        assert!(r.id > last_id);
        last_id = r.id;
    }
    assert_eq!(last_id, 10);
}

#[test]
fn identifiers_are_not_reused_after_cancellation() {
    let mut s = ReservationService::new();
    let first = reserve_ok(&mut s, "alice", 1, 100, 200);
    assert!(s.cancel_reservation(first.id, "alice".to_string()));
    let second = reserve_ok(&mut s, "alice", 1, 100, 200);
    assert!(second.id > first.id);
}

#[test]
fn cancellation_requires_ownership() {
    let mut s = ReservationService::new();
    let r = reserve_ok(&mut s, "alice", 1, 100, 200);
    // A stranger cannot cancel, and the record stays queryable by its owner.
    assert!(!s.cancel_reservation(r.id, "bob".to_string()));
    let mine = s.get_reservations("alice".to_string());
    assert_eq!(mine.len(), 1);
    assert_eq!(mine[0].id, r.id);
    // The owner can; a second attempt finds nothing.
    assert!(s.cancel_reservation(r.id, "alice".to_string()));
    assert!(!s.cancel_reservation(r.id, "alice".to_string()));
    assert!(s.get_reservations("alice".to_string()).is_empty());
}

#[test]
fn cancelling_unknown_identifier_returns_false() {
    let mut s = ReservationService::new();
    assert!(!s.cancel_reservation(42, "alice".to_string()));
}

#[test]
fn cancellation_frees_the_range() {
    let mut s = ReservationService::new();
    let r = reserve_ok(&mut s, "alice", 1, 100, 200);
    assert!(!s.check_availability(1, 100, 200));
    assert!(s.cancel_reservation(r.id, "alice".to_string()));
    assert!(s.check_availability(1, 100, 200));
}

#[test]
fn check_availability_is_idempotent() {
    let mut s = ReservationService::new();
    reserve_ok(&mut s, "alice", 1, 100, 200);
    let first = s.check_availability(1, 150, 250);
    for _ in 0..5 {
        assert_eq!(s.check_availability(1, 150, 250), first);
    }
    let free = s.check_availability(1, 200, 300);
    for _ in 0..5 {
        assert_eq!(s.check_availability(1, 200, 300), free);
    }
    assert!(!first);
    assert!(free);
}

#[test]
fn degenerate_range_reads_as_unavailable() {
    let s = ReservationService::new();
    assert!(!s.check_availability(1, 200, 100));
    assert!(!s.check_availability(1, 100, 100));
    assert!(s.check_availability(1, 100, 101));
}

#[test]
fn reservation_records_its_fields() {
    let mut s = ReservationService::new();
    let r = s
        .reserve("carol".to_string(), 9, 1000, 2000, 4, 777)
        .expect("reservation should succeed");
    assert_eq!(r.id, 1);
    assert_eq!(r.user_id, "carol");
    assert_eq!(r.listing_id, 9);
    assert_eq!(r.check_in, 1000);
    assert_eq!(r.check_out, 2000);
    assert_eq!(r.guests, 4);
    assert_eq!(r.created_at, 777);
    let stored = s.get_reservations("carol".to_string());
    assert_eq!(stored.len(), 1);
    assert_eq!(stored[0].id, 1);
    assert_eq!(stored[0].created_at, 777);
}
