//! The reservation subsystem: the overlap predicate, the reservation record,
//! and the service that owns the reservation table and the identifier
//! allocator.

use vstd::prelude::*;

verus! {

/// Two half-open intervals `[a_start, a_end)` and `[b_start, b_end)`
/// intersect iff neither ends before the other begins. Touching intervals
/// (one's end equal to the other's start) do not overlap.
pub open spec fn spec_overlap(a_start: u64, a_end: u64, b_start: u64, b_end: u64) -> bool {
    !(a_end <= b_start || b_end <= a_start)
}

/// Overlap test for two half-open date ranges.
pub fn is_date_overlap(a_start: u64, a_end: u64, b_start: u64, b_end: u64) -> (r: bool)
    ensures
        r == spec_overlap(a_start, a_end, b_start, b_end),
{
    !(a_end <= b_start || b_end <= a_start)
}

/// A reservation of one listing for one half-open date range, owned by the
/// user who requested it. Immutable after creation; removed on cancellation.
#[derive(Debug)]
pub struct Reservation {
    pub id: u64,
    pub user_id: String,
    pub listing_id: u64,
    pub check_in: u64,
    pub check_out: u64,
    pub guests: u32,
    pub created_at: u64,
}

impl Clone for Reservation {
    fn clone(&self) -> (r: Self)
        ensures
            r == *self,
    {
        Reservation {
            id: self.id,
            user_id: self.user_id.clone(),
            listing_id: self.listing_id,
            check_in: self.check_in,
            check_out: self.check_out,
            guests: self.guests,
            created_at: self.created_at,
        }
    }
}

/// Why a reservation request was refused.
#[derive(Clone, Copy, Debug, PartialEq, Eq, Structural)]
pub enum ReservationError {
    /// The requested range had `check_out <= check_in`.
    InvalidDateRange,
    /// The requested range overlaps a live reservation of the same listing.
    ListingUnavailable,
}

/// Does reservation `r` stand in the way of booking `listing_id` over
/// `[check_in, check_out)`?
pub open spec fn spec_conflicts(r: Reservation, listing_id: u64, check_in: u64, check_out: u64) -> bool {
    r.listing_id == listing_id && spec_overlap(check_in, check_out, r.check_in, r.check_out)
}

/// A table of reservations leaves `[check_in, check_out)` of `listing_id`
/// free iff no entry for that listing overlaps the range.
pub open spec fn spec_available(table: Seq<Reservation>, listing_id: u64, check_in: u64, check_out: u64) -> bool {
    forall|i: int| 0 <= i < table.len() ==> !spec_conflicts(table[i], listing_id, check_in, check_out)
}

/// The reservation service: owns the reservation table and the identifier
/// allocator. All mutation of reservation state goes through it.
pub struct ReservationService {
    reservations: Vec<Reservation>,
    res_counter: u64,
}

impl ReservationService {
    /// The live reservations, in table order.
    pub closed spec fn table(self) -> Seq<Reservation> {
        self.reservations@
    }

    /// The identifier allocator's counter: the last identifier handed out,
    /// or zero if none was.
    pub closed spec fn counter(self) -> u64 {
        self.res_counter
    }

    /// Consistency of the service's state:
    /// identifiers are positive, unique, and never above the counter;
    /// every entry has a non-empty date range; and no two entries for the
    /// same listing overlap.
    pub open spec fn wf(self) -> bool {
        &&& forall|i: int, j: int| #![trigger self.table()[i], self.table()[j]]
            0 <= i < self.table().len() && 0 <= j < self.table().len() && i != j
                ==> self.table()[i].id != self.table()[j].id
        &&& forall|i: int| 0 <= i < self.table().len()
                ==> 0 < #[trigger] self.table()[i].id <= self.counter()
        &&& forall|i: int| 0 <= i < self.table().len()
                ==> (#[trigger] self.table()[i].check_in) < self.table()[i].check_out
        &&& forall|i: int, j: int| #![trigger self.table()[i], self.table()[j]]
            0 <= i < self.table().len() && 0 <= j < self.table().len() && i != j
                && self.table()[i].listing_id == self.table()[j].listing_id
                ==> !spec_overlap(
                    self.table()[i].check_in,
                    self.table()[i].check_out,
                    self.table()[j].check_in,
                    self.table()[j].check_out,
                )
    }

    /// An empty service: no reservations, no identifier handed out yet.
    pub fn new() -> (s: Self)
        ensures
            s.wf(),
            s.table() == Seq::<Reservation>::empty(),
            s.counter() == 0,
    {
        let s = ReservationService { reservations: Vec::new(), res_counter: 0 };
        proof {
            assert(s.table() =~= Seq::<Reservation>::empty());
        }
        s
    }

    /// The last reservation identifier handed out; zero if none was yet.
    pub fn last_issued_id(&self) -> (r: u64)
        ensures
            r == self.counter(),
    {
        self.res_counter
    }

    /// Pre-flight availability check. A degenerate range
    /// (`check_out <= check_in`) is reported as unavailable rather than as an
    /// error. Read-only: the result is a pure function of the table and the
    /// arguments, so repeated calls without an intervening mutation return
    /// identical results.
    pub fn check_availability(&self, listing_id: u64, check_in: u64, check_out: u64) -> (r: bool)
        ensures
            r == (check_in < check_out
                && spec_available(self.table(), listing_id, check_in, check_out)),
    {
        if check_out <= check_in {
            return false;
        }
        let n = self.reservations.len();
        let mut i: usize = 0;
        while i < n
            invariant
                0 <= i <= n,
                n == self.table().len(),
                forall|k: int| 0 <= k < i
                    ==> !spec_conflicts(self.table()[k], listing_id, check_in, check_out),
            decreases n - i,
        {
            let r = &self.reservations[i];
            if r.listing_id == listing_id
                && is_date_overlap(check_in, check_out, r.check_in, r.check_out) {
                return false;
            }
            i = i + 1;
        }
        true
    }

    /// Create a reservation. Validates the date range, refuses a range that
    /// overlaps a live reservation of the same listing, and otherwise records
    /// a new entry under a fresh identifier, one above the previous one.
    /// `now` is the creation timestamp supplied by the caller's clock.
    /// On failure the service is unchanged and no record is created.
    pub fn reserve(
        &mut self,
        user_id: String,
        listing_id: u64,
        check_in: u64,
        check_out: u64,
        guests: u32,
        now: u64,
    ) -> (r: Result<Reservation, ReservationError>)
        requires
            old(self).wf(),
            old(self).counter() < u64::MAX,
        ensures
            final(self).wf(),
            check_out <= check_in ==> {
                &&& r == Err::<Reservation, ReservationError>(ReservationError::InvalidDateRange)
                &&& *final(self) == *old(self)
            },
            check_in < check_out
                && !spec_available(old(self).table(), listing_id, check_in, check_out) ==> {
                &&& r == Err::<Reservation, ReservationError>(ReservationError::ListingUnavailable)
                &&& *final(self) == *old(self)
            },
            check_in < check_out
                && spec_available(old(self).table(), listing_id, check_in, check_out) ==> {
                &&& r matches Ok(res)
                &&& res.id == old(self).counter() + 1
                &&& res.user_id == user_id
                &&& res.listing_id == listing_id
                &&& res.check_in == check_in
                &&& res.check_out == check_out
                &&& res.guests == guests
                &&& res.created_at == now
                &&& final(self).table() == old(self).table().push(res)
                &&& final(self).counter() == old(self).counter() + 1
            },
    {
        if check_out <= check_in {
            return Err(ReservationError::InvalidDateRange);
        }
        if !self.check_availability(listing_id, check_in, check_out) {
            return Err(ReservationError::ListingUnavailable);
        }
        self.res_counter = self.res_counter + 1;
        let id = self.res_counter;
        let reservation = Reservation {
            id,
            user_id,
            listing_id,
            check_in,
            check_out,
            guests,
            created_at: now,
        };
        self.reservations.push(reservation.clone());
        Ok(reservation)
    }

    /// All live reservations of `user_id`, in table order, as snapshot
    /// copies. Empty if none match.
    pub fn get_reservations(&self, user_id: String) -> (r: Vec<Reservation>)
        ensures
            r@ == self.table().filter(|res: Reservation| res.user_id@ == user_id@),
    {
        broadcast use Seq::lemma_filter_push;

        let mut result: Vec<Reservation> = Vec::new();
        let n = self.reservations.len();
        let mut i: usize = 0;
        proof {
            reveal(Seq::filter);
            assert(self.table().subrange(0, 0).filter(
                |res: Reservation| res.user_id@ == user_id@,
            ) =~= Seq::<Reservation>::empty());
        }
        while i < n
            invariant
                0 <= i <= n,
                n == self.table().len(),
                result@ == self.table().subrange(0, i as int).filter(
                    |res: Reservation| res.user_id@ == user_id@,
                ),
            decreases n - i,
        {
            let entry = &self.reservations[i];
            if entry.user_id == user_id {
                result.push(entry.clone());
            }
            proof {
                let pred = |res: Reservation| res.user_id@ == user_id@;
                assert(self.table().subrange(0, i as int + 1) =~= self.table().subrange(
                    0,
                    i as int,
                ).push(self.table()[i as int]));
                self.table().subrange(0, i as int).lemma_filter_push(
                    self.table()[i as int],
                    pred,
                );
            }
            i = i + 1;
        }
        proof {
            assert(self.table().subrange(0, n as int) =~= self.table());
        }
        result
    }

    /// Cancel a reservation. Succeeds, removing the record, iff a
    /// reservation with that identifier exists and belongs to `user_id`;
    /// a single `false` covers both "not found" and "not authorized", so a
    /// non-owner learns nothing about the record's existence. On failure the
    /// service is unchanged.
    pub fn cancel_reservation(&mut self, reservation_id: u64, user_id: String) -> (r: bool)
        requires
            old(self).wf(),
        ensures
            final(self).wf(),
            r == exists|k: int|
                0 <= k < old(self).table().len()
                    && (#[trigger] old(self).table()[k]).id == reservation_id
                    && old(self).table()[k].user_id@ == user_id@,
            !r ==> *final(self) == *old(self),
            r ==> exists|k: int| {
                &&& 0 <= k < old(self).table().len()
                &&& (#[trigger] old(self).table()[k]).id == reservation_id
                &&& old(self).table()[k].user_id@ == user_id@
                &&& final(self).table() == old(self).table().remove(k)
            },
            final(self).counter() == old(self).counter(),
    {
        let n = self.reservations.len();
        let mut i: usize = 0;
        while i < n
            invariant
                0 <= i <= n,
                n == self.table().len(),
                *self == *old(self),
                old(self).wf(),
                forall|k: int| 0 <= k < i
                    ==> (#[trigger] self.table()[k]).id != reservation_id,
            decreases n - i,
        {
            let entry = &self.reservations[i];
            if entry.id == reservation_id {
                if entry.user_id == user_id {
                    proof {
                        assert(self.table()[i as int].id == reservation_id);
                    }
                    self.reservations.remove(i);
                    proof {
                        old(self).table().remove_ensures(i as int);
                        assert(self.table().len() == old(self).table().len() - 1);
                        assert(forall|k: int| 0 <= k < self.table().len()
                            ==> #[trigger] self.table()[k] == (if k < i as int {
                                old(self).table()[k]
                            } else {
                                old(self).table()[k + 1]
                            }));
                        assert forall|a: int, b: int| #![trigger self.table()[a], self.table()[b]]
                            0 <= a < self.table().len() && 0 <= b < self.table().len() && a != b
                            implies self.table()[a].id != self.table()[b].id && (
                            self.table()[a].listing_id == self.table()[b].listing_id
                                ==> !spec_overlap(
                                self.table()[a].check_in,
                                self.table()[a].check_out,
                                self.table()[b].check_in,
                                self.table()[b].check_out,
                            )) by {
                            let a0: int = if a < i as int { a } else { a + 1 };
                            let b0: int = if b < i as int { b } else { b + 1 };
                            assert(self.table()[a] == old(self).table()[a0]);
                            assert(self.table()[b] == old(self).table()[b0]);
                            assert(old(self).table()[a0].id != old(self).table()[b0].id);
                        }
                        assert forall|a: int| 0 <= a < self.table().len() implies 0 < (
                        #[trigger] self.table()[a]).id <= self.counter()
                            && self.table()[a].check_in < self.table()[a].check_out by {
                            let a0: int = if a < i as int { a } else { a + 1 };
                            assert(self.table()[a] == old(self).table()[a0]);
                        }
                    }
                    return true;
                } else {
                    proof {
                        assert(self.table()[i as int].id == reservation_id);
                        assert forall|k: int|
                            0 <= k < self.table().len()
                                && (#[trigger] self.table()[k]).id == reservation_id
                                implies k == i as int by {
                            if k != i as int {
                                assert(self.table()[k].id != self.table()[i as int].id);
                            }
                        }
                    }
                    return false;
                }
            }
            i = i + 1;
        }
        false
    }
}

/// No-overlap invariant: in a consistent service, no two live reservations
/// of the same listing have overlapping date ranges.
pub proof fn lemma_live_reservations_never_overlap(s: ReservationService, i: int, j: int)
    requires
        s.wf(),
        0 <= i < s.table().len(),
        0 <= j < s.table().len(),
        i != j,
        s.table()[i].listing_id == s.table()[j].listing_id,
    ensures
        !spec_overlap(
            s.table()[i].check_in,
            s.table()[i].check_out,
            s.table()[j].check_in,
            s.table()[j].check_out,
        ),
{
}

/// Identifier uniqueness: in a consistent service, no two live reservations
/// share an identifier.
pub proof fn lemma_reservation_ids_distinct(s: ReservationService, i: int, j: int)
    requires
        s.wf(),
        0 <= i < s.table().len(),
        0 <= j < s.table().len(),
        i != j,
    ensures
        s.table()[i].id != s.table()[j].id,
{
}

/// Identifier monotonicity: every live identifier is at most the allocator's
/// counter, so the next identifier handed out — one above the counter —
/// strictly exceeds every identifier already in the table.
pub proof fn lemma_next_id_exceeds_live_ids(s: ReservationService)
    requires
        s.wf(),
    ensures
        forall|i: int| 0 <= i < s.table().len() ==> (#[trigger] s.table()[i].id) <= s.counter(),
{
}

/// Boundary adjacency: date ranges that merely touch — one's end equal to
/// the other's start — do not overlap, so back-to-back bookings on the same
/// day boundary are permitted.
pub proof fn lemma_touching_ranges_do_not_overlap(a_start: u64, a_end: u64, b_start: u64, b_end: u64)
    requires
        a_end <= b_start || b_end <= a_start,
    ensures
        !spec_overlap(a_start, a_end, b_start, b_end),
{
}

} // verus!
