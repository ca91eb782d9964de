//! The listing store: a keyed collection of property listings kept sorted by
//! identifier, with its own identifier allocator for listings added without
//! one. The reservation subsystem does not consult it; it serves the listing
//! browsing operations.

use vstd::prelude::*;

verus! {

/// A property listing.
pub struct Listing {
    pub id: u64,
    pub title: String,
    pub description: String,
    pub price_per_night: u64,
    pub location: String,
    pub photos: Vec<String>,
    pub amenities: Vec<String>,
}

/// The mathematical content of a `Listing`: every string as a sequence of
/// characters.
pub ghost struct ListingView {
    pub id: u64,
    pub title: Seq<char>,
    pub description: Seq<char>,
    pub price_per_night: u64,
    pub location: Seq<char>,
    pub photos: Seq<Seq<char>>,
    pub amenities: Seq<Seq<char>>,
}

impl View for Listing {
    type V = ListingView;

    open spec fn view(&self) -> ListingView {
        ListingView {
            id: self.id,
            title: self.title@,
            description: self.description@,
            price_per_night: self.price_per_night,
            location: self.location@,
            photos: self.photos.deep_view(),
            amenities: self.amenities.deep_view(),
        }
    }
}

impl Clone for Listing {
    fn clone(&self) -> (r: Self)
        ensures
            r@ == self@,
    {
        let r = Listing {
            id: self.id,
            title: self.title.clone(),
            description: self.description.clone(),
            price_per_night: self.price_per_night,
            location: self.location.clone(),
            photos: self.photos.clone(),
            amenities: self.amenities.clone(),
        };
        proof {
            assert(r.photos.deep_view() =~= self.photos.deep_view());
            assert(r.amenities.deep_view() =~= self.amenities.deep_view());
        }
        r
    }
}

/// Is some listing with identifier `id` present?
pub open spec fn spec_has_id(listings: Seq<Listing>, id: u64) -> bool {
    exists|i: int| 0 <= i < listings.len() && (#[trigger] listings[i]).id == id
}

/// Title of the demonstration listing seeded under `id`.
pub open spec fn spec_sample_title(id: u64) -> Seq<char> {
    if id == 1 {
        "Cozy Downtown Apartment"@
    } else if id == 2 {
        "Beachfront Villa"@
    } else if id == 3 {
        "Mountain Cabin Retreat"@
    } else if id == 4 {
        "Historic Brownstone"@
    } else if id == 5 {
        "Modern Loft"@
    } else {
        "Country Farmhouse"@
    }
}

/// Does the table hold an entry under `id` with the demonstration title and
/// price seeded for it?
pub open spec fn spec_sample_seeded(listings: Seq<Listing>, id: u64) -> bool {
    exists|m: int| #![auto]
        0 <= m < listings.len() && listings[m].id == id && listings[m].title@
            == spec_sample_title(id) && listings[m].price_per_night == spec_sample_price(id)
}

/// Nightly price of the demonstration listing seeded under `id`.
pub open spec fn spec_sample_price(id: u64) -> u64 {
    if id == 1 {
        120
    } else if id == 2 {
        350
    } else if id == 3 {
        85
    } else if id == 4 {
        200
    } else if id == 5 {
        180
    } else {
        95
    }
}

/// Keyed insertion: `t1` is `t0` with `l` put under its identifier — either
/// replacing the one entry that carried `l.id`, or inserted at some position
/// if no entry did.
pub open spec fn spec_upserted(t0: Seq<Listing>, t1: Seq<Listing>, l: Listing) -> bool {
    ||| exists|k: int| #![auto]
        0 <= k < t0.len() && t0[k].id == l.id && t1 == t0.update(k, l)
    ||| (!spec_has_id(t0, l.id) && exists|k: int| #![auto] 0 <= k <= t0.len() && t1 == t0.insert(
        k,
        l,
    ))
}

/// The listing store, keyed by `Listing::id` and kept sorted by it.
pub struct ListingStore {
    listings: Vec<Listing>,
    listing_counter: u64,
}

impl ListingStore {
    /// The stored listings, in ascending identifier order.
    pub closed spec fn listings(self) -> Seq<Listing> {
        self.listings@
    }

    /// The listing identifier allocator's counter.
    pub closed spec fn counter(self) -> u64 {
        self.listing_counter
    }

    /// Consistency of the store: listings are strictly sorted by identifier,
    /// so identifiers are unique.
    pub open spec fn wf(self) -> bool {
        forall|i: int, j: int| #![trigger self.listings()[i], self.listings()[j]]
            0 <= i < j < self.listings().len() ==> self.listings()[i].id < self.listings()[j].id
    }

    /// An empty store.
    pub fn new() -> (s: Self)
        ensures
            s.wf(),
            s.listings() == Seq::<Listing>::empty(),
            s.counter() == 0,
    {
        let s = ListingStore { listings: Vec::new(), listing_counter: 0 };
        proof {
            assert(s.listings() =~= Seq::<Listing>::empty());
        }
        s
    }

    /// Put `listing` into the table under its identifier, replacing any
    /// entry that already carries it. The allocator is untouched.
    fn insert_listing(&mut self, listing: Listing)
        requires
            old(self).wf(),
        ensures
            final(self).wf(),
            final(self).counter() == old(self).counter(),
            spec_upserted(old(self).listings(), final(self).listings(), listing),
    {
        let n = self.listings.len();
        let mut i: usize = 0;
        while i < n && self.listings[i].id < listing.id
            invariant
                0 <= i <= n,
                n == self.listings().len(),
                *self == *old(self),
                old(self).wf(),
                forall|k: int| 0 <= k < i ==> (#[trigger] self.listings()[k]).id < listing.id,
            decreases n - i,
        {
            i = i + 1;
        }
        if i < n && self.listings[i].id == listing.id {
            self.listings.remove(i);
            self.listings.insert(i, listing);
            proof {
                assert(self.listings() =~= old(self).listings().update(i as int, listing));
                assert forall|a: int, b: int|
                    #![trigger self.listings()[a], self.listings()[b]]
                    0 <= a < b < self.listings().len() implies self.listings()[a].id
                    < self.listings()[b].id by {
                    assert(self.listings()[a].id == old(self).listings()[a].id);
                    assert(self.listings()[b].id == old(self).listings()[b].id);
                }
            }
        } else {
            proof {
                if i < n {
                    assert(self.listings()[i as int].id > listing.id);
                }
                assert forall|k: int|
                    0 <= k < self.listings().len() implies (#[trigger] self.listings()[k]).id
                    != listing.id by {
                    if k >= i as int {
                        assert(self.listings()[i as int].id <= self.listings()[k].id);
                    }
                }
            }
            self.listings.insert(i, listing);
            proof {
                old(self).listings().insert_ensures(i as int, listing);
                assert forall|a: int, b: int|
                    #![trigger self.listings()[a], self.listings()[b]]
                    0 <= a < b < self.listings().len() implies self.listings()[a].id
                    < self.listings()[b].id by {
                    let t0 = old(self).listings();
                    if b < i as int {
                        assert(self.listings()[a] == t0[a] && self.listings()[b] == t0[b]);
                    } else if a > i as int {
                        assert(self.listings()[a] == t0[a - 1] && self.listings()[b] == t0[b
                            - 1]);
                    } else if a == i as int {
                        assert(self.listings()[b] == t0[b - 1] && t0[b - 1].id > listing.id);
                    } else if b == i as int {
                        assert(self.listings()[a] == t0[a] && t0[a].id < listing.id);
                    } else {
                        assert(self.listings()[a] == t0[a] && self.listings()[b] == t0[b - 1]
                            && a <= i as int - 1 <= b - 1);
                    }
                }
            }
        }
    }

    /// Put a listing into the table under its identifier, replacing any
    /// entry that already carries it. A listing arriving with identifier
    /// zero is assigned a fresh one first: the allocator advances by a
    /// thousand and hands out its new value, keeping generated identifiers
    /// clear of the small hand-picked ones.
    pub fn add_listing(&mut self, listing: Listing)
        requires
            old(self).wf(),
            old(self).counter() + 1000 <= u64::MAX,
        ensures
            final(self).wf(),
            listing.id != 0 ==> {
                &&& final(self).counter() == old(self).counter()
                &&& spec_upserted(old(self).listings(), final(self).listings(), listing)
            },
            listing.id == 0 ==> {
                &&& final(self).counter() == old(self).counter() + 1000
                &&& spec_upserted(
                    old(self).listings(),
                    final(self).listings(),
                    Listing { id: (old(self).counter() + 1000) as u64, ..listing },
                )
            },
    {
        let mut listing = listing;
        if listing.id == 0 {
            self.listing_counter = self.listing_counter + 1000;
            listing.id = self.listing_counter;
            proof {
                assert(self.listings() == old(self).listings());
            }
        }
        self.insert_listing(listing);
    }

    /// One page of the listing table: the entries at positions
    /// `page * limit ..= (page + 1) * limit - 1` of the identifier-sorted
    /// table, as snapshot copies. A page that does not fit entirely within
    /// the table — including any out-of-range page — is empty rather than
    /// partial or an error.
    pub fn get_listings(&self, page: u64, limit: u64) -> (r: Vec<Listing>)
        ensures
            ({
                let start = page as int * limit as int;
                let end = (page as int + 1) * limit as int;
                if end <= self.listings().len() {
                    r@.len() == limit && forall|k: int|
                        0 <= k < r@.len() ==> (#[trigger] r@[k])@ == self.listings()[start + k]@
                } else {
                    r@.len() == 0
                }
            }),
    {
        proof {
            assert((page as int + 1) * limit as int == page as int * limit as int
                + limit as int) by (nonlinear_arith);
        }
        let n = self.listings.len();
        let mut result: Vec<Listing> = Vec::new();
        match page.checked_add(1) {
            Some(p1) => {
                match p1.checked_mul(limit) {
                    Some(end) => {
                        if end <= n as u64 {
                            let start = page * limit;
                            let start_u = start as usize;
                            let end_u = end as usize;
                            let mut i: usize = start_u;
                            while i < end_u
                                invariant
                                    n == self.listings().len(),
                                    start_u <= i <= end_u <= n,
                                    result@.len() == i - start_u,
                                    forall|k: int|
                                        0 <= k < result@.len() ==> (#[trigger] result@[k])@
                                            == self.listings()[start_u + k]@,
                                decreases end_u - i,
                            {
                                result.push(self.listings[i].clone());
                                i = i + 1;
                            }
                        }
                    },
                    None => {
                    },
                }
            },
            None => {
                proof {
                    if limit >= 1 {
                        assert((page as int + 1) * limit as int >= page as int + 1)
                            by (nonlinear_arith)
                            requires
                                limit as int >= 1,
                                page as int + 1 > 0,
                        ;
                    }
                }
            },
        }
        result
    }

    /// The allocator counter behind generated listing identifiers; zero if
    /// none was handed out yet.
    pub fn generated_id_counter(&self) -> (r: u64)
        ensures
            r == self.counter(),
    {
        self.listing_counter
    }

    /// Number of listings in the store.
    pub fn get_listings_count(&self) -> (r: u64)
        ensures
            r == self.listings().len(),
    {
        self.listings.len() as u64
    }

    /// Seed the store with the six demonstration listings, under
    /// identifiers one through six. An entry already under one of those
    /// identifiers is replaced; every other entry is kept, and nothing else
    /// is added. The allocator is untouched.
    pub fn add_sample_listings(&mut self)
        requires
            old(self).wf(),
        ensures
            final(self).wf(),
            final(self).counter() == old(self).counter(),
            forall|id: u64|
                1 <= id <= 6 ==> #[trigger] spec_sample_seeded(final(self).listings(), id),
            forall|x: Listing| #![auto]
                old(self).listings().contains(x) && !(1 <= x.id <= 6)
                    ==> final(self).listings().contains(x),
            forall|x: Listing| #![auto]
                final(self).listings().contains(x)
                    ==> (1 <= x.id <= 6) || old(self).listings().contains(x),
    {
        let samples = sample_listings();
        let n = samples.len();
        let mut i: usize = 0;
        while i < n
            invariant
                n == 6,
                n == samples@.len(),
                forall|k: int|
                    0 <= k < samples@.len() ==> {
                        &&& (#[trigger] samples@[k]).id == k + 1
                        &&& samples@[k].title@ == spec_sample_title((k + 1) as u64)
                        &&& samples@[k].price_per_night == spec_sample_price((k + 1) as u64)
                    },
                0 <= i <= n,
                self.wf(),
                old(self).wf(),
                self.counter() == old(self).counter(),
                forall|id: u64|
                    1 <= id <= i ==> #[trigger] spec_sample_seeded(self.listings(), id),
                forall|x: Listing| #![auto]
                    old(self).listings().contains(x) && !(1 <= x.id <= 6)
                        ==> self.listings().contains(x),
                forall|x: Listing| #![auto]
                    self.listings().contains(x)
                        ==> (1 <= x.id <= i) || old(self).listings().contains(x),
            decreases n - i,
        {
            let ghost before = self.listings();
            let entry = samples[i].clone();
            proof {
                assert(entry.id == i + 1);
                assert(entry.title@ == spec_sample_title((i + 1) as u64));
            }
            self.insert_listing(entry);
            proof {
                lemma_upsert_effect(before, self.listings(), entry);
                assert forall|id: u64| 1 <= id <= i + 1 implies #[trigger] spec_sample_seeded(
                    self.listings(),
                    id,
                ) by {
                    if id <= i {
                        assert(spec_sample_seeded(before, id));
                        let m0 = choose|m0: int| #![auto]
                            0 <= m0 < before.len() && before[m0].id == id && before[m0].title@
                                == spec_sample_title(id) && before[m0].price_per_night
                                == spec_sample_price(id);
                        let x = before[m0];
                        assert(before.contains(x));
                        assert(self.listings().contains(x));
                        let m = choose|m: int| 0 <= m < self.listings().len()
                            && self.listings()[m] == x;
                        assert(self.listings()[m].id == id);
                    } else {
                        assert(self.listings().contains(entry));
                        let m = choose|m: int| 0 <= m < self.listings().len()
                            && self.listings()[m] == entry;
                        assert(self.listings()[m].id == id);
                    }
                }
            }
            i = i + 1;
        }
    }
}

/// The six demonstration listings, under identifiers one through six.
fn sample_listings() -> (r: Vec<Listing>)
    ensures
        r@.len() == 6,
        forall|k: int|
            0 <= k < r@.len() ==> {
                &&& (#[trigger] r@[k]).id == k + 1
                &&& r@[k].title@ == spec_sample_title((k + 1) as u64)
                &&& r@[k].price_per_night == spec_sample_price((k + 1) as u64)
            },
{
    let mut samples: Vec<Listing> = Vec::new();
    samples.push(
        Listing {
            id: 1,
            title: "Cozy Downtown Apartment".to_owned(),
            description: "A beautiful apartment in the heart of the city with modern amenities.".to_owned(),
            price_per_night: 120,
            location: "New York, NY".to_owned(),
            photos: vec!["photo1.jpg".to_owned(), "photo2.jpg".to_owned()],
            amenities: vec!["WiFi".to_owned(), "Kitchen".to_owned(), "AC".to_owned()],
        },
    );
    samples.push(
        Listing {
            id: 2,
            title: "Beachfront Villa".to_owned(),
            description: "Stunning oceanfront property with private beach access.".to_owned(),
            price_per_night: 350,
            location: "Miami, FL".to_owned(),
            photos: vec!["beach1.jpg".to_owned(), "beach2.jpg".to_owned()],
            amenities: vec![
                "Pool".to_owned(),
                "Beach Access".to_owned(),
                "WiFi".to_owned(),
                "Parking".to_owned(),
            ],
        },
    );
    samples.push(
        Listing {
            id: 3,
            title: "Mountain Cabin Retreat".to_owned(),
            description: "Peaceful cabin surrounded by nature, perfect for hiking enthusiasts.".to_owned(),
            price_per_night: 85,
            location: "Aspen, CO".to_owned(),
            photos: vec!["cabin1.jpg".to_owned()],
            amenities: vec!["Fireplace".to_owned(), "Hiking Trails".to_owned(), "WiFi".to_owned()],
        },
    );
    samples.push(
        Listing {
            id: 4,
            title: "Historic Brownstone".to_owned(),
            description: "Charming historic home with modern updates in a quiet neighborhood.".to_owned(),
            price_per_night: 200,
            location: "Boston, MA".to_owned(),
            photos: vec!["brownstone1.jpg".to_owned(), "brownstone2.jpg".to_owned()],
            amenities: vec![
                "WiFi".to_owned(),
                "Kitchen".to_owned(),
                "Garden".to_owned(),
                "Parking".to_owned(),
            ],
        },
    );
    samples.push(
        Listing {
            id: 5,
            title: "Modern Loft".to_owned(),
            description: "Sleek and stylish loft with city skyline views.".to_owned(),
            price_per_night: 180,
            location: "San Francisco, CA".to_owned(),
            photos: vec!["loft1.jpg".to_owned()],
            amenities: vec!["WiFi".to_owned(), "City Views".to_owned(), "Gym Access".to_owned()],
        },
    );
    samples.push(
        Listing {
            id: 6,
            title: "Country Farmhouse".to_owned(),
            description: "Rustic farmhouse with acres of land and farm animals.".to_owned(),
            price_per_night: 95,
            location: "Austin, TX".to_owned(),
            photos: vec!["farm1.jpg".to_owned(), "farm2.jpg".to_owned()],
            amenities: vec![
                "WiFi".to_owned(),
                "Farm Experience".to_owned(),
                "Large Kitchen".to_owned(),
            ],
        },
    );
    samples
}

/// Effect of keyed insertion on membership: the inserted entry is present
/// afterwards; entries under other identifiers are kept; and nothing but the
/// inserted entry appears.
proof fn lemma_upsert_effect(t0: Seq<Listing>, t1: Seq<Listing>, l: Listing)
    requires
        spec_upserted(t0, t1, l),
    ensures
        t1.contains(l),
        forall|x: Listing| #![auto] t0.contains(x) && x.id != l.id ==> t1.contains(x),
        forall|x: Listing| #![auto] t1.contains(x) ==> x == l || t0.contains(x),
{
    if exists|k: int| #![auto] 0 <= k < t0.len() && t0[k].id == l.id && t1 == t0.update(k, l) {
        let k = choose|k: int| #![auto]
            0 <= k < t0.len() && t0[k].id == l.id && t1 == t0.update(k, l);
        assert(t1[k] == l);
        assert forall|x: Listing| #![auto] t0.contains(x) && x.id != l.id implies t1.contains(
            x,
        ) by {
            let i = choose|i: int| 0 <= i < t0.len() && t0[i] == x;
            assert(t1[i] == x);
            assert(t1.contains(x));
        }
        assert forall|x: Listing| #![auto] t1.contains(x) implies x == l || t0.contains(x) by {
            let i = choose|i: int| 0 <= i < t1.len() && t1[i] == x;
            if i != k {
                assert(t0[i] == x);
                assert(t0.contains(x));
            }
        }
    } else {
        let k = choose|k: int| #![auto] 0 <= k <= t0.len() && t1 == t0.insert(k, l);
        t0.insert_ensures(k, l);
        assert(t1[k] == l);
        assert forall|x: Listing| #![auto] t0.contains(x) && x.id != l.id implies t1.contains(
            x,
        ) by {
            let i = choose|i: int| 0 <= i < t0.len() && t0[i] == x;
            if i < k {
                assert(t1[i] == x);
            } else {
                assert(t1[i + 1] == x);
            }
            assert(t1.contains(x));
        }
        assert forall|x: Listing| #![auto] t1.contains(x) implies x == l || t0.contains(x) by {
            let i = choose|i: int| 0 <= i < t1.len() && t1[i] == x;
            if i < k {
                assert(t0[i] == x);
                assert(t0.contains(x));
            } else if i > k {
                assert(t0[i - 1] == x);
                assert(t0.contains(x));
            }
        }
    }
}

} // verus!
