use airbnb_backend::listings::{Listing, ListingStore};

fn listing(id: u64, title: &str, price: u64) -> Listing {
    Listing {
        id,
        title: title.to_string(),
        description: String::new(),
        price_per_night: price,
        location: String::new(),
        photos: Vec::new(),
        amenities: Vec::new(),
    }
}

fn ids(listings: &[Listing]) -> Vec<u64> {
    listings.iter().map(|l| l.id).collect()
}

#[test]
fn listings_come_back_sorted_by_identifier() {
    let mut store = ListingStore::new();
    store.add_listing(listing(30, "c", 3));
    store.add_listing(listing(10, "a", 1));
    store.add_listing(listing(20, "b", 2));
    let page = store.get_listings(0, 3);
    assert_eq!(ids(&page), vec![10, 20, 30]);
}

#[test]
fn adding_under_an_existing_identifier_replaces() {
    let mut store = ListingStore::new();
    store.add_listing(listing(10, "old", 1));
    store.add_listing(listing(10, "new", 9));
    assert_eq!(store.get_listings_count(), 1);
    let page = store.get_listings(0, 1);
    assert_eq!(page[0].title, "new");
    assert_eq!(page[0].price_per_night, 9);
}

#[test]
fn identifier_zero_gets_a_generated_identifier() {
    let mut store = ListingStore::new();
    store.add_listing(listing(0, "first", 1));
    store.add_listing(listing(0, "second", 2));
    let page = store.get_listings(0, 2);
    assert_eq!(ids(&page), vec![1000, 2000]);
}

#[test]
fn pagination_slices_the_sorted_table() {
    let mut store = ListingStore::new();
    for id in 1..=6u64 {
        store.add_listing(listing(id, "t", id));
    }
    assert_eq!(ids(&store.get_listings(0, 2)), vec![1, 2]);
    assert_eq!(ids(&store.get_listings(1, 2)), vec![3, 4]);
    assert_eq!(ids(&store.get_listings(2, 2)), vec![5, 6]);
}

#[test]
fn page_that_does_not_fit_is_empty() {
    let mut store = ListingStore::new();
    for id in 1..=5u64 {
        store.add_listing(listing(id, "t", id));
    }
    // The last page would be partial, so it is empty, as is anything beyond.
    assert!(store.get_listings(2, 2).is_empty());
    assert!(store.get_listings(7, 2).is_empty());
    assert!(store.get_listings(0, 6).is_empty());
    // Degenerate sizes.
    assert!(store.get_listings(0, 0).is_empty());
    assert!(store.get_listings(u64::MAX, 2).is_empty());
    assert!(store.get_listings(2, u64::MAX).is_empty());
}

#[test]
fn counting_listings() {
    let mut store = ListingStore::new();
    assert_eq!(store.get_listings_count(), 0);
    store.add_listing(listing(1, "a", 1));
    store.add_listing(listing(2, "b", 2));
    assert_eq!(store.get_listings_count(), 2);
}

#[test]
fn sample_listings_are_seeded() {
    let mut store = ListingStore::new();
    store.add_sample_listings();
    assert_eq!(store.get_listings_count(), 6);
    let page = store.get_listings(0, 6);
    assert_eq!(ids(&page), vec![1, 2, 3, 4, 5, 6]);
    assert_eq!(page[0].title, "Cozy Downtown Apartment");
    assert_eq!(page[0].price_per_night, 120);
    assert_eq!(page[0].location, "New York, NY");
    assert_eq!(page[0].photos, vec!["photo1.jpg", "photo2.jpg"]);
    assert_eq!(page[0].amenities, vec!["WiFi", "Kitchen", "AC"]);
    assert_eq!(page[1].title, "Beachfront Villa");
    assert_eq!(page[1].price_per_night, 350);
    assert_eq!(page[2].title, "Mountain Cabin Retreat");
    assert_eq!(page[2].price_per_night, 85);
    assert_eq!(page[3].title, "Historic Brownstone");
    assert_eq!(page[3].price_per_night, 200);
    assert_eq!(page[4].title, "Modern Loft");
    assert_eq!(page[4].price_per_night, 180);
    assert_eq!(page[5].title, "Country Farmhouse");
    assert_eq!(page[5].price_per_night, 95);
}

#[test]
fn seeding_twice_keeps_six_samples() {
    let mut store = ListingStore::new();
    store.add_sample_listings();
    store.add_sample_listings();
    assert_eq!(store.get_listings_count(), 6);
}

#[test]
fn seeding_keeps_other_listings() {
    let mut store = ListingStore::new();
    store.add_listing(listing(42, "mine", 7));
    store.add_sample_listings();
    assert_eq!(store.get_listings_count(), 7);
    let page = store.get_listings(0, 7);
    assert_eq!(ids(&page), vec![1, 2, 3, 4, 5, 6, 42]);
    assert_eq!(page[6].title, "mine");
}
