use playlite::wishlist::{wishlist_games, wishlist_item, WishlistEntry, WishlistSub};

fn entry(id: &str, added: i64, subs: Option<Vec<WishlistSub>>) -> WishlistEntry {
    WishlistEntry {
        app_id: id.to_string(),
        name: format!("Game {}", id),
        capsule: format!("https://cdn.example/{}.jpg", id),
        added,
        subs,
    }
}

fn sub(price: Option<&str>, pct: Option<i32>) -> WishlistSub {
    WishlistSub { id: 1, price: price.map(|p| p.to_string()), discount_pct: pct }
}

#[test]
fn wishlist_item_fields() {
    let item = wishlist_item(&entry("620", 0, Some(vec![sub(Some("1999"), Some(25))])), "NOW");
    assert_eq!(item.id, "620");
    assert_eq!(item.name, "Game 620");
    assert_eq!(item.cover_url.as_deref(), Some("https://cdn.example/620.jpg"));
    assert_eq!(item.store_url.as_deref(), Some("https://store.steampowered.com/app/620"));
    assert_eq!(item.store_platform.as_deref(), Some("Steam"));
    assert_eq!(item.currency.as_deref(), Some("BRL"));
    assert_eq!(item.added_at.as_deref(), Some("1970-01-01T00:00:00+00:00"));
    assert!(item.on_sale);
    let p = item.pricing.unwrap();
    assert_eq!(p.price.as_deref(), Some("1999"));
    assert_eq!(p.discount_pct, 25);
}

#[test]
fn wishlist_item_without_discount_or_package() {
    let no_pct = wishlist_item(&entry("1", 86400, Some(vec![sub(Some("500"), None)])), "NOW");
    assert!(!no_pct.on_sale);
    assert_eq!(no_pct.pricing.as_ref().unwrap().discount_pct, 0);
    assert_eq!(no_pct.added_at.as_deref(), Some("1970-01-02T00:00:00+00:00"));
    let zero = wishlist_item(&entry("2", 0, Some(vec![sub(None, Some(0))])), "NOW");
    assert!(!zero.on_sale);
    assert_eq!(zero.pricing.as_ref().unwrap().price, None);
    let none = wishlist_item(&entry("3", 0, None), "NOW");
    assert!(none.pricing.is_none());
    assert!(!none.on_sale);
    let empty = wishlist_item(&entry("4", 0, Some(vec![])), "NOW");
    assert!(empty.pricing.is_none());
    assert!(!empty.on_sale);
}

#[test]
fn wishlist_item_out_of_range_time_uses_now() {
    let item = wishlist_item(&entry("5", i64::MAX, None), "2024-05-01T10:00:00+00:00");
    assert_eq!(item.added_at.as_deref(), Some("2024-05-01T10:00:00+00:00"));
}

#[test]
fn wishlist_newest_first() {
    let entries = vec![
        entry("a", 100, None),
        entry("b", 300, None),
        entry("c", 200, None),
        entry("d", 300, None),
    ];
    let ids: Vec<String> = wishlist_games(&entries, "NOW").into_iter().map(|g| g.id).collect();
    assert_eq!(ids, vec!["b", "d", "c", "a"]);
}

#[test]
fn wishlist_empty() {
    assert!(wishlist_games(&vec![], "NOW").is_empty());
}
