use std::path::PathBuf;

use neudel::studio::model::{Asset, AssetKind};
use neudel::studio::tree::{make_asset, sort_assets, sort_by_folded};

fn entry(name: &str, is_dir: bool) -> Asset {
    let ext = name.rsplit_once('.').map(|(_, e)| e.to_string());
    make_asset(name.to_string(), PathBuf::from(name), ext.as_deref(), is_dir, Vec::new())
}

fn names(assets: &[Asset]) -> Vec<&str> {
    assets.iter().map(|a| a.name.as_str()).collect()
}

#[test]
fn make_asset_classifies_and_ids_the_entry() {
    let a = entry("hero.PNG", false);
    assert_eq!(a.kind, AssetKind::Image);
    assert_eq!(a.name, "hero.PNG");
    assert_eq!(a.path, PathBuf::from("hero.PNG"));
    assert!(!a.is_dir && a.children.is_empty());
    assert_eq!(a.id.len(), 36);
    let d = entry("sprites", true);
    assert_eq!(d.kind, AssetKind::Dir);
    assert_eq!(entry("main.rs", false).kind, AssetKind::Script);
    assert_eq!(entry("notes.txt", false).kind, AssetKind::Other);
    assert_ne!(a.id, d.id);
}

#[test]
fn listing_puts_directories_first_then_names_ignoring_case() {
    let mut list = vec![
        entry("zeta.png", false),
        entry("Beta", true),
        entry("alpha.rs", false),
        entry("Alpha.rs", false),
        entry("audio", true),
        entry("Éclair.wav", false),
        entry("b.lua", false),
    ];
    sort_assets(&mut list);
    // "alpha.rs" and "Alpha.rs" fold to the same key and keep their order.
    assert_eq!(names(&list), vec!["audio", "Beta", "alpha.rs", "Alpha.rs", "b.lua", "zeta.png", "Éclair.wav"]);
}

#[test]
fn sort_by_folded_orders_by_the_given_keys() {
    let mut list = vec![entry("one", false), entry("two", false), entry("dir", true), entry("three", false)];
    // The keys decide, not the names.
    let keys = vec!["c".to_string(), "a".to_string(), "z".to_string(), "a".to_string()];
    sort_by_folded(&mut list, keys);
    assert_eq!(names(&list), vec!["dir", "two", "three", "one"]);
}

#[test]
fn empty_and_single_listings_are_unchanged() {
    let mut empty: Vec<Asset> = Vec::new();
    sort_assets(&mut empty);
    assert!(empty.is_empty());
    let mut one = vec![entry("solo.ogg", false)];
    sort_assets(&mut one);
    assert_eq!(names(&one), vec!["solo.ogg"]);
}
