use neudel::studio::commands::{command_scans_depth, entry_kind, image_mime_for, COMMAND_MAX_DEPTH};
use neudel::studio::tree::listing_order;
use neudel::text::is_whitespace;

#[test]
fn whitespace_matches_char_is_whitespace_everywhere() {
    for u in 0..=0x10FFFFu32 {
        if let Some(c) = char::from_u32(u) {
            assert_eq!(is_whitespace(c), c.is_whitespace(), "U+{u:04X}");
        }
    }
}

#[test]
fn command_listing_puts_directories_first_then_names() {
    let dirs = vec![false, true, false, true, false];
    let names: Vec<String> = ["b.png", "src", "B.png", "assets", "a.rs"].iter().map(|s| s.to_string()).collect();
    let order = listing_order(&dirs, &names);
    let listed: Vec<&str> = order.iter().map(|&i| names[i].as_str()).collect();
    // Names compare by code point, so upper case sorts before lower case.
    assert_eq!(listed, vec!["assets", "src", "B.png", "a.rs", "b.png"]);
    assert!(listing_order(&Vec::new(), &Vec::new()).is_empty());
}

#[test]
fn command_scan_depth_kinds_and_mimes() {
    assert!(command_scans_depth(0));
    assert!(command_scans_depth(COMMAND_MAX_DEPTH));
    assert!(!command_scans_depth(COMMAND_MAX_DEPTH + 1));
    assert_eq!(entry_kind(true, Some("png")), "dir");
    assert_eq!(entry_kind(false, Some("PNG")), "image");
    assert_eq!(entry_kind(false, Some("Rhai")), "script");
    assert_eq!(entry_kind(false, None), "other");
    assert_eq!(image_mime_for(Some("JPEG")), "image/jpeg");
    assert_eq!(image_mime_for(Some("tga")), "image/png");
    assert_eq!(image_mime_for(None), "image/png");
}
