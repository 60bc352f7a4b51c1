use std::hash::{Hash, Hasher};
use std::path::{Path, PathBuf};

use neudel::studio::assets::{
    classify, data_url, data_url_from, is_skipped, mime_for_extension, scans_depth, script_template, MAX_DEPTH,
    PYTHON_TEMPLATE, RUST_TEMPLATE, resolve, resolve_with,
};
use neudel::studio::commands::{
    choose_binary, editor_binary as command_binary, ext_kind, hex_id, image_mime, path_id, script_stub,
    EditorSettings as CommandSettings, JAVA_STUB,
};
use neudel::studio::editor::{editor_binary, EditorError};
use neudel::studio::model::{AssetKind, EditorChoice, EditorSettings, Theme};
use neudel::studio::panels::{asset_click, asset_icon, play_label, AssetClick};
use neudel::studio::session::{pause_toggle, push_log, scene_title, PlayState, CONSOLE_LIMIT};
use neudel::studio::settings::load;

#[test]
fn classification_by_extension() {
    assert_eq!(classify(Some("PNG"), false), AssetKind::Image);
    assert_eq!(classify(Some("jpeg"), false), AssetKind::Image);
    assert_eq!(classify(Some("rs"), false), AssetKind::Script);
    assert_eq!(classify(Some("Lua"), false), AssetKind::Script);
    assert_eq!(classify(Some("ogg"), false), AssetKind::Audio);
    assert_eq!(classify(Some("txt"), false), AssetKind::Other);
    assert_eq!(classify(None, false), AssetKind::Other);
    assert_eq!(classify(Some("png"), true), AssetKind::Dir);
}

#[test]
fn scan_skips_hidden_and_build_dirs() {
    assert!(is_skipped(".git"));
    assert!(is_skipped("node_modules"));
    assert!(is_skipped("target"));
    assert!(!is_skipped("targets"));
    assert!(!is_skipped("src"));
    assert!(!is_skipped(""));
    assert!(scans_depth(MAX_DEPTH - 1));
    assert!(!scans_depth(MAX_DEPTH));
}

#[test]
fn mime_types_and_data_urls() {
    assert_eq!(mime_for_extension(Some("PNG")), "image/png");
    assert_eq!(mime_for_extension(Some("jpg")), "image/jpeg");
    assert_eq!(mime_for_extension(Some("svg")), "image/svg+xml");
    assert_eq!(mime_for_extension(Some("tga")), "application/octet-stream");
    assert_eq!(mime_for_extension(None), "application/octet-stream");
    assert_eq!(data_url("image/png", &[0x4d, 0x61, 0x6e]), "data:image/png;base64,TWFu");
    assert_eq!(data_url("image/gif", &[1, 2]), "data:image/gif;base64,AQI=");
    assert_eq!(data_url("image/bmp", &[]), "data:image/bmp;base64,");
    assert_eq!(data_url_from("image/webp", "UklGRg=="), "data:image/webp;base64,UklGRg==");
}

#[test]
fn script_templates_by_language() {
    assert_eq!(script_template("rust"), Some(RUST_TEMPLATE));
    assert_eq!(script_template("python"), Some(PYTHON_TEMPLATE));
    assert!(script_template("java").unwrap().contains("public class Script"));
    assert_eq!(script_template("cobol"), None);
    assert_eq!(script_template("Rust"), None);
    assert_eq!(script_stub("java"), Some(JAVA_STUB));
    assert!(script_stub("rust").unwrap().contains("_delta"));
    assert_eq!(script_stub("lisp"), None);
}

#[test]
fn editor_binary_from_settings() {
    let mut s = EditorSettings::default();
    assert_eq!((s.editor, s.theme), (EditorChoice::Vscode, Theme::Dark));
    assert_eq!(editor_binary(&s), Ok("code".to_string()));
    s.editor = EditorChoice::Jetbrains;
    assert_eq!(editor_binary(&s), Ok("idea".to_string()));
    s.editor = EditorChoice::Custom;
    assert_eq!(editor_binary(&s), Err(EditorError::EmptyCustomPath));
    s.custom_path = " \t ".to_string();
    assert_eq!(editor_binary(&s), Err(EditorError::EmptyCustomPath));
    s.custom_path = "/usr/bin/hx".to_string();
    assert_eq!(editor_binary(&s), Ok("/usr/bin/hx".to_string()));
}

#[test]
fn command_editor_binary_and_override() {
    assert_eq!(command_binary("vscode", ""), "code");
    assert_eq!(command_binary("jetbrains", ""), "idea");
    assert_eq!(command_binary("custom", "nvim"), "nvim");
    assert_eq!(command_binary("custom", ""), "code");
    assert_eq!(command_binary("emacs", "x"), "code");
    let settings = CommandSettings::default();
    assert_eq!(settings.editor, "vscode");
    assert_eq!(choose_binary(Some("subl".to_string()), &settings), "subl");
    assert_eq!(choose_binary(Some(String::new()), &settings), "code");
    assert_eq!(choose_binary(None, &settings), "code");
}

#[test]
fn command_kinds_mimes_and_ids() {
    assert_eq!(ext_kind("png"), "image");
    assert_eq!(ext_kind("rhai"), "script");
    assert_eq!(ext_kind("flac"), "audio");
    assert_eq!(ext_kind("PNG"), "other");
    assert_eq!(image_mime("jpeg"), "image/jpeg");
    assert_eq!(image_mime("webp"), "image/webp");
    assert_eq!(image_mime("xyz"), "image/png");
    let id = path_id("/tmp/project/a.png");
    assert_eq!(id.len(), 16);
    assert!(id.chars().all(|c| c.is_ascii_hexdigit() && !c.is_ascii_uppercase()));
    assert_eq!(id, path_id("/tmp/project/a.png"));
    let mut h = std::collections::hash_map::DefaultHasher::new();
    "/tmp/project/a.png".hash(&mut h);
    assert_eq!(id, format!("{:016x}", h.finish()));
    assert_eq!(id, hex_id(h.finish()));
    assert_eq!(hex_id(0xdead_beef), "00000000deadbeef");
    assert_eq!(hex_id(0), "0000000000000000");
    assert_eq!(hex_id(u64::MAX), "ffffffffffffffff");
}

#[test]
fn console_keeps_the_newest_lines() {
    let mut console: Vec<String> = Vec::new();
    for i in 0..(CONSOLE_LIMIT + 3) {
        push_log(&mut console, format!("line {i}"));
    }
    assert_eq!(console.len(), CONSOLE_LIMIT);
    assert_eq!(console[0], "line 3");
    assert_eq!(console[CONSOLE_LIMIT - 1], format!("line {}", CONSOLE_LIMIT + 2));
}

#[test]
fn pause_button_and_title() {
    assert_eq!(pause_toggle(PlayState::Playing), (PlayState::Paused, Some("Paused.")));
    assert_eq!(pause_toggle(PlayState::Paused), (PlayState::Playing, Some("Resumed.")));
    assert_eq!(pause_toggle(PlayState::Stopped), (PlayState::Stopped, None));
    assert_eq!(scene_title("level1", false, 2), "level1 *");
    assert_eq!(scene_title("level1", true, 2), "level1");
    assert_eq!(scene_title("untitled", false, 0), "untitled");
}

#[test]
fn asset_icons_and_clicks() {
    assert_eq!(asset_icon(AssetKind::Dir), "▸");
    assert_eq!(asset_icon(AssetKind::Image), "■");
    assert_eq!(asset_icon(AssetKind::Script), "</>");
    assert_eq!(asset_icon(AssetKind::Audio), "♪");
    assert_eq!(asset_icon(AssetKind::Other), "·");
    assert_eq!(asset_click(AssetKind::Image), AssetClick::PlaceOnCanvas);
    assert_eq!(asset_click(AssetKind::Script), AssetClick::OpenInEditor);
    assert_eq!(asset_click(AssetKind::Audio), AssetClick::Ignore);
    assert_eq!(asset_click(AssetKind::Dir), AssetClick::Ignore);
}

#[test]
fn play_button_label_follows_the_play_state() {
    assert_eq!(play_label(PlayState::Stopped), "▶ Play");
    assert_eq!(play_label(PlayState::Playing), "▶ Playing");
    assert_eq!(play_label(PlayState::Paused), "▶ Resume");
}

#[test]
fn settings_fall_back_to_defaults() {
    let stored = EditorSettings { editor: EditorChoice::Custom, custom_path: "/usr/bin/nvim".into(), theme: Theme::Light };
    let kept = load(Some(stored));
    assert_eq!(kept.editor, EditorChoice::Custom);
    assert_eq!(kept.custom_path, "/usr/bin/nvim");
    assert_eq!(kept.theme, Theme::Light);
    let fallback = load(None);
    assert_eq!(fallback.editor, EditorChoice::Vscode);
    assert_eq!(fallback.custom_path, "");
    assert_eq!(fallback.theme, Theme::Dark);
}

#[test]
fn paths_resolve_against_the_project_root() {
    let root = PathBuf::from("/proj");
    assert_eq!(resolve(None, Path::new("art/a.png")), PathBuf::from("art/a.png"));
    assert_eq!(resolve(Some(&root), Path::new("/abs/a.png")), PathBuf::from("/abs/a.png"));
    assert_eq!(resolve(Some(&root), Path::new("art/a.png")), PathBuf::from("/proj/art/a.png"));
    assert_eq!(resolve_with(true, Some(&root), Path::new("x")), PathBuf::from("x"));
    assert_eq!(resolve_with(false, Some(&root), Path::new("x")), PathBuf::from("/proj/x"));
}
