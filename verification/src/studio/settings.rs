//! Editor settings as loaded at startup.

use vstd::prelude::*;

use super::model::{EditorChoice, EditorSettings, Theme};

verus! {

/// The settings the editor starts with, given what reading the settings
/// file produced: the stored settings when the file was there and parsed,
/// otherwise the defaults (VS Code, no custom path, dark theme). A missing,
/// unreadable or malformed file is never an error.
pub fn load(parsed: Option<EditorSettings>) -> (r: EditorSettings)
    ensures
        parsed matches Some(s) ==> r == s,
        parsed is None ==> r.editor == EditorChoice::Vscode && r.custom_path@.len() == 0 && r.theme
            == Theme::Dark,
{
    match parsed {
        Some(s) => s,
        None => EditorSettings::default(),
    }
}

} // verus!
