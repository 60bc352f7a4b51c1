//! Studio data model — assets, components, settings.

use std::path::{Path, PathBuf};

use vstd::prelude::*;

verus! {

#[verifier::external_type_specification]
#[verifier::external_body]
pub struct ExPathBuf(PathBuf);

#[verifier::external_type_specification]
#[verifier::external_body]
pub struct ExPath(Path);

/// A version-4 UUID in hyphenated lower-case hex: 8-4-4-4-12 digits, the
/// version digit `4`, and the RFC 4122 variant (`8`, `9`, `a` or `b`)
/// leading the fourth group.
pub open spec fn uuid_v4_text(s: Seq<char>) -> bool {
    &&& s.len() == 36
    &&& forall|k: int|
        0 <= k < 36 ==> if k == 8 || k == 13 || k == 18 || k == 23 {
            #[trigger] s[k] == '-'
        } else {
            ('0' <= s[k] <= '9') || ('a' <= s[k] <= 'f')
        }
    &&& s[14] == '4'
    &&& (s[19] == '8' || s[19] == '9' || s[19] == 'a' || s[19] == 'b')
}

/// `uuid::Uuid::new_v4().to_string()`: a fresh random version-4 UUID in
/// its hyphenated lower-case form. Which UUID comes back is left open.
#[verifier::external_body]
pub(crate) fn new_uuid_v4() -> (s: String)
    ensures
        uuid_v4_text(s@),
{
    uuid::Uuid::new_v4().to_string()
}

#[derive(Debug, Clone, Copy, PartialEq, Eq, Structural)]
pub enum ScriptLang {
    Rust,
    Java,
    Python,
}

#[derive(Debug, Clone)]
pub struct SpriteComponent {
    pub asset_path: String,
    pub data_url: String,
}

#[derive(Debug, Clone)]
pub struct ScriptComponent {
    pub file_path: String,
    pub lang: ScriptLang,
}

#[derive(Debug, Clone, Copy, PartialEq, Eq, Structural)]
pub enum AssetKind {
    Image,
    Script,
    Audio,
    Other,
    Dir,
}

/// One node of the project tree.
#[derive(Debug)]
pub struct Asset {
    pub id: String,
    pub name: String,
    pub path: PathBuf,
    pub kind: AssetKind,
    pub is_dir: bool,
    pub children: Vec<Asset>,
}

#[derive(Debug, Clone, Copy, PartialEq, Eq, Structural)]
pub enum EditorChoice {
    Vscode,
    Jetbrains,
    Custom,
}

#[derive(Debug, Clone, Copy, PartialEq, Eq, Structural)]
pub enum Theme {
    Dark,
    Light,
}

#[derive(Debug, Clone)]
pub struct EditorSettings {
    pub editor: EditorChoice,
    pub custom_path: String,
    pub theme: Theme,
}

impl Default for EditorSettings {
    /// VS Code, no custom path, dark theme.
    fn default() -> (r: Self)
        ensures
            r.editor == EditorChoice::Vscode,
            r.custom_path@.len() == 0,
            r.theme == Theme::Dark,
    {
        EditorSettings { editor: EditorChoice::Vscode, custom_path: String::new(), theme: Theme::Dark }
    }
}

#[derive(Debug, Clone, Copy, PartialEq, Eq, Structural)]
pub enum Tool {
    Select,
    Move,
    Scale,
    Rotate,
}

} // verus!
