//! Which external editor binary opens a script.

use vstd::prelude::*;

use super::model::{EditorChoice, EditorSettings};
use crate::text::{is_blank, white_space};

verus! {

#[derive(Debug, Clone, Copy, PartialEq, Eq, Structural)]
pub enum EditorError {
    /// The custom editor is chosen but its path is empty (or only
    /// whitespace).
    EmptyCustomPath,
}

/// `s` is empty once trimmed of whitespace.
pub open spec fn blank(s: Seq<char>) -> bool {
    forall|k: int| 0 <= k < s.len() ==> white_space(#[trigger] s[k])
}

/// Binary that opens files for `settings`: `code` for VS Code, `idea` for
/// JetBrains, the custom path for a custom editor unless that path is
/// blank, which is an error.
pub fn editor_binary(settings: &EditorSettings) -> (r: Result<String, EditorError>)
    ensures
        settings.editor == EditorChoice::Vscode ==> (r matches Ok(b) && b@ == "code"@),
        settings.editor == EditorChoice::Jetbrains ==> (r matches Ok(b) && b@ == "idea"@),
        settings.editor == EditorChoice::Custom ==> {
            if blank(settings.custom_path@) {
                r == Err::<String, EditorError>(EditorError::EmptyCustomPath)
            } else {
                (r matches Ok(b) && b@ == settings.custom_path@)
            }
        },
{
    match settings.editor {
        EditorChoice::Vscode => {
            let mut b = String::new();
            b.append("code");
            Ok(b)
        },
        EditorChoice::Jetbrains => {
            let mut b = String::new();
            b.append("idea");
            Ok(b)
        },
        EditorChoice::Custom => {
            if is_blank(settings.custom_path.as_str()) {
                Err(EditorError::EmptyCustomPath)
            } else {
                Ok(settings.custom_path.clone())
            }
        },
    }
}

} // verus!
