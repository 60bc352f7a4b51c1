//! What the editor's panels show and do, apart from drawing them: the
//! asset browser's icons and click action, and the play button's label.

use vstd::prelude::*;

use super::model::AssetKind;
use super::session::PlayState;

verus! {

/// Icon shown before an asset in the browser.
pub fn asset_icon(kind: AssetKind) -> (r: &'static str)
    ensures
        kind == AssetKind::Dir ==> r@ == "▸"@,
        kind == AssetKind::Image ==> r@ == "■"@,
        kind == AssetKind::Script ==> r@ == "</>"@,
        kind == AssetKind::Audio ==> r@ == "♪"@,
        kind == AssetKind::Other ==> r@ == "·"@,
{
    match kind {
        AssetKind::Dir => "▸",
        AssetKind::Image => "■",
        AssetKind::Script => "</>",
        AssetKind::Audio => "♪",
        AssetKind::Other => "·",
    }
}

/// What clicking an asset in the browser does.
#[derive(Debug, Clone, Copy, PartialEq, Eq, Structural)]
pub enum AssetClick {
    /// Arm the canvas: its next click places the asset as a new entity.
    PlaceOnCanvas,
    /// Open the file in the configured external editor.
    OpenInEditor,
    /// Nothing happens.
    Ignore,
}

/// Images are placed on the canvas, scripts open in the editor, anything
/// else is ignored.
pub fn asset_click(kind: AssetKind) -> (r: AssetClick)
    ensures
        r == (match kind {
            AssetKind::Image => AssetClick::PlaceOnCanvas,
            AssetKind::Script => AssetClick::OpenInEditor,
            _ => AssetClick::Ignore,
        }),
{
    match kind {
        AssetKind::Image => AssetClick::PlaceOnCanvas,
        AssetKind::Script => AssetClick::OpenInEditor,
        _ => AssetClick::Ignore,
    }
}

/// Label of the play button in each play state.
pub fn play_label(state: PlayState) -> (r: &'static str)
    ensures
        state == PlayState::Playing ==> r@ == "▶ Playing"@,
        state == PlayState::Paused ==> r@ == "▶ Resume"@,
        state == PlayState::Stopped ==> r@ == "▶ Play"@,
{
    match state {
        PlayState::Playing => "▶ Playing",
        PlayState::Paused => "▶ Resume",
        PlayState::Stopped => "▶ Play",
    }
}

} // verus!
