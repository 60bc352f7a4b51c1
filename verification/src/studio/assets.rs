//! Project-asset logic: which directory entries are listed, how a file is
//! classified by its extension, image MIME types and data URLs, and the
//! script stubs the studio writes.

use std::path::{Path, PathBuf};

use base64::Engine as _;

use vstd::prelude::*;

use super::model::AssetKind;
use crate::text::{eq_lower_ascii, lower_ascii_seq, str_eq};

verus! {

/// Directory levels scanned below the project root.
pub const MAX_DEPTH: usize = 8;

/// Entry names the project scan leaves out: dotfiles, `node_modules` and
/// `target`.
pub open spec fn skipped_name(name: Seq<char>) -> bool {
    ||| (name.len() > 0 && name[0] == '.')
    ||| name == "node_modules"@
    ||| name == "target"@
}

/// Whether the project scan leaves the entry `name` out.
pub fn is_skipped(name: &str) -> (r: bool)
    ensures
        r == skipped_name(name@),
{
    if name.unicode_len() > 0 && name.get_char(0) == '.' {
        return true;
    }
    str_eq(name, "node_modules") || str_eq(name, "target")
}

/// Whether a scan at `depth` below the root still reads the directory.
pub fn scans_depth(depth: usize) -> (r: bool)
    ensures
        r == (depth < MAX_DEPTH),
{
    depth < MAX_DEPTH
}

pub open spec fn is_image_ext(e: Seq<char>) -> bool {
    ||| e == "png"@
    ||| e == "jpg"@
    ||| e == "jpeg"@
    ||| e == "gif"@
    ||| e == "bmp"@
    ||| e == "svg"@
    ||| e == "webp"@
}

pub open spec fn is_script_ext(e: Seq<char>) -> bool {
    ||| e == "rs"@
    ||| e == "java"@
    ||| e == "py"@
    ||| e == "js"@
    ||| e == "ts"@
    ||| e == "lua"@
    ||| e == "rhai"@
}

pub open spec fn is_audio_ext(e: Seq<char>) -> bool {
    ||| e == "wav"@
    ||| e == "mp3"@
    ||| e == "ogg"@
    ||| e == "flac"@
    ||| e == "aac"@
}

/// Kind of a file whose (already case-folded) extension is `e`.
pub open spec fn kind_of_ext(e: Seq<char>) -> AssetKind {
    if is_image_ext(e) {
        AssetKind::Image
    } else if is_script_ext(e) {
        AssetKind::Script
    } else if is_audio_ext(e) {
        AssetKind::Audio
    } else {
        AssetKind::Other
    }
}

/// Kind of a project entry: directories are `Dir`; files go by their
/// extension, compared without ASCII case; a file without a (UTF-8)
/// extension is `Other`.
pub open spec fn classified(ext: Option<Seq<char>>, is_dir: bool) -> AssetKind {
    if is_dir {
        AssetKind::Dir
    } else {
        match ext {
            Some(e) => kind_of_ext(lower_ascii_seq(e)),
            None => AssetKind::Other,
        }
    }
}

fn ext_is_image(e: &str) -> (r: bool)
    ensures
        r == is_image_ext(lower_ascii_seq(e@)),
{
    eq_lower_ascii(e, "png") || eq_lower_ascii(e, "jpg") || eq_lower_ascii(e, "jpeg") || eq_lower_ascii(e, "gif")
        || eq_lower_ascii(e, "bmp") || eq_lower_ascii(e, "svg") || eq_lower_ascii(e, "webp")
}

fn ext_is_script(e: &str) -> (r: bool)
    ensures
        r == is_script_ext(lower_ascii_seq(e@)),
{
    eq_lower_ascii(e, "rs") || eq_lower_ascii(e, "java") || eq_lower_ascii(e, "py") || eq_lower_ascii(e, "js")
        || eq_lower_ascii(e, "ts") || eq_lower_ascii(e, "lua") || eq_lower_ascii(e, "rhai")
}

fn ext_is_audio(e: &str) -> (r: bool)
    ensures
        r == is_audio_ext(lower_ascii_seq(e@)),
{
    eq_lower_ascii(e, "wav") || eq_lower_ascii(e, "mp3") || eq_lower_ascii(e, "ogg") || eq_lower_ascii(e, "flac")
        || eq_lower_ascii(e, "aac")
}

/// Classify a project entry from its extension and whether it is a
/// directory.
pub fn classify(ext: Option<&str>, is_dir: bool) -> (r: AssetKind)
    ensures
        r == classified(
            match ext {
                Some(e) => Some(e@),
                None => None,
            },
            is_dir,
        ),
{
    if is_dir {
        return AssetKind::Dir;
    }
    match ext {
        Some(e) => {
            if ext_is_image(e) {
                AssetKind::Image
            } else if ext_is_script(e) {
                AssetKind::Script
            } else if ext_is_audio(e) {
                AssetKind::Audio
            } else {
                AssetKind::Other
            }
        },
        None => AssetKind::Other,
    }
}

/// MIME type the studio gives an image file with extension `ext`
/// (compared without ASCII case).
pub open spec fn mime_of(ext: Option<Seq<char>>) -> Seq<char> {
    match ext {
        Some(e) => {
            let l = lower_ascii_seq(e);
            if l == "png"@ {
                "image/png"@
            } else if l == "jpg"@ || l == "jpeg"@ {
                "image/jpeg"@
            } else if l == "gif"@ {
                "image/gif"@
            } else if l == "svg"@ {
                "image/svg+xml"@
            } else if l == "webp"@ {
                "image/webp"@
            } else if l == "bmp"@ {
                "image/bmp"@
            } else {
                "application/octet-stream"@
            }
        },
        None => "application/octet-stream"@,
    }
}

pub(crate) proof fn lemma_extension_names_differ()
    ensures
        "png"@ != "jpg"@,
        "png"@ != "jpeg"@,
        "png"@ != "gif"@,
        "png"@ != "bmp"@,
        "png"@ != "svg"@,
        "png"@ != "webp"@,
        "png"@ != "rs"@,
        "png"@ != "java"@,
        "png"@ != "py"@,
        "png"@ != "js"@,
        "png"@ != "ts"@,
        "png"@ != "lua"@,
        "png"@ != "rhai"@,
        "png"@ != "wav"@,
        "png"@ != "mp3"@,
        "png"@ != "ogg"@,
        "png"@ != "flac"@,
        "png"@ != "aac"@,
        "jpg"@ != "jpeg"@,
        "jpg"@ != "gif"@,
        "jpg"@ != "bmp"@,
        "jpg"@ != "svg"@,
        "jpg"@ != "webp"@,
        "jpg"@ != "rs"@,
        "jpg"@ != "java"@,
        "jpg"@ != "py"@,
        "jpg"@ != "js"@,
        "jpg"@ != "ts"@,
        "jpg"@ != "lua"@,
        "jpg"@ != "rhai"@,
        "jpg"@ != "wav"@,
        "jpg"@ != "mp3"@,
        "jpg"@ != "ogg"@,
        "jpg"@ != "flac"@,
        "jpg"@ != "aac"@,
        "jpeg"@ != "gif"@,
        "jpeg"@ != "bmp"@,
        "jpeg"@ != "svg"@,
        "jpeg"@ != "webp"@,
        "jpeg"@ != "rs"@,
        "jpeg"@ != "java"@,
        "jpeg"@ != "py"@,
        "jpeg"@ != "js"@,
        "jpeg"@ != "ts"@,
        "jpeg"@ != "lua"@,
        "jpeg"@ != "rhai"@,
        "jpeg"@ != "wav"@,
        "jpeg"@ != "mp3"@,
        "jpeg"@ != "ogg"@,
        "jpeg"@ != "flac"@,
        "jpeg"@ != "aac"@,
        "gif"@ != "bmp"@,
        "gif"@ != "svg"@,
        "gif"@ != "webp"@,
        "gif"@ != "rs"@,
        "gif"@ != "java"@,
        "gif"@ != "py"@,
        "gif"@ != "js"@,
        "gif"@ != "ts"@,
        "gif"@ != "lua"@,
        "gif"@ != "rhai"@,
        "gif"@ != "wav"@,
        "gif"@ != "mp3"@,
        "gif"@ != "ogg"@,
        "gif"@ != "flac"@,
        "gif"@ != "aac"@,
        "bmp"@ != "svg"@,
        "bmp"@ != "webp"@,
        "bmp"@ != "rs"@,
        "bmp"@ != "java"@,
        "bmp"@ != "py"@,
        "bmp"@ != "js"@,
        "bmp"@ != "ts"@,
        "bmp"@ != "lua"@,
        "bmp"@ != "rhai"@,
        "bmp"@ != "wav"@,
        "bmp"@ != "mp3"@,
        "bmp"@ != "ogg"@,
        "bmp"@ != "flac"@,
        "bmp"@ != "aac"@,
        "svg"@ != "webp"@,
        "svg"@ != "rs"@,
        "svg"@ != "java"@,
        "svg"@ != "py"@,
        "svg"@ != "js"@,
        "svg"@ != "ts"@,
        "svg"@ != "lua"@,
        "svg"@ != "rhai"@,
        "svg"@ != "wav"@,
        "svg"@ != "mp3"@,
        "svg"@ != "ogg"@,
        "svg"@ != "flac"@,
        "svg"@ != "aac"@,
        "webp"@ != "rs"@,
        "webp"@ != "java"@,
        "webp"@ != "py"@,
        "webp"@ != "js"@,
        "webp"@ != "ts"@,
        "webp"@ != "lua"@,
        "webp"@ != "rhai"@,
        "webp"@ != "wav"@,
        "webp"@ != "mp3"@,
        "webp"@ != "ogg"@,
        "webp"@ != "flac"@,
        "webp"@ != "aac"@,
        "rs"@ != "java"@,
        "rs"@ != "py"@,
        "rs"@ != "js"@,
        "rs"@ != "ts"@,
        "rs"@ != "lua"@,
        "rs"@ != "rhai"@,
        "rs"@ != "wav"@,
        "rs"@ != "mp3"@,
        "rs"@ != "ogg"@,
        "rs"@ != "flac"@,
        "rs"@ != "aac"@,
        "java"@ != "py"@,
        "java"@ != "js"@,
        "java"@ != "ts"@,
        "java"@ != "lua"@,
        "java"@ != "rhai"@,
        "java"@ != "wav"@,
        "java"@ != "mp3"@,
        "java"@ != "ogg"@,
        "java"@ != "flac"@,
        "java"@ != "aac"@,
        "py"@ != "js"@,
        "py"@ != "ts"@,
        "py"@ != "lua"@,
        "py"@ != "rhai"@,
        "py"@ != "wav"@,
        "py"@ != "mp3"@,
        "py"@ != "ogg"@,
        "py"@ != "flac"@,
        "py"@ != "aac"@,
        "js"@ != "ts"@,
        "js"@ != "lua"@,
        "js"@ != "rhai"@,
        "js"@ != "wav"@,
        "js"@ != "mp3"@,
        "js"@ != "ogg"@,
        "js"@ != "flac"@,
        "js"@ != "aac"@,
        "ts"@ != "lua"@,
        "ts"@ != "rhai"@,
        "ts"@ != "wav"@,
        "ts"@ != "mp3"@,
        "ts"@ != "ogg"@,
        "ts"@ != "flac"@,
        "ts"@ != "aac"@,
        "lua"@ != "rhai"@,
        "lua"@ != "wav"@,
        "lua"@ != "mp3"@,
        "lua"@ != "ogg"@,
        "lua"@ != "flac"@,
        "lua"@ != "aac"@,
        "rhai"@ != "wav"@,
        "rhai"@ != "mp3"@,
        "rhai"@ != "ogg"@,
        "rhai"@ != "flac"@,
        "rhai"@ != "aac"@,
        "wav"@ != "mp3"@,
        "wav"@ != "ogg"@,
        "wav"@ != "flac"@,
        "wav"@ != "aac"@,
        "mp3"@ != "ogg"@,
        "mp3"@ != "flac"@,
        "mp3"@ != "aac"@,
        "ogg"@ != "flac"@,
        "ogg"@ != "aac"@,
        "flac"@ != "aac"@,
{
    reveal_strlit("png");
    reveal_strlit("jpg");
    reveal_strlit("jpeg");
    reveal_strlit("gif");
    reveal_strlit("bmp");
    reveal_strlit("svg");
    reveal_strlit("webp");
    reveal_strlit("rs");
    reveal_strlit("java");
    reveal_strlit("py");
    reveal_strlit("js");
    reveal_strlit("ts");
    reveal_strlit("lua");
    reveal_strlit("rhai");
    reveal_strlit("wav");
    reveal_strlit("mp3");
    reveal_strlit("ogg");
    reveal_strlit("flac");
    reveal_strlit("aac");
    assert("png"@.len() == 3);
    assert("jpg"@.len() == 3);
    assert("jpeg"@.len() == 4);
    assert("gif"@.len() == 3);
    assert("bmp"@.len() == 3);
    assert("svg"@.len() == 3);
    assert("webp"@.len() == 4);
    assert("rs"@.len() == 2);
    assert("java"@.len() == 4);
    assert("py"@.len() == 2);
    assert("js"@.len() == 2);
    assert("ts"@.len() == 2);
    assert("lua"@.len() == 3);
    assert("rhai"@.len() == 4);
    assert("wav"@.len() == 3);
    assert("mp3"@.len() == 3);
    assert("ogg"@.len() == 3);
    assert("flac"@.len() == 4);
    assert("aac"@.len() == 3);
    assert("png"@[0] != "jpg"@[0]);
    assert("png"@[0] != "gif"@[0]);
    assert("png"@[0] != "bmp"@[0]);
    assert("png"@[0] != "svg"@[0]);
    assert("png"@[0] != "lua"@[0]);
    assert("png"@[0] != "wav"@[0]);
    assert("png"@[0] != "mp3"@[0]);
    assert("png"@[0] != "ogg"@[0]);
    assert("png"@[0] != "aac"@[0]);
    assert("jpg"@[0] != "gif"@[0]);
    assert("jpg"@[0] != "bmp"@[0]);
    assert("jpg"@[0] != "svg"@[0]);
    assert("jpg"@[0] != "lua"@[0]);
    assert("jpg"@[0] != "wav"@[0]);
    assert("jpg"@[0] != "mp3"@[0]);
    assert("jpg"@[0] != "ogg"@[0]);
    assert("jpg"@[0] != "aac"@[0]);
    assert("jpeg"@[0] != "webp"@[0]);
    assert("jpeg"@[1] != "java"@[1]);
    assert("jpeg"@[0] != "rhai"@[0]);
    assert("jpeg"@[0] != "flac"@[0]);
    assert("gif"@[0] != "bmp"@[0]);
    assert("gif"@[0] != "svg"@[0]);
    assert("gif"@[0] != "lua"@[0]);
    assert("gif"@[0] != "wav"@[0]);
    assert("gif"@[0] != "mp3"@[0]);
    assert("gif"@[0] != "ogg"@[0]);
    assert("gif"@[0] != "aac"@[0]);
    assert("bmp"@[0] != "svg"@[0]);
    assert("bmp"@[0] != "lua"@[0]);
    assert("bmp"@[0] != "wav"@[0]);
    assert("bmp"@[0] != "mp3"@[0]);
    assert("bmp"@[0] != "ogg"@[0]);
    assert("bmp"@[0] != "aac"@[0]);
    assert("svg"@[0] != "lua"@[0]);
    assert("svg"@[0] != "wav"@[0]);
    assert("svg"@[0] != "mp3"@[0]);
    assert("svg"@[0] != "ogg"@[0]);
    assert("svg"@[0] != "aac"@[0]);
    assert("webp"@[0] != "java"@[0]);
    assert("webp"@[0] != "rhai"@[0]);
    assert("webp"@[0] != "flac"@[0]);
    assert("rs"@[0] != "py"@[0]);
    assert("rs"@[0] != "js"@[0]);
    assert("rs"@[0] != "ts"@[0]);
    assert("java"@[0] != "rhai"@[0]);
    assert("java"@[0] != "flac"@[0]);
    assert("py"@[0] != "js"@[0]);
    assert("py"@[0] != "ts"@[0]);
    assert("js"@[0] != "ts"@[0]);
    assert("lua"@[0] != "wav"@[0]);
    assert("lua"@[0] != "mp3"@[0]);
    assert("lua"@[0] != "ogg"@[0]);
    assert("lua"@[0] != "aac"@[0]);
    assert("rhai"@[0] != "flac"@[0]);
    assert("wav"@[0] != "mp3"@[0]);
    assert("wav"@[0] != "ogg"@[0]);
    assert("wav"@[0] != "aac"@[0]);
    assert("mp3"@[0] != "ogg"@[0]);
    assert("mp3"@[0] != "aac"@[0]);
    assert("ogg"@[0] != "aac"@[0]);
}

/// Files are classified by their extension in any ASCII case: the image
/// extensions png, jpg, jpeg, gif, bmp, svg and webp are images; the script
/// extensions rs, java, py, js, ts, lua and rhai are scripts; the audio
/// extensions wav, mp3, ogg, flac and aac are audio.
pub proof fn lemma_kinds_by_extension(e: Seq<char>)
    ensures
        lower_ascii_seq(e) == "png"@ || lower_ascii_seq(e) == "jpg"@ || lower_ascii_seq(e) == "jpeg"@ || lower_ascii_seq(e) == "gif"@ || lower_ascii_seq(e) == "bmp"@ || lower_ascii_seq(e) == "svg"@ || lower_ascii_seq(e) == "webp"@ ==> classified(Some(e), false) == AssetKind::Image,
        lower_ascii_seq(e) == "rs"@ || lower_ascii_seq(e) == "java"@ || lower_ascii_seq(e) == "py"@ || lower_ascii_seq(e) == "js"@ || lower_ascii_seq(e) == "ts"@ || lower_ascii_seq(e) == "lua"@ || lower_ascii_seq(e) == "rhai"@ ==> classified(Some(e), false) == AssetKind::Script,
        lower_ascii_seq(e) == "wav"@ || lower_ascii_seq(e) == "mp3"@ || lower_ascii_seq(e) == "ogg"@ || lower_ascii_seq(e) == "flac"@ || lower_ascii_seq(e) == "aac"@ ==> classified(Some(e), false) == AssetKind::Audio,
        classified(Some(e), true) == AssetKind::Dir,
{
    lemma_extension_names_differ();
    reveal_strlit("png");
    reveal_strlit("jpg");
    reveal_strlit("jpeg");
    reveal_strlit("gif");
    reveal_strlit("bmp");
    reveal_strlit("svg");
    reveal_strlit("webp");
    reveal_strlit("rs");
    reveal_strlit("java");
    reveal_strlit("py");
    reveal_strlit("js");
    reveal_strlit("ts");
    reveal_strlit("lua");
    reveal_strlit("rhai");
    reveal_strlit("wav");
    reveal_strlit("mp3");
    reveal_strlit("ogg");
    reveal_strlit("flac");
    reveal_strlit("aac");
}

/// Every file classified as an image gets an image MIME type (one that
/// starts with `image/`), and each image extension, in any ASCII case, gets
/// its own type.
pub proof fn lemma_images_get_image_mime(e: Seq<char>)
    ensures
        classified(Some(e), false) == AssetKind::Image ==> mime_of(Some(e)).len() > 6
            && mime_of(Some(e)).subrange(0, 6) == "image/"@,
        lower_ascii_seq(e) == "png"@ ==> mime_of(Some(e)) == "image/png"@,
        lower_ascii_seq(e) == "jpg"@ ==> mime_of(Some(e)) == "image/jpeg"@,
        lower_ascii_seq(e) == "jpeg"@ ==> mime_of(Some(e)) == "image/jpeg"@,
        lower_ascii_seq(e) == "gif"@ ==> mime_of(Some(e)) == "image/gif"@,
        lower_ascii_seq(e) == "bmp"@ ==> mime_of(Some(e)) == "image/bmp"@,
        lower_ascii_seq(e) == "svg"@ ==> mime_of(Some(e)) == "image/svg+xml"@,
        lower_ascii_seq(e) == "webp"@ ==> mime_of(Some(e)) == "image/webp"@,
{
    reveal_strlit("png");
    reveal_strlit("jpg");
    reveal_strlit("jpeg");
    reveal_strlit("gif");
    reveal_strlit("bmp");
    reveal_strlit("svg");
    reveal_strlit("webp");
    reveal_strlit("rs");
    reveal_strlit("java");
    reveal_strlit("py");
    reveal_strlit("js");
    reveal_strlit("ts");
    reveal_strlit("lua");
    reveal_strlit("rhai");
    reveal_strlit("wav");
    reveal_strlit("mp3");
    reveal_strlit("ogg");
    reveal_strlit("flac");
    reveal_strlit("aac");
    reveal_strlit("application/octet-stream");
    reveal_strlit("image/");
    reveal_strlit("image/bmp");
    reveal_strlit("image/gif");
    reveal_strlit("image/jpeg");
    reveal_strlit("image/png");
    reveal_strlit("image/svg+xml");
    reveal_strlit("image/webp");
    lemma_extension_names_differ();
    if classified(Some(e), false) == AssetKind::Image {
        let m = mime_of(Some(e));
        assert(m.subrange(0, 6) =~= "image/"@);
    }
}

pub fn mime_for_extension(ext: Option<&str>) -> (r: &'static str)
    ensures
        r@ == mime_of(
            match ext {
                Some(e) => Some(e@),
                None => None,
            },
        ),
{
    match ext {
        Some(e) => {
            if eq_lower_ascii(e, "png") {
                "image/png"
            } else if eq_lower_ascii(e, "jpg") || eq_lower_ascii(e, "jpeg") {
                "image/jpeg"
            } else if eq_lower_ascii(e, "gif") {
                "image/gif"
            } else if eq_lower_ascii(e, "svg") {
                "image/svg+xml"
            } else if eq_lower_ascii(e, "webp") {
                "image/webp"
            } else if eq_lower_ascii(e, "bmp") {
                "image/bmp"
            } else {
                "application/octet-stream"
            }
        },
        None => "application/octet-stream",
    }
}

/// Character of the standard base64 alphabet (`A-Z a-z 0-9 + /`) for the
/// six-bit value `v`.
pub open spec fn b64_char(v: int) -> char {
    if v < 26 {
        ('A' as int + v) as char
    } else if v < 52 {
        ('a' as int + (v - 26)) as char
    } else if v < 62 {
        ('0' as int + (v - 52)) as char
    } else if v == 62 {
        '+'
    } else {
        '/'
    }
}

/// Padded standard base64 of `bytes`: every group of three bytes becomes
/// four alphabet characters, six bits at a time from the high end; a last
/// group of one or two bytes is filled with zero bits and padded with `=`
/// to four characters.
pub open spec fn base64_standard(bytes: Seq<u8>) -> Seq<char>
    decreases bytes.len(),
{
    if bytes.len() == 0 {
        Seq::empty()
    } else if bytes.len() == 1 {
        let b0 = bytes[0] as int;
        seq![b64_char(b0 / 4), b64_char((b0 % 4) * 16), '=', '=']
    } else if bytes.len() == 2 {
        let b0 = bytes[0] as int;
        let b1 = bytes[1] as int;
        seq![b64_char(b0 / 4), b64_char((b0 % 4) * 16 + b1 / 16), b64_char((b1 % 16) * 4), '=']
    } else {
        let b0 = bytes[0] as int;
        let b1 = bytes[1] as int;
        let b2 = bytes[2] as int;
        seq![
            b64_char(b0 / 4),
            b64_char((b0 % 4) * 16 + b1 / 16),
            b64_char((b1 % 16) * 4 + b2 / 64),
            b64_char(b2 % 64),
        ] + base64_standard(bytes.subrange(3, bytes.len() as int))
    }
}

/// `base64::engine::general_purpose::STANDARD.encode`: the padded standard
/// encoding of `bytes`. The crate panics when the encoded length,
/// four characters per started group of three bytes, overflows `usize`,
/// which `requires` rules out.
#[verifier::external_body]
fn base64_encode(bytes: &[u8]) -> (r: String)
    requires
        4 * ((bytes@.len() + 2) / 3) <= usize::MAX,
    ensures
        r@ == base64_standard(bytes@),
{
    base64::engine::general_purpose::STANDARD.encode(bytes)
}

/// `data:` URL of an image with MIME type `mime` and contents `bytes`.
pub open spec fn data_url_of(mime: Seq<char>, bytes: Seq<u8>) -> Seq<char> {
    "data:"@ + mime + ";base64,"@ + base64_standard(bytes)
}

/// A `data:` URL from a MIME type and the already base64-encoded
/// contents.
pub fn data_url_from(mime: &str, encoded: &str) -> (r: String)
    ensures
        r@ == "data:"@ + mime@ + ";base64,"@ + encoded@,
{
    let mut out = String::new();
    out.append("data:");
    out.append(mime);
    out.append(";base64,");
    out.append(encoded);
    proof {
        assert(Seq::<char>::empty() + "data:"@ =~= "data:"@);
    }
    out
}

/// Inline an image as a base64 `data:` URL.
pub fn data_url(mime: &str, bytes: &[u8]) -> (r: String)
    requires
        4 * ((bytes@.len() + 2) / 3) <= usize::MAX,
    ensures
        r@ == data_url_of(mime@, bytes@),
{
    let encoded = base64_encode(bytes);
    data_url_from(mime, encoded.as_str())
}

pub const RUST_TEMPLATE: &'static str = "// NeuDel-II Rust script\n\npub fn init() {}\n\npub fn update(dt: f32) {\n    let _ = dt;\n}\n";

pub const JAVA_TEMPLATE: &'static str = "// NeuDel-II Java script\n\npublic class Script {\n    public static void init() {}\n    public static void update(float dt) {}\n}\n";

pub const PYTHON_TEMPLATE: &'static str = "# NeuDel-II Python script\n\ndef init():\n    pass\n\ndef update(dt):\n    pass\n";

/// Boilerplate for a new script in `lang` ("rust", "java" or "python");
/// `None` for any other language name.
pub fn script_template(lang: &str) -> (r: Option<&'static str>)
    ensures
        lang@ == "rust"@ ==> r == Some(RUST_TEMPLATE),
        lang@ == "java"@ ==> r == Some(JAVA_TEMPLATE),
        lang@ == "python"@ ==> r == Some(PYTHON_TEMPLATE),
        r.is_none() == (lang@ != "rust"@ && lang@ != "java"@ && lang@ != "python"@),
{
    proof {
        reveal_strlit("rust");
        reveal_strlit("java");
        reveal_strlit("python");
        assert("rust"@[0] != "java"@[0]);
        assert("rust"@ != "python"@);
        assert("java"@ != "python"@);
    }
    if str_eq(lang, "rust") {
        Some(RUST_TEMPLATE)
    } else if str_eq(lang, "java") {
        Some(JAVA_TEMPLATE)
    } else if str_eq(lang, "python") {
        Some(PYTHON_TEMPLATE)
    } else {
        None
    }
}

/// What `Path::to_path_buf` returns for `p`: an owned copy of the path.
pub uninterp spec fn path_copy(p: &Path) -> PathBuf;

/// `Path::to_path_buf`: an owned copy of `p`.
#[verifier::external_body]
fn to_path_buf(p: &Path) -> (r: PathBuf)
    ensures
        r == path_copy(p),
{
    p.to_path_buf()
}

/// What `Path::is_absolute` answers for `p`. Which paths count as
/// absolute is fixed by the compile target (a root on Unix, a prefix and a
/// root on Windows), so within one build it depends on `p` alone.
pub uninterp spec fn absolute_path(p: &Path) -> bool;

/// `Path::is_absolute`.
#[verifier::external_body]
fn path_is_absolute(p: &Path) -> (r: bool)
    ensures
        r == absolute_path(p),
{
    p.is_absolute()
}

/// What `PathBuf::join` returns for `root` and `p`: `p` appended to
/// `root` with the target's separator, or `p` itself when it is absolute.
/// The separator is fixed by the compile target, so within one build the
/// result depends on `root` and `p` alone.
pub uninterp spec fn joined_path(root: &PathBuf, p: &Path) -> PathBuf;

/// `PathBuf::join`.
#[verifier::external_body]
fn path_join(root: &PathBuf, p: &Path) -> (r: PathBuf)
    ensures
        r == joined_path(root, p),
{
    root.join(p)
}

/// `path` resolved against the project root, given whether `path` is
/// absolute: absolute paths, and any path when there is no root, are kept
/// as they are; a relative path with a root is joined onto it.
pub open spec fn resolved(absolute: bool, root: Option<&PathBuf>, path: &Path) -> PathBuf {
    if absolute || root.is_none() {
        path_copy(path)
    } else {
        joined_path(root.unwrap(), path)
    }
}

/// Resolve `path` against the project root given whether `path` is
/// absolute: absolute paths, and any path when there is no root, are kept
/// as they are; a relative path with a root is joined onto it.
pub fn resolve_with(absolute: bool, root: Option<&PathBuf>, path: &Path) -> (r: PathBuf)
    ensures
        r == resolved(absolute, root, path),
{
    if absolute {
        to_path_buf(path)
    } else {
        match root {
            Some(r) => path_join(r, path),
            None => to_path_buf(path),
        }
    }
}

/// Resolve a possibly-relative path against the project root.
pub fn resolve(root: Option<&PathBuf>, path: &Path) -> (r: PathBuf)
    ensures
        r == resolved(absolute_path(path), root, path),
{
    let absolute = path_is_absolute(path);
    resolve_with(absolute, root, path)
}

} // verus!
