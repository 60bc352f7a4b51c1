//! Logic of the studio's command backend (the desktop-shell edition):
//! editor choice from settings strings, extension kinds, path-derived
//! asset ids, script stubs and image MIME types.

use std::collections::hash_map::DefaultHasher;
use std::hash::{Hash, Hasher};

use vstd::prelude::*;
use vstd::std_specs::hash::DefaultHasherAdditionalSpecFns;

use super::assets::{classified, is_audio_ext, is_image_ext, is_script_ext, lemma_extension_names_differ, mime_of};
use super::model::AssetKind;
use crate::text::lower_ascii_seq;
use super::tree::{to_lowercase, unicode_lowercase};
use crate::text::str_eq;

verus! {

/// One node of the project tree, as the command backend reports it.
#[derive(Debug)]
pub struct Asset {
    pub id: String,
    pub name: String,
    pub path: String,
    pub kind: String,
    pub is_dir: bool,
    pub children: Vec<Asset>,
}

#[derive(Debug, Clone)]
pub struct EditorSettings {
    pub editor: String,
    pub custom_path: String,
    pub theme: String,
}

fn owned(s: &str) -> (r: String)
    ensures
        r@ == s@,
{
    let mut r = String::new();
    r.append(s);
    proof {
        assert(Seq::<char>::empty() + s@ =~= s@);
    }
    r
}

impl Default for EditorSettings {
    /// VS Code, no custom path, dark theme.
    fn default() -> (r: Self)
        ensures
            r.editor@ == "vscode"@,
            r.custom_path@.len() == 0,
            r.theme@ == "dark"@,
    {
        EditorSettings { editor: owned("vscode"), custom_path: String::new(), theme: owned("dark") }
    }
}

/// Binary for the editor setting `editor`: "vscode" opens with `code`,
/// "jetbrains" with `idea`, "custom" with the custom path when that is not
/// empty; anything else falls back to `code`.
pub open spec fn binary_for(editor: Seq<char>, custom_path: Seq<char>) -> Seq<char> {
    if editor == "vscode"@ {
        "code"@
    } else if editor == "jetbrains"@ {
        "idea"@
    } else if editor == "custom"@ && custom_path.len() > 0 {
        custom_path
    } else {
        "code"@
    }
}

pub fn editor_binary(editor: &str, custom_path: &str) -> (r: String)
    ensures
        r@ == binary_for(editor@, custom_path@),
{
    if str_eq(editor, "vscode") {
        owned("code")
    } else if str_eq(editor, "jetbrains") {
        owned("idea")
    } else if str_eq(editor, "custom") && custom_path.unicode_len() > 0 {
        owned(custom_path)
    } else {
        owned("code")
    }
}

/// Binary that opens a file: a non-empty override wins over the settings.
pub fn choose_binary(editor_override: Option<String>, settings: &EditorSettings) -> (r: String)
    ensures
        r@ == match editor_override {
            Some(o) => if o@.len() > 0 {
                o@
            } else {
                binary_for(settings.editor@, settings.custom_path@)
            },
            None => binary_for(settings.editor@, settings.custom_path@),
        },
{
    match editor_override {
        Some(o) => {
            if o.as_str().unicode_len() > 0 {
                o
            } else {
                editor_binary(settings.editor.as_str(), settings.custom_path.as_str())
            }
        },
        None => editor_binary(settings.editor.as_str(), settings.custom_path.as_str()),
    }
}

/// Kind name of a file with the (already lower-cased) extension `ext`.
pub open spec fn ext_kind_of(ext: Seq<char>) -> Seq<char> {
    if is_image_ext(ext) {
        "image"@
    } else if is_script_ext(ext) {
        "script"@
    } else if is_audio_ext(ext) {
        "audio"@
    } else {
        "other"@
    }
}

fn one_of_image(e: &str) -> (r: bool)
    ensures
        r == is_image_ext(e@),
{
    str_eq(e, "png") || str_eq(e, "jpg") || str_eq(e, "jpeg") || str_eq(e, "gif") || str_eq(e, "bmp") || str_eq(
        e,
        "svg",
    ) || str_eq(e, "webp")
}

fn one_of_script(e: &str) -> (r: bool)
    ensures
        r == is_script_ext(e@),
{
    str_eq(e, "rs") || str_eq(e, "java") || str_eq(e, "py") || str_eq(e, "js") || str_eq(e, "ts") || str_eq(
        e,
        "lua",
    ) || str_eq(e, "rhai")
}

fn one_of_audio(e: &str) -> (r: bool)
    ensures
        r == is_audio_ext(e@),
{
    str_eq(e, "wav") || str_eq(e, "mp3") || str_eq(e, "ogg") || str_eq(e, "flac") || str_eq(e, "aac")
}

pub fn ext_kind(ext: &str) -> (r: &'static str)
    ensures
        r@ == ext_kind_of(ext@),
{
    if one_of_image(ext) {
        "image"
    } else if one_of_script(ext) {
        "script"
    } else if one_of_audio(ext) {
        "audio"
    } else {
        "other"
    }
}

/// MIME type of an image with the (already lower-cased) extension `ext`;
/// unknown extensions are taken for PNG.
pub open spec fn image_mime_of(ext: Seq<char>) -> Seq<char> {
    if ext == "jpg"@ || ext == "jpeg"@ {
        "image/jpeg"@
    } else if ext == "gif"@ {
        "image/gif"@
    } else if ext == "svg"@ {
        "image/svg+xml"@
    } else if ext == "webp"@ {
        "image/webp"@
    } else if ext == "bmp"@ {
        "image/bmp"@
    } else {
        "image/png"@
    }
}

pub fn image_mime(ext: &str) -> (r: &'static str)
    ensures
        r@ == image_mime_of(ext@),
{
    if str_eq(ext, "jpg") || str_eq(ext, "jpeg") {
        "image/jpeg"
    } else if str_eq(ext, "gif") {
        "image/gif"
    } else if str_eq(ext, "svg") {
        "image/svg+xml"
    } else if str_eq(ext, "webp") {
        "image/webp"
    } else if str_eq(ext, "bmp") {
        "image/bmp"
    } else {
        "image/png"
    }
}

pub const RUST_STUB: &'static str = "// NeuDel-II Rust script\n\npub fn init() {}\n\npub fn update(_delta: f32) {}\n";

pub const JAVA_STUB: &'static str = "// NeuDel-II Java script\n\npublic class Script {\n    public void init() {}\n    public void update(float delta) {}\n}\n";

pub const PYTHON_STUB: &'static str = "# NeuDel-II Python script\n\ndef init(): pass\n\ndef update(delta: float): pass\n";

/// Stub for a new script in `lang` ("rust", "java" or "python"); `None`
/// for an unknown language.
pub fn script_stub(lang: &str) -> (r: Option<&'static str>)
    ensures
        lang@ == "rust"@ ==> r == Some(RUST_STUB),
        lang@ == "java"@ ==> r == Some(JAVA_STUB),
        lang@ == "python"@ ==> r == Some(PYTHON_STUB),
        r.is_none() == (lang@ != "rust"@ && lang@ != "java"@ && lang@ != "python"@),
{
    proof {
        reveal_strlit("rust");
        reveal_strlit("java");
        reveal_strlit("python");
        assert("rust"@[0] != "java"@[0]);
        assert("rust"@ != "python"@);
        assert("java"@ != "python"@);
    }
    if str_eq(lang, "rust") {
        Some(RUST_STUB)
    } else if str_eq(lang, "java") {
        Some(JAVA_STUB)
    } else if str_eq(lang, "python") {
        Some(PYTHON_STUB)
    } else {
        None
    }
}

/// The command backend names each listed extension's kind: the image
/// extensions are "image", the script extensions (rs, java, py, js, ts,
/// lua, rhai) are "script", the audio extensions are "audio"; and for an
/// extension already in lower case the name agrees with the studio's
/// classification.
pub proof fn lemma_command_kinds(e: Seq<char>)
    ensures
        ext_kind_of("png"@) == "image"@,
        ext_kind_of("jpg"@) == "image"@,
        ext_kind_of("jpeg"@) == "image"@,
        ext_kind_of("gif"@) == "image"@,
        ext_kind_of("bmp"@) == "image"@,
        ext_kind_of("svg"@) == "image"@,
        ext_kind_of("webp"@) == "image"@,
        ext_kind_of("rs"@) == "script"@,
        ext_kind_of("java"@) == "script"@,
        ext_kind_of("py"@) == "script"@,
        ext_kind_of("js"@) == "script"@,
        ext_kind_of("ts"@) == "script"@,
        ext_kind_of("lua"@) == "script"@,
        ext_kind_of("rhai"@) == "script"@,
        ext_kind_of("wav"@) == "audio"@,
        ext_kind_of("mp3"@) == "audio"@,
        ext_kind_of("ogg"@) == "audio"@,
        ext_kind_of("flac"@) == "audio"@,
        ext_kind_of("aac"@) == "audio"@,
        lower_ascii_seq(e) == e ==> (ext_kind_of(e) == "image"@ <==> classified(Some(e), false) == AssetKind::Image),
        lower_ascii_seq(e) == e ==> (ext_kind_of(e) == "script"@ <==> classified(Some(e), false) == AssetKind::Script),
        lower_ascii_seq(e) == e ==> (ext_kind_of(e) == "audio"@ <==> classified(Some(e), false) == AssetKind::Audio),
{
    lemma_extension_names_differ();
    reveal_strlit("image");
    reveal_strlit("script");
    reveal_strlit("audio");
    reveal_strlit("other");
    reveal_strlit("image/png");
    reveal_strlit("image/jpeg");
    reveal_strlit("image/gif");
    reveal_strlit("image/bmp");
    reveal_strlit("image/svg+xml");
    reveal_strlit("image/webp");
    reveal_strlit("image/");
    assert("image"@.len() == 5 && "audio"@.len() == 5 && "other"@.len() == 5 && "script"@.len() == 6);
    assert("image"@[0] != "audio"@[0] && "image"@[0] != "other"@[0] && "audio"@[0] != "other"@[0]);
}

/// Every image gets an image MIME type from the command backend (one that
/// starts with `image/`), each image extension its own, the same one the
/// studio gives it.
pub proof fn lemma_command_image_mimes(e: Seq<char>)
    ensures
        image_mime_of(e).len() > 6 && image_mime_of(e).subrange(0, 6) == "image/"@,
        image_mime_of("png"@) == "image/png"@,
        image_mime_of("jpg"@) == "image/jpeg"@,
        image_mime_of("jpeg"@) == "image/jpeg"@,
        image_mime_of("gif"@) == "image/gif"@,
        image_mime_of("bmp"@) == "image/bmp"@,
        image_mime_of("svg"@) == "image/svg+xml"@,
        image_mime_of("webp"@) == "image/webp"@,
        lower_ascii_seq(e) == e && is_image_ext(e) ==> image_mime_of(e) == mime_of(Some(e)),
{
    lemma_extension_names_differ();
    reveal_strlit("image");
    reveal_strlit("script");
    reveal_strlit("audio");
    reveal_strlit("other");
    reveal_strlit("image/png");
    reveal_strlit("image/jpeg");
    reveal_strlit("image/gif");
    reveal_strlit("image/bmp");
    reveal_strlit("image/svg+xml");
    reveal_strlit("image/webp");
    reveal_strlit("image/");
    assert(image_mime_of(e).subrange(0, 6) =~= "image/"@);
}

/// Deepest directory level the command backend's scan reads; the root is
/// level 0.
pub const COMMAND_MAX_DEPTH: u32 = 8;

/// Whether the command backend's scan reads a directory at `depth`.
pub fn command_scans_depth(depth: u32) -> (r: bool)
    ensures
        r == (depth <= COMMAND_MAX_DEPTH),
{
    depth <= COMMAND_MAX_DEPTH
}

/// Kind of a scanned entry: `"dir"` for a directory, otherwise the kind of
/// its extension (empty when it has none) after `str::to_lowercase`.
pub fn entry_kind(is_dir: bool, ext: Option<&str>) -> (r: &'static str)
    ensures
        is_dir ==> r@ == "dir"@,
        !is_dir ==> r@ == ext_kind_of(
            unicode_lowercase(
                match ext {
                    Some(e) => e@,
                    None => ""@,
                },
            ),
        ),
{
    if is_dir {
        return "dir";
    }
    let e = match ext {
        Some(e) => e,
        None => "",
    };
    let lowered = to_lowercase(e);
    ext_kind(lowered.as_str())
}

/// MIME type of an image from its extension after `str::to_lowercase`,
/// taken as `"png"` when the path has none.
pub fn image_mime_for(ext: Option<&str>) -> (r: &'static str)
    ensures
        r@ == image_mime_of(
            unicode_lowercase(
                match ext {
                    Some(e) => e@,
                    None => "png"@,
                },
            ),
        ),
{
    let e = match ext {
        Some(e) => e,
        None => "png",
    };
    let lowered = to_lowercase(e);
    image_mime(lowered.as_str())
}

/// The writes a `DefaultHasher` has seen (its view) after `<str as Hash>::hash`
/// of a string `s` into a hasher that had seen `before`.
pub uninterp spec fn str_hash_writes(before: Seq<Seq<u8>>, s: Seq<char>) -> Seq<Seq<u8>>;

/// `<str as Hash>::hash`: feed `s` into the hasher. What the hasher has
/// seen afterwards depends on what it had seen before and on `s` alone;
/// which bytes `str` feeds in is std's and is left unstated.
#[verifier::external_body]
fn hash_str_into(s: &str, h: &mut DefaultHasher)
    ensures
        final(h)@ == str_hash_writes(old(h)@, s@),
{
    s.hash(h);
}

/// What a fresh `DefaultHasher` finishes with after hashing the string `s`.
pub open spec fn default_hash_str(s: Seq<char>) -> u64 {
    DefaultHasher::spec_finish(str_hash_writes(Seq::empty(), s))
}

/// Hash a string with a fresh `DefaultHasher` (which is never randomly
/// seeded), as std's `Hash` for `str` does.
fn hash_str(s: &str) -> (r: u64)
    ensures
        r == default_hash_str(s@),
{
    let mut h = DefaultHasher::new();
    hash_str_into(s, &mut h);
    h.finish()
}

pub open spec fn hex_digit(n: nat) -> char {
    if n < 10 {
        ('0' as nat + n) as char
    } else {
        ('a' as nat + (n - 10)) as char
    }
}

/// The low `n` hexadecimal digits of `v`, most significant first,
/// zero-padded: `format!("{:0n$x}", v)` for `v < 16^n`.
pub open spec fn hex_fixed(v: nat, n: nat) -> Seq<char>
    decreases n,
{
    if n == 0 {
        Seq::empty()
    } else {
        hex_fixed(v / 16, (n - 1) as nat).push(hex_digit(v % 16))
    }
}

fn hex_digit_str(n: u64) -> (r: &'static str)
    requires
        n < 16,
    ensures
        r@ == seq![hex_digit(n as nat)],
{
    proof {
        reveal_strlit("0");
        reveal_strlit("1");
        reveal_strlit("2");
        reveal_strlit("3");
        reveal_strlit("4");
        reveal_strlit("5");
        reveal_strlit("6");
        reveal_strlit("7");
        reveal_strlit("8");
        reveal_strlit("9");
        reveal_strlit("a");
        reveal_strlit("b");
        reveal_strlit("c");
        reveal_strlit("d");
        reveal_strlit("e");
        reveal_strlit("f");
    }
    let r = if n == 0 {
        "0"
    } else if n == 1 {
        "1"
    } else if n == 2 {
        "2"
    } else if n == 3 {
        "3"
    } else if n == 4 {
        "4"
    } else if n == 5 {
        "5"
    } else if n == 6 {
        "6"
    } else if n == 7 {
        "7"
    } else if n == 8 {
        "8"
    } else if n == 9 {
        "9"
    } else if n == 10 {
        "a"
    } else if n == 11 {
        "b"
    } else if n == 12 {
        "c"
    } else if n == 13 {
        "d"
    } else if n == 14 {
        "e"
    } else {
        "f"
    };
    proof {
        assert(r@ =~= seq![hex_digit(n as nat)]);
    }
    r
}

fn append_hex(out: &mut String, v: u64, n: u64)
    requires
        n <= 16,
    ensures
        final(out)@ == old(out)@ + hex_fixed(v as nat, n as nat),
    decreases n,
{
    if n == 0 {
        proof {
            assert(old(out)@ + Seq::<char>::empty() =~= old(out)@);
        }
        return;
    }
    append_hex(out, v / 16, n - 1);
    let d = hex_digit_str(v % 16);
    out.append(d);
    proof {
        assert(final(out)@ =~= old(out)@ + hex_fixed(v as nat, n as nat));
    }
}

/// A 64-bit hash as an asset id: 16 lower-case hex digits, zero-padded.
pub fn hex_id(hash: u64) -> (r: String)
    ensures
        r@ == hex_fixed(hash as nat, 16),
{
    let mut out = String::new();
    append_hex(&mut out, hash, 16);
    proof {
        assert(Seq::<char>::empty() + hex_fixed(hash as nat, 16) =~= hex_fixed(hash as nat, 16));
    }
    out
}

/// Stable id of the asset at `path`: its default hash as 16 lower-case hex
/// digits.
pub fn path_id(path: &str) -> (r: String)
    ensures
        r@ == hex_fixed(default_hash_str(path@) as nat, 16),
{
    hex_id(hash_str(path))
}

} // verus!
