//! The launcher's own look: its settings (custom background, custom logo,
//! hidden logo), the images it accepts, and images as `data:` URLs.
use vstd::prelude::*;
use base64::Engine;
use crate::text::{chars_of, equals_literal, push_char};

verus! {

/// The launcher's preferences, kept in `settings.json`.
pub struct LauncherSettings {
    pub background: String,
    pub logo: String,
    pub hide_logo: bool,
}

impl Default for LauncherSettings {
    /// No custom background, no custom logo, the logo shown.
    fn default() -> (r: Self)
        ensures
            r.background@ == Seq::<char>::empty(),
            r.logo@ == Seq::<char>::empty(),
            !r.hide_logo,
    {
        LauncherSettings { background: String::new(), logo: String::new(), hide_logo: false }
    }
}

/// The image formats that the launcher accepts, by lower-case extension.
pub open spec fn image_extensions() -> Seq<Seq<char>> {
    seq!["png"@, "jpg"@, "jpeg"@, "webp"@, "bmp"@]
}

/// The MIME type of an image by its lower-case extension; PNG when the
/// extension is not known.
pub open spec fn image_mime(ext: Seq<char>) -> Seq<char> {
    if ext == "jpg"@ || ext == "jpeg"@ {
        "image/jpeg"@
    } else if ext == "webp"@ {
        "image/webp"@
    } else if ext == "bmp"@ {
        "image/bmp"@
    } else {
        "image/png"@
    }
}

/// Lower-casing a text as `str::to_lowercase` does (Unicode lowercase
/// mapping).
pub uninterp spec fn unicode_lowercase(s: Seq<char>) -> Seq<char>;

/// The length of the padded Base64 encoding of `n` bytes.
pub open spec fn base64_len(n: nat) -> nat {
    (n / 3) * 4 + if n % 3 > 0 {
        4nat
    } else {
        0nat
    }
}

/// The standard Base64 alphabet.
pub open spec fn base64_alphabet() -> Seq<char> {
    "ABCDEFGHIJKLMNOPQRSTUVWXYZabcdefghijklmnopqrstuvwxyz0123456789+/"@
}

/// The Base64 digit for a 6-bit value.
pub open spec fn b64(v: int) -> char {
    base64_alphabet()[v]
}

/// The standard, padded Base64 encoding of the bytes (RFC 4648): every
/// three bytes give four digits; one or two bytes left over give two or
/// three digits and `=` padding up to four.
pub open spec fn base64_standard(b: Seq<u8>) -> Seq<char>
    decreases b.len(),
{
    if b.len() == 0 {
        Seq::empty()
    } else {
        let x = b[0] as int;
        if b.len() == 1 {
            seq![b64(x / 4), b64((x % 4) * 16), '=', '=']
        } else {
            let y = b[1] as int;
            if b.len() == 2 {
                seq![b64(x / 4), b64((x % 4) * 16 + y / 16), b64((y % 16) * 4), '=']
            } else {
                let z = b[2] as int;
                seq![b64(x / 4), b64((x % 4) * 16 + y / 16), b64((y % 16) * 4 + z / 64), b64(z % 64)]
                    + base64_standard(b.skip(3))
            }
        }
    }
}

/// `c` lower-cased if it is an ASCII capital letter.
pub open spec fn ascii_lower(c: char) -> char {
    if 'A' <= c && c <= 'Z' {
        ((c as u32) + 32) as char
    } else {
        c
    }
}

/// A text of ASCII characters only.
pub open spec fn is_ascii_text(s: Seq<char>) -> bool {
    forall|i: int| 0 <= i < s.len() ==> (#[trigger] s[i] as u32) < 128
}

/// `s` with its ASCII capital letters lower-cased.
pub open spec fn ascii_lowercase(s: Seq<char>) -> Seq<char> {
    s.map_values(|c: char| ascii_lower(c))
}

/// `str::to_lowercase`: the text with every character replaced by its
/// Unicode lowercase mapping. The contract names that result, and states
/// it for ASCII text, where the mapping lower-cases `A`-`Z` only.
#[verifier::external_body]
fn to_lowercase(s: &str) -> (r: String)
    ensures
        r@ == unicode_lowercase(s@),
        is_ascii_text(s@) ==> r@ == ascii_lowercase(s@),
{
    s.to_lowercase()
}

/// `Engine::encode` of `base64::engine::general_purpose::STANDARD`: the
/// standard alphabet with `=` padding. The crate panics when the length of
/// the encoding overflows `usize`, hence the `requires`. The contract
/// states the encoding.
#[verifier::external_body]
fn base64_encode(bytes: &[u8]) -> (r: String)
    requires
        base64_len(bytes@.len()) <= usize::MAX,
    ensures
        r@ == base64_standard(bytes@),
{
    base64::engine::general_purpose::STANDARD.encode(bytes)
}

/// The extension of an image file as given, `png` when it has none.
pub open spec fn raw_image_extension(ext: Option<Seq<char>>) -> Seq<char> {
    match ext {
        Some(e) => e,
        None => "png"@,
    }
}

/// The lower-case extension of an image file, `png` when it has none.
pub open spec fn image_extension_of(ext: Option<Seq<char>>) -> Seq<char> {
    unicode_lowercase(raw_image_extension(ext))
}

/// For an ASCII extension, lower-casing is ASCII lower-casing.
pub open spec fn ascii_extension_lowered(ext: Option<Seq<char>>) -> bool {
    is_ascii_text(raw_image_extension(ext)) ==> image_extension_of(ext) == ascii_lowercase(
        raw_image_extension(ext),
    )
}

/// The `data:` URL of an image with the given (lower-case) extension.
pub open spec fn data_url(ext: Seq<char>, bytes: Seq<u8>) -> Seq<char> {
    "data:"@ + image_mime(ext) + ";base64,"@ + base64_standard(bytes)
}

/// The lower-cased extension of an image file (`extension` as the file's
/// path gives it), `png` when the path has none.
pub fn image_extension(extension: Option<&str>) -> (r: String)
    ensures
        r@ == image_extension_of(
            match extension {
                Some(e) => Some(e@),
                None => None,
            },
        ),
        ascii_extension_lowered(
            match extension {
                Some(e) => Some(e@),
                None => None,
            },
        ),
{
    match extension {
        Some(e) => to_lowercase(e),
        None => to_lowercase("png"),
    }
}

/// The MIME type of an image by its lower-case extension.
pub fn mime_for(ext: &str) -> (r: &'static str)
    ensures
        r@ == image_mime(ext@),
{
    let e = chars_of(ext);
    if equals_literal(&e, "jpg") || equals_literal(&e, "jpeg") {
        "image/jpeg"
    } else if equals_literal(&e, "webp") {
        "image/webp"
    } else if equals_literal(&e, "bmp") {
        "image/bmp"
    } else {
        "image/png"
    }
}

/// An image as a `data:` URL: its MIME type by its file's extension
/// (lower-cased; PNG when missing or unknown) and its bytes in Base64.
pub fn image_to_data_url(extension: Option<&str>, bytes: &[u8]) -> (r: String)
    requires
        base64_len(bytes@.len()) <= usize::MAX,
    ensures
        r@ == data_url(
            image_extension_of(
                match extension {
                    Some(e) => Some(e@),
                    None => None,
                },
            ),
            bytes@,
        ),
        ascii_extension_lowered(
            match extension {
                Some(e) => Some(e@),
                None => None,
            },
        ),
{
    let ext = image_extension(extension);
    let mime = mime_for(ext.as_str());
    let encoded = base64_encode(bytes);
    let mut r = String::from_str("data:");
    r.append(mime);
    r.append(";base64,");
    r.append(encoded.as_str());
    r
}

/// Where a chosen image goes: its file name in the launcher's folder, and
/// the names of the earlier images of the same kind to remove first.
pub struct ImagePlacement {
    pub file_name: String,
    pub stale: Vec<String>,
}

/// `base` followed by `.` and each accepted extension.
pub open spec fn image_names(base: Seq<char>) -> Seq<Seq<char>> {
    image_extensions().map_values(|e: Seq<char>| base + seq!['.'] + e)
}

/// Whether a lower-case extension is one the launcher accepts.
pub fn is_image_extension(ext: &str) -> (r: bool)
    ensures
        r == image_extensions().contains(ext@),
{
    let e = chars_of(ext);
    let r = equals_literal(&e, "png") || equals_literal(&e, "jpg") || equals_literal(&e, "jpeg") || equals_literal(
        &e,
        "webp",
    ) || equals_literal(&e, "bmp");
    proof {
        let xs = image_extensions();
        if r {
            if e@ == "png"@ {
                assert(xs[0] == e@);
            } else if e@ == "jpg"@ {
                assert(xs[1] == e@);
            } else if e@ == "jpeg"@ {
                assert(xs[2] == e@);
            } else if e@ == "webp"@ {
                assert(xs[3] == e@);
            } else {
                assert(xs[4] == e@);
            }
        } else {
            assert forall|i: int| 0 <= i < xs.len() implies xs[i] != e@ by {}
        }
    }
    r
}

fn named(base: &str, ext: &str) -> (r: String)
    ensures
        r@ == base@ + seq!['.'] + ext@,
{
    let mut r = String::from_str(base);
    push_char(&mut r, '.');
    r.append(ext);
    r
}

/// Where an image chosen for `base` (`background` or `logo`) goes, given
/// the extension of the chosen file: `base.<ext>` with the extension
/// lower-cased (`png` when missing), after removing `base` with each
/// accepted extension; an extension that is not accepted is an error.
pub fn save_image_to_launcher(base: &str, extension: Option<&str>) -> (r: Result<ImagePlacement, String>)
    ensures
        ({
            let ext = image_extension_of(
                match extension {
                    Some(e) => Some(e@),
                    None => None,
                },
            );
            &&& ascii_extension_lowered(
                match extension {
                    Some(e) => Some(e@),
                    None => None,
                },
            )
            &&& match r {
                Ok(p) => {
                    &&& image_extensions().contains(ext)
                    &&& p.file_name@ == base@ + seq!['.'] + ext
                    &&& p.stale.deep_view() == image_names(base@)
                },
                Err(e) => !image_extensions().contains(ext) && e@ == "Formato no soportado"@,
            }
        }),
{
    let ext = image_extension(extension);
    if !is_image_extension(ext.as_str()) {
        return Err(String::from_str("Formato no soportado"));
    }
    let mut stale: Vec<String> = Vec::new();
    stale.push(named(base, "png"));
    stale.push(named(base, "jpg"));
    stale.push(named(base, "jpeg"));
    stale.push(named(base, "webp"));
    stale.push(named(base, "bmp"));
    assert(stale.deep_view() =~= image_names(base@)) by {
        assert forall|i: int| 0 <= i < 5 implies stale.deep_view()[i] == image_names(base@)[i] by {
            assert(stale.deep_view()[i] == stale@[i]@);
        }
    }
    Ok(ImagePlacement { file_name: named(base, ext.as_str()), stale })
}

/// The file of the custom background, as the settings name it.
pub fn custom_background_file(settings: &LauncherSettings) -> (r: String)
    ensures
        r@ == settings.background@,
{
    settings.background.clone()
}

/// The file of the custom logo, when the settings name one.
pub fn custom_logo_file(settings: &LauncherSettings) -> (r: Option<String>)
    ensures
        match r {
            Some(f) => settings.logo@.len() > 0 && f@ == settings.logo@,
            None => settings.logo@.len() == 0,
        },
{
    if settings.logo.as_str().is_empty() {
        None
    } else {
        Some(settings.logo.clone())
    }
}

/// The settings with a new background image file.
pub fn with_background(settings: LauncherSettings, file_name: String) -> (r: LauncherSettings)
    ensures
        r.background@ == file_name@,
        r.logo@ == settings.logo@,
        r.hide_logo == settings.hide_logo,
{
    LauncherSettings { background: file_name, ..settings }
}

/// The settings with a new logo image file.
pub fn with_logo(settings: LauncherSettings, file_name: String) -> (r: LauncherSettings)
    ensures
        r.logo@ == file_name@,
        r.background@ == settings.background@,
        r.hide_logo == settings.hide_logo,
{
    LauncherSettings { logo: file_name, ..settings }
}

/// The settings with the logo hidden or shown.
pub fn with_hidden_logo(settings: LauncherSettings, hide: bool) -> (r: LauncherSettings)
    ensures
        r.hide_logo == hide,
        r.background@ == settings.background@,
        r.logo@ == settings.logo@,
{
    LauncherSettings { hide_logo: hide, ..settings }
}

/// Whether the logo is hidden: as the settings say, or not when there are
/// no settings.
pub fn get_hide_logo(settings: Option<&LauncherSettings>) -> (r: bool)
    ensures
        r == (settings matches Some(s) && s.hide_logo),
{
    match settings {
        Some(s) => s.hide_logo,
        None => false,
    }
}

/// The name a chosen image gets is among the names removed before it is
/// copied: a kind of image (background, logo) never keeps two files.
pub proof fn law_placement_replaces_earlier(base: Seq<char>, ext: Seq<char>)
    requires
        image_extensions().contains(ext),
    ensures
        image_names(base).contains(base + seq!['.'] + ext),
{
    let i = choose|i: int| 0 <= i < image_extensions().len() && image_extensions()[i] == ext;
    assert(image_names(base)[i] == base + seq!['.'] + ext);
}

/// The image formats and their MIME types: `jpg` and `jpeg` are JPEG,
/// `webp` is WebP, `bmp` is BMP, and every other extension is treated as
/// PNG. The accepted formats are exactly `png`, `jpg`, `jpeg`, `webp` and
/// `bmp`.
pub proof fn law_image_formats(ext: Seq<char>)
    ensures
        ext == "jpg"@ || ext == "jpeg"@ ==> image_mime(ext) == "image/jpeg"@,
        ext == "webp"@ ==> image_mime(ext) == "image/webp"@,
        ext == "bmp"@ ==> image_mime(ext) == "image/bmp"@,
        ext != "jpg"@ && ext != "jpeg"@ && ext != "webp"@ && ext != "bmp"@ ==> image_mime(ext)
            == "image/png"@,
        image_extensions().contains(ext) <==> (ext == "png"@ || ext == "jpg"@ || ext == "jpeg"@ || ext
            == "webp"@ || ext == "bmp"@),
{
    reveal_strlit("png");
    reveal_strlit("jpg");
    reveal_strlit("jpeg");
    reveal_strlit("webp");
    reveal_strlit("bmp");
    assert("jpg"@[0] != "webp"@[0] && "jpg"@[0] != "bmp"@[0]);
    assert("jpeg"@[0] != "webp"@[0] && "jpeg"@[0] != "bmp"@[0]);
    assert("webp"@[0] != "bmp"@[0]);
    let xs = image_extensions();
    if xs.contains(ext) {
        let i = choose|i: int| 0 <= i < xs.len() && xs[i] == ext;
        assert(i == 0 || i == 1 || i == 2 || i == 3 || i == 4);
    }
    if ext == "png"@ {
        assert(xs[0] == ext);
    } else if ext == "jpg"@ {
        assert(xs[1] == ext);
    } else if ext == "jpeg"@ {
        assert(xs[2] == ext);
    } else if ext == "webp"@ {
        assert(xs[3] == ext);
    } else if ext == "bmp"@ {
        assert(xs[4] == ext);
    }
}

} // verus!
