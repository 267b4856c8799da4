//! Where the launcher's files are: joining paths as `std::path` does, the
//! settings file, and finding the game's folder.
use vstd::prelude::*;

verus! {

/// A path component that `std::path` reads as relative on every platform:
/// it holds no `/`, `\` or `:`.
pub open spec fn is_plain_name(name: Seq<char>) -> bool {
    forall|j: int| 0 <= j < name.len() ==> #[trigger] name[j] != '/' && name[j] != '\\' && name[j] != ':'
}

/// A path separator on some platform: `/` everywhere, `\` on Windows.
pub open spec fn is_separator(c: char) -> bool {
    c == '/' || c == '\\'
}

/// A Windows drive and nothing else, such as `C:`.
pub open spec fn is_bare_drive(base: Seq<char>) -> bool {
    &&& base.len() == 2
    &&& base[1] == ':'
    &&& (('A' <= base[0] && base[0] <= 'Z') || ('a' <= base[0] && base[0] <= 'z'))
}

/// A Windows verbatim path (`\\?\...`), which `Path::join` rebuilds from
/// its components.
pub open spec fn is_verbatim(base: Seq<char>) -> bool {
    base.len() >= 4 && base[0] == '\\' && base[1] == '\\' && base[2] == '?' && base[3] == '\\'
}

/// What `Path::join` gives for a plain name on a base that is not verbatim:
/// the name alone after an empty base; the name right after a base that
/// ends in `/`; after a base that ends in `\`, the name right after it
/// (Windows) or after a `/` (elsewhere); after a bare drive, the name
/// right after it (Windows) or after a `/`; after any other base, one
/// separator (the platform's) and the name.
pub open spec fn joined_path(base: Seq<char>, name: Seq<char>, r: Seq<char>) -> bool {
    if base.len() == 0 {
        r == name
    } else if base.last() == '/' {
        r == base + name
    } else if base.last() == '\\' || is_bare_drive(base) {
        r == base + name || r == base + seq!['/'] + name
    } else {
        r == base + seq!['/'] + name || r == base + seq!['\\'] + name
    }
}

/// `Path::join` of two paths, as text. For a name that is relative on
/// every platform (no `/`, `\` or `:`) and a base that is not a Windows
/// verbatim path, `PathBuf::push` appends the name, after the platform's
/// separator when the base is not empty, does not end in a separator and
/// is not a bare Windows drive; which separator that is, and whether `\`
/// counts as one, depends on the platform, so the contract admits either.
/// For other names (absolute paths, Windows prefixes) and for verbatim
/// bases, whose components are rebuilt, it states nothing.
#[verifier::external_body]
pub(crate) fn path_join(base: &str, name: &str) -> (r: String)
    ensures
        is_plain_name(name@) && !is_verbatim(base@) ==> joined_path(base@, name@, r@),
{
    std::path::Path::new(base).join(name).to_string_lossy().into_owned()
}

/// The launcher's settings file in its data folder: `settings.json` joined
/// to `root` (see `joined_path`; nothing is stated for a verbatim `root`).
pub fn settings_path(root: &str) -> (r: String)
    ensures
        !is_verbatim(root@) ==> joined_path(root@, "settings.json"@, r@),
{
    proof {
        reveal_strlit("settings.json");
    }
    path_join(root, "settings.json")
}

pub open spec fn game_missing_message(display: Seq<char>) -> Seq<char> {
    "No se encontró KoikatsuSunshine.exe en la carpeta del launcher.\nColocá el launcher dentro de la carpeta del juego.\nRuta actual: "@
        + display
}

/// The game's folder, when the launcher's folder holds the game: the
/// folder as text (`None` when it is not valid Unicode, an error), or,
/// when `KoikatsuSunshine.exe` is not there, an error that shows where the
/// launcher is.
pub fn game_root(launcher_dir: Option<&str>, launcher_dir_display: &str, game_exe_exists: bool) -> (r:
    Result<String, String>)
    ensures
        match r {
            Ok(root) => game_exe_exists && launcher_dir is Some && root@ == launcher_dir.unwrap()@,
            Err(e) => if game_exe_exists {
                launcher_dir is None && e@ == "La ruta contiene caracteres no válidos"@
            } else {
                e@ == game_missing_message(launcher_dir_display@)
            },
        },
{
    if game_exe_exists {
        match launcher_dir {
            Some(d) => Ok(String::from_str(d)),
            None => Err(String::from_str("La ruta contiene caracteres no válidos")),
        }
    } else {
        let mut m = String::from_str(
            "No se encontró KoikatsuSunshine.exe en la carpeta del launcher.\nColocá el launcher dentro de la carpeta del juego.\nRuta actual: ",
        );
        m.append(launcher_dir_display);
        Err(m)
    }
}

} // verus!
