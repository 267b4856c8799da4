//! The plugins the launcher manages: which file belongs to which plugin,
//! whether a plugin is on (`.dll`) or off (`.dl_`), and switching it.
use vstd::prelude::*;
use crate::text::{chars_of, equals_literal};
use crate::paths::{is_plain_name, is_verbatim, joined_path, path_join};

verus! {

/// The plugins that the launcher switches, by id, with the base name of
/// their files.
pub open spec fn managed_plugin_table() -> Seq<(Seq<char>, Seq<char>)> {
    seq![
        ("RimRemover"@, "KKS_RimRemover"@),
        ("AutoSave"@, "KKS_Autosave"@),
        ("Stiletto"@, "KKS_Stiletto"@),
    ]
}

/// The base file name of a managed plugin.
pub open spec fn plugin_base(id: Seq<char>) -> Option<Seq<char>> {
    if id == "RimRemover"@ {
        Some("KKS_RimRemover"@)
    } else if id == "AutoSave"@ {
        Some("KKS_Autosave"@)
    } else if id == "Stiletto"@ {
        Some("KKS_Stiletto"@)
    } else {
        None
    }
}

/// The managed plugins, as `(id, base file name)`, in the order the
/// launcher reports them.
pub fn managed_plugins() -> (r: Vec<(String, String)>)
    ensures
        r.len() == 3,
        forall|i: int|
            0 <= i < 3 ==> (#[trigger] r@[i]).0@ == managed_plugin_table()[i].0 && r@[i].1@
                == managed_plugin_table()[i].1,
{
    let mut r: Vec<(String, String)> = Vec::new();
    r.push((String::from_str("RimRemover"), String::from_str("KKS_RimRemover")));
    r.push((String::from_str("AutoSave"), String::from_str("KKS_Autosave")));
    r.push((String::from_str("Stiletto"), String::from_str("KKS_Stiletto")));
    r
}

/// The base file name of the plugin `plugin_id`; an unknown plugin is an
/// error.
pub fn plugin_base_name(plugin_id: &str) -> (r: Result<String, String>)
    ensures
        match r {
            Ok(b) => plugin_base(plugin_id@) == Some(b@),
            Err(e) => plugin_base(plugin_id@) is None && e@ == "Plugin desconocido"@,
        },
{
    let id = chars_of(plugin_id);
    if equals_literal(&id, "RimRemover") {
        Ok(String::from_str("KKS_RimRemover"))
    } else if equals_literal(&id, "AutoSave") {
        Ok(String::from_str("KKS_Autosave"))
    } else if equals_literal(&id, "Stiletto") {
        Ok(String::from_str("KKS_Stiletto"))
    } else {
        Err(String::from_str("Plugin desconocido"))
    }
}

/// The two names a plugin's file can have: on (`.dll`), then off (`.dl_`).
pub fn plugin_file_names(base_name: &str) -> (r: (String, String))
    ensures
        r.0@ == base_name@ + ".dll"@,
        r.1@ == base_name@ + ".dl_"@,
{
    let mut on = String::from_str(base_name);
    on.append(".dll");
    let mut off = String::from_str(base_name);
    off.append(".dl_");
    (on, off)
}

/// The folders searched for a plugin's file: the plugins folder, then its
/// subfolders in the order listed.
pub open spec fn plugin_folders(plugins_dir: Seq<char>, subfolders: Seq<Seq<char>>) -> Seq<Seq<char>> {
    seq![plugins_dir] + subfolders
}

/// Whether `r` is where a plugin file is looked for in folder `k`, under
/// name `file`.
pub open spec fn candidate_at(
    plugins_dir: Seq<char>,
    subfolders: Seq<Seq<char>>,
    k: int,
    file: Seq<char>,
    r: Seq<char>,
) -> bool {
    let d = plugin_folders(plugins_dir, subfolders)[k];
    is_plain_name(file) && !is_verbatim(d) ==> joined_path(d, file, r)
}

/// The paths a plugin's file is looked for at, in order: in the plugins
/// folder, `<base>.dll` then `<base>.dl_`; then the same two in each
/// subfolder, in the order listed. Each path is the file name joined to the
/// folder as `Path::join` does.
pub fn plugin_file_candidates(plugins_dir: &str, subfolders: &Vec<String>, base_name: &str) -> (r: Vec<String>)
    ensures
        r.len() == 2 * (subfolders.len() + 1),
        forall|k: int|
            0 <= k <= subfolders.len() ==> candidate_at(
                plugins_dir@,
                subfolders.deep_view(),
                k,
                base_name@ + ".dll"@,
                #[trigger] r@[2 * k]@,
            ) && candidate_at(
                plugins_dir@,
                subfolders.deep_view(),
                k,
                base_name@ + ".dl_"@,
                r@[2 * k + 1]@,
            ),
{
    let (on, off) = plugin_file_names(base_name);
    let ghost folders = plugin_folders(plugins_dir@, subfolders.deep_view());
    let mut r: Vec<String> = Vec::new();
    r.push(path_join(plugins_dir, on.as_str()));
    r.push(path_join(plugins_dir, off.as_str()));
    let mut i: usize = 0;
    while i < subfolders.len()
        invariant
            folders == plugin_folders(plugins_dir@, subfolders.deep_view()),
            on@ == base_name@ + ".dll"@,
            off@ == base_name@ + ".dl_"@,
            i <= subfolders.len(),
            r.len() == 2 * (i + 1),
            forall|k: int|
                0 <= k <= i ==> candidate_at(
                    plugins_dir@,
                    subfolders.deep_view(),
                    k,
                    on@,
                    #[trigger] r@[2 * k]@,
                ) && candidate_at(plugins_dir@, subfolders.deep_view(), k, off@, r@[2 * k + 1]@),
        decreases subfolders.len() - i,
    {
        let d = subfolders[i].as_str();
        assert(folders[i + 1] == subfolders.deep_view()[i as int]);
        assert(subfolders.deep_view()[i as int] == subfolders@[i as int]@);
        r.push(path_join(d, on.as_str()));
        r.push(path_join(d, off.as_str()));
        i = i + 1;
    }
    r
}

/// Whether `i` is the index of the first `true` in `exists`.
pub open spec fn first_true(exists: Seq<bool>, i: int) -> bool {
    &&& 0 <= i < exists.len()
    &&& exists[i]
    &&& forall|j: int| 0 <= j < i ==> !exists[j]
}

/// The extension of candidate `i` of `plugin_file_candidates`: even
/// candidates are `<base>.dll`, odd ones `<base>.dl_`.
pub open spec fn candidate_extension(i: int) -> Seq<char> {
    if i % 2 == 0 {
        "dll"@
    } else {
        "dl_"@
    }
}

/// The candidate that a file at candidate `i` becomes when it is renamed to
/// the other extension: same folder, other name.
pub open spec fn renamed_candidate(i: int) -> int {
    if i % 2 == 0 {
        i + 1
    } else {
        i - 1
    }
}

/// The index of the first `true`: the first candidate that exists.
pub fn first_existing(exists: &Vec<bool>) -> (r: Option<usize>)
    ensures
        match r {
            Some(i) => first_true(exists@, i as int),
            None => forall|j: int| 0 <= j < exists.len() ==> !exists@[j],
        },
{
    let mut i: usize = 0;
    while i < exists.len()
        invariant
            i <= exists.len(),
            forall|j: int| 0 <= j < i ==> !exists@[j],
        decreases exists.len() - i,
    {
        if exists[i] {
            return Some(i);
        }
        i = i + 1;
    }
    None
}

/// Whether a plugin file with this extension is on: only `dll` is.
pub fn plugin_is_active(extension: Option<&str>) -> (r: bool)
    ensures
        r == (extension matches Some(e) && e@ == "dll"@),
{
    match extension {
        Some(e) => {
            let v = chars_of(e);
            equals_literal(&v, "dll")
        },
        None => false,
    }
}

/// What switching a plugin comes to.
pub enum TogglePlan {
    /// The plugin already is as asked; the message says so.
    Unchanged { message: String },
    /// Rename the file to this extension; report `done` on success, and
    /// `failure` followed by `: ` and the error otherwise.
    Rename { extension: String, done: String, failure: String },
}

/// The spec view of a `TogglePlan`: `(changed, extension, message, failure)`.
pub open spec fn toggle_plan_view(p: TogglePlan) -> (bool, Seq<char>, Seq<char>, Seq<char>) {
    match p {
        TogglePlan::Unchanged { message } => (false, Seq::empty(), message@, Seq::empty()),
        TogglePlan::Rename { extension, done, failure } => (true, extension@, done@, failure@),
    }
}

/// What switching plugin `id` to `enable` does when its file is on
/// (`active`) or off.
pub open spec fn toggle_outcome(id: Seq<char>, enable: bool, active: bool) -> (
    bool,
    Seq<char>,
    Seq<char>,
    Seq<char>,
) {
    if enable && active {
        (false, Seq::empty(), id + " ya estaba activado"@, Seq::empty())
    } else if !enable && !active {
        (false, Seq::empty(), id + " ya estaba desactivado"@, Seq::empty())
    } else if enable {
        (true, "dll"@, id + " activado"@, "Error al activar "@ + id)
    } else {
        (true, "dl_"@, id + " desactivado"@, "Error al desactivar "@ + id)
    }
}

fn joined(a: &str, b: &str) -> (r: String)
    ensures
        r@ == a@ + b@,
{
    let mut r = String::from_str(a);
    r.append(b);
    r
}

/// What switching plugin `plugin_id` on (`enable`) or off comes to, given
/// whether its file is on now: nothing when it already is as asked,
/// otherwise renaming the file to `.dll` or `.dl_`.
pub fn toggle_plan(plugin_id: &str, enable: bool, active: bool) -> (r: TogglePlan)
    ensures
        toggle_plan_view(r) == toggle_outcome(plugin_id@, enable, active),
{
    if enable && active {
        return TogglePlan::Unchanged { message: joined(plugin_id, " ya estaba activado") };
    }
    if !enable && !active {
        return TogglePlan::Unchanged { message: joined(plugin_id, " ya estaba desactivado") };
    }
    if enable {
        TogglePlan::Rename {
            extension: String::from_str("dll"),
            done: joined(plugin_id, " activado"),
            failure: joined("Error al activar ", plugin_id),
        }
    } else {
        TogglePlan::Rename {
            extension: String::from_str("dl_"),
            done: joined(plugin_id, " desactivado"),
            failure: joined("Error al desactivar ", plugin_id),
        }
    }
}

/// Switching plugin `plugin_id`, given the extension of its file when it
/// was found. An id that is not a managed plugin is an error before
/// anything else; for a managed one, `None` (no file found) is an error
/// naming the plugin, and a found file gives the plan for it.
pub fn toggle_plugin(plugin_id: &str, enable: bool, found: Option<Option<&str>>) -> (r: Result<
    TogglePlan,
    String,
>)
    ensures
        plugin_base(plugin_id@) is None ==> (r matches Err(e) && e@ == "Plugin desconocido"@),
        plugin_base(plugin_id@) is Some ==> match found {
            None => r matches Err(e) && e@ == "No se encontró el archivo de "@ + plugin_id@,
            Some(ext) => r matches Ok(p) && toggle_plan_view(p) == toggle_outcome(
                plugin_id@,
                enable,
                ext matches Some(e) && e@ == "dll"@,
            ),
        },
{
    match plugin_base_name(plugin_id) {
        Err(e) => Err(e),
        Ok(_) => match found {
            None => Err(joined("No se encontró el archivo de ", plugin_id)),
            Some(ext) => Ok(toggle_plan(plugin_id, enable, plugin_is_active(ext))),
        },
    }
}

/// Switching a plugin reaches the state asked for: after the rename that
/// `toggle_plan` asks for (if any), the file's extension makes the plugin
/// on exactly when `enable` is set, and asking again changes nothing.
pub proof fn law_toggle_reaches_request(id: Seq<char>, enable: bool, active: bool)
    ensures
        ({
            let o = toggle_outcome(id, enable, active);
            let now_active = if o.0 {
                o.1 == "dll"@
            } else {
                active
            };
            &&& now_active == enable
            &&& !toggle_outcome(id, enable, now_active).0
        }),
{
    reveal_strlit("dll");
    reveal_strlit("dl_");
    assert("dl_"@[2] != "dll"@[2]);
}

/// Switching a plugin and then looking for its file again finds the renamed
/// file. `exists` says which candidates of `plugin_file_candidates` exist and
/// `found` is the first of them, the one the switch acts on. After the
/// rename that the plan asks for (the file leaves `found` and takes the
/// other extension in the same folder; nothing moves when the plan changes
/// nothing), the first existing candidate is the plugin's file, in the same
/// folder, with the extension the plan named, and that extension makes the
/// plugin on exactly when `enable` is set.
pub proof fn law_toggle_then_search(exists: Seq<bool>, found: int, id: Seq<char>, enable: bool)
    requires
        exists.len() % 2 == 0,
        first_true(exists, found),
    ensures
        ({
            let o = toggle_outcome(id, enable, candidate_extension(found) == "dll"@);
            let now = if o.0 {
                renamed_candidate(found)
            } else {
                found
            };
            let after = if o.0 {
                exists.update(found, false).update(now, true)
            } else {
                exists
            };
            &&& o.0 ==> o.1 == candidate_extension(now)
            &&& first_true(after, now)
            &&& now / 2 == found / 2
            &&& (candidate_extension(now) == "dll"@) == enable
        }),
{
    reveal_strlit("dll");
    reveal_strlit("dl_");
    assert("dl_"@[2] != "dll"@[2]);
    let o = toggle_outcome(id, enable, candidate_extension(found) == "dll"@);
    if o.0 {
        let now = renamed_candidate(found);
        let after = exists.update(found, false).update(now, true);
        assert(0 <= now < exists.len());
        assert forall|j: int| 0 <= j < now implies !after[j] by {
            if j != found {
                assert(after[j] == exists[j]);
            }
        }
    }
}

/// Each managed plugin's files carry the base name paired with its id in
/// the plugin table (RimRemover with `KKS_RimRemover`, AutoSave with
/// `KKS_Autosave`, Stiletto with `KKS_Stiletto`); an id outside the table
/// has none; and two ids never share a base name, so switching one plugin
/// never touches another's file.
pub proof fn law_plugin_base_names(id: Seq<char>, other: Seq<char>)
    ensures
        plugin_base("RimRemover"@) == Some("KKS_RimRemover"@),
        plugin_base("AutoSave"@) == Some("KKS_Autosave"@),
        plugin_base("Stiletto"@) == Some("KKS_Stiletto"@),
        forall|i: int|
            0 <= i < managed_plugin_table().len() ==> plugin_base(#[trigger] managed_plugin_table()[i].0)
                == Some(managed_plugin_table()[i].1),
        plugin_base(id) is Some <==> exists|i: int|
            0 <= i < managed_plugin_table().len() && #[trigger] managed_plugin_table()[i].0 == id,
        plugin_base(id) is Some && plugin_base(id) == plugin_base(other) ==> id == other,
{
    reveal_strlit("RimRemover");
    reveal_strlit("AutoSave");
    reveal_strlit("Stiletto");
    reveal_strlit("KKS_RimRemover");
    reveal_strlit("KKS_Autosave");
    reveal_strlit("KKS_Stiletto");
    assert("RimRemover"@[0] != "AutoSave"@[0] && "RimRemover"@[0] != "Stiletto"@[0]);
    assert("AutoSave"@[0] != "Stiletto"@[0]);
    assert("KKS_RimRemover"@.len() != "KKS_Autosave"@.len());
    assert("KKS_RimRemover"@.len() != "KKS_Stiletto"@.len());
    assert("KKS_Autosave"@[4] != "KKS_Stiletto"@[4]);
    let t = managed_plugin_table();
    if plugin_base(id) is Some {
        if id == "RimRemover"@ {
            assert(t[0].0 == id);
        } else if id == "AutoSave"@ {
            assert(t[1].0 == id);
        } else {
            assert(t[2].0 == id);
        }
    }
}

} // verus!
