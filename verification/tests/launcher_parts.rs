use kks_launcher::appearance::{
    custom_background_file, custom_logo_file, get_hide_logo, image_extension, image_to_data_url,
    is_image_extension, mime_for, save_image_to_launcher, with_background, with_hidden_logo,
    with_logo, LauncherSettings,
};
use kks_launcher::paths::{game_root, settings_path};
use kks_launcher::plugins::{
    first_existing, managed_plugins, plugin_base_name, plugin_file_candidates, plugin_file_names, plugin_is_active, toggle_plan,
    toggle_plugin, TogglePlan,
};

#[test]
fn settings_file_in_folder() {
    let p = settings_path("/games/KKS/UserData/KoikatsuSunshineLauncher");
    let sep = std::path::MAIN_SEPARATOR;
    assert_eq!(p, format!("/games/KKS/UserData/KoikatsuSunshineLauncher{}settings.json", sep));
    assert_eq!(settings_path("G/UserData/KoikatsuSunshineLauncher/"), "G/UserData/KoikatsuSunshineLauncher/settings.json");
    assert_eq!(settings_path(""), "settings.json");
    let root = std::path::Path::new("G/UserData/KoikatsuSunshineLauncher");
    assert_eq!(std::path::PathBuf::from(settings_path(&root.to_string_lossy())), root.join("settings.json"));
}

#[test]
fn game_root_outcomes() {
    assert_eq!(game_root(Some("C:\\KKS"), "C:\\KKS", true).ok().unwrap(), "C:\\KKS");
    assert_eq!(
        game_root(None, "C:\\K?S", true).err().unwrap(),
        "La ruta contiene caracteres no válidos"
    );
    assert_eq!(
        game_root(Some("/tmp/x"), "/tmp/x", false).err().unwrap(),
        "No se encontró KoikatsuSunshine.exe en la carpeta del launcher.\nColocá el launcher dentro de la carpeta del juego.\nRuta actual: /tmp/x"
    );
}

#[test]
fn plugin_table() {
    let ps = managed_plugins();
    assert_eq!(
        ps,
        vec![
            ("RimRemover".to_string(), "KKS_RimRemover".to_string()),
            ("AutoSave".to_string(), "KKS_Autosave".to_string()),
            ("Stiletto".to_string(), "KKS_Stiletto".to_string()),
        ]
    );
    assert_eq!(plugin_base_name("AutoSave").ok().unwrap(), "KKS_Autosave");
    assert_eq!(plugin_base_name("autosave").err().unwrap(), "Plugin desconocido");
    assert_eq!(
        plugin_file_names("KKS_Stiletto"),
        ("KKS_Stiletto.dll".to_string(), "KKS_Stiletto.dl_".to_string())
    );
}

#[test]
fn plugin_activity_by_extension() {
    assert!(plugin_is_active(Some("dll")));
    assert!(!plugin_is_active(Some("dl_")));
    assert!(!plugin_is_active(Some("DLL")));
    assert!(!plugin_is_active(None));
}

fn describe(p: TogglePlan) -> (bool, String, String, String) {
    match p {
        TogglePlan::Unchanged { message } => (false, String::new(), message, String::new()),
        TogglePlan::Rename { extension, done, failure } => (true, extension, done, failure),
    }
}

#[test]
fn toggle_outcomes() {
    assert_eq!(
        describe(toggle_plan("Stiletto", true, true)),
        (false, String::new(), "Stiletto ya estaba activado".to_string(), String::new())
    );
    assert_eq!(
        describe(toggle_plan("Stiletto", false, false)),
        (false, String::new(), "Stiletto ya estaba desactivado".to_string(), String::new())
    );
    assert_eq!(
        describe(toggle_plan("AutoSave", true, false)),
        (
            true,
            "dll".to_string(),
            "AutoSave activado".to_string(),
            "Error al activar AutoSave".to_string()
        )
    );
    assert_eq!(
        describe(toggle_plan("AutoSave", false, true)),
        (
            true,
            "dl_".to_string(),
            "AutoSave desactivado".to_string(),
            "Error al desactivar AutoSave".to_string()
        )
    );
}

#[test]
fn toggle_missing_file() {
    assert_eq!(
        toggle_plugin("RimRemover", true, None).err().unwrap(),
        "No se encontró el archivo de RimRemover"
    );
    let p = toggle_plugin("RimRemover", false, Some(Some("dll"))).ok().unwrap();
    assert_eq!(describe(p).1, "dl_");
}

#[test]
fn toggle_unknown_plugin() {
    assert_eq!(toggle_plugin("Foo", true, Some(Some("dl_"))).err().unwrap(), "Plugin desconocido");
    assert_eq!(toggle_plugin("Foo", false, None).err().unwrap(), "Plugin desconocido");
    assert_eq!(toggle_plugin("stiletto", true, Some(Some("dll"))).err().unwrap(), "Plugin desconocido");
}

#[test]
fn toggle_then_search_finds_renamed_file() {
    let subfolders = vec!["P/Extra".to_string()];
    let candidates = plugin_file_candidates("P", &subfolders, "KKS_Stiletto");
    assert_eq!(candidates.len(), 4);
    // Only the switched-off file in the subfolder exists.
    let mut exists = vec![false, false, false, true];
    let found = first_existing(&exists).unwrap();
    assert_eq!(found, 3);
    let ext = std::path::Path::new(&candidates[found]).extension().and_then(|e| e.to_str()).map(|e| e.to_string());
    assert_eq!(ext.as_deref(), Some("dl_"));
    let plan = toggle_plugin("Stiletto", true, Some(ext.as_deref())).ok().unwrap();
    let (changed, new_ext, done, _) = describe(plan);
    assert!(changed);
    assert_eq!(done, "Stiletto activado");
    // The rename moves the file to the other name in the same folder.
    exists[found] = false;
    exists[found - 1] = true;
    let again = first_existing(&exists).unwrap();
    assert_eq!(again, 2);
    let again_ext = std::path::Path::new(&candidates[again]).extension().and_then(|e| e.to_str()).map(|e| e.to_string());
    assert_eq!(again_ext.as_deref(), Some(new_ext.as_str()));
    assert!(plugin_is_active(again_ext.as_deref()));
    // Switching it on again changes nothing.
    let plan = toggle_plugin("Stiletto", true, Some(again_ext.as_deref())).ok().unwrap();
    assert_eq!(describe(plan), (false, String::new(), "Stiletto ya estaba activado".to_string(), String::new()));
}

#[test]
fn image_mime_types() {
    assert_eq!(mime_for("jpg"), "image/jpeg");
    assert_eq!(mime_for("jpeg"), "image/jpeg");
    assert_eq!(mime_for("webp"), "image/webp");
    assert_eq!(mime_for("bmp"), "image/bmp");
    assert_eq!(mime_for("png"), "image/png");
    assert_eq!(mime_for("gif"), "image/png");
}

#[test]
fn image_extension_is_lowercased() {
    assert_eq!(image_extension(Some("JPG")), "jpg");
    assert_eq!(image_extension(Some("WebP")), "webp");
    assert_eq!(image_extension(None), "png");
}

#[test]
fn data_url_of_image() {
    assert_eq!(image_to_data_url(Some("JPEG"), b"hello"), "data:image/jpeg;base64,aGVsbG8=");
    assert_eq!(image_to_data_url(None, &[0xff, 0x00]), "data:image/png;base64,/wA=");
    assert_eq!(image_to_data_url(Some("bmp"), b""), "data:image/bmp;base64,");
}

#[test]
fn image_placement() {
    let p = save_image_to_launcher("background", Some("PNG")).ok().unwrap();
    assert_eq!(p.file_name, "background.png");
    assert_eq!(
        p.stale,
        vec!["background.png", "background.jpg", "background.jpeg", "background.webp", "background.bmp"]
    );
    let q = save_image_to_launcher("logo", None).ok().unwrap();
    assert_eq!(q.file_name, "logo.png");
    assert_eq!(save_image_to_launcher("logo", Some("gif")).err().unwrap(), "Formato no soportado");
    assert!(is_image_extension("jpeg"));
    assert!(!is_image_extension("JPEG"));
}

#[test]
fn settings_updates() {
    let s = LauncherSettings::default();
    assert_eq!(custom_background_file(&s), "");
    assert!(custom_logo_file(&s).is_none());
    assert!(!get_hide_logo(Some(&s)));
    assert!(!get_hide_logo(None));
    let s = with_background(s, "background.jpg".to_string());
    let s = with_logo(s, "logo.png".to_string());
    let s = with_hidden_logo(s, true);
    assert_eq!(custom_background_file(&s), "background.jpg");
    assert_eq!(custom_logo_file(&s).unwrap(), "logo.png");
    assert!(get_hide_logo(Some(&s)));
}

#[test]
fn toggle_reaches_requested_state() {
    for enable in [true, false] {
        for ext in [Some("dll"), Some("dl_"), None] {
            let active = plugin_is_active(ext);
            let now_active = match toggle_plan("Stiletto", enable, active) {
                TogglePlan::Unchanged { .. } => active,
                TogglePlan::Rename { extension, .. } => plugin_is_active(Some(extension.as_str())),
            };
            assert_eq!(now_active, enable);
            assert!(matches!(toggle_plan("Stiletto", enable, now_active), TogglePlan::Unchanged { .. }));
        }
    }
}

#[test]
fn chosen_image_name_is_among_removed_names() {
    for ext in ["png", "JPG", "jpeg", "webp", "BMP"] {
        let p = save_image_to_launcher("logo", Some(ext)).ok().unwrap();
        assert!(p.stale.contains(&p.file_name));
    }
}

#[test]
fn plugin_search_order() {
    let sep = std::path::MAIN_SEPARATOR;
    let subs = vec!["P/a".to_string(), "P/b".to_string()];
    let c = plugin_file_candidates("P", &subs, "KKS_Autosave");
    let expected: Vec<String> = ["P", "P/a", "P/b"]
        .iter()
        .flat_map(|d| {
            vec![format!("{}{}KKS_Autosave.dll", d, sep), format!("{}{}KKS_Autosave.dl_", d, sep)]
        })
        .collect();
    assert_eq!(c, expected);
    assert_eq!(plugin_file_candidates("P", &vec![], "X").len(), 2);
}

#[test]
fn first_existing_candidate_wins() {
    assert_eq!(first_existing(&vec![false, false, true, true]), Some(2));
    assert_eq!(first_existing(&vec![true]), Some(0));
    assert_eq!(first_existing(&vec![false, false]), None);
    assert_eq!(first_existing(&vec![]), None);
}
