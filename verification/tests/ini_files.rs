use kks_launcher::console::{get_console_enabled, set_console_enabled};
use kks_launcher::fonts::{
    bundled_fonts, fonts_to_install, initialize_fonts, resolve_font, set_fallback_font, update_ini_font_lines,
};
use kks_launcher::ini::{get_current_language_from_ini, language_in, update_auto_translator_ini};

#[test]
fn language_is_read_from_general_section() {
    let ini = "[Service]\nEndpoint=GoogleTranslate\n[General]\nLanguage=es\nFromLanguage=ja\n";
    assert_eq!(get_current_language_from_ini(Some(ini)), "es");
}

#[test]
fn language_line_may_be_indented_and_keeps_trailing_text() {
    let ini = "[General]\r\n   Language=pt-BR  \r\n";
    assert_eq!(language_in(ini), "pt-BR  ");
}

#[test]
fn language_outside_general_is_ignored() {
    let ini = "Language=fr\n[Other]\nLanguage=de\n[General]\nFromLanguage=ja\n";
    assert_eq!(language_in(ini), "");
}

#[test]
fn language_header_is_trimmed_but_other_headers_are_not() {
    let ini = "  [General]  \n [Other]\nLanguage=ru\n";
    // " [Other]" does not start with '[', so the scan stays in [General].
    assert_eq!(language_in(ini), "ru");
}

#[test]
fn missing_translator_ini_gives_no_language() {
    assert_eq!(get_current_language_from_ini(None), "");
}

#[test]
fn first_language_line_wins() {
    let ini = "[General]\nLanguage=en\nLanguage=zh\n";
    assert_eq!(language_in(ini), "en");
}

#[test]
fn update_language_replaces_every_general_entry() {
    let ini = "[General]\nLanguage=en\n  Language=zh\n[Other]\nLanguage=xx\n";
    let out = update_auto_translator_ini(ini, "es");
    assert_eq!(out, "[General]\nLanguage=es\nLanguage=es\n[Other]\nLanguage=xx\n");
}

#[test]
fn update_language_normalizes_line_endings() {
    let ini = "[General]\r\nLanguage=en\r\nOther=1";
    let out = update_auto_translator_ini(ini, "ja");
    assert_eq!(out, "[General]\nLanguage=ja\nOther=1\n");
}

#[test]
fn update_language_without_entry_leaves_lines() {
    let ini = "[General]\nFromLanguage=ja";
    assert_eq!(update_auto_translator_ini(ini, "es"), "[General]\nFromLanguage=ja\n");
}

#[test]
fn language_read_back_after_update() {
    let ini = "[TextFrameworks]\nEnableUGUI=True\n[General]\n Language=en\nFromLanguage=ja\n";
    for code in ["es", "pt-BR", "", "zh-CN"] {
        let out = update_auto_translator_ini(ini, code);
        assert_eq!(language_in(&out), code);
    }
}

#[test]
fn console_is_read_case_insensitively() {
    let cfg = "[Logging]\nEnabled = false\n[logging.CONSOLE]\n## comment\nEnabled = true\n";
    assert!(get_console_enabled(Some(cfg)));
}

#[test]
fn console_value_is_any_mention_of_true() {
    assert!(get_console_enabled(Some("[Logging.Console]\nEnabled = false # true\n")));
    assert!(!get_console_enabled(Some("[Logging.Console]\nEnabled = false\n")));
    assert!(!get_console_enabled(Some("[Logging.Console]\n[Other]\nEnabled = true\n")));
    assert!(!get_console_enabled(None));
}

#[test]
fn set_console_replaces_existing_line() {
    let cfg = "[Logging.Console]\n# note\nEnabled = false\nLogLevel = All\n";
    assert_eq!(
        set_console_enabled(Some(cfg), true).config,
        "[Logging.Console]\n# note\nEnabled = true\nLogLevel = All"
    );
}

#[test]
fn set_console_inserts_after_header() {
    let cfg = "[Logging.Console]\nLogLevel = All\n[Other]\nEnabled = true";
    assert_eq!(
        set_console_enabled(Some(cfg), false).config,
        "[Logging.Console]\nEnabled = false\nLogLevel = All\n[Other]\nEnabled = true"
    );
}

#[test]
fn set_console_appends_section() {
    assert_eq!(set_console_enabled(None, true).config, "\n[Logging.Console]\nEnabled = true");
    assert_eq!(
        set_console_enabled(Some("[Chainloader]\nHideManagerGameObject = false\n"), false).config,
        "[Chainloader]\nHideManagerGameObject = false\n\n[Logging.Console]\nEnabled = false"
    );
}

#[test]
fn console_read_back_after_set() {
    let inputs = [
        None,
        Some(""),
        Some("[Logging.Console]\r\nEnabled = true\r\n"),
        Some("[Logging.Console]\n[x\nEnabled = true"),
        Some("  [LOGGING.console]  \nEnabled=false\n"),
    ];
    for cfg in inputs {
        for enable in [true, false] {
            let out = set_console_enabled(cfg, enable).config;
            assert_eq!(get_console_enabled(Some(&out)), enable);
        }
    }
}

#[test]
fn fonts_by_language() {
    assert_eq!(resolve_font("th"), "UserData\\fonts/thai_font");
    assert_eq!(resolve_font("hi"), "UserData\\fonts/devanagari_font");
    assert_eq!(resolve_font("ka"), "UserData\\fonts/georgian_font");
    assert_eq!(resolve_font("ar"), "UserData\\fonts/arabic_font");
    assert_eq!(resolve_font("fa"), "UserData\\fonts/arabic_font");
    assert_eq!(resolve_font("ur"), "UserData\\fonts/arabic_font");
    assert_eq!(resolve_font("es"), "UserData\\fonts/arialuni_sdf_u2019");
    assert_eq!(resolve_font(""), "UserData\\fonts/arialuni_sdf_u2019");
    assert_eq!(resolve_font("TH"), "UserData\\fonts/arialuni_sdf_u2019");
}

#[test]
fn bundled_font_list() {
    assert_eq!(
        bundled_fonts(),
        vec!["arialuni_sdf_u2019", "arabic_font", "devanagari_font", "georgian_font", "thai_font"]
    );
}

#[test]
fn font_lines_are_replaced_in_behaviour() {
    let ini = "[Behaviour]\nMaxCharactersPerTranslation=200\nOverrideFontTextMeshPro=old\n FallbackFontTextMeshPro=\n[Other]\nOverrideFontTextMeshPro=keep\n";
    let out = update_ini_font_lines(ini, "F");
    assert_eq!(
        out,
        "[Behaviour]\nMaxCharactersPerTranslation=200\nOverrideFontTextMeshPro=F\nFallbackFontTextMeshPro=F\n[Other]\nOverrideFontTextMeshPro=keep\n"
    );
}

#[test]
fn missing_font_keys_are_added_when_section_ends() {
    let ini = "[Behaviour]\nA=1\n[Other]\nB=2\n";
    let out = update_ini_font_lines(ini, "F");
    assert_eq!(
        out,
        "[Behaviour]\nA=1\nOverrideFontTextMeshPro=F\nFallbackFontTextMeshPro=F\n[Other]\nB=2\n"
    );
}

#[test]
fn missing_font_keys_are_added_at_end_of_text() {
    let out = update_ini_font_lines("[General]\nLanguage=es\n[Behaviour]\nFallbackFontTextMeshPro=x", "F");
    assert_eq!(
        out,
        "[General]\nLanguage=es\n[Behaviour]\nFallbackFontTextMeshPro=F\nOverrideFontTextMeshPro=F\n"
    );
}

#[test]
fn written_keys_count_once_inserted_keys_do_not() {
    // The override line written in the first section is not added again;
    // the fallback key inserted there does not count as written, so the
    // second section gets one too.
    let ini = "[Behaviour]\nOverrideFontTextMeshPro=a\n[X]\n[Behaviour]\nY=1\n";
    let out = update_ini_font_lines(ini, "F");
    assert_eq!(
        out,
        "[Behaviour]\nOverrideFontTextMeshPro=F\nFallbackFontTextMeshPro=F\n[X]\n[Behaviour]\nY=1\nFallbackFontTextMeshPro=F\n"
    );
}

#[test]
fn no_behaviour_section_leaves_text() {
    assert_eq!(update_ini_font_lines("[General]\r\nLanguage=es", "F"), "[General]\nLanguage=es\n");
}

#[test]
fn font_read_back_after_update() {
    let out = update_ini_font_lines("[Behaviour]\nA=1\n[B]\n", "UserData\\fonts/thai_font");
    let lines: Vec<&str> = out.lines().collect();
    assert!(lines.contains(&"OverrideFontTextMeshPro=UserData\\fonts/thai_font"));
    assert!(lines.contains(&"FallbackFontTextMeshPro=UserData\\fonts/thai_font"));
}

#[test]
fn fallback_font_command() {
    let u = set_fallback_font(Some("[Behaviour]\n"), "ar").ok().unwrap();
    assert_eq!(u.message, "Fuente configurada a 'UserData\\fonts/arabic_font'");
    assert_eq!(
        u.ini,
        "[Behaviour]\nOverrideFontTextMeshPro=UserData\\fonts/arabic_font\nFallbackFontTextMeshPro=UserData\\fonts/arabic_font\n"
    );
    let e = set_fallback_font(None, "ar").err().unwrap();
    assert_eq!(e, "AutoTranslatorConfig.ini no encontrado");
}

#[test]
fn initialize_fonts_command_matches_fallback() {
    let a = set_fallback_font(Some("[Behaviour]\nX=1"), "ka").ok().unwrap();
    let b = initialize_fonts(Some("[Behaviour]\nX=1"), "ka").ok().unwrap();
    assert_eq!(a.ini, b.ini);
    assert_eq!(b.message, "Fuentes configuradas a 'UserData\\fonts/georgian_font'");
    assert!(initialize_fonts(None, "ka").is_err());
}

#[test]
fn stray_carriage_return_can_move_a_section_boundary() {
    // "[Other]\r" (from "\r\r\n") is no header when read, so Language=en
    // belongs to [General]; written back as "[Other]\r\n" it becomes one.
    let ini = "[General]\nX=1\n[Other]\r\r\nLanguage=en\n";
    assert_eq!(language_in(ini), "en");
    let out = update_auto_translator_ini(ini, "fr");
    assert_eq!(out, "[General]\nX=1\n[Other]\r\nLanguage=fr\n");
    assert_eq!(language_in(&out), "");
}

#[test]
fn stray_carriage_return_in_behaviour() {
    let ini = "[Behaviour]\n[X]\r\r\nOverrideFontTextMeshPro=a\n";
    let out = update_ini_font_lines(ini, "F");
    assert_eq!(out, "[Behaviour]\n[X]\r\nOverrideFontTextMeshPro=F\nFallbackFontTextMeshPro=F\n");
}

#[test]
fn console_message() {
    assert_eq!(set_console_enabled(None, false).message, "Configuración de consola actualizada.");
}

#[test]
fn fonts_left_to_install() {
    assert_eq!(fonts_to_install(&vec![true, false, true, false, true]), vec!["arabic_font", "georgian_font"]);
    assert_eq!(fonts_to_install(&vec![true; 5]), Vec::<String>::new());
    assert_eq!(fonts_to_install(&vec![false; 5]), bundled_fonts());
}

#[test]
fn last_font_wins_and_rewrite_is_idempotent() {
    let inputs = [
        "[General]\nLanguage=th\n[Behaviour]\nA=1\n[Other]\nB=2\n",
        "[Behaviour]\nFallbackFontTextMeshPro=x\n",
        "[Behaviour]\r\n OverrideFontTextMeshPro=x\r\n[TextFrameworks]\r\n",
        "[General]\nX=1",
        "",
    ];
    for ini in inputs {
        let once = update_ini_font_lines(ini, "UserData\\fonts/thai_font");
        let twice = update_ini_font_lines(&once, "UserData\\fonts/thai_font");
        assert_eq!(twice, once);
        let other = update_ini_font_lines(&once, "UserData\\fonts/arabic_font");
        assert_eq!(other, update_ini_font_lines(ini, "UserData\\fonts/arabic_font"));
    }
}
