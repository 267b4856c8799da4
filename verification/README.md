# kks_launcher

The verified core of a launcher for Koikatsu Sunshine: the files it reads
and rewrites, with contracts proved by Verus.

- `src/text.rs`, `src/lines.rs`: characters, trimming, and texts as lines
  (`str::lines`, lines written back with newlines or joined by them).
- `src/ini.rs`: the translator's language in `AutoTranslatorConfig.ini`.
- `src/fonts.rs`: the font bundle per language and the `[Behaviour]` font keys.
- `src/console.rs`: the BepInEx console switch in `BepInEx.cfg`.
- `src/utf16.rs`, `src/setup.rs`: the game's UTF-16 `setup.xml`.
- `src/plugins.rs`: plugins switched by renaming `.dll` / `.dl_`.
- `src/appearance.rs`: the launcher's settings and images as `data:` URLs.
- `src/paths.rs`: the settings file and the game folder check.
- `app/lib.rs`: the Tauri commands, file and process I/O, dialogs.
